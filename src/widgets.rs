//! The interactive session's widgets: their state and how each handles a key.

use vstd::prelude::*;
use crate::command::Command;
use crate::file::opt_view;
use crate::group::{Group, GroupKey, KeyView, copy_keys, copy_opt, keys_view};
use crate::selection::Selection;

verus! {

/// A key press, as far as the session tells keys apart.
#[derive(Clone, Copy, Debug, PartialEq, Eq, Structural)]
pub enum Key {
    Up,
    Down,
    Left,
    Right,
    Enter,
    Esc,
    Delete,
    Backspace,
    Char(char),
    F(u8),
    Other,
}

#[derive(Clone, Copy, Debug, PartialEq, Eq, Structural)]
pub enum MenuItem {
    Home,
    Subs,
    Audio,
}

/// The panel that has the focus.
#[derive(Clone, Copy, Debug, PartialEq, Eq, Structural)]
pub enum ActiveWidget {
    Groups,
    Details,
    Files,
}

/// What a batch of commands is for: applying edits, or probing the edited
/// files again.
#[derive(Clone, Copy, Debug, PartialEq, Eq, Structural)]
pub enum CommandType {
    AlterFiles,
    ReloadFiles,
}

/// What handling a key asks of the session.
pub enum Action {
    NavigateForward(ActiveWidget),
    NavigateBackward(ActiveWidget),
    EditString(String),
    EditStringResult(Option<String>),
    ShowMessage(String),
    LoadGroup,
    SwitchTab(MenuItem),
    RunCommands(CommandType, Vec<Command>),
    CommandsDone(CommandType, Vec<Command>),
    /// A batch of this kind had a failure and the user acknowledged it: the
    /// edit pipeline stops here.
    CommandsFailed(CommandType),
    /// Write this text to the command script file.
    SaveScript(String),
    ClosePopup,
    /// The fresh probe reports of the files that were edited.
    ReloadFiles(Vec<String>),
    Quit,
    Pass,
}

/// How prominently a panel is drawn.
#[derive(Clone, Copy, Debug, PartialEq, Eq, Structural)]
pub enum FocusState {
    Background,
    Foreground,
    Highlight,
}

#[derive(Clone, Copy, Debug, PartialEq, Eq, Structural)]
pub enum Color {
    DarkGray,
    White,
    Cyan,
}

impl FocusState {
    /// Everything is in the background while a popup is open; otherwise the
    /// active panel is highlighted.
    pub fn determine(active_widget: ActiveWidget, target_widget: ActiveWidget, popup_active: bool) -> (r: Self)
        ensures
            r == if popup_active {
                FocusState::Background
            } else if active_widget == target_widget {
                FocusState::Highlight
            } else {
                FocusState::Foreground
            },
    {
        if popup_active {
            return FocusState::Background;
        }
        if active_widget == target_widget {
            FocusState::Highlight
        } else {
            FocusState::Foreground
        }
    }

    pub fn text_color(&self) -> (r: Color)
        ensures
            r == if *self == FocusState::Background {
                Color::DarkGray
            } else {
                Color::White
            },
    {
        match self {
            FocusState::Background => Color::DarkGray,
            FocusState::Foreground => Color::White,
            FocusState::Highlight => Color::White,
        }
    }

    pub fn sel_color(&self) -> (r: Color)
        ensures
            r == if *self == FocusState::Background {
                Color::DarkGray
            } else {
                Color::Cyan
            },
    {
        match self {
            FocusState::Background => Color::DarkGray,
            FocusState::Foreground => Color::Cyan,
            FocusState::Highlight => Color::Cyan,
        }
    }

    pub fn border_color(&self) -> (r: Color)
        ensures
            r == match *self {
                FocusState::Background => Color::DarkGray,
                FocusState::Foreground => Color::White,
                FocusState::Highlight => Color::Cyan,
            },
    {
        match self {
            FocusState::Background => Color::DarkGray,
            FocusState::Foreground => Color::White,
            FocusState::Highlight => Color::Cyan,
        }
    }
}

pub open spec fn is_up(key: Key) -> bool {
    key == Key::Up || key == Key::Char('k')
}

pub open spec fn is_down(key: Key) -> bool {
    key == Key::Down || key == Key::Char('j')
}

pub open spec fn is_left(key: Key) -> bool {
    key == Key::Left || key == Key::Char('h')
}

pub open spec fn is_right(key: Key) -> bool {
    key == Key::Right || key == Key::Char('l')
}

fn key_is_up(key: Key) -> (r: bool)
    ensures
        r == is_up(key),
{
    key == Key::Up || key == Key::Char('k')
}

fn key_is_down(key: Key) -> (r: bool)
    ensures
        r == is_down(key),
{
    key == Key::Down || key == Key::Char('j')
}

fn key_is_left(key: Key) -> (r: bool)
    ensures
        r == is_left(key),
{
    key == Key::Left || key == Key::Char('h')
}

fn key_is_right(key: Key) -> (r: bool)
    ensures
        r == is_right(key),
{
    key == Key::Right || key == Key::Char('l')
}

fn text_or_empty(o: &Option<String>) -> (r: String)
    ensures
        r@ == match opt_view(*o) {
            Some(s) => s,
            None => Seq::<char>::empty(),
        },
{
    match o {
        Some(s) => s.clone(),
        None => String::new(),
    }
}

/// The list of groups.
pub struct GroupListWidget {
    pub selection: Selection,
    pub num_groups: usize,
}

impl GroupListWidget {
    pub open spec fn wf(self) -> bool {
        self.selection.wf(self.num_groups)
    }

    /// A list of `num_groups` groups with the first selected.
    pub fn new(num_groups: usize) -> (r: Self)
        ensures
            r.wf(),
            r.num_groups == num_groups,
            r.selection.selected == if num_groups != 0 {
                Some(0usize)
            } else {
                None
            },
    {
        let mut selection = Selection::none();
        if num_groups != 0 {
            selection.select(Some(0));
        }
        GroupListWidget { selection, num_groups }
    }

    pub fn widget_type() -> (r: ActiveWidget)
        ensures
            r == ActiveWidget::Groups,
    {
        ActiveWidget::Groups
    }

    /// Up and down move the selection and reload the group; right moves on
    /// to the group's details.
    pub fn process_key(&mut self, key: Key) -> (r: Action)
        requires
            old(self).wf(),
        ensures
            final(self).wf(),
            final(self).num_groups == old(self).num_groups,
            is_up(key) ==> r is LoadGroup && final(self).selection.selected == match old(self).selection.selected {
                Some(s) => Some(if s > 0 { (s - 1) as usize } else { 0usize }),
                None => None,
            },
            !is_up(key) && is_down(key) ==> r is LoadGroup && final(self).selection.selected == match old(self).selection.selected {
                Some(s) => Some(if s + 1 >= old(self).num_groups { (old(self).num_groups - 1) as usize } else { (s + 1) as usize }),
                None => None,
            },
            !is_up(key) && !is_down(key) ==> *final(self) == *old(self),
            !is_up(key) && !is_down(key) && is_right(key) ==> r == Action::NavigateForward(ActiveWidget::Groups),
            !is_up(key) && !is_down(key) && !is_right(key) ==> r is Pass,
    {
        if key_is_up(key) {
            self.selection.navigate_up(true);
            return Action::LoadGroup;
        }
        if key_is_down(key) {
            self.selection.navigate_down(self.num_groups, true);
            return Action::LoadGroup;
        }
        if key_is_right(key) {
            return Action::NavigateForward(ActiveWidget::Groups);
        }
        Action::Pass
    }
}

/// The files of the selected group.
pub struct GroupFilesListWidget {
    pub selection: Selection,
    pub file_names: Vec<String>,
}

impl GroupFilesListWidget {
    pub open spec fn wf(self) -> bool {
        self.selection.wf(self.file_names@.len() as usize)
    }

    pub fn widget_type() -> (r: ActiveWidget)
        ensures
            r == ActiveWidget::Files,
    {
        ActiveWidget::Files
    }

    pub fn length(&self) -> (r: usize)
        ensures
            r == self.file_names@.len(),
    {
        self.file_names.len()
    }

    /// The paths of the group's files, nothing selected.
    pub fn from_group(group: Option<&Group>) -> (r: Self)
        ensures
            r.wf(),
            r.selection.selected is None,
            match group {
                Some(g) => r.file_names@.len() == g.files@.len() && forall|k: int|
                    0 <= k < g.files@.len() ==> (#[trigger] r.file_names@[k])@ == g.files@[k].file_name@,
                None => r.file_names@.len() == 0,
            },
    {
        let mut file_names: Vec<String> = Vec::new();
        match group {
            Some(g) => {
                let mut k: usize = 0;
                while k < g.files.len()
                    invariant
                        k <= g.files@.len(),
                        file_names@.len() == k,
                        forall|j: int| 0 <= j < k ==> (#[trigger] file_names@[j])@ == g.files@[j].file_name@,
                    decreases g.files.len() - k,
                {
                    file_names.push(g.files[k].file_name.clone());
                    k = k + 1;
                }
            },
            None => {},
        }
        GroupFilesListWidget { selection: Selection::none(), file_names }
    }

    /// Up moves the selection, and leaves the list from its first row; down
    /// moves it; escape and left leave the list.
    pub fn process_key(&mut self, key: Key) -> (r: Action)
        requires
            old(self).wf(),
        ensures
            final(self).wf(),
            final(self).file_names == old(self).file_names,
            is_up(key) ==> final(self).selection.selected == match old(self).selection.selected {
                Some(s) => Some(if s > 0 { (s - 1) as usize } else { 0usize }),
                None => None,
            } && (r == if old(self).selection.selected == Some(0usize) {
                Action::NavigateBackward(ActiveWidget::Files)
            } else {
                Action::Pass
            }),
            !is_up(key) && is_down(key) ==> r is Pass && final(self).selection.selected == match old(self).selection.selected {
                Some(s) => Some(if s + 1 >= old(self).file_names@.len() { (old(self).file_names@.len() - 1) as usize } else { (s + 1) as usize }),
                None => None,
            },
            !is_up(key) && !is_down(key) ==> final(self).selection == old(self).selection,
            !is_up(key) && !is_down(key) && (key == Key::Esc || is_left(key)) ==> r == Action::NavigateBackward(ActiveWidget::Files),
            !is_up(key) && !is_down(key) && !(key == Key::Esc || is_left(key)) ==> r is Pass,
    {
        if key_is_up(key) {
            if let Some(moved) = self.selection.navigate_up(true) {
                if !moved {
                    return Action::NavigateBackward(ActiveWidget::Files);
                }
            }
            return Action::Pass;
        }
        if key_is_down(key) {
            self.selection.navigate_down(self.file_names.len(), true);
            return Action::Pass;
        }
        if key == Key::Esc || key_is_left(key) {
            return Action::NavigateBackward(ActiveWidget::Files);
        }
        Action::Pass
    }
}

/// The selected group's fingerprint as a table: the original, and the copy
/// the user edits (the edit buffer), plus the selected row and column.
pub struct TrackTableWidget {
    pub selection: Selection,
    pub selected_col: Option<usize>,
    pub keys_orig: Vec<GroupKey>,
    pub keys_copy: Vec<GroupKey>,
}

/// The number of columns of the table.
pub const COLUMNS: usize = 5;

/// The slot tuple with one attribute changed.
pub open spec fn toggled(k: KeyView, col: usize) -> KeyView {
    if col == 2 {
        KeyView { default: !k.default, ..k }
    } else if col == 3 {
        KeyView { forced: !k.forced, ..k }
    } else if col == 4 {
        KeyView { enabled: !k.enabled, ..k }
    } else {
        k
    }
}

pub open spec fn cleared(k: KeyView, col: usize) -> KeyView {
    if col == 0 {
        KeyView { language: None, ..k }
    } else if col == 1 {
        KeyView { name: None, ..k }
    } else {
        k
    }
}

impl TrackTableWidget {
    /// The edit buffer has the original's shape; a column is selected only
    /// together with a row.
    pub open spec fn wf(self) -> bool {
        &&& self.selection.wf(self.keys_orig@.len() as usize)
        &&& self.keys_copy@.len() == self.keys_orig@.len()
        &&& self.selected_col matches Some(c) ==> c < COLUMNS && self.selection.selected is Some
    }

    pub fn widget_type() -> (r: ActiveWidget)
        ensures
            r == ActiveWidget::Details,
    {
        ActiveWidget::Details
    }

    pub fn length(&self) -> (r: usize)
        ensures
            r == self.keys_orig@.len(),
    {
        self.keys_orig.len()
    }

    /// Rows can be moved between only while no cell is selected.
    pub fn selectable(&self) -> (r: bool)
        ensures
            r == (self.selected_col is None),
    {
        self.selected_col.is_none()
    }

    /// Selects the first row, if there is one.
    pub fn try_enter(&mut self) -> (r: bool)
        requires
            old(self).wf(),
        ensures
            final(self).wf(),
            r == (old(self).keys_orig@.len() != 0),
            final(self).keys_orig == old(self).keys_orig,
            final(self).keys_copy == old(self).keys_copy,
            final(self).selected_col == old(self).selected_col,
            r ==> final(self).selection.selected == Some(0usize),
            !r ==> final(self).selection == old(self).selection,
    {
        let n = self.keys_orig.len();
        self.selection.try_enter(n)
    }

    /// Drops the row and cell selection.
    pub fn leave(&mut self)
        requires
            old(self).wf(),
        ensures
            final(self).wf(),
            final(self).selected_col is None,
            final(self).selection.selected is None,
            final(self).keys_orig == old(self).keys_orig,
            final(self).keys_copy == old(self).keys_copy,
    {
        self.selected_col = None;
        self.selection.leave();
    }

    /// A table for the group's fingerprint, with an untouched edit buffer.
    pub fn from_group(group: Option<&Group>) -> (r: Self)
        ensures
            r.wf(),
            r.selection.selected is None,
            r.selected_col is None,
            keys_view(r.keys_copy@) == keys_view(r.keys_orig@),
            match group {
                Some(g) => keys_view(r.keys_orig@) == keys_view(g.key@),
                None => r.keys_orig@.len() == 0,
            },
    {
        let keys_orig = match group {
            Some(g) => copy_keys(&g.key),
            None => Vec::new(),
        };
        let keys_copy = copy_keys(&keys_orig);
        assert(keys_view(keys_copy@).len() == keys_copy@.len());
        assert(keys_view(keys_orig@).len() == keys_orig@.len());
        TrackTableWidget { selection: Selection::none(), selected_col: None, keys_orig, keys_copy }
    }

    /// The edit buffer.
    pub fn get_keys_copy(&self) -> (r: &[GroupKey])
        ensures
            r@ == self.keys_copy@,
    {
        self.keys_copy.as_slice()
    }

    /// Handles a key: up and down move between rows (down past the last row
    /// moves on to the files), left and right between cells, enter edits the
    /// selected cell (a text cell asks for a new text, a flag is toggled),
    /// delete unsets a text cell, escape or left from the row leaves it.
    pub fn process_key(&mut self, key: Key) -> (r: Action)
        requires
            old(self).wf(),
        ensures
            final(self).wf(),
            final(self).keys_orig == old(self).keys_orig,
            final(self).keys_copy@.len() == old(self).keys_copy@.len(),
            forall|j: int|
                0 <= j < old(self).keys_copy@.len() && old(self).selection.selected != Some(j as usize)
                    ==> (#[trigger] final(self).keys_copy@[j])@ == old(self).keys_copy@[j]@,
            old(self).selection.selected is Some ==> final(self).selection.selected is Some,
            old(self).selection.selected is None ==> *final(self) == *old(self) && r == if is_left(key)
                || key == Key::Esc {
                Action::NavigateBackward(ActiveWidget::Details)
            } else {
                Action::Pass
            },
            old(self).selection.selected is Some ==> ({
                let row = old(self).selection.selected->0;
                let len = old(self).keys_orig@.len();
                let col = old(self).selected_col;
                let k = old(self).keys_copy@[row as int]@;
                let same_keys = final(self).keys_copy == old(self).keys_copy;
                if is_up(key) {
                    &&& same_keys
                    &&& final(self).selected_col == col
                    &&& r is Pass
                    &&& final(self).selection.selected == if col is None {
                        Some(if row > 0 { (row - 1) as usize } else { 0usize })
                    } else {
                        Some(row)
                    }
                } else if is_down(key) {
                    &&& same_keys
                    &&& final(self).selected_col == col
                    &&& final(self).selection.selected == if col is None {
                        Some(if row + 1 >= len { (len - 1) as usize } else { (row + 1) as usize })
                    } else {
                        Some(row)
                    }
                    &&& r == if col is None && row + 1 >= len {
                        Action::NavigateForward(ActiveWidget::Details)
                    } else {
                        Action::Pass
                    }
                } else if is_right(key) {
                    &&& same_keys
                    &&& final(self).selection == old(self).selection
                    &&& r is Pass
                    &&& final(self).selected_col == match col {
                        Some(c) => Some(if c < 4 { (c + 1) as usize } else { c }),
                        None => Some(0usize),
                    }
                } else if is_left(key) || key == Key::Esc {
                    &&& same_keys
                    &&& final(self).selection == old(self).selection
                    &&& match col {
                        Some(c) => r is Pass && final(self).selected_col == if c > 0 && is_left(key) {
                            Some((c - 1) as usize)
                        } else {
                            None
                        },
                        None => r == Action::NavigateBackward(ActiveWidget::Details)
                            && final(self).selected_col is None,
                    }
                } else if key == Key::Enter {
                    &&& final(self).selection == old(self).selection
                    &&& match col {
                        None => same_keys && r is Pass && final(self).selected_col == Some(0usize),
                        Some(c) => final(self).selected_col == col && if c == 0 {
                            same_keys && (r matches Action::EditString(t) && t@ == match k.language {
                                Some(l) => l,
                                None => Seq::empty(),
                            })
                        } else if c == 1 {
                            same_keys && (r matches Action::EditString(t) && t@ == match k.name {
                                Some(n) => n,
                                None => Seq::empty(),
                            })
                        } else {
                            r is Pass && keys_view(final(self).keys_copy@) == keys_view(
                                old(self).keys_copy@,
                            ).update(row as int, toggled(k, c))
                        },
                    }
                } else if key == Key::Delete {
                    &&& final(self).selection == old(self).selection
                    &&& final(self).selected_col == col
                    &&& r is Pass
                    &&& match col {
                        None => same_keys,
                        Some(c) => keys_view(final(self).keys_copy@) == keys_view(
                            old(self).keys_copy@,
                        ).update(row as int, cleared(k, c)),
                    }
                } else {
                    &&& same_keys
                    &&& final(self).selection == old(self).selection
                    &&& final(self).selected_col == col
                    &&& r is Pass
                }
            }),
    {
        if self.selection.selected().is_none() {
            if key_is_left(key) || key == Key::Esc {
                return Action::NavigateBackward(ActiveWidget::Details);
            }
            return Action::Pass;
        }
        let len = self.keys_orig.len();
        let ghost row = self.selection.selected->0;
        if key_is_up(key) {
            let selectable = self.selectable();
            self.selection.navigate_up(selectable);
            return Action::Pass;
        }
        if key_is_down(key) {
            let selectable = self.selectable();
            if let Some(moved) = self.selection.navigate_down(len, selectable) {
                if !moved {
                    return Action::NavigateForward(ActiveWidget::Details);
                }
            }
            return Action::Pass;
        }
        if key_is_right(key) {
            match self.selected_col {
                Some(c) => {
                    if c < 4 {
                        self.selected_col = Some(c + 1);
                    }
                },
                None => {
                    self.selected_col = Some(0);
                },
            }
            return Action::Pass;
        }
        if key_is_left(key) || key == Key::Esc {
            match self.selected_col {
                Some(c) => {
                    if c > 0 && key_is_left(key) {
                        self.selected_col = Some(c - 1);
                    } else {
                        self.selected_col = None;
                    }
                    return Action::Pass;
                },
                None => {
                    return Action::NavigateBackward(ActiveWidget::Details);
                },
            }
        }
        if key == Key::Enter {
            match self.selected_col {
                Some(c) => {
                    let sel_row = self.selection.selected().unwrap();
                    let gkey = &self.keys_copy[sel_row];
                    if c == 0 {
                        return Action::EditString(text_or_empty(&gkey.language));
                    } else if c == 1 {
                        return Action::EditString(text_or_empty(&gkey.name));
                    } else {
                        let key = GroupKey {
                            language: copy_opt(&gkey.language),
                            name: copy_opt(&gkey.name),
                            default: if c == 2 { !gkey.default } else { gkey.default },
                            forced: if c == 3 { !gkey.forced } else { gkey.forced },
                            enabled: if c == 4 { !gkey.enabled } else { gkey.enabled },
                        };
                        proof {
                            assert(key@ == toggled(self.keys_copy@[sel_row as int]@, c));
                        }
                        self.replace_key(sel_row, key);
                        assert(keys_view(self.keys_copy@) =~= keys_view(old(self).keys_copy@).update(
                            sel_row as int,
                            key@,
                        ));
                        return Action::Pass;
                    }
                },
                None => {
                    self.selected_col = Some(0);
                    return Action::Pass;
                },
            }
        }
        if key == Key::Delete {
            if let Some(c) = self.selected_col {
                let sel_row = self.selection.selected().unwrap();
                let gkey = &self.keys_copy[sel_row];
                let key = GroupKey {
                    language: if c == 0 { None } else { copy_opt(&gkey.language) },
                    name: if c == 1 { None } else { copy_opt(&gkey.name) },
                    default: gkey.default,
                    forced: gkey.forced,
                    enabled: gkey.enabled,
                };
                proof {
                    assert(key@ == cleared(self.keys_copy@[sel_row as int]@, c));
                }
                self.replace_key(sel_row, key);
                assert(keys_view(self.keys_copy@) =~= keys_view(old(self).keys_copy@).update(
                    sel_row as int,
                    key@,
                ));
            }
            return Action::Pass;
        }
        Action::Pass
    }

    fn replace_key(&mut self, row: usize, key: GroupKey)
        requires
            row < old(self).keys_copy@.len(),
        ensures
            final(self).keys_copy@ == old(self).keys_copy@.update(row as int, key),
            final(self).keys_orig == old(self).keys_orig,
            final(self).selection == old(self).selection,
            final(self).selected_col == old(self).selected_col,
    {
        let ghost before = self.keys_copy@;
        self.keys_copy.remove(row);
        self.keys_copy.insert(row, key);
        assert(self.keys_copy@ =~= before.update(row as int, key));
    }

    /// Replaces the text of the selected cell: the language in the first
    /// column, the name otherwise.
    pub fn set_text(&mut self, text: String)
        requires
            old(self).wf(),
            old(self).selection.selected is Some,
        ensures
            final(self).wf(),
            final(self).keys_orig == old(self).keys_orig,
            final(self).selection == old(self).selection,
            final(self).selected_col == old(self).selected_col,
            ({
                let row = old(self).selection.selected->0 as int;
                let k = old(self).keys_copy@[row]@;
                keys_view(final(self).keys_copy@) == keys_view(old(self).keys_copy@).update(
                    row,
                    if old(self).selected_col == Some(0usize) {
                        KeyView { language: Some(text@), ..k }
                    } else {
                        KeyView { name: Some(text@), ..k }
                    },
                )
            }),
    {
        let row = self.selection.selected().unwrap();
        let old_key = &self.keys_copy[row];
        let key = if self.selected_col == Some(0usize) {
            GroupKey {
                language: Some(text),
                name: copy_opt(&old_key.name),
                default: old_key.default,
                forced: old_key.forced,
                enabled: old_key.enabled,
            }
        } else {
            GroupKey {
                language: copy_opt(&old_key.language),
                name: Some(text),
                default: old_key.default,
                forced: old_key.forced,
                enabled: old_key.enabled,
            }
        };
        self.replace_key(row, key);
        assert(keys_view(self.keys_copy@) =~= keys_view(old(self).keys_copy@).update(
            row as int,
            key@,
        ));
    }
}

} // verus!

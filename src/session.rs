//! One tab of the interactive session: the group list, the selected group's
//! table and files, the popup stack, and how a key moves them.

use vstd::prelude::*;
use crate::command::{Command, command_lines, script, strs_view, lemma_strs_view_push};
use crate::file::TrackType;
use crate::group::{Group, edit_command_args, keys_view};
use crate::popup::{
    CommandPopup, CommandRunnerPopup, EditPopup, MessagePopup, edited_text, scrolled,
};
use crate::text::owned;
use crate::widgets::{
    Action, ActiveWidget, CommandType, GroupFilesListWidget, GroupListWidget, Key, MenuItem,
    TrackTableWidget,
};

verus! {

/// The program that probes a file's tracks.
pub const PROBE_TOOL: &'static str = "mkvmerge";

/// A modal popup.
pub enum Popup {
    Command(CommandPopup),
    Edit(EditPopup),
    Message(MessagePopup),
    Runner(CommandRunnerPopup),
}

/// What a runner popup answers to a key, and how its results change.
pub open spec fn runner_answer(before: CommandRunnerPopup, after: CommandRunnerPopup, key: Key, r: Action) -> bool {
    if (key == Key::Esc || key == Key::Enter) && before.results is Some {
        &&& after.results is None
        &&& if before.error {
            r == Action::CommandsFailed(before.command_type)
        } else {
            r matches Action::CommandsDone(t, c) && t == before.command_type && Some(c) == before.results
        }
    } else {
        r is Pass && after.results == before.results
    }
}

/// What a key does to a popup, and what the popup answers.
pub open spec fn popup_key_step(before: Popup, after: Popup, key: Key, r: Action) -> bool {
    match before {
        Popup::Message(_) => after == before && if key == Key::Esc || key == Key::Enter {
            r is ClosePopup
        } else {
            r is Pass
        },
        Popup::Edit(e) => (after matches Popup::Edit(f) && f.input@ == edited_text(e.input@, key))
            && if key == Key::Esc {
            r == Action::EditStringResult(None)
        } else if key == Key::Enter {
            r matches Action::EditStringResult(Some(t)) && t@ == e.input@
        } else {
            r is Pass
        },
        Popup::Command(c) => (after matches Popup::Command(d) && d.commands == c.commands
            && d.command_strings == c.command_strings && d.scroll == scrolled(c.scroll, key))
            && if key == Key::Esc {
            r is ClosePopup
        } else if key == Key::F(2) {
            r matches Action::RunCommands(t, _) && t == CommandType::AlterFiles
        } else if key == Key::Enter {
            r matches Action::SaveScript(t) && t@ == script(strs_view(c.command_strings@))
        } else {
            r is Pass
        },
        Popup::Runner(p) => after matches Popup::Runner(q) && q.error == p.error && q.command_type
            == p.command_type && q.auto_close == p.auto_close && q.pending == p.pending
            && q.command_handler == p.command_handler && runner_answer(p, q, key, r),
    }
}

/// The popups, the last one on top; only the top one takes keys.
pub struct PopupRenderer {
    pub popup_stack: Vec<Popup>,
}

impl PopupRenderer {
    pub fn active(&self) -> (r: bool)
        ensures
            r == (self.popup_stack@.len() > 0),
    {
        self.popup_stack.len() > 0
    }

    /// Hands the key to the top popup; the popups below it are untouched.
    pub fn process_key(&mut self, key: Key) -> (r: Action)
        ensures
            final(self).popup_stack@.len() == old(self).popup_stack@.len(),
            old(self).popup_stack@.len() == 0 ==> r is Pass,
            old(self).popup_stack@.len() > 0 ==> {
                let n = old(self).popup_stack@.len() - 1;
                &&& final(self).popup_stack@.take(n) == old(self).popup_stack@.take(n)
                &&& popup_key_step(old(self).popup_stack@[n], final(self).popup_stack@[n], key, r)
            },
    {
        match self.popup_stack.pop() {
            Some(popup) => {
                let mut popup = popup;
                let action = match &mut popup {
                    Popup::Command(p) => p.process_key(key),
                    Popup::Edit(p) => p.process_key(key),
                    Popup::Message(p) => p.process_key(key),
                    Popup::Runner(p) => p.process_key(key),
                };
                self.popup_stack.push(popup);
                assert(self.popup_stack@.take(self.popup_stack@.len() - 1) =~= old(self).popup_stack@.take(
                    self.popup_stack@.len() - 1,
                ));
                action
            },
            None => Action::Pass,
        }
    }

    /// Lets a runner on top that finished without failure hand its
    /// commands on, once; otherwise nothing changes.
    pub fn check_auto_close(&mut self) -> (r: Action)
        ensures
            final(self).popup_stack@.len() == old(self).popup_stack@.len(),
            old(self).popup_stack@.len() > 0 && (old(self).popup_stack@.last() matches Popup::Runner(p)
                && p.auto_close && p.results is Some) ==> {
                let n = old(self).popup_stack@.len() - 1;
                let p = old(self).popup_stack@[n]->Runner_0;
                &&& final(self).popup_stack@.take(n) == old(self).popup_stack@.take(n)
                &&& r matches Action::CommandsDone(t, c) && t == p.command_type && Some(c) == p.results
                &&& final(self).popup_stack@[n] matches Popup::Runner(q) && q.results is None
                    && !q.auto_close && q.error == p.error && q.command_type == p.command_type
                    && q.pending == p.pending
            },
            !(old(self).popup_stack@.len() > 0 && (old(self).popup_stack@.last() matches Popup::Runner(p)
                && p.auto_close && p.results is Some)) ==> r is Pass && final(self).popup_stack@
                == old(self).popup_stack@,
    {
        match self.popup_stack.pop() {
            Some(popup) => {
                let mut popup = popup;
                let action = match &mut popup {
                    Popup::Runner(p) => p.check_auto_close(),
                    _ => Action::Pass,
                };
                self.popup_stack.push(popup);
                assert(self.popup_stack@.take(self.popup_stack@.len() - 1) =~= old(self).popup_stack@.take(
                    self.popup_stack@.len() - 1,
                ));
                proof {
                    if action is Pass {
                        assert(self.popup_stack@ =~= old(self).popup_stack@);
                    }
                }
                action
            },
            None => Action::Pass,
        }
    }
}

/// The stdout of each command that ran successfully: the fresh probe reports.
pub open spec fn successful_reports(commands: Seq<Command>) -> Seq<Seq<char>>
    decreases commands.len(),
{
    if commands.len() == 0 {
        Seq::empty()
    } else {
        let rest = successful_reports(commands.drop_last());
        match commands.last().output {
            Some(o) => if o.success_spec() {
                rest.push(o.stdout@)
            } else {
                rest
            },
            None => rest,
        }
    }
}

fn reports_of(commands: &Vec<Command>) -> (r: Vec<String>)
    ensures
        strs_view(r@) == successful_reports(commands@),
{
    let mut r: Vec<String> = Vec::new();
    let mut k: usize = 0;
    while k < commands.len()
        invariant
            k <= commands@.len(),
            strs_view(r@) == successful_reports(commands@.take(k as int)),
        decreases commands.len() - k,
    {
        assert(commands@.take(k + 1).drop_last() == commands@.take(k as int));
        if let Some(output) = &commands[k].output {
            if output.status.success() {
                let report = output.stdout.clone();
                proof {
                    lemma_strs_view_push(r@, report);
                }
                r.push(report);
            }
        }
        k = k + 1;
    }
    assert(commands@.take(k as int) == commands@);
    r
}

/// The probe invocation for one file.
pub fn probe_command(path: &String) -> (r: Command)
    ensures
        r.executable@ == PROBE_TOOL@,
        r.args_view() == seq!["--identification-format"@, "json"@, "--identify"@, path@],
        r.output is None,
{
    let mut command = Command::new(PROBE_TOOL);
    let mut arguments: Vec<String> = Vec::new();
    arguments.push(owned("--identification-format"));
    arguments.push(owned("json"));
    arguments.push(owned("--identify"));
    arguments.push(path.clone());
    command.arguments = arguments;
    assert(command.args_view() =~= seq!["--identification-format"@, "json"@, "--identify"@, path@]);
    command
}

/// Every file of the group has as many tracks of `t` as its key has slots.
pub open spec fn group_fits(g: Group, t: TrackType) -> bool {
    forall|k: int|
        0 <= k < g.files@.len() ==> (#[trigger] g.files@[k]).tracks_spec(t).len() == g.key@.len()
}

/// Groups made by grouping fit their track type.
pub proof fn lemma_grouping_fits(files: Seq<crate::file::File>, t: TrackType, groups: Seq<Group>)
    requires
        crate::group::is_grouping(files, t, groups),
    ensures
        forall|g: int| 0 <= g < groups.len() ==> group_fits(#[trigger] groups[g], t),
{
    assert forall|g: int| 0 <= g < groups.len() implies group_fits(#[trigger] groups[g], t) by {
        assert(groups[g].wf(files, t));
        assert forall|k: int| 0 <= k < groups[g].files@.len() implies (#[trigger] groups[g].files@[k]).tracks_spec(t).len() == groups[g].key@.len() by {
            let p = groups[g].positions@[k];
            assert(*groups[g].files@[k] == files[p as int]);
            assert(crate::group::fingerprint_spec(files[p as int], t) == keys_view(groups[g].key@));
            assert(crate::group::fingerprint_spec(files[p as int], t).len() == files[p as int].tracks_spec(t).len());
            assert(keys_view(groups[g].key@).len() == groups[g].key@.len());
        }
    }
}

/// Whether every group fits `t`.
pub fn all_groups_fit(groups: &[Group], t: TrackType) -> (r: bool)
    ensures
        r == forall|g: int| 0 <= g < groups@.len() ==> group_fits(#[trigger] groups@[g], t),
{
    let mut g: usize = 0;
    while g < groups.len()
        invariant
            g <= groups@.len(),
            forall|h: int| 0 <= h < g ==> group_fits(#[trigger] groups@[h], t),
        decreases groups.len() - g,
    {
        let group = &groups[g];
        let n = group.key.len();
        let mut k: usize = 0;
        while k < group.files.len()
            invariant
                k <= group.files@.len(),
                g < groups@.len(),
                *group == groups@[g as int],
                n == group.key@.len(),
                forall|j: int| 0 <= j < k ==> (#[trigger] group.files@[j]).tracks_spec(t).len() == n,
            decreases group.files.len() - k,
        {
            let tracks = group.files[k].tracks(t);
            assert(crate::file::views(tracks@).len() == tracks@.len());
            if tracks.len() != n {
                assert(!group_fits(groups@[g as int], t));
                return false;
            }
            k = k + 1;
        }
        g = g + 1;
    }
    true
}

/// The state of one tab.
pub struct GroupTabData<'a> {
    pub group_list: GroupListWidget,
    pub track_table: TrackTableWidget,
    pub group_files_list: GroupFilesListWidget,
    pub groups: &'a [Group<'a>],
    pub active_widget: ActiveWidget,
    pub popup_data: PopupRenderer,
    pub track_type: TrackType,
}

impl<'a> GroupTabData<'a> {
    pub open spec fn popup_stack_len(self) -> int {
        self.popup_data.popup_stack@.len() as int
    }

    pub open spec fn top(self) -> Popup {
        self.popup_data.popup_stack@.last()
    }

    pub open spec fn selected_key(self) -> Seq<crate::group::KeyView> {
        match self.group_list.selection.selected {
            Some(g) => if g < self.groups@.len() {
                keys_view(self.groups@[g as int].key@)
            } else {
                Seq::empty()
            },
            None => Seq::empty(),
        }
    }

    /// The widgets are consistent, the table shows the selected group, and
    /// the focused panel has a selected row where it needs one.
    pub open spec fn wf(self) -> bool {
        &&& self.group_list.wf()
        &&& self.group_list.num_groups == self.groups@.len()
        &&& forall|g: int| 0 <= g < self.groups@.len() ==> group_fits(#[trigger] self.groups@[g], self.track_type)
        &&& self.track_table.wf()
        &&& keys_view(self.track_table.keys_orig@) == self.selected_key()
        &&& self.group_files_list.wf()
        &&& self.active_widget == ActiveWidget::Details ==> self.track_table.selection.selected is Some
    }

    /// A tab over `groups` with the first group selected and loaded.
    pub fn new(groups: &'a [Group<'a>], track_type: TrackType) -> (r: Self)
        requires
            forall|g: int| 0 <= g < groups@.len() ==> group_fits(#[trigger] groups@[g], track_type),
        ensures
            r.wf(),
            r.groups == groups,
            r.active_widget == ActiveWidget::Groups,
            r.popup_data.popup_stack@.len() == 0,
    {
        let mut tab = GroupTabData {
            group_list: GroupListWidget::new(groups.len()),
            track_table: TrackTableWidget::from_group(None),
            group_files_list: GroupFilesListWidget::from_group(None),
            groups,
            active_widget: ActiveWidget::Groups,
            popup_data: PopupRenderer { popup_stack: Vec::new() },
            track_type,
        };
        tab.load_selected_group();
        tab
    }

    pub fn selected_group(&self) -> (r: Option<&'a Group<'a>>)
        ensures
            match self.group_list.selection.selected {
                Some(g) => if g < self.groups@.len() {
                    r == Some(&self.groups@[g as int])
                } else {
                    r is None
                },
                None => r is None,
            },
    {
        match self.group_list.selection.selected() {
            Some(selected) => {
                if selected < self.groups.len() {
                    Some(&self.groups[selected])
                } else {
                    None
                }
            },
            None => None,
        }
    }

    /// Loads the selected group into the table and the file list, dropping
    /// any edit of the previous one.
    pub fn load_selected_group(&mut self)
        requires
            old(self).group_list.wf(),
            old(self).group_list.num_groups == old(self).groups@.len(),
            forall|g: int| 0 <= g < old(self).groups@.len() ==> group_fits(#[trigger] old(self).groups@[g], old(self).track_type),
            old(self).active_widget == ActiveWidget::Groups,
        ensures
            final(self).wf(),
            final(self).groups == old(self).groups,
            final(self).group_list == old(self).group_list,
            final(self).active_widget == old(self).active_widget,
            final(self).track_type == old(self).track_type,
            final(self).popup_data.popup_stack == old(self).popup_data.popup_stack,
            keys_view(final(self).track_table.keys_copy@) == final(self).selected_key(),
    {
        let group = self.selected_group();
        self.track_table = TrackTableWidget::from_group(group);
        self.group_files_list = GroupFilesListWidget::from_group(group);
        assert(keys_view(self.track_table.keys_orig@) == self.selected_key());
        assert(self.track_table.wf());
        assert(self.group_files_list.wf());
    }

    /// Compiles the edit buffer against the selected group and opens the
    /// preview of the resulting commands.
    pub fn generate_commands(&mut self)
        requires
            old(self).wf(),
        ensures
            final(self).wf(),
            final(self).groups == old(self).groups,
            final(self).track_type == old(self).track_type,
            final(self).active_widget == old(self).active_widget,
            final(self).popup_data.popup_stack@.len() == old(self).popup_data.popup_stack@.len()
                + if old(self).group_list.selection.selected is Some { 1int } else { 0 },
            final(self).popup_data.popup_stack@.take(old(self).popup_stack_len()) == old(self).popup_data.popup_stack@,
            old(self).group_list.selection.selected is Some ==> (final(self).top() matches Popup::Command(p)
                && previews_edit(*old(self), p)),
    {
        if let Some(group) = self.selected_group() {
            let keys = self.track_table.get_keys_copy();
            assert(keys_view(keys@).len() == keys@.len());
            assert(keys_view(group.key@).len() == group.key@.len());
            let commands = group.apply_changes(keys, self.track_type);
            let popup = CommandPopup::new(commands);
            assert(previews_edit(*old(self), popup));
            self.popup_data.popup_stack.push(Popup::Command(popup));
            assert(self.popup_data.popup_stack@.take(old(self).popup_stack_len()) =~= old(self).popup_data.popup_stack@);
        } else {
            assert(self.popup_data.popup_stack@.take(old(self).popup_stack_len()) =~= old(self).popup_data.popup_stack@);
        }
    }
}

/// `p` previews the edit of the tab's buffer against its selected group:
/// one edit-tool command per file of the group, and their shell lines.
pub open spec fn previews_edit(tab: GroupTabData, p: CommandPopup) -> bool {
    match tab.group_list.selection.selected {
        Some(g) if g < tab.groups@.len() => {
            let group = tab.groups@[g as int];
            &&& p.commands@.len() == group.files@.len()
            &&& forall|k: int|
                0 <= k < group.files@.len() ==> (#[trigger] p.commands@[k]).executable@
                    == crate::track_operations::EDIT_TOOL@ && p.commands@[k].args_view()
                    == edit_command_args(
                    keys_view(group.key@),
                    keys_view(tab.track_table.keys_copy@),
                    *group.files@[k],
                    tab.track_type,
                )
            &&& strs_view(p.command_strings@) == command_lines(p.commands@)
            &&& p.scroll == 0
        },
        _ => false,
    }
}

/// `commands` probe each file of the tab's selected group, in order.
pub open spec fn probes_selected_files(tab: GroupTabData, commands: Seq<Command>) -> bool {
    match tab.group_list.selection.selected {
        Some(g) if g < tab.groups@.len() => {
            let files = tab.groups@[g as int].files@;
            &&& commands.len() == files.len()
            &&& forall|k: int|
                0 <= k < files.len() ==> (#[trigger] commands[k]).executable@ == PROBE_TOOL@
                    && commands[k].args_view() == seq![
                    "--identification-format"@,
                    "json"@,
                    "--identify"@,
                    files[k].file_name@,
                ]
        },
        _ => commands.len() == 0,
    }
}

/// `key` acknowledges a finished batch of `kind` on top of the tab's popups,
/// one that had a failure or not.
pub open spec fn acknowledges(tab: GroupTabData, key: Key, kind: CommandType, failed: bool) -> bool {
    &&& tab.popup_stack_len() > 0
    &&& key == Key::Esc || key == Key::Enter
    &&& tab.top() matches Popup::Runner(p) && p.results is Some && p.error == failed
        && p.command_type == kind
}

pub open spec fn is_shortcut(key: Key) -> bool {
    key == Key::Char('i') || key == Key::Char('s') || key == Key::Char('a') || key == Key::Char('q')
}

impl<'a> GroupTabData<'a> {
    /// Opens a message popup.
    pub fn show_message(&mut self, message: String)
        requires
            old(self).wf(),
        ensures
            final(self).wf(),
            final(self).groups == old(self).groups,
            final(self).popup_data.popup_stack@.len() == old(self).popup_data.popup_stack@.len() + 1,
    {
        self.popup_data.popup_stack.push(Popup::Message(MessagePopup { message }));
    }

    fn pop_popup(&mut self)
        requires
            old(self).wf(),
        ensures
            final(self).wf(),
            final(self).groups == old(self).groups,
            final(self).track_type == old(self).track_type,
            final(self).active_widget == old(self).active_widget,
            final(self).popup_data.popup_stack@.len() == if old(self).popup_data.popup_stack@.len() > 0 {
                old(self).popup_data.popup_stack@.len() - 1
            } else {
                0
            },
    {
        self.popup_data.popup_stack.pop();
    }

    /// Handles a key: the top popup takes it if there is one, else the
    /// focused panel; what they ask for moves the focus, opens or closes
    /// popups, or is handed to the caller (switching tabs, quitting, saving
    /// the script, reloading the edited files).
    pub fn process_key(&mut self, key: Key) -> (r: Action)
        requires
            old(self).wf(),
        ensures
            final(self).wf(),
            final(self).groups == old(self).groups,
            final(self).track_type == old(self).track_type,
            old(self).popup_data.popup_stack@.len() == 0 && key == Key::Char('q') ==> r is Quit,
            old(self).popup_data.popup_stack@.len() == 0 && key == Key::Char('i') ==> r == Action::SwitchTab(MenuItem::Home),
            old(self).popup_data.popup_stack@.len() == 0 && key == Key::Char('s') ==> r == Action::SwitchTab(MenuItem::Subs),
            old(self).popup_data.popup_stack@.len() == 0 && key == Key::Char('a') ==> r == Action::SwitchTab(MenuItem::Audio),
            final(self).popup_data.popup_stack@.len() <= old(self).popup_data.popup_stack@.len() + 1,
            old(self).popup_data.popup_stack@.len() == 0 && key == Key::F(2) ==> r is Pass
                && final(self).popup_stack_len() == if old(self).group_list.selection.selected is Some {
                1int
            } else {
                0
            },
            old(self).popup_data.popup_stack@.len() == 0 && key == Key::F(2)
                && old(self).group_list.selection.selected is Some ==> (final(self).top() matches Popup::Command(p)
                && previews_edit(*old(self), p)),
            acknowledges(*old(self), key, CommandType::AlterFiles, false) ==> r is Pass
                && final(self).popup_stack_len() == old(self).popup_stack_len() + 1 && (final(self).top() matches Popup::Runner(q)
                && q.command_type == CommandType::ReloadFiles && (q.pending matches Some(c)
                && probes_selected_files(*old(self), c@))),
            acknowledges(*old(self), key, CommandType::ReloadFiles, false) ==> (r matches Action::ReloadFiles(reports)
                && (old(self).top()->Runner_0.results matches Some(c) && strs_view(reports@) == successful_reports(c@)))
                && final(self).popup_stack_len() == if old(self).popup_stack_len() > 1 {
                old(self).popup_stack_len() - 2
            } else {
                0
            },
            acknowledges(*old(self), key, CommandType::AlterFiles, true) ==> r is Pass
                && final(self).popup_stack_len() == old(self).popup_stack_len() - 1,
            acknowledges(*old(self), key, CommandType::ReloadFiles, true) ==> r is Pass
                && final(self).popup_stack_len() == if old(self).popup_stack_len() > 1 {
                old(self).popup_stack_len() - 2
            } else {
                0
            },
    {
        let popup_active = self.popup_data.active();
        let res_action = if popup_active {
            self.popup_data.process_key(key)
        } else {
            match self.active_widget {
                ActiveWidget::Groups => {
                    let action = self.group_list.process_key(key);
                    if matches!(action, Action::LoadGroup) {
                        self.load_selected_group();
                        return Action::Pass;
                    }
                    action
                },
                ActiveWidget::Details => self.track_table.process_key(key),
                ActiveWidget::Files => self.group_files_list.process_key(key),
            }
        };
        if !popup_active && matches!(res_action, Action::Pass) {
            match key {
                Key::Char('i') => return Action::SwitchTab(MenuItem::Home),
                Key::Char('s') => return Action::SwitchTab(MenuItem::Subs),
                Key::Char('a') => return Action::SwitchTab(MenuItem::Audio),
                Key::Char('q') => return Action::Quit,
                Key::F(2) => {
                    self.generate_commands();
                    return Action::Pass;
                },
                _ => {},
            }
        }
        self.dispatch(res_action)
    }

    /// Carries out what a panel or popup asked for.
    pub fn dispatch(&mut self, action: Action) -> (r: Action)
        requires
            old(self).wf(),
        ensures
            final(self).wf(),
            final(self).groups == old(self).groups,
            final(self).track_type == old(self).track_type,
            final(self).popup_data.popup_stack@.len() <= old(self).popup_data.popup_stack@.len() + 1,
            action is Quit ==> r is Quit,
            action matches Action::SwitchTab(m) ==> r == Action::SwitchTab(m),
            action is ClosePopup ==> r is Pass && final(self).popup_stack_len() == if old(self).popup_stack_len() > 0 {
                old(self).popup_stack_len() - 1
            } else {
                0
            },
            action matches Action::EditString(t) ==> r is Pass && final(self).popup_stack_len()
                == old(self).popup_stack_len() + 1 && (final(self).top() matches Popup::Edit(p) && p.input@ == t@),
            action matches Action::ShowMessage(t) ==> r is Pass && final(self).popup_stack_len()
                == old(self).popup_stack_len() + 1 && (final(self).top() matches Popup::Message(p) && p.message@ == t@),
            action matches Action::RunCommands(t, c) ==> r is Pass && final(self).popup_stack_len()
                == old(self).popup_stack_len() + 1 && (final(self).top() matches Popup::Runner(p)
                && p.command_type == t && p.pending == Some(c)),
            action matches Action::CommandsDone(CommandType::AlterFiles, _) ==> r is Pass
                && final(self).popup_stack_len() == old(self).popup_stack_len() + 1 && (final(self).top() matches Popup::Runner(p)
                && p.command_type == CommandType::ReloadFiles && (p.pending matches Some(c)
                && probes_selected_files(*old(self), c@))),
            action matches Action::CommandsDone(CommandType::ReloadFiles, c) ==> (r matches Action::ReloadFiles(reports)
                && strs_view(reports@) == successful_reports(c@)),
            action matches Action::SaveScript(t) ==> r == Action::SaveScript(t),
            action == Action::CommandsFailed(CommandType::AlterFiles) ==> r is Pass
                && final(self).popup_stack_len() == if old(self).popup_stack_len() > 0 {
                old(self).popup_stack_len() - 1
            } else {
                0
            },
            action == Action::CommandsFailed(CommandType::ReloadFiles) ==> r is Pass
                && final(self).popup_stack_len() == if old(self).popup_stack_len() > 1 {
                old(self).popup_stack_len() - 2
            } else {
                0
            },
            action matches Action::CommandsDone(CommandType::ReloadFiles, _) ==> final(self).popup_stack_len()
                == if old(self).popup_stack_len() > 1 {
                old(self).popup_stack_len() - 2
            } else {
                0
            },
            action == Action::NavigateBackward(ActiveWidget::Details) ==> r is Pass
                && final(self).active_widget == ActiveWidget::Groups,
    {
        match action {
            Action::NavigateForward(ActiveWidget::Details) => {
                if self.group_files_list.selection.try_enter(self.group_files_list.length()) {
                    self.track_table.leave();
                    self.active_widget = ActiveWidget::Files;
                }
            },
            Action::NavigateForward(ActiveWidget::Groups) => {
                if self.track_table.try_enter() {
                    self.active_widget = ActiveWidget::Details;
                } else if self.group_files_list.selection.try_enter(self.group_files_list.length()) {
                    self.active_widget = ActiveWidget::Files;
                }
            },
            Action::NavigateForward(ActiveWidget::Files) => {},
            Action::NavigateBackward(ActiveWidget::Files) => {
                if self.track_table.try_enter() {
                    self.group_files_list.selection.leave();
                    self.active_widget = ActiveWidget::Details;
                } else {
                    self.group_files_list.selection.leave();
                    self.active_widget = ActiveWidget::Groups;
                }
            },
            Action::NavigateBackward(ActiveWidget::Details) => {
                self.track_table.leave();
                self.active_widget = ActiveWidget::Groups;
            },
            Action::NavigateBackward(ActiveWidget::Groups) => {},
            Action::ClosePopup => {
                self.pop_popup();
            },
            Action::EditString(text) => {
                self.popup_data.popup_stack.push(Popup::Edit(EditPopup { input: text }));
            },
            Action::ShowMessage(text) => {
                self.popup_data.popup_stack.push(Popup::Message(MessagePopup { message: text }));
            },
            Action::EditStringResult(result) => {
                if let Some(text) = result {
                    if self.track_table.selection.selected().is_some() {
                        self.track_table.set_text(text);
                    }
                }
                self.pop_popup();
            },
            Action::LoadGroup => {
                if self.active_widget == ActiveWidget::Groups {
                    self.load_selected_group();
                }
            },
            Action::RunCommands(command_type, commands) => {
                let popup = CommandRunnerPopup::new(commands, command_type, owned("Applying changes"));
                self.popup_data.popup_stack.push(Popup::Runner(popup));
            },
            Action::CommandsDone(CommandType::AlterFiles, _) => {
                let mut commands: Vec<Command> = Vec::new();
                if let Some(group) = self.selected_group() {
                    let mut k: usize = 0;
                    while k < group.files.len()
                        invariant
                            k <= group.files@.len(),
                            commands@.len() == k,
                            forall|j: int|
                                0 <= j < k ==> (#[trigger] commands@[j]).executable@ == PROBE_TOOL@
                                    && commands@[j].args_view() == seq![
                                    "--identification-format"@,
                                    "json"@,
                                    "--identify"@,
                                    group.files@[j].file_name@,
                                ],
                        decreases group.files.len() - k,
                    {
                        commands.push(probe_command(&group.files[k].file_name));
                        k = k + 1;
                    }
                }
                assert(probes_selected_files(*old(self), commands@));
                let popup = CommandRunnerPopup::new(
                    commands,
                    CommandType::ReloadFiles,
                    owned("Reloading changed files"),
                );
                self.popup_data.popup_stack.push(Popup::Runner(popup));
            },
            Action::CommandsDone(CommandType::ReloadFiles, commands) => {
                self.pop_popup();
                self.pop_popup();
                return Action::ReloadFiles(reports_of(&commands));
            },
            Action::CommandsFailed(CommandType::AlterFiles) => {
                self.pop_popup();
            },
            Action::CommandsFailed(CommandType::ReloadFiles) => {
                self.pop_popup();
                self.pop_popup();
            },
            Action::ReloadFiles(reports) => {
                self.pop_popup();
                self.pop_popup();
                return Action::ReloadFiles(reports);
            },
            Action::SaveScript(text) => {
                return Action::SaveScript(text);
            },
            Action::SwitchTab(item) => {
                return Action::SwitchTab(item);
            },
            Action::Quit => {
                return Action::Quit;
            },
            Action::Pass => {},
        }
        Action::Pass
    }
}

} // verus!

//! Edit operations on track slots and the edit-tool arguments they compile to.

use vstd::prelude::*;
use crate::command::{Command, strs_view, lemma_strs_view_push};
use crate::file::{File, Flag, Track, TrackType, TrackView, views};
use crate::text::{decimal, decimal_string, owned, join2};

verus! {

/// The program that edits track metadata in place.
pub const EDIT_TOOL: &'static str = "mkvpropedit";

/// One change to the track in one slot.
#[derive(Debug)]
pub enum TrackOperation {
    SetForced(bool),
    SetDefault(bool),
    SetEnabled(bool),
    /// Makes the slot's track the only default one of its type.
    SetDefaultExclusive(bool),
    /// A new name, or `None` to remove the name.
    SetTitle(Option<String>),
    /// A new language, or `None` for the undetermined one.
    SetLang(Option<String>),
}

/// The operations to apply to every file of one track type, as
/// (slot, operation) pairs in the order they were added.
pub struct TrackOperations {
    pub track_type: TrackType,
    pub cmds: Vec<(usize, TrackOperation)>,
}

pub open spec fn opt_str(o: Option<&str>) -> Option<Seq<char>> {
    match o {
        Some(s) => Some(s@),
        None => None,
    }
}

/// Selects the track with probe id `id` (the tool counts from one).
pub open spec fn edit_scope(id: i64) -> Seq<Seq<char>> {
    seq!["--edit"@, "track:@"@ + decimal(id + 1)]
}

pub open spec fn flag_key(flag: Flag) -> Seq<char> {
    match flag {
        Flag::Default => "flag-default"@,
        Flag::Forced => "flag-forced"@,
        Flag::Enabled => "flag-enabled"@,
    }
}

pub open spec fn bit(value: bool) -> Seq<char> {
    if value {
        "1"@
    } else {
        "0"@
    }
}

pub open spec fn flag_args(id: i64, flag: Flag, value: bool) -> Seq<Seq<char>> {
    edit_scope(id) + seq!["--set"@, flag_key(flag) + "="@ + bit(value)]
}

pub open spec fn name_args(id: i64, name: Option<Seq<char>>) -> Seq<Seq<char>> {
    edit_scope(id) + match name {
        Some(n) => seq!["--set"@, "name=\""@ + n + "\""@],
        None => seq!["--delete"@, "name"@],
    }
}

/// An absent language is written as the undetermined token.
pub open spec fn language_args(id: i64, language: Option<Seq<char>>) -> Seq<Seq<char>> {
    edit_scope(id) + seq![
        "--set"@,
        "language="@ + match language {
            Some(l) => l,
            None => "und"@,
        },
    ]
}

/// Sets the default flag on every track, on exactly where the id is `chosen`.
pub open spec fn exclusive_args(tracks: Seq<TrackView>, chosen: i64) -> Seq<Seq<char>>
    decreases tracks.len(),
{
    if tracks.len() == 0 {
        Seq::empty()
    } else {
        exclusive_args(tracks.drop_last(), chosen) + flag_args(
            tracks.last().id,
            Flag::Default,
            tracks.last().id == chosen,
        )
    }
}

pub open spec fn op_args(slot: usize, op: TrackOperation, tracks: Seq<TrackView>) -> Seq<Seq<char>> {
    let id = tracks[slot as int].id;
    match op {
        TrackOperation::SetForced(v) => flag_args(id, Flag::Forced, v),
        TrackOperation::SetDefault(v) => flag_args(id, Flag::Default, v),
        TrackOperation::SetEnabled(v) => flag_args(id, Flag::Enabled, v),
        TrackOperation::SetDefaultExclusive(_) => exclusive_args(tracks, id),
        TrackOperation::SetTitle(n) => name_args(id, crate::file::opt_view(n)),
        TrackOperation::SetLang(l) => language_args(id, crate::file::opt_view(l)),
    }
}

/// The arguments of all operations, in order, against one file's tracks.
pub open spec fn ops_args(cmds: Seq<(usize, TrackOperation)>, tracks: Seq<TrackView>) -> Seq<
    Seq<char>,
>
    decreases cmds.len(),
{
    if cmds.len() == 0 {
        Seq::empty()
    } else {
        ops_args(cmds.drop_last(), tracks) + op_args(cmds.last().0, cmds.last().1, tracks)
    }
}

/// The edit-tool arguments for one file: the operations' arguments, then the path.
pub open spec fn file_args(cmds: Seq<(usize, TrackOperation)>, file: File, t: TrackType) -> Seq<
    Seq<char>,
> {
    ops_args(cmds, file.tracks_spec(t)).push(file.file_name@)
}

fn push_owned(arguments: &mut Vec<String>, s: String)
    ensures
        strs_view(final(arguments)@) == strs_view(old(arguments)@).push(s@),
{
    proof {
        lemma_strs_view_push(old(arguments)@, s);
    }
    arguments.push(s);
}

fn push_scope(arguments: &mut Vec<String>, track_id: i64)
    ensures
        strs_view(final(arguments)@) == strs_view(old(arguments)@) + edit_scope(track_id),
{
    push_owned(arguments, owned("--edit"));
    push_owned(arguments, join2("track:@", decimal_string(track_id as i128 + 1).as_str()));
    assert(strs_view(arguments@) =~= strs_view(old(arguments)@) + edit_scope(track_id));
}

fn flag_str(flag: Flag) -> (r: &'static str)
    ensures
        r@ == flag_key(flag),
{
    match flag {
        Flag::Default => "flag-default",
        Flag::Forced => "flag-forced",
        Flag::Enabled => "flag-enabled",
    }
}

impl TrackOperations {
    pub fn new(track_type: TrackType) -> (r: TrackOperations)
        ensures
            r.track_type == track_type,
            r.cmds@.len() == 0,
    {
        TrackOperations { track_type, cmds: Vec::new() }
    }

    /// Whether no operation was added.
    pub fn empty(&self) -> (r: bool)
        ensures
            r == (self.cmds@.len() == 0),
    {
        self.cmds.len() == 0
    }

    pub fn add(&mut self, track_no: usize, track_command: TrackOperation)
        ensures
            final(self).track_type == old(self).track_type,
            final(self).cmds@ == old(self).cmds@.push((track_no, track_command)),
    {
        self.cmds.push((track_no, track_command));
    }

    /// Every operation's slot exists among the file's tracks of this type.
    pub open spec fn fits(self, file: File) -> bool {
        forall|k: int|
            0 <= k < self.cmds@.len() ==> #[trigger] self.cmds@[k].0 < file.tracks_spec(
                self.track_type,
            ).len()
    }

    /// The edit-tool invocation that applies the operations to `file`.
    pub fn generate_command(&self, file: &File) -> (r: Command)
        requires
            self.fits(*file),
        ensures
            r.executable@ == EDIT_TOOL@,
            r.args_view() == file_args(self.cmds@, *file, self.track_type),
            r.output is None,
    {
        let mut command = Command::new(EDIT_TOOL);
        let mut arguments = self.generate_arguments(file);
        push_owned(&mut arguments, file.file_name.clone());
        command.arguments = arguments;
        command
    }

    fn generate_arguments(&self, file: &File) -> (r: Vec<String>)
        requires
            self.fits(*file),
        ensures
            strs_view(r@) == ops_args(self.cmds@, file.tracks_spec(self.track_type)),
    {
        let mut arguments: Vec<String> = Vec::new();
        let tracks = file.tracks(self.track_type);
        let ghost tv = views(tracks@);
        let mut k: usize = 0;
        while k < self.cmds.len()
            invariant
                k <= self.cmds@.len(),
                self.fits(*file),
                tv == file.tracks_spec(self.track_type),
                tv == views(tracks@),
                strs_view(arguments@) == ops_args(self.cmds@.take(k as int), tv),
            decreases self.cmds.len() - k,
        {
            let ghost before = strs_view(arguments@);
            let track_no = self.cmds[k].0;
            assert(tv.len() == tracks@.len());
            let track_id = tracks[track_no].id;
            assert(tv[track_no as int] == tracks@[track_no as int]@);
            match &self.cmds[k].1 {
                TrackOperation::SetForced(v) => {
                    Self::set_flag(&mut arguments, track_id, Flag::Forced, *v);
                },
                TrackOperation::SetDefault(v) => {
                    Self::set_flag(&mut arguments, track_id, Flag::Default, *v);
                },
                TrackOperation::SetEnabled(v) => {
                    Self::set_flag(&mut arguments, track_id, Flag::Enabled, *v);
                },
                TrackOperation::SetDefaultExclusive(_) => {
                    Self::set_default_exclusive(&mut arguments, tracks, track_id);
                },
                TrackOperation::SetTitle(name) => {
                    let name_ref: Option<&str> = match name {
                        Some(n) => Some(n.as_str()),
                        None => None,
                    };
                    Self::set_name(&mut arguments, track_id, name_ref);
                },
                TrackOperation::SetLang(language) => {
                    let language_ref: Option<&str> = match language {
                        Some(l) => Some(l.as_str()),
                        None => None,
                    };
                    Self::set_language(&mut arguments, track_id, language_ref);
                },
            }
            assert(self.cmds@.take(k + 1).drop_last() == self.cmds@.take(k as int));
            assert(strs_view(arguments@) == before + op_args(
                self.cmds@[k as int].0,
                self.cmds@[k as int].1,
                tv,
            ));
            k = k + 1;
        }
        assert(self.cmds@.take(k as int) == self.cmds@);
        arguments
    }

    fn set_default_exclusive(arguments: &mut Vec<String>, tracks: &Vec<Track>, chosen: i64)
        ensures
            strs_view(final(arguments)@) == strs_view(old(arguments)@) + exclusive_args(
                views(tracks@),
                chosen,
            ),
    {
        let mut i: usize = 0;
        while i < tracks.len()
            invariant
                i <= tracks@.len(),
                strs_view(arguments@) == strs_view(old(arguments)@) + exclusive_args(
                    views(tracks@).take(i as int),
                    chosen,
                ),
            decreases tracks.len() - i,
        {
            let ghost before = strs_view(arguments@);
            let id = tracks[i].id;
            Self::set_flag(arguments, id, Flag::Default, id == chosen);
            assert(views(tracks@).take(i + 1).drop_last() == views(tracks@).take(i as int));
            assert(strs_view(arguments@) =~= strs_view(old(arguments)@) + exclusive_args(
                views(tracks@).take(i + 1),
                chosen,
            ));
            i = i + 1;
        }
        assert(views(tracks@).take(i as int) == views(tracks@));
    }

    /// Sets the name of the track with probe id `track_id`, or removes it.
    pub fn set_name(arguments: &mut Vec<String>, track_id: i64, name: Option<&str>)
        ensures
            strs_view(final(arguments)@) == strs_view(old(arguments)@) + name_args(
                track_id,
                opt_str(name),
            ),
    {
        push_scope(arguments, track_id);
        let ghost scoped = strs_view(arguments@);
        proof {
            reveal_strlit("\"");
        }
        match name {
            Some(n) => {
                push_owned(arguments, owned("--set"));
                let value = join2("name=\"", n).concat("\"");
                push_owned(arguments, value);
            },
            None => {
                push_owned(arguments, owned("--delete"));
                push_owned(arguments, owned("name"));
            },
        }
        assert(strs_view(arguments@) =~= strs_view(old(arguments)@) + name_args(
            track_id,
            opt_str(name),
        ));
    }

    /// Sets the language of the track with probe id `track_id`; an absent
    /// language is written as the undetermined token.
    pub fn set_language(arguments: &mut Vec<String>, track_id: i64, language: Option<&str>)
        ensures
            strs_view(final(arguments)@) == strs_view(old(arguments)@) + language_args(
                track_id,
                opt_str(language),
            ),
    {
        push_scope(arguments, track_id);
        push_owned(arguments, owned("--set"));
        let value = match language {
            Some(l) => join2("language=", l),
            None => join2("language=", "und"),
        };
        push_owned(arguments, value);
        assert(strs_view(arguments@) =~= strs_view(old(arguments)@) + language_args(
            track_id,
            opt_str(language),
        ));
    }

    /// Sets one flag of the track with probe id `track_id` to `value`.
    pub fn set_flag(arguments: &mut Vec<String>, track_id: i64, flag: Flag, value: bool)
        ensures
            strs_view(final(arguments)@) == strs_view(old(arguments)@) + flag_args(
                track_id,
                flag,
                value,
            ),
    {
        push_scope(arguments, track_id);
        push_owned(arguments, owned("--set"));
        let value_str = if value {
            "1"
        } else {
            "0"
        };
        let setting = join2(flag_str(flag), "=").concat(value_str);
        push_owned(arguments, setting);
        assert(strs_view(arguments@) =~= strs_view(old(arguments)@) + flag_args(
            track_id,
            flag,
            value,
        ));
    }
}

} // verus!

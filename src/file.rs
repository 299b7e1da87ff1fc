//! The metadata model: files, their tracks, and decoding them from a probe report.

use vstd::prelude::*;
use crate::json::Json;
use crate::text::str_equal;

verus! {

#[derive(Clone, Copy, Debug, PartialEq, Eq, Structural)]
pub enum TrackType {
    Video,
    Audio,
    Subtitles,
}

#[derive(Clone, Copy, Debug, PartialEq, Eq, Structural)]
pub enum Flag {
    Default,
    Forced,
    Enabled,
}

/// One media track inside a file.
#[derive(Debug)]
pub struct Track {
    pub name: Option<String>,
    pub language: Option<String>,
    pub ttype: TrackType,
    pub id: i64,
    pub default: bool,
    pub forced: bool,
    pub enabled: bool,
}

/// A track with its strings seen as character sequences.
pub struct TrackView {
    pub name: Option<Seq<char>>,
    pub language: Option<Seq<char>>,
    pub ttype: TrackType,
    pub id: i64,
    pub default: bool,
    pub forced: bool,
    pub enabled: bool,
}

pub open spec fn opt_view(o: Option<String>) -> Option<Seq<char>> {
    match o {
        Some(s) => Some(s@),
        None => None,
    }
}

impl View for Track {
    type V = TrackView;

    open spec fn view(&self) -> TrackView {
        TrackView {
            name: opt_view(self.name),
            language: opt_view(self.language),
            ttype: self.ttype,
            id: self.id,
            default: self.default,
            forced: self.forced,
            enabled: self.enabled,
        }
    }
}

/// One container file: its tracks split by type, its path, and the report
/// it was decoded from.
pub struct File {
    pub video_tracks: Vec<Track>,
    pub audio_tracks: Vec<Track>,
    pub subtitle_tracks: Vec<Track>,
    pub file_name: String,
    pub json: Json,
}

pub open spec fn views(tracks: Seq<Track>) -> Seq<TrackView> {
    tracks.map_values(|t: Track| t@)
}

impl File {
    /// The tracks of one type, in file order.
    pub open spec fn tracks_spec(self, t: TrackType) -> Seq<TrackView> {
        match t {
            TrackType::Video => views(self.video_tracks@),
            TrackType::Audio => views(self.audio_tracks@),
            TrackType::Subtitles => views(self.subtitle_tracks@),
        }
    }

    pub fn tracks(&self, t: TrackType) -> (r: &Vec<Track>)
        ensures
            views(r@) == self.tracks_spec(t),
    {
        match t {
            TrackType::Video => &self.video_tracks,
            TrackType::Audio => &self.audio_tracks,
            TrackType::Subtitles => &self.subtitle_tracks,
        }
    }

    /// Files are identified by their path alone.
    pub fn same_file(&self, other: &File) -> (r: bool)
        ensures
            r == (self.file_name@ == other.file_name@),
    {
        str_equal(self.file_name.as_str(), other.file_name.as_str())
    }
}

pub open spec fn str_value(j: Option<Json>) -> Option<Seq<char>> {
    match j {
        Some(Json::Str(s)) => Some(s@),
        _ => None,
    }
}

pub open spec fn bool_value(j: Option<Json>) -> Option<bool> {
    match j {
        Some(Json::Bool(b)) => Some(b),
        _ => None,
    }
}

pub open spec fn int_value(j: Option<Json>) -> Option<i64> {
    match j {
        Some(Json::Int(n)) => Some(n),
        _ => None,
    }
}

pub open spec fn track_type_of(s: Seq<char>) -> Option<TrackType> {
    if s == "audio"@ {
        Some(TrackType::Audio)
    } else if s == "video"@ {
        Some(TrackType::Video)
    } else if s == "subtitles"@ {
        Some(TrackType::Subtitles)
    } else {
        None
    }
}

/// The language as the model keeps it: the undetermined token means unset.
pub open spec fn normal_language(s: Seq<char>) -> Option<Seq<char>> {
    if s == "und"@ {
        None
    } else {
        Some(s)
    }
}

/// The track that one element of the report's `tracks` array describes, if
/// every required field is present with its type.
pub open spec fn decode_track(j: Json) -> Option<TrackView> {
    match j.get_spec("properties"@) {
        None => None,
        Some(p) => {
            let language = str_value(p.get_spec("language"@));
            let default = bool_value(p.get_spec("default_track"@));
            let forced = bool_value(p.get_spec("forced_track"@));
            let enabled = bool_value(p.get_spec("enabled_track"@));
            let id = int_value(j.get_spec("id"@));
            let ttype = match str_value(j.get_spec("type"@)) {
                Some(s) => track_type_of(s),
                None => None,
            };
            if language is Some && default is Some && forced is Some && enabled is Some
                && id is Some && ttype is Some {
                Some(
                    TrackView {
                        name: str_value(p.get_spec("track_name"@)),
                        language: normal_language(language->0),
                        ttype: ttype->0,
                        id: id->0,
                        default: default->0,
                        forced: forced->0,
                        enabled: enabled->0,
                    },
                )
            } else {
                None
            }
        },
    }
}

/// All elements decoded in order, or `None` if any one fails.
pub open spec fn decode_tracks(items: Seq<Json>) -> Option<Seq<TrackView>>
    decreases items.len(),
{
    if items.len() == 0 {
        Some(Seq::empty())
    } else {
        match (decode_tracks(items.drop_last()), decode_track(items.last())) {
            (Some(done), Some(t)) => Some(done.push(t)),
            _ => None,
        }
    }
}

/// The tracks of one type, in their order.
pub open spec fn of_type(tracks: Seq<TrackView>, t: TrackType) -> Seq<TrackView>
    decreases tracks.len(),
{
    if tracks.len() == 0 {
        Seq::empty()
    } else if tracks.last().ttype == t {
        of_type(tracks.drop_last(), t).push(tracks.last())
    } else {
        of_type(tracks.drop_last(), t)
    }
}

/// What a probe report describes: all tracks in report order, and the path.
pub open spec fn decode_report(j: Json) -> Option<(Seq<TrackView>, Seq<char>)> {
    let tracks = match j.get_spec("tracks"@) {
        Some(Json::Array(items)) => decode_tracks(items@),
        _ => None,
    };
    let name = str_value(j.get_spec("file_name"@));
    if tracks is Some && name is Some {
        Some((tracks->0, name->0))
    } else {
        None
    }
}

proof fn lemma_decode_prefix(items: Seq<Json>, k: int)
    requires
        0 <= k <= items.len(),
        decode_tracks(items.take(k)) is None,
    ensures
        decode_tracks(items) is None,
    decreases items.len() - k,
{
    if k < items.len() {
        assert(items.take(k + 1).drop_last() == items.take(k));
        lemma_decode_prefix(items, k + 1);
    } else {
        assert(items.take(k) == items);
    }
}

proof fn lemma_views_push(s: Seq<Track>, t: Track)
    ensures
        views(s.push(t)) == views(s).push(t@),
{
    assert(views(s.push(t)) =~= views(s).push(t@));
}

fn string_of(j: Option<&Json>) -> (r: Option<&String>)
    ensures
        r is Some <==> str_value(opt_deref(j)) is Some,
        r is Some ==> r->0@ == str_value(opt_deref(j))->0,
{
    match j {
        Some(Json::Str(s)) => Some(s),
        _ => None,
    }
}

fn bool_of(j: Option<&Json>) -> (r: Option<bool>)
    ensures
        r == bool_value(opt_deref(j)),
{
    match j {
        Some(Json::Bool(b)) => Some(*b),
        _ => None,
    }
}

fn int_of(j: Option<&Json>) -> (r: Option<i64>)
    ensures
        r == int_value(opt_deref(j)),
{
    match j {
        Some(Json::Int(n)) => Some(*n),
        _ => None,
    }
}

pub open spec fn opt_deref(j: Option<&Json>) -> Option<Json> {
    match j {
        Some(v) => Some(*v),
        None => None,
    }
}

fn member_of<'a>(j: &'a Json, key: &str) -> (r: Option<&'a Json>)
    ensures
        opt_deref(r) == j.get_spec(key@),
{
    j.get(key)
}

fn copy_string(s: Option<&String>) -> (r: Option<String>)
    ensures
        r is Some <==> s is Some,
        r is Some ==> r->0@ == s->0@,
{
    match s {
        Some(v) => Some(v.clone()),
        None => None,
    }
}

impl Track {
    /// Decodes one element of the report's `tracks` array.
    pub fn from_json(json: &Json) -> (r: Option<Track>)
        ensures
            r is Some <==> decode_track(*json) is Some,
            r is Some ==> r->0@ == decode_track(*json)->0,
    {
        let properties = match member_of(json, "properties") {
            Some(p) => p,
            None => return None,
        };
        let name = copy_string(string_of(member_of(properties, "track_name")));
        let language = match string_of(member_of(properties, "language")) {
            Some(l) => l,
            None => return None,
        };
        let language = if str_equal(language.as_str(), "und") {
            None
        } else {
            Some(language.clone())
        };
        let default = match bool_of(member_of(properties, "default_track")) {
            Some(b) => b,
            None => return None,
        };
        let forced = match bool_of(member_of(properties, "forced_track")) {
            Some(b) => b,
            None => return None,
        };
        let enabled = match bool_of(member_of(properties, "enabled_track")) {
            Some(b) => b,
            None => return None,
        };
        let id = match int_of(member_of(json, "id")) {
            Some(n) => n,
            None => return None,
        };
        let ttype = match string_of(member_of(json, "type")) {
            Some(t) => t,
            None => return None,
        };
        let ttype = if str_equal(ttype.as_str(), "audio") {
            TrackType::Audio
        } else if str_equal(ttype.as_str(), "video") {
            TrackType::Video
        } else if str_equal(ttype.as_str(), "subtitles") {
            TrackType::Subtitles
        } else {
            return None;
        };
        Some(Track { name, language, ttype, id, default, forced, enabled })
    }
}

impl File {
    /// This file is what the report describes: its path, and its tracks of
    /// each type in report order.
    pub open spec fn decoded_from(self, json: Json) -> bool {
        &&& decode_report(json) is Some
        &&& {
            let (tracks, name) = decode_report(json)->0;
            &&& self.file_name@ == name
            &&& self.json == json
            &&& forall|t: TrackType| #[trigger] self.tracks_spec(t) == of_type(tracks, t)
        }
    }

    /// Decodes a whole probe report; fails as a whole if any track, the track
    /// list or the path is missing or mis-typed.
    pub fn from_json(json: Json) -> (r: Option<File>)
        ensures
            r is Some <==> decode_report(json) is Some,
            r is Some ==> r->0.decoded_from(json),
    {
        let mut video_tracks: Vec<Track> = Vec::new();
        let mut audio_tracks: Vec<Track> = Vec::new();
        let mut subtitle_tracks: Vec<Track> = Vec::new();
        let items = match member_of(&json, "tracks") {
            Some(Json::Array(items)) => items,
            _ => return None,
        };
        let mut i: usize = 0;
        let ghost mut done: Seq<TrackView> = Seq::empty();
        while i < items.len()
            invariant
                i <= items@.len(),
                json.get_spec("tracks"@) == Some(Json::Array(*items)),
                decode_tracks(items@.take(i as int)) == Some(done),
                views(video_tracks@) == of_type(done, TrackType::Video),
                views(audio_tracks@) == of_type(done, TrackType::Audio),
                views(subtitle_tracks@) == of_type(done, TrackType::Subtitles),
            decreases items.len() - i,
        {
            assert(items@.take(i + 1).drop_last() == items@.take(i as int));
            let track = match Track::from_json(&items[i]) {
                Some(t) => t,
                None => {
                    proof {
                        lemma_decode_prefix(items@, i + 1);
                    }
                    return None;
                },
            };
            let ghost prev = done;
            proof {
                done = done.push(track@);
            }
            assert(done.drop_last() == prev);
            match track.ttype {
                TrackType::Video => {
                    proof {
                        lemma_views_push(video_tracks@, track);
                    }
                    video_tracks.push(track);
                },
                TrackType::Audio => {
                    proof {
                        lemma_views_push(audio_tracks@, track);
                    }
                    audio_tracks.push(track);
                },
                TrackType::Subtitles => {
                    proof {
                        lemma_views_push(subtitle_tracks@, track);
                    }
                    subtitle_tracks.push(track);
                },
            }
            i = i + 1;
        }
        assert(items@.take(i as int) == items@);
        let file_name = match string_of(member_of(&json, "file_name")) {
            Some(n) => n.clone(),
            None => return None,
        };
        Some(File { video_tracks, audio_tracks, subtitle_tracks, file_name, json })
    }
}

/// The first file in `files` with the path `name`.
pub open spec fn first_named(files: Seq<File>, name: Seq<char>) -> Option<int>
    decreases files.len(),
{
    if files.len() == 0 {
        None
    } else if files[0].file_name@ == name {
        Some(0)
    } else {
        match first_named(files.drop_first(), name) {
            Some(i) => Some(i + 1),
            None => None,
        }
    }
}

/// `files` with each file replaced by the first not yet used file of
/// `changed` that has its path.
pub open spec fn replaced(files: Seq<File>, changed: Seq<File>) -> Seq<File>
    decreases files.len(),
{
    if files.len() == 0 {
        Seq::empty()
    } else {
        match first_named(changed, files[0].file_name@) {
            Some(p) => seq![changed[p]] + replaced(files.drop_first(), changed.remove(p)),
            None => seq![files[0]] + replaced(files.drop_first(), changed),
        }
    }
}

proof fn lemma_first_named(files: Seq<File>, name: Seq<char>)
    ensures
        first_named(files, name) matches Some(i) ==> 0 <= i < files.len() && files[i].file_name@
            == name,
    decreases files.len(),
{
    if files.len() > 0 {
        lemma_first_named(files.drop_first(), name);
    }
}

fn find_named(files: &Vec<File>, name: &str) -> (r: Option<usize>)
    ensures
        match r {
            Some(i) => first_named(files@, name@) == Some(i as int),
            None => first_named(files@, name@) is None,
        },
{
    let mut i: usize = 0;
    assert(files@.skip(0) == files@);
    while i < files.len()
        invariant
            i <= files@.len(),
            first_named(files@, name@) == match first_named(files@.skip(i as int), name@) {
                Some(k) => Some(k + i),
                None => None,
            },
        decreases files.len() - i,
    {
        assert(files@.skip(i as int)[0] == files@[i as int]);
        if str_equal(files[i].file_name.as_str(), name) {
            return Some(i);
        }
        assert(files@.skip(i as int).drop_first() == files@.skip(i + 1));
        i = i + 1;
    }
    None
}

/// Replaces each file of `files` by a re-decoded file of `changed` with the
/// same path, each of those used once; files without one stay as they are.
pub fn replace_files(files: &mut Vec<File>, changed: Vec<File>)
    ensures
        final(files)@ == replaced(old(files)@, changed@),
{
    let mut remaining = changed;
    let mut pending: Vec<File> = Vec::new();
    std::mem::swap(files, &mut pending);
    let ghost given = pending@;
    assert(given.skip(0) == given);
    while pending.len() > 0
        invariant
            pending@ == given.skip(given.len() - pending@.len()),
            pending@.len() <= given.len(),
            replaced(given, changed@) == files@ + replaced(pending@, remaining@),
        decreases pending.len(),
    {
        let file = pending.remove(0);
        assert(pending@ == given.skip(given.len() - pending@.len()));
        let ghost before = files@;
        let ghost rest = remaining@;
        match find_named(&remaining, file.file_name.as_str()) {
            Some(p) => {
                proof {
                    lemma_first_named(rest, file.file_name@);
                }
                let fresh = remaining.remove(p);
                files.push(fresh);
                assert(files@ == before + seq![fresh]);
            },
            None => {
                files.push(file);
            },
        }
        assert(files@ + replaced(pending@, remaining@) =~= before + (seq![files@.last()]
            + replaced(pending@, remaining@)));
    }
    assert(replaced(pending@, remaining@) == Seq::<File>::empty());
    assert(files@ + Seq::<File>::empty() =~= files@);
}

} // verus!

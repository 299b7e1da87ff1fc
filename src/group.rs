//! Fingerprints of a file's tracks of one type, and groups of files that
//! share one.

use itertools::Itertools;
use vstd::prelude::*;
use crate::order::{
    before, is_permutation, keys_cmp, lemma_keys_cmp, lemma_keys_cmp_trans, prints_view, sorted_by,
    stable_order,
};
use crate::json::Json;
use crate::file::{opt_view, File, Track, TrackType, TrackView, views};
use crate::text::str_equal;
use crate::command::Command;
use crate::track_operations::{
    EDIT_TOOL, TrackOperation, TrackOperations, edit_scope, flag_args, language_args, name_args,
    ops_args,
};
use crate::file::Flag;
use crate::command::strs_view;
use crate::table::{Table, refs_view, lines_view};
use crate::text::{decimal, decimal_string, owned};

verus! {

/// The attributes of one track slot that grouping compares.
#[derive(Debug)]
pub struct GroupKey {
    pub language: Option<String>,
    pub name: Option<String>,
    pub default: bool,
    pub forced: bool,
    pub enabled: bool,
}

pub struct KeyView {
    pub language: Option<Seq<char>>,
    pub name: Option<Seq<char>>,
    pub default: bool,
    pub forced: bool,
    pub enabled: bool,
}

impl View for GroupKey {
    type V = KeyView;

    open spec fn view(&self) -> KeyView {
        KeyView {
            language: opt_view(self.language),
            name: opt_view(self.name),
            default: self.default,
            forced: self.forced,
            enabled: self.enabled,
        }
    }
}

pub fn opt_str_equal(a: &Option<String>, b: &Option<String>) -> (r: bool)
    ensures
        r == (opt_view(*a) == opt_view(*b)),
{
    match (a, b) {
        (Some(x), Some(y)) => str_equal(x.as_str(), y.as_str()),
        (None, None) => true,
        _ => false,
    }
}

pub fn copy_opt(o: &Option<String>) -> (r: Option<String>)
    ensures
        r == *o,
{
    match o {
        Some(s) => Some(s.clone()),
        None => None,
    }
}

impl PartialEq for GroupKey {
    fn eq(&self, other: &GroupKey) -> (r: bool) {
        opt_str_equal(&self.language, &other.language) && opt_str_equal(&self.name, &other.name)
            && self.default == other.default && self.forced == other.forced && self.enabled
            == other.enabled
    }
}

impl vstd::std_specs::cmp::PartialEqSpecImpl for GroupKey {
    open spec fn obeys_eq_spec() -> bool {
        true
    }

    open spec fn eq_spec(&self, other: &GroupKey) -> bool {
        self@ == other@
    }
}

impl GroupKey {
    pub fn copy(&self) -> (r: GroupKey)
        ensures
            r@ == self@,
    {
        GroupKey {
            language: copy_opt(&self.language),
            name: copy_opt(&self.name),
            default: self.default,
            forced: self.forced,
            enabled: self.enabled,
        }
    }
}

pub open spec fn key_headers() -> Seq<Seq<char>> {
    seq!["lang"@, "name"@, "def"@, "fcd"@, "en"@]
}

pub open spec fn check_box(b: bool) -> Seq<char> {
    if b {
        "[x]"@
    } else {
        "[ ]"@
    }
}

/// The cells of a slot tuple: language and name (empty when unset), then the
/// three flags as check boxes.
pub open spec fn key_row(k: KeyView) -> Seq<Seq<char>> {
    seq![
        match k.language {
            Some(l) => l,
            None => Seq::empty(),
        },
        match k.name {
            Some(n) => n,
            None => Seq::empty(),
        },
        check_box(k.default),
        check_box(k.forced),
        check_box(k.enabled),
    ]
}

fn check_box_string(b: bool) -> (r: String)
    ensures
        r@ == check_box(b),
{
    if b {
        owned("[x]")
    } else {
        owned("[ ]")
    }
}

fn text_or_empty(o: &Option<String>) -> (r: String)
    ensures
        r@ == match opt_view(*o) {
            Some(s) => s,
            None => Seq::<char>::empty(),
        },
{
    match o {
        Some(s) => s.clone(),
        None => String::new(),
    }
}

impl GroupKey {
    /// The column titles of [`GroupKey::row`].
    pub fn headers(&self) -> (r: Vec<&'static str>)
        ensures
            refs_view(r@) == key_headers(),
    {
        let r = vec!["lang", "name", "def", "fcd", "en"];
        assert(refs_view(r@) =~= key_headers());
        r
    }

    /// The slot tuple as table cells.
    pub fn row(&self) -> (r: Vec<String>)
        ensures
            strs_view(r@) == key_row(self@),
    {
        let r = vec![
            text_or_empty(&self.language),
            text_or_empty(&self.name),
            check_box_string(self.default),
            check_box_string(self.forced),
            check_box_string(self.enabled),
        ];
        assert(strs_view(r@) =~= key_row(self@));
        r
    }
}

/// The table listing a fingerprint: a numbered row per slot.
pub open spec fn key_table_lines(keys: Seq<KeyView>) -> Seq<Seq<Seq<char>>> {
    Seq::new(keys.len(), |i: int| seq![decimal(i)] + key_row(keys[i]))
}

/// The table that lists a fingerprint, one numbered row per slot.
pub fn groupkeys_table(keys: &[GroupKey]) -> (r: Table)
    ensures
        r.headers_view() == seq!["#"@] + key_headers(),
        r.lines_view() == key_table_lines(keys_view(keys@)),
        r.fits(),
{
    let mut data: Vec<Vec<String>> = Vec::new();
    let mut numbers: Vec<String> = Vec::new();
    let mut i: usize = 0;
    while i < keys.len()
        invariant
            i <= keys@.len(),
            data@.len() == i,
            numbers@.len() == i,
            forall|j: int| 0 <= j < i ==> strs_view(#[trigger] data@[j]@) == key_row(keys@[j]@),
            forall|j: int| 0 <= j < i ==> (#[trigger] numbers@[j])@ == decimal(j),
        decreases keys.len() - i,
    {
        data.push(keys[i].row());
        numbers.push(decimal_string(i as i128));
        i = i + 1;
    }
    let headers = vec!["lang", "name", "def", "fcd", "en"];
    let mut table = Table::new(data.as_slice(), headers.as_slice());
    let ghost before = table.lines_view();
    assert(before.len() == data@.len());
    table.insert_column(0, "#", numbers.as_slice());
    assert(table.lines@.len() == keys@.len());
    assert(table.headers_view() =~= seq!["#"@] + key_headers());
    assert forall|j: int| 0 <= j < keys@.len() implies #[trigger] table.lines_view()[j]
        == key_table_lines(keys_view(keys@))[j] by {
        assert(lines_view(data@)[j] == key_row(keys@[j]@));
        assert(before[j] == key_row(keys@[j]@));
        assert(table.lines_view()[j] == before[j].insert(0, numbers@[j]@));
        assert(numbers@[j]@ == decimal(j));
        assert(keys_view(keys@)[j] == keys@[j]@);
        assert(table.lines_view()[j] =~= key_table_lines(keys_view(keys@))[j]);
    }
    assert(table.lines_view() =~= key_table_lines(keys_view(keys@)));
    assert forall|k: int| 0 <= k < table.lines@.len() implies (#[trigger] table.lines@[k])@.len() <= table.headers@.len() by {
        assert(table.lines_view()[k] == strs_view(table.lines@[k]@));
        assert(table.lines_view()[k].len() == 6);
        assert(table.headers_view().len() == table.headers@.len());
    }
    table
}

pub open spec fn keys_view(keys: Seq<GroupKey>) -> Seq<KeyView> {
    keys.map_values(|k: GroupKey| k@)
}

/// The slot tuple of one track.
pub open spec fn key_of(t: TrackView) -> KeyView {
    KeyView {
        language: t.language,
        name: t.name,
        default: t.default,
        forced: t.forced,
        enabled: t.enabled,
    }
}

/// The fingerprint of a file for one track type: the slot tuple of each of
/// its tracks of that type, in track order.
pub open spec fn fingerprint_spec(file: File, t: TrackType) -> Seq<KeyView> {
    file.tracks_spec(t).map_values(|tv: TrackView| key_of(tv))
}

pub proof fn lemma_keys_view_push(s: Seq<GroupKey>, k: GroupKey)
    ensures
        keys_view(s.push(k)) == keys_view(s).push(k@),
{
    assert(keys_view(s.push(k)) =~= keys_view(s).push(k@));
}

pub fn copy_keys(keys: &Vec<GroupKey>) -> (r: Vec<GroupKey>)
    ensures
        keys_view(r@) == keys_view(keys@),
{
    let mut r: Vec<GroupKey> = Vec::new();
    let mut i: usize = 0;
    while i < keys.len()
        invariant
            i <= keys@.len(),
            keys_view(r@) == keys_view(keys@).take(i as int),
        decreases keys.len() - i,
    {
        let k = keys[i].copy();
        proof {
            lemma_keys_view_push(r@, k);
        }
        r.push(k);
        assert(keys_view(r@) =~= keys_view(keys@).take(i + 1));
        i = i + 1;
    }
    assert(keys_view(keys@).take(i as int) =~= keys_view(keys@));
    r
}

/// The slot tuple of each track of `t` in `file`.
pub fn fingerprint(file: &File, t: TrackType) -> (r: Vec<GroupKey>)
    ensures
        keys_view(r@) == fingerprint_spec(*file, t),
{
    let tracks = file.tracks(t);
    let mut r: Vec<GroupKey> = Vec::new();
    let mut i: usize = 0;
    while i < tracks.len()
        invariant
            i <= tracks@.len(),
            views(tracks@) == file.tracks_spec(t),
            keys_view(r@) == fingerprint_spec(*file, t).take(i as int),
        decreases tracks.len() - i,
    {
        let track: &Track = &tracks[i];
        let k = GroupKey {
            language: copy_opt(&track.language),
            name: copy_opt(&track.name),
            default: track.default,
            forced: track.forced,
            enabled: track.enabled,
        };
        assert(views(tracks@)[i as int] == track@);
        proof {
            lemma_keys_view_push(r@, k);
        }
        r.push(k);
        assert(keys_view(r@) =~= fingerprint_spec(*file, t).take(i + 1));
        i = i + 1;
    }
    assert(fingerprint_spec(*file, t).take(i as int) =~= fingerprint_spec(*file, t));
    r
}

/// The subtitle fingerprint.
pub fn key_sublang_subname(file: &File) -> (r: Vec<GroupKey>)
    ensures
        keys_view(r@) == fingerprint_spec(*file, TrackType::Subtitles),
{
    fingerprint(file, TrackType::Subtitles)
}

/// The audio fingerprint.
pub fn key_audlang_audname(file: &File) -> (r: Vec<GroupKey>)
    ensures
        keys_view(r@) == fingerprint_spec(*file, TrackType::Audio),
{
    fingerprint(file, TrackType::Audio)
}

/// Two files with as many tracks of a type have equal fingerprints for it
/// exactly when each slot's language, name and flags agree.
pub proof fn lemma_fingerprint_equal(a: File, b: File, t: TrackType)
    requires
        a.tracks_spec(t).len() == b.tracks_spec(t).len(),
    ensures
        fingerprint_spec(a, t) == fingerprint_spec(b, t) <==> forall|i: int|
            0 <= i < a.tracks_spec(t).len() ==> {
                let x = #[trigger] a.tracks_spec(t)[i];
                let y = b.tracks_spec(t)[i];
                &&& x.language == y.language
                &&& x.name == y.name
                &&& x.default == y.default
                &&& x.forced == y.forced
                &&& x.enabled == y.enabled
            },
{
    let fa = fingerprint_spec(a, t);
    let fb = fingerprint_spec(b, t);
    if fa == fb {
        assert forall|i: int| 0 <= i < a.tracks_spec(t).len() implies {
            let x = #[trigger] a.tracks_spec(t)[i];
            let y = b.tracks_spec(t)[i];
            &&& x.language == y.language
            &&& x.name == y.name
            &&& x.default == y.default
            &&& x.forced == y.forced
            &&& x.enabled == y.enabled
        } by {
            assert(fa[i] == fb[i]);
        }
    } else {
        if forall|i: int|
            0 <= i < a.tracks_spec(t).len() ==> {
                let x = #[trigger] a.tracks_spec(t)[i];
                let y = b.tracks_spec(t)[i];
                &&& x.language == y.language
                &&& x.name == y.name
                &&& x.default == y.default
                &&& x.forced == y.forced
                &&& x.enabled == y.enabled
            } {
            assert(fa =~= fb);
        }
    }
}

/// The two slot tuples differ in exactly one attribute.
pub open spec fn differs_in_one_field(x: KeyView, y: KeyView) -> bool {
    ||| (x.language != y.language && x.name == y.name && x.default == y.default
        && x.forced == y.forced && x.enabled == y.enabled)
    ||| (x.language == y.language && x.name != y.name && x.default == y.default
        && x.forced == y.forced && x.enabled == y.enabled)
    ||| (x.language == y.language && x.name == y.name && x.default != y.default
        && x.forced == y.forced && x.enabled == y.enabled)
    ||| (x.language == y.language && x.name == y.name && x.default == y.default
        && x.forced != y.forced && x.enabled == y.enabled)
    ||| (x.language == y.language && x.name == y.name && x.default == y.default
        && x.forced == y.forced && x.enabled != y.enabled)
}

/// Changing any single attribute of any single track breaks fingerprint
/// equality: a file whose slot `i` differs from `a`'s in one attribute has
/// another fingerprint.
pub proof fn lemma_fingerprint_sensitive(a: File, b: File, t: TrackType, i: int)
    requires
        a.tracks_spec(t).len() == b.tracks_spec(t).len(),
        0 <= i < b.tracks_spec(t).len(),
        differs_in_one_field(key_of(a.tracks_spec(t)[i]), key_of(b.tracks_spec(t)[i])),
    ensures
        fingerprint_spec(a, t) != fingerprint_spec(b, t),
{
    if fingerprint_spec(a, t) == fingerprint_spec(b, t) {
        assert(fingerprint_spec(a, t)[i] == fingerprint_spec(b, t)[i]);
    }
}

/// Files sharing one fingerprint: the fingerprint, the files, and the
/// files' positions in the list that was grouped.
pub struct Group<'a> {
    pub key: Vec<GroupKey>,
    pub files: Vec<&'a File>,
    pub positions: Vec<usize>,
}

/// Where run `r` starts when runs of the given lengths follow each other.
pub open spec fn run_start(runs: Seq<usize>, r: int) -> int
    decreases r,
{
    if r <= 0 {
        0
    } else {
        run_start(runs, r - 1) + runs[r - 1]
    }
}

/// `runs` cuts `items` into maximal runs of equal neighbours.
pub open spec fn is_runs(items: Seq<Seq<KeyView>>, runs: Seq<usize>) -> bool {
    &&& forall|r: int| 0 <= r < runs.len() ==> #[trigger] runs[r] > 0
    &&& run_start(runs, runs.len() as int) == items.len()
    &&& forall|r: int, j: int|
        0 <= r < runs.len() && run_start(runs, r) <= j < run_start(runs, r + 1) ==> #[trigger] items[j]
            == items[#[trigger] run_start(runs, r)]
    &&& forall|r: int|
        0 < r < runs.len() ==> items[#[trigger] run_start(runs, r)] != items[run_start(runs, r) - 1]
}

/// Relies on itertools' `Itertools::group_by`: it yields consecutive elements
/// whose keys are equal (`PartialEq`) as one group, and starts a new group
/// where an element's key differs from its predecessor's. Each group is
/// handed out as its length.
#[verifier::external_body]
fn run_lengths(prints: &Vec<Vec<GroupKey>>) -> (r: Vec<usize>)
    ensures
        is_runs(prints_view(prints@), r@),
{
    prints.iter().group_by(|k| *k).into_iter().map(|(_, run)| run.count()).collect()
}

/// The positions of all groups' files, group after group.
pub open spec fn flat_positions(groups: Seq<Group>) -> Seq<usize>
    decreases groups.len(),
{
    if groups.len() == 0 {
        Seq::empty()
    } else {
        flat_positions(groups.drop_last()) + groups.last().positions@
    }
}

impl<'a> Group<'a> {
    /// A non-empty group of files of `files`, each with the group's
    /// fingerprint for `t`, listed in input order.
    pub open spec fn wf(self, files: Seq<File>, t: TrackType) -> bool {
        &&& self.positions@.len() > 0
        &&& self.files@.len() == self.positions@.len()
        &&& forall|k: int|
            0 <= k < self.positions@.len() ==> #[trigger] self.positions@[k] < files.len()
        &&& forall|k: int|
            0 <= k < self.positions@.len() ==> *#[trigger] self.files@[k]
                == files[self.positions@[k] as int]
        &&& forall|k: int|
            0 <= k < self.positions@.len() ==> fingerprint_spec(
                files[#[trigger] self.positions@[k] as int],
                t,
            ) == keys_view(self.key@)
        &&& forall|k: int, l: int|
            0 <= k < l < self.positions@.len() ==> #[trigger] self.positions@[k]
                < #[trigger] self.positions@[l]
    }
}

/// `groups` is the grouping of `files` by their fingerprints for `t`: every
/// file is in exactly one group, no group is empty, a group's files share its
/// fingerprint, and the groups are listed by strictly increasing fingerprint,
/// so no two have the same one.
pub open spec fn is_grouping(files: Seq<File>, t: TrackType, groups: Seq<Group>) -> bool {
    &&& is_permutation(flat_positions(groups), files.len() as int)
    &&& forall|g: int| 0 <= g < groups.len() ==> #[trigger] groups[g].wf(files, t)
    &&& forall|g: int|
        0 <= g < groups.len() - 1 ==> keys_cmp(
            keys_view(#[trigger] groups[g].key@),
            keys_view(groups[g + 1].key@),
        ) < 0
}

proof fn lemma_run_start_mono(runs: Seq<usize>, r: int, s: int)
    requires
        0 <= r <= s <= runs.len(),
    ensures
        run_start(runs, r) <= run_start(runs, s),
    decreases s - r,
{
    if r < s {
        lemma_run_start_mono(runs, r, s - 1);
    }
}

/// Facts shared by the lemmas on the runs of the sorted fingerprints.
pub open spec fn sorted_runs(
    pv: Seq<Seq<KeyView>>,
    sv: Seq<Seq<KeyView>>,
    order: Seq<usize>,
    runs: Seq<usize>,
) -> bool {
    &&& is_permutation(order, pv.len() as int)
    &&& sorted_by(pv, order)
    &&& is_runs(sv, runs)
    &&& sv.len() == pv.len()
    &&& forall|q: int| 0 <= q < pv.len() ==> #[trigger] sv[q] == pv[order[q] as int]
}

proof fn lemma_run_bounds(runs: Seq<usize>, n: int, r: int)
    requires
        forall|r: int| 0 <= r < runs.len() ==> #[trigger] runs[r] > 0,
        run_start(runs, runs.len() as int) == n,
        0 <= r < runs.len(),
    ensures
        0 <= run_start(runs, r) < run_start(runs, r + 1) <= n,
{
    lemma_run_start_mono(runs, 0, r);
    lemma_run_start_mono(runs, r + 1, runs.len() as int);
    assert(runs[r] > 0);
}

/// The files of one run all have its first fingerprint, and come in their
/// input order.
proof fn lemma_run_members(
    files: Seq<File>,
    t: TrackType,
    pv: Seq<Seq<KeyView>>,
    sv: Seq<Seq<KeyView>>,
    order: Seq<usize>,
    runs: Seq<usize>,
    r: int,
)
    requires
        sorted_runs(pv, sv, order, runs),
        pv.len() == files.len(),
        forall|j: int| 0 <= j < files.len() ==> #[trigger] pv[j] == fingerprint_spec(files[j], t),
        0 <= r < runs.len(),
    ensures
        forall|j: int|
            run_start(runs, r) <= j < run_start(runs, r + 1) ==> fingerprint_spec(
                files[#[trigger] order[j] as int],
                t,
            ) == sv[run_start(runs, r)],
        forall|a: int, b: int|
            run_start(runs, r) <= a < b < run_start(runs, r + 1) ==> #[trigger] order[a]
                < #[trigger] order[b],
{
    lemma_run_bounds(runs, pv.len() as int, r);
    let start = run_start(runs, r);
    assert forall|j: int| start <= j < run_start(runs, r + 1) implies fingerprint_spec(
        files[#[trigger] order[j] as int],
        t,
    ) == sv[start] by {
        assert(sv[j] == sv[start]);
        assert(sv[j] == pv[order[j] as int]);
    }
    assert forall|a: int, b: int| start <= a < b < run_start(runs, r + 1) implies #[trigger] order[a]
        < #[trigger] order[b] by {
        assert(sv[a] == sv[start]);
        assert(sv[b] == sv[start]);
        assert(before(pv, order[a], order[b]));
        lemma_keys_cmp(pv[order[a] as int], pv[order[b] as int]);
    }
}

/// Each run's fingerprint comes strictly after the one before it.
proof fn lemma_runs_increase(
    pv: Seq<Seq<KeyView>>,
    sv: Seq<Seq<KeyView>>,
    order: Seq<usize>,
    runs: Seq<usize>,
    r: int,
)
    requires
        sorted_runs(pv, sv, order, runs),
        0 < r < runs.len(),
    ensures
        keys_cmp(sv[run_start(runs, r - 1)], sv[run_start(runs, r)]) < 0,
{
    lemma_run_bounds(runs, pv.len() as int, r);
    lemma_run_bounds(runs, pv.len() as int, r - 1);
    let start = run_start(runs, r);
    let prev = run_start(runs, r - 1);
    assert(sv[start - 1] == sv[prev]);
    assert(sv[start] != sv[start - 1]);
    assert(before(pv, order[start - 1], order[start]));
    assert(sv[start - 1] == pv[order[start - 1] as int]);
    assert(sv[start] == pv[order[start] as int]);
    lemma_keys_cmp(sv[start - 1], sv[start]);
}

/// Groups `files` by their fingerprints for `t`: a stable sort by
/// fingerprint, then maximal runs of equal fingerprints.
pub fn groupby<'a>(files: &'a Vec<File>, t: TrackType) -> (groups: Vec<Group<'a>>)
    ensures
        is_grouping(files@, t, groups@),
{
    let n = files.len();
    let mut prints: Vec<Vec<GroupKey>> = Vec::new();
    let mut i: usize = 0;
    while i < n
        invariant
            n == files@.len(),
            i <= n,
            prints@.len() == i,
            forall|j: int| 0 <= j < i ==> #[trigger] keys_view(prints@[j]@) == fingerprint_spec(files@[j], t),
        decreases n - i,
    {
        prints.push(fingerprint(&files[i], t));
        i = i + 1;
    }
    let ghost pv = prints_view(prints@);
    assert forall|j: int| 0 <= j < n implies #[trigger] pv[j] == fingerprint_spec(files@[j], t) by {}
    let order = stable_order(&prints);
    let mut sorted: Vec<Vec<GroupKey>> = Vec::new();
    let mut p: usize = 0;
    while p < n
        invariant
            n == files@.len(),
            p <= n,
            prints@.len() == n,
            pv == prints_view(prints@),
            is_permutation(order@, n as int),
            sorted@.len() == p,
            forall|q: int| 0 <= q < p ==> #[trigger] keys_view(sorted@[q]@) == pv[order@[q] as int],
        decreases n - p,
    {
        sorted.push(copy_keys(&prints[order[p]]));
        p = p + 1;
    }
    let ghost sv = prints_view(sorted@);
    assert forall|q: int| 0 <= q < n implies #[trigger] sv[q] == pv[order@[q] as int] by {}
    let runs = run_lengths(&sorted);
    assert(sorted_runs(pv, sv, order@, runs@));
    let mut groups: Vec<Group<'a>> = Vec::new();
    let mut start: usize = 0;
    let mut r: usize = 0;
    while r < runs.len()
        invariant
            n == files@.len(),
            pv == prints_view(prints@),
            sv == prints_view(sorted@),
            pv.len() == n,
            forall|j: int| 0 <= j < n ==> #[trigger] pv[j] == fingerprint_spec(files@[j], t),
            sorted_runs(pv, sv, order@, runs@),
            r <= runs@.len(),
            start == run_start(runs@, r as int),
            groups@.len() == r,
            flat_positions(groups@) == order@.take(start as int),
            forall|g: int| 0 <= g < r ==> #[trigger] groups@[g].wf(files@, t),
            forall|g: int| 0 <= g < r ==> keys_view(#[trigger] groups@[g].key@) == sv[run_start(runs@, g)],
            forall|g: int|
                0 <= g < r - 1 ==> keys_cmp(
                    keys_view(#[trigger] groups@[g].key@),
                    keys_view(groups@[g + 1].key@),
                ) < 0,
        decreases runs.len() - r,
    {
        proof {
            lemma_run_bounds(runs@, n as int, r as int);
        }
        let len = runs[r];
        let end = start + len;
        assert(end == run_start(runs@, r + 1));
        let key = copy_keys(&sorted[start]);
        let mut members: Vec<&'a File> = Vec::new();
        let mut positions: Vec<usize> = Vec::new();
        let mut k: usize = start;
        while k < end
            invariant
                n == files@.len(),
                start <= k <= end <= n,
                start == run_start(runs@, r as int),
                end == run_start(runs@, r + 1),
                r < runs@.len(),
                sv == prints_view(sorted@),
                pv.len() == n,
                sorted_runs(pv, sv, order@, runs@),
                keys_view(key@) == sv[start as int],
                positions@ == order@.subrange(start as int, k as int),
                members@.len() == positions@.len(),
                forall|m: int| 0 <= m < members@.len() ==> *#[trigger] members@[m] == files@[positions@[m] as int],
            decreases end - k,
        {
            let idx = order[k];
            members.push(&files[idx]);
            positions.push(idx);
            assert(positions@ =~= order@.subrange(start as int, k + 1));
            k = k + 1;
        }
        let group = Group { key, files: members, positions };
        proof {
            lemma_run_members(files@, t, pv, sv, order@, runs@, r as int);
            assert forall|m: int| 0 <= m < group.positions@.len() implies fingerprint_spec(
                files@[#[trigger] group.positions@[m] as int],
                t,
            ) == keys_view(group.key@) by {
                assert(group.positions@[m] == order@[start + m]);
            }
            assert forall|a: int, b: int| 0 <= a < b < group.positions@.len() implies #[trigger] group.positions@[a]
                < #[trigger] group.positions@[b] by {
                assert(group.positions@[a] == order@[start + a]);
                assert(group.positions@[b] == order@[start + b]);
            }
            assert forall|m: int| 0 <= m < group.positions@.len() implies #[trigger] group.positions@[m] < files@.len() by {
                assert(group.positions@[m] == order@[start + m]);
            }
            assert(group.wf(files@, t));
            if r > 0 {
                lemma_runs_increase(pv, sv, order@, runs@, r as int);
                assert(keys_cmp(keys_view(groups@[r - 1].key@), keys_view(group.key@)) < 0);
            }
        }
        let ghost old_groups = groups@;
        groups.push(group);
        proof {
            assert(groups@.drop_last() == old_groups);
            assert(order@.take(end as int) =~= order@.take(start as int) + order@.subrange(start as int, end as int));
        }
        start = end;
        r = r + 1;
    }
    assert(order@.take(start as int) == order@);
    groups
}

/// Where group `g`'s positions start among all groups' positions.
pub open spec fn offset(groups: Seq<Group>, g: int) -> int {
    flat_positions(groups.take(g)).len() as int
}

proof fn lemma_offset_step(groups: Seq<Group>, g: int)
    requires
        0 <= g < groups.len(),
    ensures
        offset(groups, g + 1) == offset(groups, g) + groups[g].positions@.len(),
{
    assert(groups.take(g + 1).drop_last() == groups.take(g));
}

proof fn lemma_offset_mono(groups: Seq<Group>, g: int, h: int)
    requires
        0 <= g <= h <= groups.len(),
    ensures
        offset(groups, g) <= offset(groups, h),
    decreases h - g,
{
    if g < h {
        lemma_offset_mono(groups, g, h - 1);
        lemma_offset_step(groups, h - 1);
    }
}

proof fn lemma_flat_index(groups: Seq<Group>, g: int, k: int)
    requires
        0 <= g < groups.len(),
        0 <= k < groups[g].positions@.len(),
    ensures
        0 <= offset(groups, g) + k < flat_positions(groups).len(),
        flat_positions(groups)[offset(groups, g) + k] == groups[g].positions@[k],
    decreases groups.len(),
{
    let init = groups.drop_last();
    if g < groups.len() - 1 {
        assert(init.take(g) =~= groups.take(g));
        lemma_flat_index(init, g, k);
    } else {
        assert(groups.take(g) =~= init);
    }
}

proof fn lemma_flat_covered(groups: Seq<Group>, i: int) -> (r: (int, int))
    requires
        0 <= i < flat_positions(groups).len(),
    ensures
        0 <= r.0 < groups.len(),
        0 <= r.1 < groups[r.0].positions@.len(),
        offset(groups, r.0) + r.1 == i,
    decreases groups.len(),
{
    let init = groups.drop_last();
    if i < flat_positions(init).len() {
        let (g, k) = lemma_flat_covered(init, i);
        assert(init.take(g) =~= groups.take(g));
        (g, k)
    } else {
        let g = groups.len() - 1;
        assert(groups.take(g) =~= init);
        (g, i - offset(groups, g))
    }
}

/// Grouping partitions the files exactly: each position of the input list is
/// in some group, and no position is in two groups or twice in one.
pub proof fn lemma_groups_partition(files: Seq<File>, t: TrackType, groups: Seq<Group>, j: usize)
    requires
        is_grouping(files, t, groups),
        j < files.len(),
    ensures
        exists|g: int, k: int|
            0 <= g < groups.len() && 0 <= k < groups[g].positions@.len()
                && groups[g].positions@[k] == j,
        forall|g1: int, k1: int, g2: int, k2: int|
            0 <= g1 < groups.len() && 0 <= k1 < groups[g1].positions@.len() && 0 <= g2
                < groups.len() && 0 <= k2 < groups[g2].positions@.len()
                && #[trigger] groups[g1].positions@[k1] == #[trigger] groups[g2].positions@[k2]
                ==> g1 == g2 && k1 == k2,
{
    let flat = flat_positions(groups);
    assert(flat.contains(j));
    let i = choose|i: int| 0 <= i < flat.len() && flat[i] == j;
    let (g, k) = lemma_flat_covered(groups, i);
    lemma_flat_index(groups, g, k);
    assert(groups[g].positions@[k] == j);
    assert forall|g1: int, k1: int, g2: int, k2: int|
        0 <= g1 < groups.len() && 0 <= k1 < groups[g1].positions@.len() && 0 <= g2
            < groups.len() && 0 <= k2 < groups[g2].positions@.len()
            && #[trigger] groups[g1].positions@[k1] == #[trigger] groups[g2].positions@[k2]
        implies g1 == g2 && k1 == k2 by {
        lemma_flat_index(groups, g1, k1);
        lemma_flat_index(groups, g2, k2);
        let i1 = offset(groups, g1) + k1;
        let i2 = offset(groups, g2) + k2;
        if i1 != i2 {
            if i1 < i2 {
                assert(flat[i1] != flat[i2]);
            } else {
                assert(flat[i2] != flat[i1]);
            }
        }
        if g1 < g2 {
            lemma_offset_step(groups, g1);
            lemma_offset_mono(groups, g1 + 1, g2);
        } else if g2 < g1 {
            lemma_offset_step(groups, g2);
            lemma_offset_mono(groups, g2 + 1, g1);
        }
    }
}

pub open spec fn language_part(slot: int, o: KeyView, e: KeyView, tracks: Seq<TrackView>) -> Seq<
    Seq<char>,
> {
    if o.language != e.language {
        language_args(tracks[slot].id, e.language)
    } else {
        Seq::empty()
    }
}

pub open spec fn name_part(slot: int, o: KeyView, e: KeyView, tracks: Seq<TrackView>) -> Seq<
    Seq<char>,
> {
    if o.name != e.name {
        name_args(tracks[slot].id, e.name)
    } else {
        Seq::empty()
    }
}

pub open spec fn flag_part(
    slot: int,
    flag: Flag,
    o: bool,
    e: bool,
    tracks: Seq<TrackView>,
) -> Seq<Seq<char>> {
    if o != e {
        flag_args(tracks[slot].id, flag, e)
    } else {
        Seq::empty()
    }
}

/// The edit-tool arguments for the changed attributes of one slot, in the
/// order language, name, default, forced, enabled.
pub open spec fn slot_args(slot: int, o: KeyView, e: KeyView, tracks: Seq<TrackView>) -> Seq<
    Seq<char>,
> {
    language_part(slot, o, e, tracks) + name_part(slot, o, e, tracks) + flag_part(
        slot,
        Flag::Default,
        o.default,
        e.default,
        tracks,
    ) + flag_part(slot, Flag::Forced, o.forced, e.forced, tracks) + flag_part(
        slot,
        Flag::Enabled,
        o.enabled,
        e.enabled,
        tracks,
    )
}

/// The arguments for the differences between `orig` and `edited` in the
/// first `n` slots, slot after slot.
pub open spec fn diff_args(
    orig: Seq<KeyView>,
    edited: Seq<KeyView>,
    tracks: Seq<TrackView>,
    n: int,
) -> Seq<Seq<char>>
    decreases n,
{
    if n <= 0 {
        Seq::empty()
    } else {
        diff_args(orig, edited, tracks, n - 1) + slot_args(n - 1, orig[n - 1], edited[n - 1], tracks)
    }
}

/// The command that applies the edit of `orig` into `edited` to one file.
pub open spec fn edit_command_args(orig: Seq<KeyView>, edited: Seq<KeyView>, file: File, t: TrackType) -> Seq<Seq<char>> {
    diff_args(orig, edited, file.tracks_spec(t), orig.len() as int).push(file.file_name@)
}

/// Every operation is for a slot below `n`.
pub open spec fn slots_below(ops: TrackOperations, n: usize) -> bool {
    forall|j: int| 0 <= j < ops.cmds@.len() ==> #[trigger] ops.cmds@[j].0 < n
}

proof fn lemma_append_one(before: Seq<(usize, TrackOperation)>, after: Seq<(usize, TrackOperation)>)
    requires
        after.len() == before.len() + 1,
        forall|j: int| 0 <= j < before.len() ==> after[j] == before[j],
    ensures
        forall|tracks: Seq<TrackView>|
            #[trigger] ops_args(after, tracks) == ops_args(before, tracks) + crate::track_operations::op_args(
                after.last().0,
                after.last().1,
                tracks,
            ),
{
    assert(after.drop_last() =~= before);
}

proof fn lemma_append_nothing(cmds: Seq<(usize, TrackOperation)>)
    ensures
        forall|tracks: Seq<TrackView>|
            #[trigger] ops_args(cmds, tracks) == ops_args(cmds, tracks) + Seq::<Seq<char>>::empty(),
{
    assert forall|tracks: Seq<TrackView>|
        #[trigger] ops_args(cmds, tracks) == ops_args(cmds, tracks) + Seq::<Seq<char>>::empty() by {
        assert(ops_args(cmds, tracks) =~= ops_args(cmds, tracks) + Seq::<Seq<char>>::empty());
    }
}

fn add_language_op(ops: &mut TrackOperations, n: usize, i: usize, cur: &GroupKey, changed: &GroupKey)
    requires
        i < n,
        slots_below(*old(ops), n),
    ensures
        final(ops).track_type == old(ops).track_type,
        slots_below(*final(ops), n),
        forall|tracks: Seq<TrackView>|
            #[trigger] ops_args(final(ops).cmds@, tracks) == ops_args(old(ops).cmds@, tracks)
                + language_part(i as int, cur@, changed@, tracks),
{
    if !opt_str_equal(&cur.language, &changed.language) {
        ops.add(i, TrackOperation::SetLang(copy_opt(&changed.language)));
        proof {
            lemma_append_one(old(ops).cmds@, ops.cmds@);
        }
    } else {
        proof {
            lemma_append_nothing(ops.cmds@);
        }
    }
}

fn add_name_op(ops: &mut TrackOperations, n: usize, i: usize, cur: &GroupKey, changed: &GroupKey)
    requires
        i < n,
        slots_below(*old(ops), n),
    ensures
        final(ops).track_type == old(ops).track_type,
        slots_below(*final(ops), n),
        forall|tracks: Seq<TrackView>|
            #[trigger] ops_args(final(ops).cmds@, tracks) == ops_args(old(ops).cmds@, tracks)
                + name_part(i as int, cur@, changed@, tracks),
{
    if !opt_str_equal(&cur.name, &changed.name) {
        ops.add(i, TrackOperation::SetTitle(copy_opt(&changed.name)));
        proof {
            lemma_append_one(old(ops).cmds@, ops.cmds@);
        }
    } else {
        proof {
            lemma_append_nothing(ops.cmds@);
        }
    }
}

fn add_flag_op(ops: &mut TrackOperations, n: usize, i: usize, flag: Flag, cur: bool, changed: bool)
    requires
        i < n,
        slots_below(*old(ops), n),
    ensures
        final(ops).track_type == old(ops).track_type,
        slots_below(*final(ops), n),
        forall|tracks: Seq<TrackView>|
            #[trigger] ops_args(final(ops).cmds@, tracks) == ops_args(old(ops).cmds@, tracks)
                + flag_part(i as int, flag, cur, changed, tracks),
{
    if cur != changed {
        let op = match flag {
            Flag::Default => TrackOperation::SetDefault(changed),
            Flag::Forced => TrackOperation::SetForced(changed),
            Flag::Enabled => TrackOperation::SetEnabled(changed),
        };
        ops.add(i, op);
        proof {
            lemma_append_one(old(ops).cmds@, ops.cmds@);
        }
    } else {
        proof {
            lemma_append_nothing(ops.cmds@);
        }
    }
}

proof fn lemma_concat_parts(
    start: Seq<Seq<char>>,
    after_first: Seq<Seq<char>>,
    after_second: Seq<Seq<char>>,
    after_third: Seq<Seq<char>>,
    after_fourth: Seq<Seq<char>>,
    after_fifth: Seq<Seq<char>>,
    first: Seq<Seq<char>>,
    second: Seq<Seq<char>>,
    third: Seq<Seq<char>>,
    fourth: Seq<Seq<char>>,
    fifth: Seq<Seq<char>>,
)
    requires
        after_first == start + first,
        after_second == after_first + second,
        after_third == after_second + third,
        after_fourth == after_third + fourth,
        after_fifth == after_fourth + fifth,
    ensures
        after_fifth == start + (first + second + third + fourth + fifth),
{
    assert(after_fifth =~= start + (first + second + third + fourth + fifth));
}

/// Adds the operations for the changed attributes of slot `i`.
fn add_slot_ops(ops: &mut TrackOperations, n: usize, i: usize, cur: &GroupKey, changed: &GroupKey)
    requires
        i < n,
        slots_below(*old(ops), n),
    ensures
        final(ops).track_type == old(ops).track_type,
        slots_below(*final(ops), n),
        forall|tracks: Seq<TrackView>|
            #[trigger] ops_args(final(ops).cmds@, tracks) == ops_args(old(ops).cmds@, tracks)
                + slot_args(i as int, cur@, changed@, tracks),
{
    let ghost s0 = *ops;
    add_language_op(ops, n, i, cur, changed);
    let ghost s1 = *ops;
    add_name_op(ops, n, i, cur, changed);
    let ghost s2 = *ops;
    add_flag_op(ops, n, i, Flag::Default, cur.default, changed.default);
    let ghost s3 = *ops;
    add_flag_op(ops, n, i, Flag::Forced, cur.forced, changed.forced);
    let ghost s4 = *ops;
    add_flag_op(ops, n, i, Flag::Enabled, cur.enabled, changed.enabled);
    proof {
        assert forall|tracks: Seq<TrackView>|
            #[trigger] ops_args(ops.cmds@, tracks) == ops_args(s0.cmds@, tracks) + slot_args(
                i as int,
                cur@,
                changed@,
                tracks,
            ) by {
            lemma_concat_parts(
                ops_args(s0.cmds@, tracks),
                ops_args(s1.cmds@, tracks),
                ops_args(s2.cmds@, tracks),
                ops_args(s3.cmds@, tracks),
                ops_args(s4.cmds@, tracks),
                ops_args(ops.cmds@, tracks),
                language_part(i as int, cur@, changed@, tracks),
                name_part(i as int, cur@, changed@, tracks),
                flag_part(i as int, Flag::Default, cur.default, changed.default, tracks),
                flag_part(i as int, Flag::Forced, cur.forced, changed.forced, tracks),
                flag_part(i as int, Flag::Enabled, cur.enabled, changed.enabled, tracks),
            );
        }
    }
}

impl<'a> Group<'a> {
    /// Compiles the edit of this group's fingerprint into `keys` into one
    /// edit-tool command per file of the group.
    pub fn apply_changes(&self, keys: &[GroupKey], track_type: TrackType) -> (r: Vec<Command>)
        requires
            keys@.len() == self.key@.len(),
            forall|k: int|
                0 <= k < self.files@.len() ==> (#[trigger] self.files@[k]).tracks_spec(
                    track_type,
                ).len() == self.key@.len(),
        ensures
            r@.len() == self.files@.len(),
            forall|k: int|
                0 <= k < r@.len() ==> {
                    &&& (#[trigger] r@[k]).executable@ == EDIT_TOOL@
                    &&& r@[k].output is None
                    &&& r@[k].args_view() == edit_command_args(
                        keys_view(self.key@),
                        keys_view(keys@),
                        *self.files@[k],
                        track_type,
                    )
                },
    {
        let ghost ov = keys_view(self.key@);
        let ghost ev = keys_view(keys@);
        let n = self.key.len();
        let mut ops = TrackOperations::new(track_type);
        let mut i: usize = 0;
        while i < n
            invariant
                n == self.key@.len(),
                n == keys@.len(),
                ov == keys_view(self.key@),
                ev == keys_view(keys@),
                i <= n,
                ops.track_type == track_type,
                slots_below(ops, n),
                forall|tracks: Seq<TrackView>|
                    #[trigger] ops_args(ops.cmds@, tracks) == diff_args(ov, ev, tracks, i as int),
            decreases n - i,
        {
            add_slot_ops(&mut ops, n, i, &self.key[i], &keys[i]);
            proof {
                assert forall|tracks: Seq<TrackView>|
                    #[trigger] ops_args(ops.cmds@, tracks) == diff_args(ov, ev, tracks, i + 1) by {
                    assert(ov[i as int] == self.key@[i as int]@);
                    assert(ev[i as int] == keys@[i as int]@);
                }
            }
            i = i + 1;
        }
        let mut commands: Vec<Command> = Vec::new();
        let mut k: usize = 0;
        while k < self.files.len()
            invariant
                k <= self.files@.len(),
                n == self.key@.len(),
                ov == keys_view(self.key@),
                ev == keys_view(keys@),
                ops.track_type == track_type,
                forall|j: int| 0 <= j < ops.cmds@.len() ==> #[trigger] ops.cmds@[j].0 < n,
                forall|tracks: Seq<TrackView>|
                    #[trigger] ops_args(ops.cmds@, tracks) == diff_args(ov, ev, tracks, n as int),
                forall|k: int|
                    0 <= k < self.files@.len() ==> (#[trigger] self.files@[k]).tracks_spec(
                        track_type,
                    ).len() == n,
                commands@.len() == k,
                forall|j: int|
                    0 <= j < k ==> {
                        &&& (#[trigger] commands@[j]).executable@ == EDIT_TOOL@
                        &&& commands@[j].output is None
                        &&& commands@[j].args_view() == edit_command_args(
                            ov,
                            ev,
                            *self.files@[j],
                            track_type,
                        )
                    },
            decreases self.files.len() - k,
        {
            let file: &File = self.files[k];
            assert(file.tracks_spec(track_type).len() == n);
            let command = ops.generate_command(file);
            assert(ops_args(ops.cmds@, file.tracks_spec(track_type)) == diff_args(
                ov,
                ev,
                file.tracks_spec(track_type),
                n as int,
            ));
            commands.push(command);
            k = k + 1;
        }
        commands
    }
}

proof fn lemma_diff_same(orig: Seq<KeyView>, tracks: Seq<TrackView>, n: int)
    ensures
        diff_args(orig, orig, tracks, n) == Seq::<Seq<char>>::empty(),
    decreases n,
{
    if n > 0 {
        lemma_diff_same(orig, tracks, n - 1);
        assert(slot_args(n - 1, orig[n - 1], orig[n - 1], tracks) =~= Seq::<Seq<char>>::empty());
        assert(diff_args(orig, orig, tracks, n) =~= Seq::<Seq<char>>::empty());
    }
}

/// Compiling a fingerprint that was not edited gives every file a command
/// whose only argument is the file's path.
pub proof fn lemma_unedited_commands(orig: Seq<KeyView>, file: File, t: TrackType)
    ensures
        edit_command_args(orig, orig, file, t) == seq![file.file_name@],
{
    lemma_diff_same(orig, file.tracks_spec(t), orig.len() as int);
    assert(edit_command_args(orig, orig, file, t) =~= seq![file.file_name@]);
}

proof fn lemma_diff_single(
    orig: Seq<KeyView>,
    edited: Seq<KeyView>,
    tracks: Seq<TrackView>,
    i: int,
    m: int,
)
    requires
        0 <= i,
        m <= orig.len(),
        forall|j: int| 0 <= j < orig.len() && j != i ==> orig[j] == edited[j],
    ensures
        diff_args(orig, edited, tracks, m) == if m > i {
            slot_args(i, orig[i], edited[i], tracks)
        } else {
            Seq::<Seq<char>>::empty()
        },
    decreases m,
{
    if m > 0 {
        lemma_diff_single(orig, edited, tracks, i, m - 1);
        if m - 1 != i {
            assert(slot_args(m - 1, orig[m - 1], edited[m - 1], tracks) =~= Seq::<Seq<char>>::empty());
        }
        assert(diff_args(orig, edited, tracks, m) =~= if m > i {
            slot_args(i, orig[i], edited[i], tracks)
        } else {
            Seq::<Seq<char>>::empty()
        });
    }
}

/// When exactly one attribute of one slot was edited, each file's command is
/// one edit scope for that slot's track, one setting, and the path: slots
/// that were not edited are not touched.
pub proof fn lemma_single_edit_commands(
    orig: Seq<KeyView>,
    edited: Seq<KeyView>,
    file: File,
    t: TrackType,
    i: int,
)
    requires
        orig.len() == edited.len(),
        0 <= i < orig.len(),
        differs_in_one_field(orig[i], edited[i]),
        forall|j: int| 0 <= j < orig.len() && j != i ==> orig[j] == edited[j],
    ensures
        edit_command_args(orig, edited, file, t).len() == 5,
        edit_command_args(orig, edited, file, t).take(2) == edit_scope(file.tracks_spec(t)[i].id),
        edit_command_args(orig, edited, file, t)[2] == "--set"@ || edit_command_args(
            orig,
            edited,
            file,
            t,
        )[2] == "--delete"@,
        edit_command_args(orig, edited, file, t)[4] == file.file_name@,
{
    let tracks = file.tracks_spec(t);
    lemma_diff_single(orig, edited, tracks, i, orig.len() as int);
    let args = edit_command_args(orig, edited, file, t);
    let slot = slot_args(i, orig[i], edited[i], tracks);
    let id = tracks[i].id;
    let o = orig[i];
    let e = edited[i];
    let single = if o.language != e.language {
        language_args(id, e.language)
    } else if o.name != e.name {
        name_args(id, e.name)
    } else if o.default != e.default {
        flag_args(id, Flag::Default, e.default)
    } else if o.forced != e.forced {
        flag_args(id, Flag::Forced, e.forced)
    } else {
        flag_args(id, Flag::Enabled, e.enabled)
    };
    assert(slot =~= single);
    assert(args =~= single.push(file.file_name@));
}

/// The files of all groups are exactly the input files: none is dropped and
/// none is added.
pub proof fn lemma_groups_cover_files(files: Seq<File>, t: TrackType, groups: Seq<Group>, f: File)
    requires
        is_grouping(files, t, groups),
    ensures
        (exists|g: int, k: int|
            0 <= g < groups.len() && 0 <= k < groups[g].files@.len() && *groups[g].files@[k] == f)
            <==> (exists|j: usize| j < files.len() && files[j as int] == f),
{
    if exists|g: int, k: int|
        0 <= g < groups.len() && 0 <= k < groups[g].files@.len() && *groups[g].files@[k] == f {
        let (g, k) = choose|g: int, k: int|
            0 <= g < groups.len() && 0 <= k < groups[g].files@.len() && *groups[g].files@[k] == f;
        assert(groups[g].wf(files, t));
        let j = groups[g].positions@[k];
        assert(j < files.len() && files[j as int] == f);
    }
    if exists|j: usize| j < files.len() && files[j as int] == f {
        let j = choose|j: usize| j < files.len() && files[j as int] == f;
        lemma_groups_partition(files, t, groups, j);
        let (g, k) = choose|g: int, k: int|
            0 <= g < groups.len() && 0 <= k < groups[g].positions@.len()
                && groups[g].positions@[k] == j;
        assert(groups[g].wf(files, t));
        assert(*groups[g].files@[k] == files[j as int]);
    }
}

/// The inputs of the lemmas below: two groupings of file lists whose files
/// have the same fingerprints position by position.
pub open spec fn same_prints(files: Seq<File>, files2: Seq<File>, t: TrackType) -> bool {
    &&& files.len() == files2.len()
    &&& forall|i: int| 0 <= i < files.len() ==> #[trigger] fingerprint_spec(files2[i], t) == fingerprint_spec(files[i], t)
}

proof fn lemma_same_prints_sym(files: Seq<File>, files2: Seq<File>, t: TrackType)
    requires
        same_prints(files, files2, t),
    ensures
        same_prints(files2, files, t),
{
    assert forall|i: int| 0 <= i < files2.len() implies #[trigger] fingerprint_spec(files[i], t) == fingerprint_spec(files2[i], t) by {
        assert(fingerprint_spec(files2[i], t) == fingerprint_spec(files[i], t));
    }
}

/// Group `g`'s key is the key of some group of the other grouping.
proof fn lemma_key_found(
    files: Seq<File>,
    files2: Seq<File>,
    t: TrackType,
    groups: Seq<Group>,
    groups2: Seq<Group>,
    g: int,
) -> (g2: int)
    requires
        same_prints(files, files2, t),
        is_grouping(files, t, groups),
        is_grouping(files2, t, groups2),
        0 <= g < groups.len(),
    ensures
        0 <= g2 < groups2.len(),
        keys_view(groups2[g2].key@) == keys_view(groups[g].key@),
{
    assert(groups[g].wf(files, t));
    let j = groups[g].positions@[0];
    assert(groups[g].positions@.contains(j));
    lemma_group_of_file(files, t, groups, j, g);
    lemma_groups_partition(files2, t, groups2, j);
    let (g2, k) = choose|g2: int, k: int|
        0 <= g2 < groups2.len() && 0 <= k < groups2[g2].positions@.len()
            && groups2[g2].positions@[k] == j;
    assert(groups2[g2].positions@.contains(j));
    lemma_group_of_file(files2, t, groups2, j, g2);
    assert(fingerprint_spec(files2[j as int], t) == fingerprint_spec(files[j as int], t));
    g2
}

proof fn lemma_keys_agree(
    files: Seq<File>,
    files2: Seq<File>,
    t: TrackType,
    groups: Seq<Group>,
    groups2: Seq<Group>,
    g: int,
)
    requires
        same_prints(files, files2, t),
        is_grouping(files, t, groups),
        is_grouping(files2, t, groups2),
        0 <= g < groups.len(),
        g < groups2.len(),
    ensures
        forall|h: int| 0 <= h <= g ==> keys_view(#[trigger] groups[h].key@) == keys_view(groups2[h].key@),
    decreases g,
{
    if g > 0 {
        lemma_keys_agree(files, files2, t, groups, groups2, g - 1);
    }
    lemma_same_prints_sym(files, files2, t);
    let a = keys_view(groups[g].key@);
    let b = keys_view(groups2[g].key@);
    let g2 = lemma_key_found(files, files2, t, groups, groups2, g);
    let g1 = lemma_key_found(files2, files, t, groups2, groups, g);
    if g2 < g {
        assert(keys_view(groups[g2].key@) == keys_view(groups2[g2].key@));
        lemma_group_keys_increase(files, t, groups, g2, g);
        lemma_keys_cmp(keys_view(groups[g2].key@), a);
    } else if g1 < g {
        assert(keys_view(groups[g1].key@) == keys_view(groups2[g1].key@));
        lemma_group_keys_increase(files2, t, groups2, g1, g);
        lemma_keys_cmp(keys_view(groups2[g1].key@), b);
    } else if g2 > g {
        lemma_group_keys_increase(files2, t, groups2, g, g2);
        lemma_keys_cmp(b, a);
        if g1 > g {
            lemma_group_keys_increase(files, t, groups, g, g1);
            lemma_keys_cmp(a, b);
        }
    } else {
        assert(a == b);
    }
}

proof fn lemma_increasing_same_members(a: Seq<usize>, b: Seq<usize>)
    requires
        forall|k: int, l: int| 0 <= k < l < a.len() ==> #[trigger] a[k] < #[trigger] a[l],
        forall|k: int, l: int| 0 <= k < l < b.len() ==> #[trigger] b[k] < #[trigger] b[l],
        forall|x: usize| a.contains(x) <==> b.contains(x),
    ensures
        a == b,
    decreases a.len() + b.len(),
{
    if a.len() == 0 {
        if b.len() > 0 {
            assert(b.contains(b[0]));
        }
        assert(a =~= b);
    } else if b.len() == 0 {
        assert(a.contains(a[0]));
    } else {
        assert(a.contains(a[0]));
        assert(b.contains(b[0]));
        let ka = choose|k: int| 0 <= k < a.len() && a[k] == b[0];
        let kb = choose|k: int| 0 <= k < b.len() && b[k] == a[0];
        if ka > 0 {
            assert(a[0] < a[ka]);
            if kb > 0 {
                assert(b[0] < b[kb]);
            }
        }
        if kb > 0 {
            assert(b[0] < b[kb]);
        }
        assert(a[0] == b[0]);
        let ra = a.drop_first();
        let rb = b.drop_first();
        assert forall|x: usize| ra.contains(x) <==> rb.contains(x) by {
            if ra.contains(x) {
                let k = choose|k: int| 0 <= k < ra.len() && ra[k] == x;
                assert(a[k + 1] == x && a[0] < a[k + 1]);
                assert(a.contains(x));
                let m = choose|m: int| 0 <= m < b.len() && b[m] == x;
                assert(m != 0);
                assert(rb[m - 1] == x);
            }
            if rb.contains(x) {
                let k = choose|k: int| 0 <= k < rb.len() && rb[k] == x;
                assert(b[k + 1] == x && b[0] < b[k + 1]);
                assert(b.contains(x));
                let m = choose|m: int| 0 <= m < a.len() && a[m] == x;
                assert(m != 0);
                assert(ra[m - 1] == x);
            }
        }
        assert forall|k: int, l: int| 0 <= k < l < ra.len() implies #[trigger] ra[k] < #[trigger] ra[l] by {
            assert(a[k + 1] < a[l + 1]);
        }
        assert forall|k: int, l: int| 0 <= k < l < rb.len() implies #[trigger] rb[k] < #[trigger] rb[l] by {
            assert(b[k + 1] < b[l + 1]);
        }
        lemma_increasing_same_members(ra, rb);
        assert(a =~= seq![a[0]] + ra);
        assert(b =~= seq![b[0]] + rb);
    }
}

/// Regrouping files whose fingerprints did not change (such as a file
/// probed again without having been edited, put back by path) gives the same
/// groups: as many, with the same keys, each holding the same positions.
pub proof fn lemma_regroup_same_groups(
    files: Seq<File>,
    files2: Seq<File>,
    t: TrackType,
    groups: Seq<Group>,
    groups2: Seq<Group>,
)
    requires
        same_prints(files, files2, t),
        is_grouping(files, t, groups),
        is_grouping(files2, t, groups2),
    ensures
        groups.len() == groups2.len(),
        forall|g: int|
            0 <= g < groups.len() ==> keys_view(#[trigger] groups[g].key@) == keys_view(groups2[g].key@)
                && groups[g].positions@ == groups2[g].positions@,
{
    lemma_same_prints_sym(files, files2, t);
    if groups.len() > groups2.len() {
        let g = groups2.len() as int;
        let h = lemma_key_found(files, files2, t, groups, groups2, g);
        lemma_keys_agree(files, files2, t, groups, groups2, h);
        lemma_group_keys_increase(files, t, groups, h, g);
        lemma_keys_cmp(keys_view(groups[h].key@), keys_view(groups[g].key@));
    } else if groups2.len() > groups.len() {
        let g = groups.len() as int;
        let h = lemma_key_found(files2, files, t, groups2, groups, g);
        lemma_keys_agree(files2, files, t, groups2, groups, h);
        lemma_group_keys_increase(files2, t, groups2, h, g);
        lemma_keys_cmp(keys_view(groups2[h].key@), keys_view(groups2[g].key@));
    }
    if groups.len() > 0 {
        lemma_keys_agree(files, files2, t, groups, groups2, groups.len() - 1);
    }
    assert forall|g: int| 0 <= g < groups.len() implies keys_view(#[trigger] groups[g].key@) == keys_view(
        groups2[g].key@,
    ) && groups[g].positions@ == groups2[g].positions@ by {
        assert(groups[g].wf(files, t));
        assert(groups2[g].wf(files2, t));
        assert forall|x: usize| groups[g].positions@.contains(x) <==> groups2[g].positions@.contains(x) by {
            if groups[g].positions@.contains(x) {
                let k = choose|k: int| 0 <= k < groups[g].positions@.len() && groups[g].positions@[k] == x;
                assert(x < files.len());
                lemma_group_of_file(files, t, groups, x, g);
                lemma_group_of_file(files2, t, groups2, x, g);
                assert(fingerprint_spec(files2[x as int], t) == fingerprint_spec(files[x as int], t));
            }
            if groups2[g].positions@.contains(x) {
                let k = choose|k: int| 0 <= k < groups2[g].positions@.len() && groups2[g].positions@[k] == x;
                assert(x < files2.len());
                lemma_group_of_file(files, t, groups, x, g);
                lemma_group_of_file(files2, t, groups2, x, g);
                assert(fingerprint_spec(files2[x as int], t) == fingerprint_spec(files[x as int], t));
            }
        }
        lemma_increasing_same_members(groups[g].positions@, groups2[g].positions@);
    }
}

proof fn lemma_group_keys_increase(files: Seq<File>, t: TrackType, groups: Seq<Group>, g: int, h: int)
    requires
        is_grouping(files, t, groups),
        0 <= g < h < groups.len(),
    ensures
        keys_cmp(keys_view(groups[g].key@), keys_view(groups[h].key@)) < 0,
    decreases h - g,
{
    if h > g + 1 {
        lemma_group_keys_increase(files, t, groups, g, h - 1);
        let a = keys_view(groups[g].key@);
        let b = keys_view(groups[h - 1].key@);
        let c = keys_view(groups[h].key@);
        assert(keys_cmp(b, c) < 0);
        lemma_keys_cmp_trans(a, b, c);
        lemma_keys_cmp(a, c);
        lemma_keys_cmp(b, c);
        if a == c {
            lemma_keys_cmp(a, b);
        }
    }
}

/// In a grouping, a file is in a group exactly when the group's key is the
/// file's fingerprint: the fingerprint alone decides the group.
pub proof fn lemma_group_of_file(files: Seq<File>, t: TrackType, groups: Seq<Group>, j: usize, g: int)
    requires
        is_grouping(files, t, groups),
        j < files.len(),
        0 <= g < groups.len(),
    ensures
        groups[g].positions@.contains(j) <==> keys_view(groups[g].key@) == fingerprint_spec(
            files[j as int],
            t,
        ),
{
    assert(groups[g].wf(files, t));
    if groups[g].positions@.contains(j) {
        let k = choose|k: int| 0 <= k < groups[g].positions@.len() && groups[g].positions@[k] == j;
        assert(fingerprint_spec(files[groups[g].positions@[k] as int], t) == keys_view(groups[g].key@));
    }
    if keys_view(groups[g].key@) == fingerprint_spec(files[j as int], t) {
        lemma_groups_partition(files, t, groups, j);
        let (h, k) = choose|h: int, k: int|
            0 <= h < groups.len() && 0 <= k < groups[h].positions@.len()
                && groups[h].positions@[k] == j;
        assert(groups[h].wf(files, t));
        assert(fingerprint_spec(files[groups[h].positions@[k] as int], t) == keys_view(groups[h].key@));
        if g < h {
            lemma_group_keys_increase(files, t, groups, g, h);
            lemma_keys_cmp(keys_view(groups[g].key@), keys_view(groups[h].key@));
        } else if h < g {
            lemma_group_keys_increase(files, t, groups, h, g);
            lemma_keys_cmp(keys_view(groups[h].key@), keys_view(groups[g].key@));
        }
        assert(groups[g].positions@[k] == j);
    }
}

/// A file decoded again from the same report has the same path and the same
/// fingerprint for every track type, so replacing it by path leaves the
/// group it belongs to unchanged.
pub proof fn lemma_reprobe_same_fingerprint(json: Json, a: File, b: File, t: TrackType)
    requires
        a.decoded_from(json),
        b.decoded_from(json),
    ensures
        a.file_name@ == b.file_name@,
        fingerprint_spec(a, t) == fingerprint_spec(b, t),
{
    assert(a.tracks_spec(t) == b.tracks_spec(t));
}

/// Argument `arg` selects the track of a slot among the first `n` whose
/// attributes were edited.
pub open spec fn changed_scope(
    arg: Seq<char>,
    orig: Seq<KeyView>,
    edited: Seq<KeyView>,
    tracks: Seq<TrackView>,
    n: int,
) -> bool {
    exists|i: int|
        0 <= i < n && orig[i] != edited[i] && arg == "track:@"@ + crate::text::decimal(
            tracks[i].id + 1,
        )
}

/// The `q`-th group of four arguments is an edit scope of an edited slot.
pub open spec fn quad_ok(
    args: Seq<Seq<char>>,
    q: int,
    orig: Seq<KeyView>,
    edited: Seq<KeyView>,
    tracks: Seq<TrackView>,
    n: int,
) -> bool {
    args[4 * q] == "--edit"@ && changed_scope(args[4 * q + 1], orig, edited, tracks, n)
}

/// The arguments come in groups of four, each opened by the edit scope of a
/// slot whose attributes were edited.
pub open spec fn scoped(
    args: Seq<Seq<char>>,
    orig: Seq<KeyView>,
    edited: Seq<KeyView>,
    tracks: Seq<TrackView>,
    n: int,
) -> bool {
    &&& args.len() % 4 == 0
    &&& forall|q: int| 0 <= q && 4 * q < args.len() ==> #[trigger] quad_ok(args, q, orig, edited, tracks, n)
}

proof fn lemma_scoped_concat(
    a: Seq<Seq<char>>,
    b: Seq<Seq<char>>,
    orig: Seq<KeyView>,
    edited: Seq<KeyView>,
    tracks: Seq<TrackView>,
    n: int,
)
    requires
        scoped(a, orig, edited, tracks, n),
        scoped(b, orig, edited, tracks, n),
    ensures
        scoped(a + b, orig, edited, tracks, n),
{
    let ka = a.len() / 4;
    assert(a.len() == 4 * ka);
    assert forall|q: int| 0 <= q && 4 * q < (a + b).len() implies #[trigger] quad_ok(
        a + b,
        q,
        orig,
        edited,
        tracks,
        n,
    ) by {
        if q < ka {
            assert(quad_ok(a, q, orig, edited, tracks, n));
            assert((a + b)[4 * q] == a[4 * q]);
            assert((a + b)[4 * q + 1] == a[4 * q + 1]);
        } else {
            let r = q - ka;
            assert(4 * r < b.len());
            assert(quad_ok(b, r, orig, edited, tracks, n));
            assert((a + b)[4 * q] == b[4 * r]);
            assert((a + b)[4 * q + 1] == b[4 * r + 1]);
        }
    }
}

proof fn lemma_scoped_wider(
    args: Seq<Seq<char>>,
    orig: Seq<KeyView>,
    edited: Seq<KeyView>,
    tracks: Seq<TrackView>,
    n: int,
    m: int,
)
    requires
        scoped(args, orig, edited, tracks, n),
        n <= m,
    ensures
        scoped(args, orig, edited, tracks, m),
{
    assert forall|q: int| 0 <= q && 4 * q < args.len() implies #[trigger] quad_ok(
        args,
        q,
        orig,
        edited,
        tracks,
        m,
    ) by {
        assert(quad_ok(args, q, orig, edited, tracks, n));
        let i = choose|i: int|
            0 <= i < n && orig[i] != edited[i] && args[4 * q + 1] == "track:@"@ + crate::text::decimal(
                tracks[i].id + 1,
            );
        assert(changed_scope(args[4 * q + 1], orig, edited, tracks, m));
    }
}

/// One group of four arguments for slot `i`, opened by its edit scope.
proof fn lemma_scoped_piece(
    piece: Seq<Seq<char>>,
    rest: Seq<Seq<char>>,
    orig: Seq<KeyView>,
    edited: Seq<KeyView>,
    tracks: Seq<TrackView>,
    i: int,
    n: int,
)
    requires
        0 <= i < n,
        orig[i] != edited[i],
        rest.len() == 2,
        piece == crate::track_operations::edit_scope(tracks[i].id) + rest,
    ensures
        scoped(piece, orig, edited, tracks, n),
{
    assert forall|q: int| 0 <= q && 4 * q < piece.len() implies #[trigger] quad_ok(
        piece,
        q,
        orig,
        edited,
        tracks,
        n,
    ) by {
        assert(q == 0);
        assert(piece[0] == "--edit"@);
        assert(piece[1] == "track:@"@ + crate::text::decimal(tracks[i].id + 1));
    }
}

proof fn lemma_scoped_empty(orig: Seq<KeyView>, edited: Seq<KeyView>, tracks: Seq<TrackView>, n: int)
    ensures
        scoped(Seq::<Seq<char>>::empty(), orig, edited, tracks, n),
{
}

proof fn lemma_slot_scoped(orig: Seq<KeyView>, edited: Seq<KeyView>, tracks: Seq<TrackView>, i: int)
    requires
        0 <= i < orig.len(),
        orig.len() == edited.len(),
    ensures
        scoped(slot_args(i, orig[i], edited[i], tracks), orig, edited, tracks, i + 1),
{
    let o = orig[i];
    let e = edited[i];
    let id = tracks[i].id;
    let n = i + 1;
    let l = language_part(i, o, e, tracks);
    let m = name_part(i, o, e, tracks);
    let d = flag_part(i, Flag::Default, o.default, e.default, tracks);
    let f = flag_part(i, Flag::Forced, o.forced, e.forced, tracks);
    let en = flag_part(i, Flag::Enabled, o.enabled, e.enabled, tracks);
    lemma_scoped_empty(orig, edited, tracks, n);
    if o.language != e.language {
        assert(l =~= crate::track_operations::edit_scope(id) + l.skip(2));
        lemma_scoped_piece(l, l.skip(2), orig, edited, tracks, i, n);
    }
    if o.name != e.name {
        assert(m =~= crate::track_operations::edit_scope(id) + m.skip(2));
        lemma_scoped_piece(m, m.skip(2), orig, edited, tracks, i, n);
    }
    if o.default != e.default {
        assert(d =~= crate::track_operations::edit_scope(id) + d.skip(2));
        lemma_scoped_piece(d, d.skip(2), orig, edited, tracks, i, n);
    }
    if o.forced != e.forced {
        assert(f =~= crate::track_operations::edit_scope(id) + f.skip(2));
        lemma_scoped_piece(f, f.skip(2), orig, edited, tracks, i, n);
    }
    if o.enabled != e.enabled {
        assert(en =~= crate::track_operations::edit_scope(id) + en.skip(2));
        lemma_scoped_piece(en, en.skip(2), orig, edited, tracks, i, n);
    }
    lemma_scoped_concat(l, m, orig, edited, tracks, n);
    lemma_scoped_concat(l + m, d, orig, edited, tracks, n);
    lemma_scoped_concat(l + m + d, f, orig, edited, tracks, n);
    lemma_scoped_concat(l + m + d + f, en, orig, edited, tracks, n);
}

proof fn lemma_diff_scoped(orig: Seq<KeyView>, edited: Seq<KeyView>, tracks: Seq<TrackView>, n: int)
    requires
        0 <= n <= orig.len(),
        orig.len() == edited.len(),
    ensures
        scoped(diff_args(orig, edited, tracks, n), orig, edited, tracks, n),
    decreases n,
{
    if n > 0 {
        lemma_diff_scoped(orig, edited, tracks, n - 1);
        lemma_scoped_wider(diff_args(orig, edited, tracks, n - 1), orig, edited, tracks, n - 1, n);
        lemma_slot_scoped(orig, edited, tracks, n - 1);
        lemma_scoped_concat(
            diff_args(orig, edited, tracks, n - 1),
            slot_args(n - 1, orig[n - 1], edited[n - 1], tracks),
            orig,
            edited,
            tracks,
            n,
        );
    }
}

/// A compiled command touches only edited slots: before the path, its
/// arguments come in groups of four, each opened by `--edit` and the scope
/// of the track of a slot whose attributes differ between the two
/// fingerprints.
pub proof fn lemma_edits_touch_only_changed_slots(
    orig: Seq<KeyView>,
    edited: Seq<KeyView>,
    file: File,
    t: TrackType,
)
    requires
        orig.len() == edited.len(),
    ensures
        edit_command_args(orig, edited, file, t).last() == file.file_name@,
        scoped(
            edit_command_args(orig, edited, file, t).drop_last(),
            orig,
            edited,
            file.tracks_spec(t),
            orig.len() as int,
        ),
{
    lemma_diff_scoped(orig, edited, file.tracks_spec(t), orig.len() as int);
    assert(edit_command_args(orig, edited, file, t).drop_last() == diff_args(
        orig,
        edited,
        file.tracks_spec(t),
        orig.len() as int,
    ));
}

} // verus!

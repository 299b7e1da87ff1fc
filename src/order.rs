//! A total order on fingerprints, used to bring equal ones together.

use vstd::prelude::*;
use crate::group::{GroupKey, KeyView, keys_view};

verus! {

/// A three-way comparison (`-1`, `0`, `1`) that is a total order whose ties
/// are exactly the equal values.
pub open spec fn is_order<T>(c: spec_fn(T, T) -> int) -> bool {
    &&& forall|x: T, y: T| #![trigger c(x, y)] -1 <= c(x, y) <= 1
    &&& forall|x: T, y: T| #![trigger c(x, y)] (c(x, y) == 0) == (x == y)
    &&& forall|x: T, y: T| #![trigger c(x, y)] c(x, y) == -c(y, x)
    &&& forall|x: T, y: T, z: T|
        #![trigger c(x, y), c(y, z)]
        c(x, y) <= 0 && c(y, z) <= 0 ==> c(x, z) <= 0
}

/// Lexicographic comparison of sequences; a proper prefix comes first.
pub open spec fn lex<T>(a: Seq<T>, b: Seq<T>, c: spec_fn(T, T) -> int) -> int
    decreases a.len(),
{
    if a.len() == 0 {
        if b.len() == 0 {
            0
        } else {
            -1
        }
    } else if b.len() == 0 {
        1
    } else if c(a[0], b[0]) != 0 {
        c(a[0], b[0])
    } else {
        lex(a.drop_first(), b.drop_first(), c)
    }
}

proof fn lemma_lex_basic<T>(a: Seq<T>, b: Seq<T>, c: spec_fn(T, T) -> int)
    requires
        is_order(c),
    ensures
        -1 <= lex(a, b, c) <= 1,
        (lex(a, b, c) == 0) == (a == b),
        lex(a, b, c) == -lex(b, a, c),
    decreases a.len(),
{
    if a.len() > 0 && b.len() > 0 {
        lemma_lex_basic(a.drop_first(), b.drop_first(), c);
        if c(a[0], b[0]) == 0 && a.drop_first() == b.drop_first() {
            assert(a == seq![a[0]] + a.drop_first());
            assert(b == seq![b[0]] + b.drop_first());
        }
    } else if a.len() == 0 && b.len() == 0 {
        assert(a == b);
    }
}

proof fn lemma_lex_trans<T>(a: Seq<T>, b: Seq<T>, d: Seq<T>, c: spec_fn(T, T) -> int)
    requires
        is_order(c),
        lex(a, b, c) <= 0,
        lex(b, d, c) <= 0,
    ensures
        lex(a, d, c) <= 0,
    decreases a.len(),
{
    if a.len() > 0 && b.len() > 0 && d.len() > 0 {
        if c(a[0], b[0]) == 0 && c(b[0], d[0]) == 0 {
            lemma_lex_trans(a.drop_first(), b.drop_first(), d.drop_first(), c);
        }
        assert(c(a[0], b[0]) <= 0 && c(b[0], d[0]) <= 0);
        if c(a[0], d[0]) == 0 {
            assert(a[0] == d[0]);
            assert(c(b[0], a[0]) <= 0);
            assert(c(a[0], b[0]) == 0);
        }
    }
}

pub proof fn lemma_lex_order<T>(c: spec_fn(T, T) -> int)
    requires
        is_order(c),
    ensures
        is_order(|a: Seq<T>, b: Seq<T>| lex(a, b, c)),
{
    let l = |a: Seq<T>, b: Seq<T>| lex(a, b, c);
    assert forall|x: Seq<T>, y: Seq<T>| #![trigger l(x, y)]
        -1 <= l(x, y) <= 1 && (l(x, y) == 0) == (x == y) && l(x, y) == -l(y, x) by {
        lemma_lex_basic(x, y, c);
    }
    assert forall|x: Seq<T>, y: Seq<T>, z: Seq<T>|
        #![trigger l(x, y), l(y, z)]
        l(x, y) <= 0 && l(y, z) <= 0 implies l(x, z) <= 0 by {
        lemma_lex_trans(x, y, z, c);
    }
}

pub open spec fn char_cmp(x: char, y: char) -> int {
    if (x as u32) < (y as u32) {
        -1
    } else if x == y {
        0
    } else {
        1
    }
}

pub open spec fn text_cmp(a: Seq<char>, b: Seq<char>) -> int {
    lex(a, b, |x: char, y: char| char_cmp(x, y))
}

/// Unset comes before any string.
pub open spec fn opt_text_cmp(a: Option<Seq<char>>, b: Option<Seq<char>>) -> int {
    match (a, b) {
        (None, None) => 0,
        (None, Some(_)) => -1,
        (Some(_), None) => 1,
        (Some(x), Some(y)) => text_cmp(x, y),
    }
}

pub open spec fn bool_cmp(a: bool, b: bool) -> int {
    if a == b {
        0
    } else if !a {
        -1
    } else {
        1
    }
}

/// Slot tuples by language, then name, then the three flags.
pub open spec fn key_cmp(a: KeyView, b: KeyView) -> int {
    if opt_text_cmp(a.language, b.language) != 0 {
        opt_text_cmp(a.language, b.language)
    } else if opt_text_cmp(a.name, b.name) != 0 {
        opt_text_cmp(a.name, b.name)
    } else if bool_cmp(a.default, b.default) != 0 {
        bool_cmp(a.default, b.default)
    } else if bool_cmp(a.forced, b.forced) != 0 {
        bool_cmp(a.forced, b.forced)
    } else {
        bool_cmp(a.enabled, b.enabled)
    }
}

/// The order on fingerprints: lexicographic over their slot tuples.
pub open spec fn keys_cmp(a: Seq<KeyView>, b: Seq<KeyView>) -> int {
    lex(a, b, |x: KeyView, y: KeyView| key_cmp(x, y))
}

proof fn lemma_char_order()
    ensures
        is_order(|x: char, y: char| char_cmp(x, y)),
{
    let c = |x: char, y: char| char_cmp(x, y);
    assert forall|x: char, y: char| #![trigger c(x, y)]
        -1 <= c(x, y) <= 1 && (c(x, y) == 0) == (x == y) && c(x, y) == -c(y, x) by {
        vstd::utf8::char_u32_cast(x, x as u32);
        vstd::utf8::char_u32_cast(y, y as u32);
    }
    assert forall|x: char, y: char, z: char|
        #![trigger c(x, y), c(y, z)]
        c(x, y) <= 0 && c(y, z) <= 0 implies c(x, z) <= 0 by {
        vstd::utf8::char_u32_cast(x, x as u32);
        vstd::utf8::char_u32_cast(y, y as u32);
        vstd::utf8::char_u32_cast(z, z as u32);
    }
}

proof fn lemma_opt_text_order()
    ensures
        is_order(|a: Option<Seq<char>>, b: Option<Seq<char>>| opt_text_cmp(a, b)),
{
    lemma_char_order();
    lemma_lex_order(|x: char, y: char| char_cmp(x, y));
    let t = |a: Seq<char>, b: Seq<char>| lex(a, b, |x: char, y: char| char_cmp(x, y));
    assert(is_order(t));
    let o = |a: Option<Seq<char>>, b: Option<Seq<char>>| opt_text_cmp(a, b);
    assert forall|x: Option<Seq<char>>, y: Option<Seq<char>>| #![trigger o(x, y)]
        -1 <= o(x, y) <= 1 && (o(x, y) == 0) == (x == y) && o(x, y) == -o(y, x) by {
        if x is Some && y is Some {
            assert(t(x->0, y->0) == text_cmp(x->0, y->0));
        }
    }
    assert forall|x: Option<Seq<char>>, y: Option<Seq<char>>, z: Option<Seq<char>>|
        #![trigger o(x, y), o(y, z)]
        o(x, y) <= 0 && o(y, z) <= 0 implies o(x, z) <= 0 by {
        if x is Some && y is Some && z is Some {
            assert(t(x->0, y->0) == text_cmp(x->0, y->0));
            assert(t(y->0, z->0) == text_cmp(y->0, z->0));
            assert(t(x->0, z->0) == text_cmp(x->0, z->0));
        }
    }
}

pub proof fn lemma_key_order()
    ensures
        is_order(|x: KeyView, y: KeyView| key_cmp(x, y)),
{
    lemma_opt_text_order();
    let o = |a: Option<Seq<char>>, b: Option<Seq<char>>| opt_text_cmp(a, b);
    let k = |x: KeyView, y: KeyView| key_cmp(x, y);
    assert forall|x: KeyView, y: KeyView| #![trigger k(x, y)]
        -1 <= k(x, y) <= 1 && (k(x, y) == 0) == (x == y) && k(x, y) == -k(y, x) by {
        assert(o(x.language, y.language) == opt_text_cmp(x.language, y.language));
        assert(o(x.name, y.name) == opt_text_cmp(x.name, y.name));
        assert(o(y.language, x.language) == opt_text_cmp(y.language, x.language));
        assert(o(y.name, x.name) == opt_text_cmp(y.name, x.name));
    }
    assert forall|x: KeyView, y: KeyView, z: KeyView|
        #![trigger k(x, y), k(y, z)]
        k(x, y) <= 0 && k(y, z) <= 0 implies k(x, z) <= 0 by {
        assert(o(x.language, y.language) == opt_text_cmp(x.language, y.language));
        assert(o(y.language, z.language) == opt_text_cmp(y.language, z.language));
        assert(o(x.language, z.language) == opt_text_cmp(x.language, z.language));
        assert(o(y.language, x.language) == opt_text_cmp(y.language, x.language));
        assert(o(z.language, y.language) == opt_text_cmp(z.language, y.language));
        assert(o(x.name, y.name) == opt_text_cmp(x.name, y.name));
        assert(o(y.name, z.name) == opt_text_cmp(y.name, z.name));
        assert(o(x.name, z.name) == opt_text_cmp(x.name, z.name));
        assert(o(y.name, x.name) == opt_text_cmp(y.name, x.name));
        assert(o(z.name, y.name) == opt_text_cmp(z.name, y.name));
    }
}

/// The order on fingerprints is total, and ties only equal fingerprints.
pub proof fn lemma_keys_order()
    ensures
        is_order(|a: Seq<KeyView>, b: Seq<KeyView>| keys_cmp(a, b)),
{
    lemma_key_order();
    lemma_lex_order(|x: KeyView, y: KeyView| key_cmp(x, y));
    let l = |a: Seq<KeyView>, b: Seq<KeyView>| lex(a, b, |x: KeyView, y: KeyView| key_cmp(x, y));
    let m = |a: Seq<KeyView>, b: Seq<KeyView>| keys_cmp(a, b);
    assert forall|x: Seq<KeyView>, y: Seq<KeyView>| #[trigger] m(x, y) == l(x, y) by {}
}

pub fn cmp_text(a: &str, b: &str) -> (r: i8)
    ensures
        r as int == text_cmp(a@, b@),
{
    let n = a.unicode_len();
    let m = b.unicode_len();
    let mut i: usize = 0;
    assert(a@.skip(0) == a@);
    assert(b@.skip(0) == b@);
    while i < n && i < m
        invariant
            n == a@.len(),
            m == b@.len(),
            i <= n,
            i <= m,
            text_cmp(a@, b@) == text_cmp(a@.skip(i as int), b@.skip(i as int)),
        decreases n - i,
    {
        let x = a.get_char(i);
        let y = b.get_char(i);
        assert(a@.skip(i as int)[0] == x);
        assert(b@.skip(i as int)[0] == y);
        if (x as u32) < (y as u32) {
            return -1;
        }
        if x != y {
            return 1;
        }
        assert(a@.skip(i as int).drop_first() == a@.skip(i + 1));
        assert(b@.skip(i as int).drop_first() == b@.skip(i + 1));
        i = i + 1;
    }
    if i < m {
        -1
    } else if i < n {
        1
    } else {
        0
    }
}

pub fn cmp_opt_text(a: &Option<String>, b: &Option<String>) -> (r: i8)
    ensures
        r as int == opt_text_cmp(crate::file::opt_view(*a), crate::file::opt_view(*b)),
{
    match (a, b) {
        (None, None) => 0,
        (None, Some(_)) => -1,
        (Some(_), None) => 1,
        (Some(x), Some(y)) => cmp_text(x.as_str(), y.as_str()),
    }
}

fn cmp_bool(a: bool, b: bool) -> (r: i8)
    ensures
        r as int == bool_cmp(a, b),
{
    if a == b {
        0
    } else if !a {
        -1
    } else {
        1
    }
}

pub fn cmp_key(a: &GroupKey, b: &GroupKey) -> (r: i8)
    ensures
        r as int == key_cmp(a@, b@),
{
    let c = cmp_opt_text(&a.language, &b.language);
    if c != 0 {
        return c;
    }
    let c = cmp_opt_text(&a.name, &b.name);
    if c != 0 {
        return c;
    }
    let c = cmp_bool(a.default, b.default);
    if c != 0 {
        return c;
    }
    let c = cmp_bool(a.forced, b.forced);
    if c != 0 {
        return c;
    }
    cmp_bool(a.enabled, b.enabled)
}

/// Compares two fingerprints in the order groups are listed.
pub fn cmp_keys(a: &Vec<GroupKey>, b: &Vec<GroupKey>) -> (r: i8)
    ensures
        r as int == keys_cmp(keys_view(a@), keys_view(b@)),
{
    let ghost av = keys_view(a@);
    let ghost bv = keys_view(b@);
    let mut i: usize = 0;
    assert(av.skip(0) == av);
    assert(bv.skip(0) == bv);
    while i < a.len() && i < b.len()
        invariant
            av == keys_view(a@),
            bv == keys_view(b@),
            i <= a@.len(),
            i <= b@.len(),
            keys_cmp(av, bv) == keys_cmp(av.skip(i as int), bv.skip(i as int)),
        decreases a.len() - i,
    {
        assert(av.skip(i as int)[0] == a@[i as int]@);
        assert(bv.skip(i as int)[0] == b@[i as int]@);
        let c = cmp_key(&a[i], &b[i]);
        if c != 0 {
            return c;
        }
        assert(av.skip(i as int).drop_first() == av.skip(i + 1));
        assert(bv.skip(i as int).drop_first() == bv.skip(i + 1));
        i = i + 1;
    }
    if i < b.len() {
        -1
    } else if i < a.len() {
        1
    } else {
        0
    }
}

pub proof fn lemma_keys_cmp(a: Seq<KeyView>, b: Seq<KeyView>)
    ensures
        -1 <= keys_cmp(a, b) <= 1,
        (keys_cmp(a, b) == 0) == (a == b),
        keys_cmp(a, b) == -keys_cmp(b, a),
{
    lemma_keys_order();
    let m = |a: Seq<KeyView>, b: Seq<KeyView>| keys_cmp(a, b);
    assert(m(a, b) == keys_cmp(a, b));
    assert(m(b, a) == keys_cmp(b, a));
}

pub proof fn lemma_keys_cmp_trans(a: Seq<KeyView>, b: Seq<KeyView>, c: Seq<KeyView>)
    requires
        keys_cmp(a, b) <= 0,
        keys_cmp(b, c) <= 0,
    ensures
        keys_cmp(a, c) <= 0,
{
    lemma_keys_order();
    let m = |a: Seq<KeyView>, b: Seq<KeyView>| keys_cmp(a, b);
    assert(m(a, b) == keys_cmp(a, b));
    assert(m(b, c) == keys_cmp(b, c));
    assert(m(a, c) == keys_cmp(a, c));
}

/// Whether item `x` comes before item `y`: by fingerprint, then by position.
pub open spec fn before(prints: Seq<Seq<KeyView>>, x: usize, y: usize) -> bool {
    let c = keys_cmp(prints[x as int], prints[y as int]);
    c < 0 || (c == 0 && x < y)
}

pub open spec fn sorted_by(prints: Seq<Seq<KeyView>>, order: Seq<usize>) -> bool {
    forall|p: int, q: int|
        0 <= p < q < order.len() ==> before(prints, #[trigger] order[p], #[trigger] order[q])
}

/// `order` lists each of `0..n` exactly once.
pub open spec fn is_permutation(order: Seq<usize>, n: int) -> bool {
    &&& order.len() == n
    &&& forall|p: int| 0 <= p < order.len() ==> #[trigger] order[p] < n
    &&& forall|p: int, q: int| 0 <= p < q < order.len() ==> #[trigger] order[p] != #[trigger] order[q]
    &&& forall|j: usize| j < n ==> #[trigger] order.contains(j)
}

pub open spec fn prints_view(prints: Seq<Vec<GroupKey>>) -> Seq<Seq<KeyView>> {
    prints.map_values(|k: Vec<GroupKey>| keys_view(k@))
}

/// The positions of `prints` in fingerprint order, equal fingerprints in
/// their input order.
pub fn stable_order(prints: &Vec<Vec<GroupKey>>) -> (order: Vec<usize>)
    ensures
        is_permutation(order@, prints@.len() as int),
        sorted_by(prints_view(prints@), order@),
{
    let ghost pv = prints_view(prints@);
    let mut order: Vec<usize> = Vec::new();
    let mut i: usize = 0;
    while i < prints.len()
        invariant
            i <= prints@.len(),
            pv == prints_view(prints@),
            is_permutation(order@, i as int),
            sorted_by(pv, order@),
        decreases prints.len() - i,
    {
        let mut p: usize = 0;
        while p < order.len() && cmp_keys(&prints[order[p]], &prints[i]) <= 0
            invariant
                p <= order@.len(),
                i < prints@.len(),
                pv == prints_view(prints@),
                is_permutation(order@, i as int),
                forall|q: int| 0 <= q < p ==> keys_cmp(pv[#[trigger] order@[q] as int], pv[i as int]) <= 0,
            decreases order.len() - p,
        {
            p = p + 1;
        }
        let ghost old_order = order@;
        proof {
            old_order.insert_ensures(p as int, i);
            if p < old_order.len() {
                assert(keys_cmp(pv[old_order[p as int] as int], pv[i as int]) > 0);
                assert forall|q: int| p <= q < old_order.len() implies keys_cmp(
                    pv[i as int],
                    pv[#[trigger] old_order[q] as int],
                ) < 0 by {
                    let a = pv[i as int];
                    let b = pv[old_order[p as int] as int];
                    let c = pv[old_order[q] as int];
                    lemma_keys_cmp(a, b);
                    if q > p {
                        assert(before(pv, old_order[p as int], old_order[q]));
                        lemma_keys_cmp_trans(a, b, c);
                        lemma_keys_cmp(a, c);
                        lemma_keys_cmp(b, c);
                    }
                }
            }
        }
        order.insert(p, i);
        proof {
            let s = order@;
            assert forall|a: int, b: int| 0 <= a < b < s.len() implies before(
                pv,
                #[trigger] s[a],
                #[trigger] s[b],
            ) by {
                if b < p {
                } else if a < p && b == p {
                } else if a < p {
                    assert(s[b] == old_order[b - 1]);
                } else if a == p {
                    assert(s[b] == old_order[b - 1]);
                } else {
                    assert(s[a] == old_order[a - 1]);
                    assert(s[b] == old_order[b - 1]);
                }
            }
            assert forall|a: int, b: int| 0 <= a < b < s.len() implies #[trigger] s[a]
                != #[trigger] s[b] by {
                if b < p {
                } else if a < p && b == p {
                } else if a < p {
                    assert(s[b] == old_order[b - 1]);
                } else if a == p {
                    assert(s[b] == old_order[b - 1]);
                } else {
                    assert(s[a] == old_order[a - 1]);
                    assert(s[b] == old_order[b - 1]);
                }
            }
            assert forall|q: int| 0 <= q < s.len() implies #[trigger] s[q] < i + 1 by {
                if q > p {
                    assert(s[q] == old_order[q - 1]);
                }
            }
            assert forall|j: usize| j < i + 1 implies #[trigger] s.contains(j) by {
                if j == i {
                    assert(s[p as int] == i);
                } else {
                    assert(old_order.contains(j));
                    let q = choose|q: int| 0 <= q < old_order.len() && old_order[q] == j;
                    if q < p {
                        assert(s[q] == j);
                    } else {
                        assert(s[q + 1] == j);
                    }
                }
            }
        }
        i = i + 1;
    }
    order
}

} // verus!

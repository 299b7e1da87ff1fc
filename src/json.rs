//! The probe report as a JSON tree of plain values.

use vstd::prelude::*;
use crate::text::str_equal;

verus! {

/// A JSON value. Numbers that fit an `i64` are held as integers, any other
/// number in its textual form.
pub enum Json {
    Null,
    Bool(bool),
    Int(i64),
    Number(String),
    Str(String),
    Array(Vec<Json>),
    Object(Vec<(String, Json)>),
}

/// The value stored under `key` among the members of an object: the first
/// member with that name.
pub open spec fn member(entries: Seq<(String, Json)>, key: Seq<char>) -> Option<Json>
    decreases entries.len(),
{
    if entries.len() == 0 {
        None
    } else if entries[0].0@ == key {
        Some(entries[0].1)
    } else {
        member(entries.drop_first(), key)
    }
}

impl Json {
    /// The member `key` of an object; `None` for a missing key or a value
    /// that is not an object.
    pub open spec fn get_spec(self, key: Seq<char>) -> Option<Json> {
        match self {
            Json::Object(entries) => member(entries@, key),
            _ => None,
        }
    }

    pub fn get(&self, key: &str) -> (r: Option<&Json>)
        ensures
            r is Some <==> self.get_spec(key@) is Some,
            r is Some ==> *r->0 == self.get_spec(key@)->0,
    {
        match self {
            Json::Object(entries) => {
                let mut i: usize = 0;
                assert(entries@ == entries@.subrange(0, entries@.len() as int));
                while i < entries.len()
                    invariant
                        i <= entries@.len(),
                        self.get_spec(key@) == member(entries@, key@),
                        member(entries@, key@) == member(entries@.subrange(i as int, entries@.len() as int), key@),
                    decreases entries.len() - i,
                {
                    let ghost rest = entries@.subrange(i as int, entries@.len() as int);
                    assert(rest.drop_first() == entries@.subrange(i + 1, entries@.len() as int));
                    assert(rest[0] == entries@[i as int]);
                    if str_equal(entries[i].0.as_str(), key) {
                        return Some(&entries[i].1);
                    }
                    i = i + 1;
                }
                None
            },
            _ => None,
        }
    }
}

} // verus!

//! A JSON document as the library reads and builds it: the request body sent
//! to an endpoint and the reply that comes back. Text is turned into a `Json`
//! and back by the HTTP side; the library only walks and assembles the tree.

use vstd::prelude::*;
use crate::text::str_eq;

verus! {

/// A JSON value. A number keeps its decimal text (`"512"`, `"0.0"`), exactly
/// as it is written on the wire; an object keeps its members in order.
#[derive(Debug, PartialEq)]
pub enum Json {
    Null,
    Bool(bool),
    Number(String),
    Str(String),
    Array(Vec<Json>),
    Object(Vec<(String, Json)>),
}

/// The first member of `fields` called `key`.
pub open spec fn member_in(fields: Seq<(String, Json)>, key: Seq<char>) -> Option<Json>
    decreases fields.len(),
{
    if fields.len() == 0 {
        None
    } else if fields[0].0@ == key {
        Some(fields[0].1)
    } else {
        member_in(fields.drop_first(), key)
    }
}

/// `j[key]`: the member called `key` of an object; nothing for a missing key
/// or a value that is not an object.
pub open spec fn member_of(j: Json, key: Seq<char>) -> Option<Json> {
    match j {
        Json::Object(fields) => member_in(fields@, key),
        _ => None,
    }
}

/// `j[i]`: the element at `i` of an array; nothing past its end or for a
/// value that is not an array.
pub open spec fn element_of(j: Json, i: int) -> Option<Json> {
    match j {
        Json::Array(items) => if 0 <= i < items@.len() {
            Some(items@[i])
        } else {
            None
        },
        _ => None,
    }
}

/// The text of a string value; nothing for any other value.
pub open spec fn str_of(j: Json) -> Option<Seq<char>> {
    match j {
        Json::Str(s) => Some(s@),
        _ => None,
    }
}

/// `o` is a string value holding `s`.
pub open spec fn is_str(o: Option<Json>, s: Seq<char>) -> bool {
    o matches Some(Json::Str(v)) && v@ == s
}

/// `o` is a number value written as `digits`.
pub open spec fn is_number(o: Option<Json>, digits: Seq<char>) -> bool {
    o matches Some(Json::Number(v)) && v@ == digits
}

impl Json {
    /// The member called `key`, when `self` is an object that has one.
    pub fn member(&self, key: &str) -> (r: Option<&Json>)
        ensures
            match r {
                Some(v) => member_of(*self, key@) == Some(*v),
                None => member_of(*self, key@) is None,
            },
    {
        match self {
            Json::Object(fields) => {
                let mut i: usize = 0;
                assert(fields@.skip(0) =~= fields@);
                while i < fields.len()
                    invariant
                        i <= fields@.len(),
                        member_of(*self, key@) == member_in(fields@, key@),
                        member_in(fields@, key@) == member_in(fields@.skip(i as int), key@),
                    decreases fields@.len() - i,
                {
                    assert(fields@.skip(i as int).drop_first() =~= fields@.skip(i + 1));
                    assert(fields@.skip(i as int)[0] == fields@[i as int]);
                    if str_eq(fields[i].0.as_str(), key) {
                        return Some(&fields[i].1);
                    }
                    i = i + 1;
                }
                None
            },
            _ => None,
        }
    }

    /// The element at `index`, when `self` is an array that long.
    pub fn element(&self, index: usize) -> (r: Option<&Json>)
        ensures
            match r {
                Some(v) => element_of(*self, index as int) == Some(*v),
                None => element_of(*self, index as int) is None,
            },
    {
        match self {
            Json::Array(items) => if index < items.len() {
                Some(&items[index])
            } else {
                None
            },
            _ => None,
        }
    }

    /// The text of a string value.
    pub fn as_str(&self) -> (r: Option<&str>)
        ensures
            match r {
                Some(s) => str_of(*self) == Some(s@),
                None => str_of(*self) is None,
            },
    {
        match self {
            Json::Str(s) => Some(s.as_str()),
            _ => None,
        }
    }
}

} // verus!

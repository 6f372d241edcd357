//! JSON values as the analyses read them, and lookups into them.
use vstd::prelude::*;
use crate::text::str_eq;

verus! {

/// A parsed JSON (or JSON5) value. Object members come in the order the
/// parser's map yields them (sorted by key), with each key once.
#[derive(Debug)]
pub enum Json {
    Null,
    Bool(bool),
    Number(String),
    Str(String),
    Array(Vec<Json>),
    Object(Vec<(String, Json)>),
}

/// The member of an object under `key`: the first one, if any.
pub open spec fn member_from(entries: Seq<(String, Json)>, key: Seq<char>, k: int) -> Option<Json>
    decreases entries.len() - k,
{
    if k < 0 || k >= entries.len() {
        None
    } else if entries[k].0@ == key {
        Some(entries[k].1)
    } else {
        member_from(entries, key, k + 1)
    }
}

/// `value.get(key)`: the member of an object, or nothing for other values.
pub open spec fn get(value: Json, key: Seq<char>) -> Option<Json> {
    match value {
        Json::Object(entries) => member_from(entries@, key, 0),
        _ => None,
    }
}

/// `get` on an optional value.
pub open spec fn get_in(value: Option<Json>, key: Seq<char>) -> Option<Json> {
    match value {
        Some(v) => get(v, key),
        None => None,
    }
}

/// The text of a string value.
pub open spec fn string_of(value: Option<Json>) -> Option<Seq<char>> {
    match value {
        Some(Json::Str(s)) => Some(s@),
        _ => None,
    }
}

/// The member of an object under `key`.
pub fn member<'a>(value: &'a Json, key: &str) -> (r: Option<&'a Json>)
    ensures
        match r {
            Some(x) => get(*value, key@) == Some(*x),
            None => get(*value, key@).is_none(),
        },
{
    match value {
        Json::Object(entries) => {
            let mut k: usize = 0;
            while k < entries.len()
                invariant
                    k <= entries@.len(),
                    *value == Json::Object(*entries),
                    member_from(entries@, key@, 0) == member_from(entries@, key@, k as int),
                decreases entries.len() - k,
            {
                if str_eq(entries[k].0.as_str(), key) {
                    return Some(&entries[k].1);
                }
                k = k + 1;
            }
            None
        },
        _ => None,
    }
}

/// The member of an optional object under `key`.
pub fn member_in<'a>(value: Option<&'a Json>, key: &str) -> (r: Option<&'a Json>)
    ensures
        match r {
            Some(x) => get_in(match value { Some(v) => Some(*v), None => None }, key@) == Some(*x),
            None => get_in(match value { Some(v) => Some(*v), None => None }, key@).is_none(),
        },
{
    match value {
        Some(v) => member(v, key),
        None => None,
    }
}

/// The text of a string value.
pub fn as_text(value: Option<&Json>) -> (r: Option<&String>)
    ensures
        match r {
            Some(s) => string_of(match value { Some(v) => Some(*v), None => None }) == Some(s@),
            None => string_of(match value { Some(v) => Some(*v), None => None }).is_none(),
        },
{
    match value {
        Some(Json::Str(s)) => Some(s),
        _ => None,
    }
}

} // verus!

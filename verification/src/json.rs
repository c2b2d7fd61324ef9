//! The engine's own model of a JSON document: null, booleans, integer
//! numbers, strings, arrays and objects. Property trees of graph objects,
//! schema files and graph dumps are all read through this type; callers that
//! parse textual JSON convert into it at the boundary.

use crate::kvmap::str_eq;
use vstd::prelude::*;

verus! {

#[derive(Debug, PartialEq)]
pub enum JsonValue {
    Null,
    Bool(bool),
    Int(i64),
    Str(String),
    Array(Vec<JsonValue>),
    Object(Vec<(String, JsonValue)>),
}

/// First binding of the key in an object's field list, if any.
pub open spec fn spec_json_get(fields: Seq<(String, JsonValue)>, key: Seq<char>) -> Option<
    JsonValue,
>
    decreases fields.len(),
{
    if fields.len() == 0 {
        None
    } else if fields[0].0@ == key {
        Some(fields[0].1)
    } else {
        spec_json_get(fields.drop_first(), key)
    }
}

/// Looks a key up in an object's field list (first binding wins).
pub fn json_get<'a>(fields: &'a Vec<(String, JsonValue)>, key: &str) -> (r: Option<&'a JsonValue>)
    ensures
        match r {
            Some(v) => spec_json_get(fields@, key@) == Some(*v),
            None => spec_json_get(fields@, key@) is None,
        },
{
    let mut i: usize = 0;
    proof {
        assert(fields@.skip(0) =~= fields@);
    }
    while i < fields.len()
        invariant
            i <= fields@.len(),
            spec_json_get(fields@, key@) == spec_json_get(fields@.skip(i as int), key@),
        decreases fields@.len() - i,
    {
        proof {
            assert(fields@.skip(i as int)[0] == fields@[i as int]);
            assert(fields@.skip(i as int).drop_first() =~= fields@.skip(i + 1));
        }
        if str_eq(fields[i].0.as_str(), key) {
            return Some(&fields[i].1);
        }
        i = i + 1;
    }
    proof {
        assert(fields@.skip(i as int).len() == 0);
    }
    None
}

/// Structural copy of a JSON value.
/// Structural equality of parsed values: same shape and same strings,
/// free of allocation identity.
pub open spec fn spec_json_eq(a: JsonValue, b: JsonValue) -> bool
    decreases a,
    via json_eq_decreases
{
    match (a, b) {
        (JsonValue::Null, JsonValue::Null) => true,
        (JsonValue::Bool(x), JsonValue::Bool(y)) => x == y,
        (JsonValue::Int(x), JsonValue::Int(y)) => x == y,
        (JsonValue::Str(x), JsonValue::Str(y)) => x@ == y@,
        (JsonValue::Array(xs), JsonValue::Array(ys)) => xs@.len() == ys@.len() && (forall|i: int|
            0 <= i < xs@.len() ==> spec_json_eq(#[trigger] xs@[i], #[trigger] ys@[i])),
        (JsonValue::Object(xs), JsonValue::Object(ys)) => xs@.len() == ys@.len() && (forall|
            i: int,
        |
            0 <= i < xs@.len() ==> ((#[trigger] xs@[i]).0@ == (#[trigger] ys@[i]).0@
                && spec_json_eq(xs@[i].1, ys@[i].1))),
        _ => false,
    }
}

#[via_fn]
proof fn json_eq_decreases(a: JsonValue, b: JsonValue) {
    match a {
        JsonValue::Array(xs) => {
            assert forall|i: int| 0 <= i < xs@.len() implies decreases_to!(a => xs@[i]) by {
                assert(decreases_to!(a => xs));
                assert(decreases_to!(xs => xs@));
                assert(decreases_to!(xs@ => xs@[i]));
            }
        },
        JsonValue::Object(xs) => {
            assert forall|i: int| 0 <= i < xs@.len() implies decreases_to!(a => xs@[i].1) by {
                assert(decreases_to!(a => xs));
                assert(decreases_to!(xs => xs@));
                assert(decreases_to!(xs@ => xs@[i]));
                assert(decreases_to!(xs@[i] => xs@[i].1));
            }
        },
        _ => {},
    }
}

#[verifier::loop_isolation(false)]
pub(crate) fn json_copy(v: &JsonValue) -> (r: JsonValue)
    ensures
        spec_json_eq(r, *v),
    decreases *v,
{
    match v {
        JsonValue::Null => JsonValue::Null,
        JsonValue::Bool(b) => JsonValue::Bool(*b),
        JsonValue::Int(i) => JsonValue::Int(*i),
        JsonValue::Str(s) => JsonValue::Str(s.clone()),
        JsonValue::Array(items) => {
            let mut out: Vec<JsonValue> = Vec::new();
            let mut i: usize = 0;
            while i < items.len()
                invariant
                    i <= items@.len(),
                    out@.len() == i as int,
                    forall|j: int|
                        0 <= j < i ==> spec_json_eq(#[trigger] out@[j], items@[j]),
                decreases items@.len() - i,
            {
                proof {
                    assert(decreases_to!(*v => v->Array_0));
                    assert(decreases_to!(*items => items@));
                    assert(decreases_to!(items@ => items@[i as int]));
                }
                out.push(json_copy(&items[i]));
                i = i + 1;
            }
            JsonValue::Array(out)
        },
        JsonValue::Object(fields) => {
            let mut out: Vec<(String, JsonValue)> = Vec::new();
            let mut i: usize = 0;
            while i < fields.len()
                invariant
                    i <= fields@.len(),
                    out@.len() == i as int,
                    forall|j: int|
                        0 <= j < i ==> (#[trigger] out@[j]).0@ == fields@[j].0@ && spec_json_eq(
                            out@[j].1,
                            fields@[j].1,
                        ),
                decreases fields@.len() - i,
            {
                proof {
                    assert(decreases_to!(*v => v->Object_0));
                    assert(decreases_to!(*fields => fields@));
                    assert(decreases_to!(fields@ => fields@[i as int]));
                    assert(decreases_to!(fields@[i as int] => fields@[i as int].1));
                }
                out.push((fields[i].0.clone(), json_copy(&fields[i].1)));
                i = i + 1;
            }
            JsonValue::Object(out)
        },
    }
}

impl JsonValue {
    /// The string content, when the value is a string.
    pub fn as_str(&self) -> (r: Option<&String>)
        ensures
            r matches Some(s) ==> *self == JsonValue::Str(*s),
            r is None ==> !(self is Str),
    {
        match self {
            JsonValue::Str(s) => Some(s),
            _ => None,
        }
    }

    /// The integer content, when the value is a number.
    pub fn as_int(&self) -> (r: Option<i64>)
        ensures
            r matches Some(n) ==> *self == JsonValue::Int(n),
            r is None ==> !(self is Int),
    {
        match self {
            JsonValue::Int(n) => Some(*n),
            _ => None,
        }
    }

    /// The boolean content, when the value is a boolean.
    pub fn as_bool(&self) -> (r: Option<bool>)
        ensures
            r matches Some(b) ==> *self == JsonValue::Bool(b),
            r is None ==> !(self is Bool),
    {
        match self {
            JsonValue::Bool(b) => Some(*b),
            _ => None,
        }
    }
}

} // verus!

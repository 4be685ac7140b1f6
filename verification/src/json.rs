//! A JSON value as the session logic reads it.
//!
//! Hook payloads and the agents' hook configuration files are JSON documents.
//! The library holds them as `JsonValue`: objects keep their members in
//! iteration order, and numbers keep their decimal text. `Json` is the
//! mathematical value the contracts speak of.
use vstd::prelude::*;
use crate::text::str_eq;

verus! {

#[derive(Debug)]
pub enum JsonValue {
    Null,
    Bool(bool),
    /// The number's decimal text.
    Number(String),
    Str(String),
    Array(Vec<JsonValue>),
    Object(Vec<(String, JsonValue)>),
}

/// A JSON value as a mathematical object.
pub ghost enum Json {
    Null,
    Bool(bool),
    Number(Seq<char>),
    Str(Seq<char>),
    Array(Seq<Json>),
    Object(Seq<(Seq<char>, Json)>),
}

/// The mathematical value a `JsonValue` holds.
pub open spec fn jv(v: JsonValue) -> Json
    decreases v,
{
    match v {
        JsonValue::Null => Json::Null,
        JsonValue::Bool(b) => Json::Bool(b),
        JsonValue::Number(n) => Json::Number(n@),
        JsonValue::Str(s) => Json::Str(s@),
        JsonValue::Array(a) => Json::Array(
            Seq::new(
                a@.len(),
                |i: int|
                    if 0 <= i < a@.len() {
                        jv(a@[i])
                    } else {
                        Json::Null
                    },
            ),
        ),
        JsonValue::Object(f) => Json::Object(
            Seq::new(
                f@.len(),
                |i: int|
                    if 0 <= i < f@.len() {
                        (f@[i].0@, jv(f@[i].1))
                    } else {
                        (Seq::empty(), Json::Null)
                    },
            ),
        ),
    }
}

/// The elements of an array, as values.
pub open spec fn jv_items(a: Seq<JsonValue>) -> Seq<Json> {
    Seq::new(a.len(), |i: int| jv(a[i]))
}

/// The members of an object, as keys and values.
pub open spec fn jv_fields(f: Seq<(String, JsonValue)>) -> Seq<(Seq<char>, Json)> {
    Seq::new(f.len(), |i: int| (f[i].0@, jv(f[i].1)))
}

pub proof fn lemma_jv_array(a: Vec<JsonValue>)
    ensures
        jv(JsonValue::Array(a)) == Json::Array(jv_items(a@)),
{
    match jv(JsonValue::Array(a)) {
        Json::Array(s) => {
            assert(s.len() == a@.len());
            assert forall|i: int| 0 <= i < s.len() implies s[i] == jv_items(a@)[i] by {}
            assert(s =~= jv_items(a@));
        },
        _ => {},
    }
}

pub proof fn lemma_jv_object(f: Vec<(String, JsonValue)>)
    ensures
        jv(JsonValue::Object(f)) == Json::Object(jv_fields(f@)),
{
    match jv(JsonValue::Object(f)) {
        Json::Object(s) => {
            assert(s.len() == f@.len());
            assert forall|i: int| 0 <= i < s.len() implies s[i] == jv_fields(f@)[i] by {}
            assert(s =~= jv_fields(f@));
        },
        _ => {},
    }
}

/// Position of the first member named `key` at or after `i`, or -1.
pub open spec fn jfield_index(fs: Seq<(Seq<char>, Json)>, key: Seq<char>, i: int) -> int
    decreases fs.len() - i,
{
    if i < 0 || i >= fs.len() {
        -1
    } else if fs[i].0 == key {
        i
    } else {
        jfield_index(fs, key, i + 1)
    }
}

/// The first member named `key` of an object (`None` for other values).
pub open spec fn jget(j: Json, key: Seq<char>) -> Option<Json> {
    match j {
        Json::Object(fs) => {
            let k = jfield_index(fs, key, 0);
            if k >= 0 {
                Some(fs[k].1)
            } else {
                None
            }
        },
        _ => None,
    }
}

pub proof fn lemma_jfield_index_bounds(fs: Seq<(Seq<char>, Json)>, key: Seq<char>, i: int)
    requires
        0 <= i,
    ensures
        jfield_index(fs, key, i) == -1 || (i <= jfield_index(fs, key, i) < fs.len()
            && fs[jfield_index(fs, key, i)].0 == key),
    decreases fs.len() - i,
{
    if i < fs.len() && fs[i].0 != key {
        lemma_jfield_index_bounds(fs, key, i + 1);
    }
}

/// Value of the first member named `key` at or after position `i`.
pub open spec fn field_get(fields: Seq<(String, JsonValue)>, key: Seq<char>, i: int) -> Option<
    JsonValue,
>
    decreases fields.len() - i,
{
    if i < 0 || i >= fields.len() {
        None
    } else if fields[i].0@ == key {
        Some(fields[i].1)
    } else {
        field_get(fields, key, i + 1)
    }
}

/// `Value::get(key)`: the member of an object, `None` for other values.
pub open spec fn json_get(v: JsonValue, key: Seq<char>) -> Option<JsonValue> {
    match v {
        JsonValue::Object(fields) => field_get(fields@, key, 0),
        _ => None,
    }
}

/// `Value::as_str`.
pub open spec fn json_str(v: JsonValue) -> Option<Seq<char>> {
    match v {
        JsonValue::Str(s) => Some(s@),
        _ => None,
    }
}

/// `Value::as_bool`.
pub open spec fn json_bool(v: JsonValue) -> Option<bool> {
    match v {
        JsonValue::Bool(b) => Some(b),
        _ => None,
    }
}

/// `v.get(key).and_then(|x| x.as_str())`.
pub open spec fn get_str(v: JsonValue, key: Seq<char>) -> Option<Seq<char>> {
    match json_get(v, key) {
        Some(x) => json_str(x),
        None => None,
    }
}

/// `v.get(key).and_then(|x| x.as_str()).unwrap_or(dflt)`.
pub open spec fn get_str_or(v: JsonValue, key: Seq<char>, dflt: Seq<char>) -> Seq<char> {
    match get_str(v, key) {
        Some(s) => s,
        None => dflt,
    }
}

/// `v.get(outer).and_then(|x| x.get(inner)).and_then(|x| x.as_str())`.
pub open spec fn get_str2(v: JsonValue, outer: Seq<char>, inner: Seq<char>) -> Option<Seq<char>> {
    match json_get(v, outer) {
        Some(x) => get_str(x, inner),
        None => None,
    }
}

impl JsonValue {
    /// The member named `key` of an object.
    pub fn get(&self, key: &str) -> (r: Option<&JsonValue>)
        ensures
            match r {
                Some(x) => json_get(*self, key@) == Some(*x) && jget(jv(*self), key@) == Some(jv(*x)),
                None => json_get(*self, key@) is None && jget(jv(*self), key@) is None,
            },
    {
        match self {
            JsonValue::Object(fields) => {
                proof {
                    lemma_jv_object(*fields);
                }
                let ghost fs = jv_fields(fields@);
                let mut i: usize = 0;
                while i < fields.len()
                    invariant
                        *self == JsonValue::Object(*fields),
                        fs == jv_fields(fields@),
                        jv(*self) == Json::Object(fs),
                        field_get(fields@, key@, i as int) == field_get(fields@, key@, 0),
                        jfield_index(fs, key@, i as int) == jfield_index(fs, key@, 0),
                    decreases fields.len() - i,
                {
                    if str_eq(fields[i].0.as_str(), key) {
                        return Some(&fields[i].1);
                    }
                    i += 1;
                }
                None
            },
            _ => None,
        }
    }

    /// The text of a string value.
    pub fn as_str(&self) -> (r: Option<&String>)
        ensures
            match r {
                Some(s) => json_str(*self) == Some(s@) && jv(*self) == Json::Str(s@),
                None => json_str(*self) is None && !(jv(*self) is Str),
            },
    {
        match self {
            JsonValue::Str(s) => Some(s),
            _ => None,
        }
    }
}

} // verus!

//! A JSON value as the library reads it: scalars, arrays and objects, with
//! the text forms of arrays and objects that the serializer produced when
//! the value was decoded.
use vstd::prelude::*;
use serde_json::Value;

verus! {

broadcast use vstd::string::group_string_axioms;

/// A JSON number: its `Display` text, and its value when it is an integer
/// that fits in an `i64`.
#[derive(Clone, Debug, PartialEq)]
pub struct JsonNumber {
    pub text: String,
    pub int_value: Option<i64>,
}

/// A JSON value. Arrays and objects carry their compact (`to_string`) and
/// pretty-printed (`to_string_pretty`) text alongside their contents;
/// object entries are in the map's iteration order. A decoded value holds no
/// key twice in any object ([`json_wf`]).
#[derive(Debug)]
pub enum Json {
    Null,
    Bool(bool),
    Number(JsonNumber),
    Str(String),
    Array { items: Vec<Json>, compact: String, pretty: String },
    Object { entries: Vec<(String, Json)>, compact: String, pretty: String },
}

/// The first entry of `e` under key `k`.
pub open spec fn entry_lookup(e: Seq<(String, Json)>, k: Seq<char>) -> Option<Json>
    decreases e.len(),
{
    if e.len() == 0 {
        None
    } else if e[0].0@ == k {
        Some(e[0].1)
    } else {
        entry_lookup(e.drop_first(), k)
    }
}

/// `serde_json::Value`, carried through as an opaque value.
#[verifier::external_type_specification]
#[verifier::external_body]
pub struct ExValue(serde_json::Value);

/// The library's `Json` for a `serde_json::Value`, one node for one node:
/// scalars as they are (a number by its `Display` text and `as_i64`),
/// arrays and objects by their items or entries in the value's own order,
/// with `serde_json::to_string` and `to_string_pretty` of the node as their
/// text forms. Nothing is claimed about the result.
#[verifier::external_body]
pub(crate) fn json_from_value(v: &Value) -> (r: Json) {
    let compact = serde_json::to_string(v).unwrap_or_default();
    let pretty = serde_json::to_string_pretty(v).unwrap_or_default();
    match v {
        Value::Null => Json::Null,
        Value::Bool(b) => Json::Bool(*b),
        Value::Number(n) => Json::Number(JsonNumber { text: n.to_string(), int_value: n.as_i64() }),
        Value::String(s) => Json::Str(s.clone()),
        Value::Array(a) => Json::Array { items: a.iter().map(json_from_value).collect(), compact, pretty },
        Value::Object(o) => Json::Object { entries: o.iter().map(|(k, x)| (k.clone(), json_from_value(x))).collect(), compact, pretty },
    }
}

/// No key occurs twice among the entries.
pub open spec fn keys_distinct(e: Seq<(String, Json)>) -> bool {
    forall|i: int, j: int| 0 <= i < j < e.len() ==> e[i].0@ != e[j].0@
}

/// A value as the decoder gives it: no object, at any depth, holds a key
/// twice. (The text forms of arrays and objects are the serializer's own
/// output and are not restated here.)
pub open spec fn json_wf(v: Json) -> bool
    decreases v,
{
    match v {
        Json::Array { items, .. } => forall|i: int|
            0 <= i < items@.len() ==> json_wf(#[trigger] items@[i]),
        Json::Object { entries, .. } => {
            &&& keys_distinct(entries@)
            &&& forall|i: int| 0 <= i < entries@.len() ==> json_wf(#[trigger] entries@[i].1)
        },
        _ => true,
    }
}

/// In entries with distinct keys, looking a key up finds the one entry that
/// has it: the member a well-formed object holds under a key is unique.
pub proof fn lemma_lookup_finds_the_entry(e: Seq<(String, Json)>, i: int)
    requires
        keys_distinct(e),
        0 <= i < e.len(),
    ensures
        entry_lookup(e, e[i].0@) == Some(e[i].1),
    decreases i,
{
    if i > 0 {
        let r = e.drop_first();
        assert forall|a: int, b: int| 0 <= a < b < r.len() implies r[a].0@ != r[b].0@ by {
            assert(r[a] == e[a + 1] && r[b] == e[b + 1]);
        }
        assert(e[0].0@ != e[i].0@);
        assert(r[i - 1] == e[i]);
        lemma_lookup_finds_the_entry(r, i - 1);
    }
}

/// `Value::get(key)`: the member `k` of an object; `None` for anything else.
pub open spec fn json_get(v: Json, k: Seq<char>) -> Option<Json> {
    match v {
        Json::Object { entries, .. } => entry_lookup(entries@, k),
        _ => None,
    }
}

/// `Value::as_str`.
pub open spec fn json_as_str(v: Json) -> Option<Seq<char>> {
    match v {
        Json::Str(s) => Some(s@),
        _ => None,
    }
}

/// `Value::as_i64`.
pub open spec fn json_as_i64(v: Json) -> Option<i64> {
    match v {
        Json::Number(n) => n.int_value,
        _ => None,
    }
}

/// `Value::as_bool`.
pub open spec fn json_as_bool(v: Json) -> Option<bool> {
    match v {
        Json::Bool(b) => Some(b),
        _ => None,
    }
}

pub fn entries_lookup<'a>(e: &'a Vec<(String, Json)>, k: &str) -> (r: Option<&'a Json>)
    ensures
        r matches Some(x) ==> entry_lookup(e@, k@) == Some(*x),
        r is None ==> entry_lookup(e@, k@) is None,
{
    let kc = crate::text::chars_of(k);
    let mut i: usize = 0;
    assert(e@.skip(0) == e@);
    while i < e.len()
        invariant
            i <= e@.len(),
            kc@ == k@,
            entry_lookup(e@, k@) == entry_lookup(e@.skip(i as int), k@),
        decreases e@.len() - i,
    {
        let ec = crate::text::chars_of(e[i].0.as_str());
        assert(e@.skip(i as int)[0] == e@[i as int]);
        assert(e@.skip(i as int).drop_first() == e@.skip(i + 1));
        if crate::text_map::compare_chars(ec.as_slice(), kc.as_slice()) == 0 {
            return Some(&e[i].1);
        }
        i = i + 1;
    }
    None
}

impl Json {
    /// `Value::get(key)`.
    pub fn get(&self, key: &str) -> (r: Option<&Json>)
        ensures
            r matches Some(x) ==> json_get(*self, key@) == Some(*x),
            r is None ==> json_get(*self, key@) is None,
    {
        match self {
            Json::Object { entries, .. } => entries_lookup(entries, key),
            _ => None,
        }
    }

    /// `Value::as_str`.
    pub fn as_str(&self) -> (r: Option<&String>)
        ensures
            r matches Some(s) ==> json_as_str(*self) == Some(s@),
            r is None ==> json_as_str(*self) is None,
    {
        match self {
            Json::Str(s) => Some(s),
            _ => None,
        }
    }

    /// `Value::as_i64`.
    pub fn as_i64(&self) -> (r: Option<i64>)
        ensures
            r == json_as_i64(*self),
    {
        match self {
            Json::Number(n) => n.int_value,
            _ => None,
        }
    }

    /// `Value::as_bool`.
    pub fn as_bool(&self) -> (r: Option<bool>)
        ensures
            r == json_as_bool(*self),
    {
        match self {
            Json::Bool(b) => Some(*b),
            _ => None,
        }
    }

    /// `Value::is_null`.
    pub fn is_null(&self) -> (r: bool)
        ensures
            r == (*self is Null),
    {
        match self {
            Json::Null => true,
            _ => false,
        }
    }
}

} // verus!

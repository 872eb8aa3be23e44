//! JSON documents as plain values, with the lookups the compatibility data
//! needs and their compact serialization.

use vstd::prelude::*;
use crate::text::str_eq;

verus! {

/// A JSON value. Object members keep their document order; a number keeps
/// the text it is written with.
#[derive(Debug)]
pub enum JsonValue {
    Null,
    Bool(bool),
    Number(String),
    String(String),
    Array(Vec<JsonValue>),
    Object(Vec<(String, JsonValue)>),
}

/// The value of the first member named `key`, if `v` is an object.
pub open spec fn member(v: JsonValue, key: Seq<char>) -> Option<JsonValue> {
    match v {
        JsonValue::Object(entries) => member_of(entries@, key),
        _ => None,
    }
}

pub open spec fn member_of(entries: Seq<(String, JsonValue)>, key: Seq<char>) -> Option<JsonValue>
    decreases entries.len(),
{
    if entries.len() == 0 {
        None
    } else if entries[0].0@ == key {
        Some(entries[0].1)
    } else {
        member_of(entries.drop_first(), key)
    }
}

pub open spec fn opt_member(v: Option<JsonValue>, key: Seq<char>) -> Option<JsonValue> {
    match v {
        Some(x) => member(x, key),
        None => None,
    }
}

pub open spec fn as_str_spec(v: Option<JsonValue>) -> Option<Seq<char>> {
    match v {
        Some(JsonValue::String(s)) => Some(s@),
        _ => None,
    }
}

pub open spec fn as_bool_spec(v: Option<JsonValue>) -> Option<bool> {
    match v {
        Some(JsonValue::Bool(b)) => Some(b),
        _ => None,
    }
}

impl JsonValue {
    /// The value of member `key`, if this is an object that has one.
    pub fn get(&self, key: &str) -> (r: Option<&JsonValue>)
        ensures
            match member(*self, key@) {
                Some(m) => r matches Some(x) && *x == m,
                None => r is None,
            },
    {
        match self {
            JsonValue::Object(entries) => {
                let mut i: usize = 0;
                assert(entries@.skip(0) =~= entries@);
                while i < entries.len()
                    invariant
                        i <= entries@.len(),
                        member(*self, key@) == member_of(entries@, key@),
                        member_of(entries@, key@) == member_of(entries@.skip(i as int), key@),
                    decreases entries@.len() - i,
                {
                    assert(entries@.skip(i as int)[0] == entries@[i as int]);
                    assert(entries@.skip(i as int).drop_first() =~= entries@.skip(i + 1));
                    if str_eq(entries[i].0.as_str(), key) {
                        assert(member_of(entries@.skip(i as int), key@) == Some(entries@[i as int].1));
                        return Some(&entries[i].1);
                    }
                    i = i + 1;
                }
                None
            },
            _ => None,
        }
    }

    pub fn as_str(&self) -> (r: Option<&str>)
        ensures
            match as_str_spec(Some(*self)) {
                Some(s) => r matches Some(x) && x@ == s,
                None => r is None,
            },
    {
        match self {
            JsonValue::String(s) => Some(s.as_str()),
            _ => None,
        }
    }

    pub fn as_bool(&self) -> (r: Option<bool>)
        ensures
            r == as_bool_spec(Some(*self)),
    {
        match self {
            JsonValue::Bool(b) => Some(*b),
            _ => None,
        }
    }

    pub fn is_object(&self) -> (r: bool)
        ensures
            r == (*self is Object),
    {
        matches!(self, JsonValue::Object(_))
    }
}

// ---------------------------------------------------------------------------
// Parsing

#[verifier::external_type_specification]
#[verifier::external_body]
pub struct ExSerdeValue(serde_json::Value);

/// The value `serde_json` parses from a text, as this library's value;
/// `None` when the text is not one JSON document.
pub uninterp spec fn parsed_json(text: Seq<char>) -> Option<JsonValue>;

/// `serde_json::from_str` into a `serde_json::Value`, converted one for one
/// into this library's value. The contract claims no more than that the
/// result is a function of the text: the grammar `serde_json` accepts is
/// left to its source.
#[verifier::external_body]
pub fn parse_json(text: &str) -> (r: Option<JsonValue>)
    ensures
        r == parsed_json(text@),
{
    serde_json::from_str::<serde_json::Value>(text).ok().map(|v| from_serde(&v))
}

/// A `serde_json::Value` converted one for one: each variant to its
/// counterpart, a number to its text, members in the map's order.
#[verifier::external_body]
fn from_serde(v: &serde_json::Value) -> JsonValue {
    match v {
        serde_json::Value::Null => JsonValue::Null,
        serde_json::Value::Bool(b) => JsonValue::Bool(*b),
        serde_json::Value::Number(n) => JsonValue::Number(n.to_string()),
        serde_json::Value::String(s) => JsonValue::String(s.clone()),
        serde_json::Value::Array(a) => JsonValue::Array(a.iter().map(from_serde).collect()),
        serde_json::Value::Object(m) => JsonValue::Object(m.iter().map(|(k, x)| (k.clone(), from_serde(x))).collect()),
    }
}

// ---------------------------------------------------------------------------
// Serialization

/// The compact text `serde_json` writes for a value.
pub uninterp spec fn serialized_json(v: JsonValue) -> Seq<char>;

/// `serde_json::to_string` of the value converted one for one into a
/// `serde_json::Value` (a number read back from its text). The contract
/// claims only that the text is a function of the value: the format is left
/// to `serde_json`'s source.
#[verifier::external_body]
pub fn to_json_string(v: &JsonValue) -> (r: String)
    ensures
        r@ == serialized_json(*v),
{
    to_serde(v).to_string()
}

/// This library's value converted one for one into a `serde_json::Value`;
/// a number text `serde_json` does not read becomes null.
#[verifier::external_body]
fn to_serde(v: &JsonValue) -> serde_json::Value {
    match v {
        JsonValue::Null => serde_json::Value::Null,
        JsonValue::Bool(b) => serde_json::Value::Bool(*b),
        JsonValue::Number(n) => serde_json::from_str(n).unwrap_or(serde_json::Value::Null),
        JsonValue::String(s) => serde_json::Value::String(s.clone()),
        JsonValue::Array(a) => serde_json::Value::Array(a.iter().map(to_serde).collect()),
        JsonValue::Object(m) => serde_json::Value::Object(m.iter().map(|(k, x)| (k.clone(), to_serde(x))).collect()),
    }
}


/// A JSON value with its texts as character sequences.
pub enum JsonView {
    Null,
    Bool(bool),
    Number(Seq<char>),
    String(Seq<char>),
    Array(Seq<JsonView>),
    Object(Seq<(Seq<char>, JsonView)>),
}

pub open spec fn json_view(v: JsonValue) -> JsonView
    decreases v, 0nat,
{
    match v {
        JsonValue::Null => JsonView::Null,
        JsonValue::Bool(b) => JsonView::Bool(b),
        JsonValue::Number(n) => JsonView::Number(n@),
        JsonValue::String(s) => JsonView::String(s@),
        JsonValue::Array(items) => JsonView::Array(items_view(items@, items@.len() as nat)),
        JsonValue::Object(entries) => JsonView::Object(members_view(entries@, entries@.len() as nat)),
    }
}

/// The views of the first `n` items.
pub open spec fn items_view(items: Seq<JsonValue>, n: nat) -> Seq<JsonView>
    decreases items, n,
{
    if n == 0 || n > items.len() {
        Seq::empty()
    } else {
        items_view(items, (n - 1) as nat).push(json_view(items[n - 1]))
    }
}

/// The views of the first `n` members.
pub open spec fn members_view(entries: Seq<(String, JsonValue)>, n: nat) -> Seq<(Seq<char>, JsonView)>
    decreases entries, n,
{
    if n == 0 || n > entries.len() {
        Seq::empty()
    } else {
        members_view(entries, (n - 1) as nat).push((entries[n - 1].0@, json_view(entries[n - 1].1)))
    }
}

/// Members by their views.
pub open spec fn mv(entries: Seq<(String, JsonValue)>) -> Seq<(Seq<char>, JsonView)> {
    entries.map_values(|e: (String, JsonValue)| (e.0@, json_view(e.1)))
}

/// Items by their views.
pub open spec fn iv(items: Seq<JsonValue>) -> Seq<JsonView> {
    items.map_values(|x: JsonValue| json_view(x))
}

proof fn lemma_items_view(items: Seq<JsonValue>, n: nat)
    requires
        n <= items.len(),
    ensures
        items_view(items, n) == iv(items.take(n as int)),
    decreases n,
{
    if n > 0 {
        lemma_items_view(items, (n - 1) as nat);
        assert(iv(items.take(n as int)) =~= iv(items.take(n - 1)).push(json_view(items[n - 1])));
    } else {
        assert(iv(items.take(0)) =~= Seq::<JsonView>::empty());
    }
}

proof fn lemma_members_view(entries: Seq<(String, JsonValue)>, n: nat)
    requires
        n <= entries.len(),
    ensures
        members_view(entries, n) == mv(entries.take(n as int)),
    decreases n,
{
    if n > 0 {
        lemma_members_view(entries, (n - 1) as nat);
        assert(mv(entries.take(n as int)) =~= mv(entries.take(n - 1)).push(
            (entries[n - 1].0@, json_view(entries[n - 1].1)),
        ));
    } else {
        assert(mv(entries.take(0)) =~= Seq::<(Seq<char>, JsonView)>::empty());
    }
}

/// An object's view holds its members' views, in order.
pub proof fn lemma_object_view(entries: Vec<(String, JsonValue)>)
    ensures
        json_view(JsonValue::Object(entries)) == JsonView::Object(mv(entries@)),
{
    lemma_members_view(entries@, entries@.len() as nat);
    assert(entries@.take(entries@.len() as int) =~= entries@);
}

/// An array's view holds its items' views, in order.
pub proof fn lemma_array_view(items: Vec<JsonValue>)
    ensures
        json_view(JsonValue::Array(items)) == JsonView::Array(iv(items@)),
{
    lemma_items_view(items@, items@.len() as nat);
    assert(items@.take(items@.len() as int) =~= items@);
}

} // verus!

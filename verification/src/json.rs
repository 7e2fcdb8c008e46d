//! JSON documents.
//!
//! serde_json parses and prints JSON; this module holds a document as a
//! value of the library (`JsonValue`), reads its members, and states what
//! the parser and the printer were handed and gave back.

use vstd::prelude::*;

verus! {

/// serde_json's number, carried through as it is.
#[verifier::external_type_specification]
#[verifier::external_body]
pub struct ExNumber(serde_json::Number);

/// A JSON number, held as serde_json holds it: a non-negative integer, a
/// negative integer, or a floating-point number that is carried through.
#[derive(Debug)]
pub enum JsonNumber {
    PosInt(u64),
    NegInt(i64),
    Float(serde_json::Number),
}

/// A JSON document.
#[derive(Debug)]
pub enum JsonValue {
    Null,
    Bool(bool),
    Number(JsonNumber),
    Str(String),
    Array(Vec<JsonValue>),
    /// The members of an object, each key with its value.
    Object(Vec<(String, JsonValue)>),
}

/// The content of a JSON document.
#[verifier::ext_equal]
pub enum JsonTree {
    Null,
    Bool(bool),
    Number(JsonNumber),
    Text(Seq<char>),
    Array(Seq<JsonTree>),
    Object(Seq<(Seq<char>, JsonTree)>),
}

/// The content of `v`.
pub open spec fn json_tree(v: JsonValue) -> JsonTree
    decreases v,
{
    match v {
        JsonValue::Null => JsonTree::Null,
        JsonValue::Bool(b) => JsonTree::Bool(b),
        JsonValue::Number(n) => JsonTree::Number(n),
        JsonValue::Str(s) => JsonTree::Text(s@),
        JsonValue::Array(items) => JsonTree::Array(
            Seq::new(
                items@.len(),
                |i: int|
                    if 0 <= i < items@.len() {
                        proof {
                            vstd::std_specs::vec::axiom_vec_index_decreases(items, i);
                            assert(decreases_to!(v => items));
                        }
                        json_tree(items[i])
                    } else {
                        JsonTree::Null
                    },
            ),
        ),
        JsonValue::Object(entries) => JsonTree::Object(
            Seq::new(
                entries@.len(),
                |i: int|
                    if 0 <= i < entries@.len() {
                        proof {
                            vstd::std_specs::vec::axiom_vec_index_decreases(entries, i);
                            assert(decreases_to!(v => entries));
                        }
                        (entries[i].0@, json_tree(entries[i].1))
                    } else {
                        (Seq::empty(), JsonTree::Null)
                    },
            ),
        ),
    }
}

impl View for JsonValue {
    type V = JsonTree;

    open spec fn view(&self) -> JsonTree {
        json_tree(*self)
    }
}

/// The value of the last member of `entries` named `key`, if any: a later
/// member replaces an earlier one of the same name, as in serde_json's map.
pub open spec fn entry_lookup(entries: Seq<(Seq<char>, JsonTree)>, key: Seq<char>) -> Option<JsonTree>
    decreases entries.len(),
{
    if entries.len() == 0 {
        None
    } else if entries.last().0 == key {
        Some(entries.last().1)
    } else {
        entry_lookup(entries.drop_last(), key)
    }
}

/// The member `key` of `t`, if `t` is an object that has one.
pub open spec fn tree_find(t: JsonTree, key: Seq<char>) -> Option<JsonTree> {
    match t {
        JsonTree::Object(entries) => entry_lookup(entries, key),
        _ => None,
    }
}

/// What indexing a document with `key` gives: the member if there is one,
/// JSON null otherwise.
pub open spec fn tree_member(t: JsonTree, key: Seq<char>) -> JsonTree {
    match tree_find(t, key) {
        Some(m) => m,
        None => JsonTree::Null,
    }
}

/// The text of `t`, if it is a string.
pub open spec fn tree_text(t: JsonTree) -> Option<Seq<char>> {
    match t {
        JsonTree::Text(s) => Some(s),
        _ => None,
    }
}

impl JsonValue {
    /// The member `key` of this value, if it is an object that has one.
    pub fn get(&self, key: &str) -> (found: Option<&JsonValue>)
        ensures
            match tree_find(self@, key@) {
                Some(t) => found matches Some(v) && v@ == t,
                None => found is None,
            },
    {
        match self {
            JsonValue::Object(entries) => {
                let name = String::from_str(key);
                let ghost tree_entries = match self@ {
                    JsonTree::Object(e) => e,
                    _ => Seq::empty(),
                };
                assert(self@ == JsonTree::Object(tree_entries));
                assert(tree_entries.len() == entries@.len());
                assert forall|j: int| 0 <= j < entries@.len() implies #[trigger] tree_entries[j] == (
                    entries@[j].0@,
                    json_tree(entries@[j].1),
                ) by {}
                assert(tree_entries.subrange(0, tree_entries.len() as int) =~= tree_entries);
                let mut i: usize = entries.len();
                while i > 0
                    invariant
                        self@ == JsonTree::Object(tree_entries),
                        tree_entries.len() == entries@.len(),
                        forall|j: int|
                            0 <= j < entries@.len() ==> #[trigger] tree_entries[j] == (
                                entries@[j].0@,
                                json_tree(entries@[j].1),
                            ),
                        name@ == key@,
                        0 <= i <= entries@.len(),
                        entry_lookup(tree_entries, key@) == entry_lookup(
                            tree_entries.subrange(0, i as int),
                            key@,
                        ),
                    decreases i,
                {
                    let ghost head = tree_entries.subrange(0, i as int);
                    assert(head.last() == tree_entries[i - 1]);
                    if entries[i - 1].0 == name {
                        assert(head.last() == (
                            entries@[i - 1].0@,
                            json_tree(entries@[i - 1].1),
                        ));
                        return Some(&entries[i - 1].1);
                    }
                    assert(head.drop_last() =~= tree_entries.subrange(0, i - 1));
                    i = i - 1;
                }
                None
            },
            _ => None,
        }
    }

    /// The text of this value, if it is a string.
    pub fn as_str(&self) -> (text: Option<&String>)
        ensures
            match tree_text(self@) {
                Some(s) => text matches Some(t) && t@ == s,
                None => text is None,
            },
    {
        match self {
            JsonValue::Str(s) => Some(s),
            _ => None,
        }
    }
}

/// serde_json's document, which only the conversions below look into.
#[verifier::external_type_specification]
#[verifier::external_body]
pub struct ExValue(serde_json::Value);

/// What serde_json makes of the JSON text `text`: the document, or the
/// message of the error it reports.
pub uninterp spec fn parsed_json(text: Seq<char>) -> Result<JsonTree, Seq<char>>;

/// serde_json's `from_str` into a document: the document that `text` holds,
/// or the message of serde_json's error.
#[verifier::external_body]
pub(crate) fn parse_json(text: &str) -> (res: Result<JsonValue, String>)
    ensures
        match parsed_json(text@) {
            Ok(t) => res matches Ok(v) && v@ == t,
            Err(m) => res matches Err(e) && e@ == m,
        },
{
    match serde_json::from_str::<serde_json::Value>(text) {
        Ok(value) => Ok(from_serde(value)),
        Err(e) => Err(e.to_string()),
    }
}

/// Converts serde_json's `Value` into a `JsonValue`, variant for variant; a
/// number keeps the form serde_json stores it in (`Number::as_u64` and
/// `Number::as_i64` tell the forms apart). No contract: `parse_json`, its
/// only caller, states what the pair of them returns.
#[verifier::external_body]
fn from_serde(value: serde_json::Value) -> JsonValue {
    match value {
        serde_json::Value::Null => JsonValue::Null,
        serde_json::Value::Bool(b) => JsonValue::Bool(b),
        serde_json::Value::Number(n) => JsonValue::Number(match (n.as_u64(), n.as_i64()) {
            (Some(u), _) => JsonNumber::PosInt(u),
            (None, Some(i)) => JsonNumber::NegInt(i),
            (None, None) => JsonNumber::Float(n),
        }),
        serde_json::Value::String(s) => JsonValue::Str(s),
        serde_json::Value::Array(a) => JsonValue::Array(a.into_iter().map(from_serde).collect()),
        serde_json::Value::Object(o) => JsonValue::Object(o.into_iter().map(|(k, v)| (k, from_serde(v))).collect()),
    }
}

/// Converts a `JsonValue` into serde_json's `Value`, variant for variant
/// (`Value::from` for integers). No contract: `to_json_bytes`, its only
/// caller, states what the pair of them returns.
#[verifier::external_body]
fn to_serde(value: &JsonValue) -> serde_json::Value {
    match value {
        JsonValue::Null => serde_json::Value::Null,
        JsonValue::Bool(b) => serde_json::Value::Bool(*b),
        JsonValue::Number(JsonNumber::PosInt(u)) => serde_json::Value::from(*u),
        JsonValue::Number(JsonNumber::NegInt(i)) => serde_json::Value::from(*i),
        JsonValue::Number(JsonNumber::Float(n)) => serde_json::Value::Number(n.clone()),
        JsonValue::Str(s) => serde_json::Value::String(s.clone()),
        JsonValue::Array(a) => serde_json::Value::Array(a.iter().map(to_serde).collect()),
        JsonValue::Object(o) => serde_json::Value::Object(o.iter().map(|(k, v)| (k.clone(), to_serde(v))).collect()),
    }
}

/// The bytes serde_json prints for the document `doc`.
pub uninterp spec fn printed_json(doc: JsonTree) -> Seq<u8>;

/// serde_json's `to_vec` of a document: its compact JSON text. Printing a
/// document does not fail: its object keys are strings and it holds no
/// value whose printing can fail.
#[verifier::external_body]
pub(crate) fn to_json_bytes(doc: &JsonValue) -> (res: Result<Vec<u8>, String>)
    ensures
        res is Ok,
        res matches Ok(bytes) ==> bytes@ == printed_json(doc@),
{
    match serde_json::to_vec(&to_serde(doc)) {
        Ok(bytes) => Ok(bytes),
        Err(e) => Err(e.to_string()),
    }
}

impl JsonValue {
    /// The document that the JSON text `text` holds, or the message of the
    /// parser's error.
    pub fn parse(text: &str) -> (res: Result<JsonValue, String>)
        ensures
            match parsed_json(text@) {
                Ok(t) => res matches Ok(v) && v@ == t,
                Err(m) => res matches Err(e) && e@ == m,
            },
    {
        parse_json(text)
    }

    /// The compact JSON text of this document.
    pub fn to_vec(&self) -> (res: Result<Vec<u8>, String>)
        ensures
            res matches Ok(bytes) && bytes@ == printed_json(self@),
    {
        to_json_bytes(self)
    }
}

} // verus!

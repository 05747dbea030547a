//! JSON documents as the library reads and writes them.
//!
//! Text is parsed and rendered by `serde_json`; the logic of the other modules
//! works on [`JsonValue`].

use crate::digest;
use vstd::prelude::*;

verus! {

#[verifier::external_type_specification]
#[verifier::external_body]
pub struct ExJsonError(serde_json::Error);

#[verifier::external_type_specification]
#[verifier::external_body]
pub struct ExJsonDocument(serde_json::Value);

#[verifier::external_type_specification]
#[verifier::external_body]
pub struct ExJsonNumber(serde_json::Number);

/// A parsed JSON document.
///
/// An object keeps its entries in the order of its keys. A number that is not a
/// whole number in the range of `u64` or `i64` is carried through unread.
#[derive(Debug)]
pub enum JsonValue {
    Null,
    Bool(bool),
    Unsigned(u64),
    Negative(i64),
    Real(serde_json::Number),
    Text(String),
    Array(Vec<JsonValue>),
    Object(Vec<(String, JsonValue)>),
}

/// The contents of a [`JsonValue`].
pub enum Json {
    Null,
    Bool(bool),
    Unsigned(u64),
    Negative(i64),
    Real(serde_json::Number),
    Text(Seq<char>),
    Array(Seq<Json>),
    Object(Seq<(Seq<char>, Json)>),
}

impl JsonValue {
    pub open spec fn tree(self) -> Json
        decreases self,
    {
        match self {
            JsonValue::Null => Json::Null,
            JsonValue::Bool(b) => Json::Bool(b),
            JsonValue::Unsigned(n) => Json::Unsigned(n),
            JsonValue::Negative(n) => Json::Negative(n),
            JsonValue::Real(n) => Json::Real(n),
            JsonValue::Text(s) => Json::Text(s@),
            JsonValue::Array(items) => Json::Array(
                Seq::new(
                    items@.len(),
                    |i: int|
                        if 0 <= i < items@.len() {
                            items@[i].tree()
                        } else {
                            Json::Null
                        },
                ),
            ),
            JsonValue::Object(entries) => Json::Object(
                Seq::new(
                    entries@.len(),
                    |i: int|
                        if 0 <= i < entries@.len() {
                            (entries@[i].0@, entries@[i].1.tree())
                        } else {
                            (Seq::empty(), Json::Null)
                        },
                ),
            ),
        }
    }
}

impl View for JsonValue {
    type V = Json;

    open spec fn view(&self) -> Json {
        self.tree()
    }
}

/// The contents of a list of values.
pub open spec fn json_views(s: Seq<JsonValue>) -> Seq<Json> {
    s.map_values(|v: JsonValue| v@)
}

/// The contents of a list of entries.
pub open spec fn entry_views(s: Seq<(String, JsonValue)>) -> Seq<(Seq<char>, Json)> {
    s.map_values(|e: (String, JsonValue)| (e.0@, e.1@))
}

/// The contents of an array are the contents of its items.
pub proof fn lemma_array_view(items: Vec<JsonValue>)
    ensures
        JsonValue::Array(items)@ == Json::Array(json_views(items@)),
{
    assert(JsonValue::Array(items).tree()->Array_0 =~= json_views(items@));
}

/// The contents of an object are the contents of its entries.
pub proof fn lemma_object_view(entries: Vec<(String, JsonValue)>)
    ensures
        JsonValue::Object(entries)@ == Json::Object(entry_views(entries@)),
{
    assert(JsonValue::Object(entries).tree()->Object_0 =~= entry_views(entries@));
}

/// One character within a JSON string: quotes, backslashes and control characters are
/// escaped, by a letter where there is one.
pub open spec fn escaped(c: char) -> Seq<char> {
    let code = c as u32;
    if c == '"' || c == '\\' {
        seq!['\\', c]
    } else if code == 8 {
        seq!['\\', 'b']
    } else if code == 9 {
        seq!['\\', 't']
    } else if code == 10 {
        seq!['\\', 'n']
    } else if code == 12 {
        seq!['\\', 'f']
    } else if code == 13 {
        seq!['\\', 'r']
    } else if code < 32 {
        seq![
            '\\',
            'u',
            '0',
            '0',
            digest::hex_digit(code as int / 16),
            digest::hex_digit(code as int % 16),
        ]
    } else {
        seq![c]
    }
}

/// A text within a JSON string.
pub open spec fn escaped_text(s: Seq<char>) -> Seq<char>
    decreases s.len(),
{
    if s.len() == 0 {
        Seq::empty()
    } else {
        escaped_text(s.drop_last()) + escaped(s.last())
    }
}

/// The JSON string literal for a text.
pub open spec fn json_quoted(s: Seq<char>) -> Seq<char> {
    seq!['"'] + escaped_text(s) + seq!['"']
}

/// Calls `serde_json::to_string` on a string. It never fails, because a string is always
/// a JSON value, and it writes the string between quotes with the characters escaped
/// that JSON does not take as they are.
#[verifier::external_body]
pub(crate) fn quote_json(s: &str) -> (r: Result<String, serde_json::Error>)
    ensures
        r is Ok,
        r matches Ok(t) ==> t@ == json_quoted(s@),
{
    serde_json::to_string(s)
}

/// The document that a text denotes, where it denotes one.
pub uninterp spec fn json_document(text: Seq<char>) -> Option<serde_json::Value>;

/// Calls `serde_json::from_str` for a document of any shape. It succeeds on some
/// texts and fails on the others, and both are settled by the text alone.
#[verifier::external_body]
pub(crate) fn parse_document(text: &str) -> (r: Result<serde_json::Value, serde_json::Error>)
    ensures
        r matches Ok(v) ==> json_document(text@) == Some(v),
        r is Err ==> json_document(text@) is None,
{
    serde_json::from_str::<serde_json::Value>(text)
}

/// The compact text of a document.
pub uninterp spec fn json_text(document: serde_json::Value) -> Seq<char>;

/// Calls `serde_json::to_string` on a document: keys are strings, so it never
/// fails, and the text depends on the document alone.
#[verifier::external_body]
pub(crate) fn render_document(document: &serde_json::Value) -> (r: Result<
    String,
    serde_json::Error,
>)
    ensures
        r is Ok,
        r matches Ok(t) ==> t@ == json_text(*document),
{
    serde_json::to_string(document)
}

/// A document as the library reads it.
pub uninterp spec fn json_tree(document: serde_json::Value) -> Json;

/// Converts a `serde_json::Value`, variant by variant, with `Number::as_u64` and
/// `Number::as_i64` for its numbers. The result depends on the document alone.
#[verifier::external_body]
pub(crate) fn read_document(document: serde_json::Value) -> (r: JsonValue)
    ensures
        r@ == json_tree(document),
{
    match document {
        serde_json::Value::Null => JsonValue::Null,
        serde_json::Value::Bool(b) => JsonValue::Bool(b),
        serde_json::Value::Number(n) => match (n.as_u64(), n.as_i64()) {
            (Some(u), _) => JsonValue::Unsigned(u),
            (None, Some(i)) => JsonValue::Negative(i),
            _ => JsonValue::Real(n),
        },
        serde_json::Value::String(s) => JsonValue::Text(s),
        serde_json::Value::Array(a) => JsonValue::Array(a.into_iter().map(read_document).collect()),
        serde_json::Value::Object(o) => JsonValue::Object(
            o.into_iter().map(|(k, v)| (k, read_document(v))).collect(),
        ),
    }
}

/// A tree of the library as a document.
pub uninterp spec fn json_of_tree(tree: Json) -> serde_json::Value;

/// Converts into a `serde_json::Value`, variant by variant, with `Value::from` for whole
/// numbers; of two entries with one key the later stays. The result depends on the tree
/// alone.
#[verifier::external_body]
pub(crate) fn write_document(tree: JsonValue) -> (r: serde_json::Value)
    ensures
        r == json_of_tree(tree@),
{
    match tree {
        JsonValue::Null => serde_json::Value::Null,
        JsonValue::Bool(b) => serde_json::Value::Bool(b),
        JsonValue::Unsigned(n) => serde_json::Value::from(n),
        JsonValue::Negative(n) => serde_json::Value::from(n),
        JsonValue::Real(n) => serde_json::Value::Number(n),
        JsonValue::Text(s) => serde_json::Value::String(s),
        JsonValue::Array(a) => serde_json::Value::Array(
            a.into_iter().map(write_document).collect(),
        ),
        JsonValue::Object(o) => serde_json::Value::Object(
            o.into_iter().map(|(k, v)| (k, write_document(v))).collect(),
        ),
    }
}

/// The tree that a text denotes, where it denotes one.
pub open spec fn json_parsed(text: Seq<char>) -> Option<Json> {
    match json_document(text) {
        Some(document) => Some(json_tree(document)),
        None => None,
    }
}

/// Parses a text.
pub fn parse_json(text: &str) -> (r: Option<JsonValue>)
    ensures
        match r {
            Some(v) => json_parsed(text@) == Some(v@),
            None => json_parsed(text@) is None,
        },
{
    match parse_document(text) {
        Ok(document) => Some(read_document(document)),
        Err(_) => None,
    }
}

/// The text of a tree.
pub open spec fn json_rendered(tree: Json) -> Seq<char> {
    json_text(json_of_tree(tree))
}

/// Renders a tree.
pub fn render_json(tree: JsonValue) -> (r: Result<String, serde_json::Error>)
    ensures
        r matches Ok(t) && t@ == json_rendered(tree@),
{
    let document = write_document(tree);
    render_document(&document)
}

/// The compact form of the document that a text denotes.
pub open spec fn json_canonical(text: Seq<char>) -> Option<Seq<char>> {
    match json_document(text) {
        Some(document) => Some(json_text(document)),
        None => None,
    }
}

/// Parses a text and renders it again in compact form.
pub fn canonicalize_json(text: &str) -> (r: Result<String, serde_json::Error>)
    ensures
        r is Ok <==> json_canonical(text@) is Some,
        r matches Ok(t) ==> json_canonical(text@) == Some(t@),
{
    match parse_document(text) {
        Ok(document) => render_document(&document),
        Err(error) => Err(error),
    }
}

/// The value of the first entry with a given key.
pub open spec fn entry(entries: Seq<(Seq<char>, Json)>, key: Seq<char>) -> Option<Json>
    decreases entries.len(),
{
    if entries.len() == 0 {
        None
    } else if entries[0].0 == key {
        Some(entries[0].1)
    } else {
        entry(entries.drop_first(), key)
    }
}

/// Looks up the value of an entry.
pub fn find_entry<'a>(entries: &'a Vec<(String, JsonValue)>, key: &str) -> (r: Option<
    &'a JsonValue,
>)
    ensures
        match r {
            Some(v) => entry(entry_views(entries@), key@) == Some(v@),
            None => entry(entry_views(entries@), key@) is None,
        },
{
    let ghost all = entry_views(entries@);
    let mut i: usize = 0;
    proof {
        assert(all.skip(0) =~= all);
    }
    while i < entries.len()
        invariant
            i <= entries@.len(),
            all == entry_views(entries@),
            entry(all, key@) == entry(all.skip(i as int), key@),
        decreases entries@.len() - i,
    {
        proof {
            assert(all.skip(i as int)[0] == (entries@[i as int].0@, entries@[i as int].1@));
        }
        if crate::text::same(&entries[i].0, key) {
            return Some(&entries[i].1);
        }
        proof {
            assert(all.skip(i as int).drop_first() =~= all.skip(i + 1));
        }
        i = i + 1;
    }
    None
}

/// A member of an object; nothing else has members.
pub open spec fn member(value: Json, key: Seq<char>) -> Option<Json> {
    match value {
        Json::Object(entries) => entry(entries, key),
        _ => None,
    }
}

/// Looks up a member of an object.
pub fn find_member<'a>(value: &'a JsonValue, key: &str) -> (r: Option<&'a JsonValue>)
    ensures
        match r {
            Some(v) => member(value@, key@) == Some(v@),
            None => member(value@, key@) is None,
        },
{
    match value {
        JsonValue::Object(entries) => {
            proof {
                lemma_object_view(*entries);
            }
            find_entry(entries, key)
        },
        _ => None,
    }
}

/// The text that a value is, if it is one.
pub open spec fn as_text(value: Json) -> Option<Seq<char>> {
    match value {
        Json::Text(s) => Some(s),
        _ => None,
    }
}

/// A copy of the text that a value is, if it is one.
pub fn text_of(value: &JsonValue) -> (r: Option<String>)
    ensures
        crate::text::opt_view(r) == as_text(value@),
{
    match value {
        JsonValue::Text(s) => Some(s.clone()),
        _ => None,
    }
}

/// Adds an entry to the entries of an object.
pub fn push_entry(entries: &mut Vec<(String, JsonValue)>, key: &str, value: JsonValue)
    ensures
        entry_views(final(entries)@) == entry_views(old(entries)@).push(
            (key@, value@),
        ),
{
    let ghost before = entry_views(entries@);
    entries.push((key.to_owned(), value));
    assert(entry_views(entries@) =~= before.push((key@, value@)));
}

} // verus!

//! JSON through serde_json and serde_json_path. A parsed value is held together
//! with its compact JSON text, and the contracts speak of that text.

use vstd::prelude::*;
use crate::text::{decimal, owned};

verus! {

#[verifier::external_type_specification]
#[verifier::external_body]
pub struct ExJsonValue(serde_json::Value);

#[verifier::external_type_specification]
#[verifier::external_body]
pub struct ExJsonPath(serde_json_path::JsonPath);

/// A JSON value with its compact text (what `serde_json::Value`'s `Display`
/// writes). Only this module builds one, always taking `text` from `value`,
/// so the text stands for the value: parsing it gives the value back.
pub struct JsonDoc {
    value: serde_json::Value,
    text: String,
}

impl View for JsonDoc {
    type V = Seq<char>;

    closed spec fn view(&self) -> Seq<char> {
        self.text@
    }
}

impl JsonDoc {
    /// The compact JSON text.
    pub fn text(&self) -> (r: &str)
        ensures
            r@ == self@,
    {
        self.text.as_str()
    }
}

/// A compiled JSONPath expression with the text it was compiled from.
pub struct CompiledPath {
    path: serde_json_path::JsonPath,
    source: String,
}

impl View for CompiledPath {
    type V = Seq<char>;

    closed spec fn view(&self) -> Seq<char> {
        self.source@
    }
}

// ─── parsing ─────────────────────────────────────────────────────────────────

/// What `serde_json::from_str::<serde_json::Value>` makes of `text`: the
/// compact text of the parsed value, or the `Display` text of the error.
pub uninterp spec fn json_parse_result(text: Seq<char>) -> Result<Seq<char>, Seq<char>>;

/// Wraps `serde_json::from_str::<serde_json::Value>`: the parsed value with its
/// compact text, or the error's `Display` text; both are functions of `text`
/// alone (named by [`json_parse_result`]).
#[verifier::external_body]
pub(crate) fn parse_json_value(text: &str) -> (r: Result<JsonDoc, String>)
    ensures
        match (r, json_parse_result(text@)) {
            (Ok(d), Ok(t)) => d@ == t,
            (Err(m), Err(t)) => m@ == t,
            _ => false,
        },
{
    match serde_json::from_str::<serde_json::Value>(text) {
        Ok(v) => Ok(JsonDoc { text: v.to_string(), value: v }),
        Err(e) => Err(format!("{e}")),
    }
}

/// What `serde_yaml::from_str::<serde_json::Value>` makes of `text` (YAML,
/// JSON being a subset of it): the compact JSON text of the value read, or
/// the `Display` text of the error.
pub uninterp spec fn yaml_json_result(text: Seq<char>) -> Result<Seq<char>, Seq<char>>;

/// Wraps `serde_yaml::from_str::<serde_json::Value>`: the document read into
/// a JSON value with its compact text, or the error's `Display` text; both
/// are functions of `text` alone (named by [`yaml_json_result`]).
#[verifier::external_body]
pub(crate) fn parse_yaml_as_json(text: &str) -> (r: Result<JsonDoc, String>)
    ensures
        match (r, yaml_json_result(text@)) {
            (Ok(d), Ok(t)) => d@ == t,
            (Err(m), Err(t)) => m@ == t,
            _ => false,
        },
{
    match serde_yaml::from_str::<serde_json::Value>(text) {
        Ok(v) => Ok(JsonDoc { text: v.to_string(), value: v }),
        Err(e) => Err(format!("{e}")),
    }
}

/// What `serde_json_path::JsonPath::parse` makes of `path`: success, or the
/// `Display` text of its parse error.
pub uninterp spec fn json_path_compiled(path: Seq<char>) -> Result<(), Seq<char>>;

/// Wraps `serde_json_path::JsonPath::parse`, keeping the source text; the
/// error becomes its `Display` text. Success and the message are functions of
/// `path` alone (named by [`json_path_compiled`]).
#[verifier::external_body]
pub(crate) fn compile_json_path(path: &str) -> (r: Result<CompiledPath, String>)
    ensures
        match (r, json_path_compiled(path@)) {
            (Ok(p), Ok(())) => p@ == path@,
            (Err(m), Err(t)) => m@ == t,
            _ => false,
        },
{
    match serde_json_path::JsonPath::parse(path) {
        Ok(p) => Ok(CompiledPath { path: p, source: path.to_string() }),
        Err(e) => Err(format!("{e}")),
    }
}

// ─── querying and reading values ─────────────────────────────────────────────

/// The compact texts of the nodes that `JsonPath::query` selects, in query
/// order, for the path compiled from `path` on the value whose compact text
/// is `doc`.
pub uninterp spec fn json_path_nodes(path: Seq<char>, doc: Seq<char>) -> Seq<Seq<char>>;

/// Views of a list of JSON values: their compact texts.
pub open spec fn doc_views(s: Seq<JsonDoc>) -> Seq<Seq<char>> {
    s.map_values(|d: JsonDoc| d@)
}

/// Wraps `JsonPath::query`: the matched nodes, each with its compact text, in
/// query order (named by [`json_path_nodes`]).
#[verifier::external_body]
pub(crate) fn query_json_nodes(path: &CompiledPath, doc: &JsonDoc) -> (r: Vec<JsonDoc>)
    ensures
        doc_views(r@) == json_path_nodes(path@, doc@),
{
    path.path.query(&doc.value).all().into_iter().map(|v| JsonDoc { text: v.to_string(), value: v.clone() }).collect()
}

/// The kind of a JSON value as the library reads it: a string by its
/// content, an array by its elements, an object by its members (key and
/// value, in the map's order), each element or member value by its compact
/// text; anything else is `Other`.
pub enum JsonKind {
    Str(Seq<char>),
    Array(Seq<Seq<char>>),
    Object(Seq<(Seq<char>, Seq<char>)>),
    Other,
}

/// What telling apart the variants of the `serde_json::Value` whose compact
/// text is `doc` gives, as a [`JsonKind`].
pub uninterp spec fn json_kind(doc: Seq<char>) -> JsonKind;

/// A JSON value split by variant, with its parts as values of their own.
pub enum JsonShape {
    Str(String),
    Array(Vec<JsonDoc>),
    Object(Vec<(String, JsonDoc)>),
    Other,
}

/// The kind a shape stands for.
pub open spec fn shape_kind(s: JsonShape) -> JsonKind {
    match s {
        JsonShape::Str(x) => JsonKind::Str(x@),
        JsonShape::Array(a) => JsonKind::Array(doc_views(a@)),
        JsonShape::Object(m) => JsonKind::Object(member_views(m@)),
        JsonShape::Other => JsonKind::Other,
    }
}

/// Tells the variants of a `serde_json::Value` apart: a string's content, an
/// array's elements, an object's members in the map's iteration order, each
/// element or member value with its compact text (named by [`json_kind`]).
#[verifier::external_body]
pub(crate) fn json_shape(d: &JsonDoc) -> (r: JsonShape)
    ensures
        shape_kind(r) == json_kind(d@),
{
    let doc = |v: &serde_json::Value| JsonDoc { text: v.to_string(), value: v.clone() };
    match &d.value {
        serde_json::Value::String(s) => JsonShape::Str(s.clone()),
        serde_json::Value::Array(a) => JsonShape::Array(a.iter().map(doc).collect()),
        serde_json::Value::Object(m) => JsonShape::Object(m.iter().map(|(k, v)| (k.clone(), doc(v))).collect()),
        _ => JsonShape::Other,
    }
}

/// The text a JSON value is compared by: a string's content, otherwise its
/// compact text.
pub open spec fn comparable_text(doc: Seq<char>) -> Seq<char> {
    match json_kind(doc) {
        JsonKind::Str(s) => s,
        _ => doc,
    }
}

/// The comparison text of a JSON value.
pub fn json_comparable(d: &JsonDoc) -> (r: String)
    ensures
        r@ == comparable_text(d@),
{
    match json_shape(d) {
        JsonShape::Str(s) => s,
        _ => owned(d.text()),
    }
}

// ─── building values ─────────────────────────────────────────────────────────

/// The compact text of the JSON string value holding `s`.
pub uninterp spec fn json_string_text(s: Seq<char>) -> Seq<char>;

/// Wraps `serde_json::Value::String`: the string value holding `s`, with its
/// compact text (named by [`json_string_text`]).
#[verifier::external_body]
pub(crate) fn json_string_value(s: String) -> (r: JsonDoc)
    ensures
        r@ == json_string_text(s@),
{
    let v = serde_json::Value::String(s);
    JsonDoc { text: v.to_string(), value: v }
}

/// The compact text of the JSON object collected from `members` (each value
/// given by its compact text) into a `serde_json::Map`.
pub uninterp spec fn json_object_text(members: Seq<(Seq<char>, Seq<char>)>) -> Seq<char>;

/// Views of object members: keys and the values' compact texts.
pub open spec fn member_views(m: Seq<(String, JsonDoc)>) -> Seq<(Seq<char>, Seq<char>)> {
    m.map_values(|p: (String, JsonDoc)| (p.0@, p.1@))
}

/// Wraps collecting members into a `serde_json::Map` as `Value::Object`: the
/// object with its compact text (named by [`json_object_text`]).
#[verifier::external_body]
pub(crate) fn json_object_value(members: Vec<(String, JsonDoc)>) -> (r: JsonDoc)
    ensures
        r@ == json_object_text(member_views(members@)),
{
    let v = serde_json::Value::Object(members.into_iter().map(|(k, d)| (k, d.value)).collect());
    JsonDoc { text: v.to_string(), value: v }
}

/// The indented text `serde_json::to_string_pretty` writes for the value
/// whose compact text is `doc`.
pub uninterp spec fn json_pretty(doc: Seq<char>) -> Seq<char>;

/// Wraps `serde_json::to_string_pretty`, which cannot fail on a
/// `serde_json::Value` (named by [`json_pretty`]).
#[verifier::external_body]
pub(crate) fn json_pretty_text(d: &JsonDoc) -> (r: String)
    ensures
        r@ == json_pretty(d@),
{
    serde_json::to_string_pretty(&d.value).unwrap_or_default()
}

/// `Value::Number` from a `u64`, written as its decimal digits.
#[verifier::external_body]
pub(crate) fn json_number_value(n: u64) -> (r: JsonDoc)
    ensures
        r@ == decimal(n as nat),
{
    let v = serde_json::Value::Number(n.into());
    JsonDoc { text: v.to_string(), value: v }
}

/// `Value::Bool`, written `true` or `false`.
#[verifier::external_body]
pub(crate) fn json_bool_value(b: bool) -> (r: JsonDoc)
    ensures
        r@ == (if b { "true"@ } else { "false"@ }),
{
    let v = serde_json::Value::Bool(b);
    JsonDoc { text: v.to_string(), value: v }
}

/// `Value::Null`, written `null`.
#[verifier::external_body]
pub(crate) fn json_null_value() -> (r: JsonDoc)
    ensures
        r@ == "null"@,
{
    let v = serde_json::Value::Null;
    JsonDoc { text: v.to_string(), value: v }
}

/// Texts joined with commas.
pub open spec fn comma_joined(ts: Seq<Seq<char>>) -> Seq<char>
    decreases ts.len(),
{
    if ts.len() == 0 {
        Seq::empty()
    } else if ts.len() == 1 {
        ts[0]
    } else {
        comma_joined(ts.drop_last()) + ","@ + ts.last()
    }
}

/// The compact text of a JSON array whose elements have the compact texts
/// `ts`: `[`, the texts separated by commas, `]`.
pub open spec fn json_array_text(ts: Seq<Seq<char>>) -> Seq<char> {
    "["@ + comma_joined(ts) + "]"@
}

/// `Value::Array` of the given values, written compactly.
#[verifier::external_body]
pub(crate) fn json_array_value(items: Vec<JsonDoc>) -> (r: JsonDoc)
    ensures
        r@ == json_array_text(doc_views(items@)),
{
    let v = serde_json::Value::Array(items.into_iter().map(|d| d.value).collect());
    JsonDoc { text: v.to_string(), value: v }
}

} // verus!

//! Declarative assertions: parsing the assertion maps of a request and
//! checking them against a response.

use vstd::prelude::*;
use crate::error::{AssertionFailure, AssertionType, RequestError, debug_list, debug_string_list};
use crate::http::HttpResponse;
use crate::json::{
    JsonDoc, JsonKind, JsonShape, comparable_text, compile_json_path, doc_views, json_comparable, json_kind,
    json_parse_result, json_path_compiled, json_path_nodes, json_shape, parse_json_value, query_json_nodes,
};
use crate::interpolation::{interpolate, interpolate_result};
use crate::strmap::StrMap;
use crate::text::{
    chars_of, concat, contains_seq, decimal, lowercase, owned, push_str, str_contains, str_eq,
    to_lowercase, u64_to_string, views,
};
use crate::yaml::{AssertionMap, YamlValue, assertion_lookup};

verus! {

// ─── the assertion model ─────────────────────────────────────────────────────

/// What a `jsonPath` or `header` assertion checks of its target.
pub enum ValueCheck {
    /// The target is present (`true`) or absent (`false`).
    Exists(bool),
    /// The target equals the string.
    Equals(String),
    /// The target contains the string.
    Contains(String),
}

/// One parsed assertion.
pub enum Assertion {
    /// The response status equals the code.
    Status(u16),
    /// A JSONPath query on the response body.
    JsonPath { path: String, check: ValueCheck },
    /// A response header, by lowercased name.
    Header { name: String, check: ValueCheck },
}

/// The text form of an assertion failure.
pub struct FailureText {
    pub kind: AssertionType,
    pub expected: Seq<char>,
    pub actual: Seq<char>,
    pub path: Option<Seq<char>>,
}

/// The text form of a failure.
pub open spec fn failure_text(f: AssertionFailure) -> FailureText {
    FailureText {
        kind: f.assertion_type,
        expected: f.expected@,
        actual: f.actual@,
        path: match f.path {
            Some(p) => Some(p@),
            None => None,
        },
    }
}

/// The text form of an optional failure.
pub open spec fn opt_failure_text(f: Option<AssertionFailure>) -> Option<FailureText> {
    match f {
        Some(x) => Some(failure_text(x)),
        None => None,
    }
}

/// `true` or `false`, as `bool`'s `Display` renders it.
pub open spec fn bool_text(b: bool) -> Seq<char> {
    if b { seq!['t', 'r', 'u', 'e'] } else { seq!['f', 'a', 'l', 's', 'e'] }
}

pub fn bool_string(b: bool) -> (r: String)
    ensures
        r@ == bool_text(b),
{
    let r = if b { owned("true") } else { owned("false") };
    proof {
        reveal_strlit("true");
        reveal_strlit("false");
    }
    r
}

fn failure(kind: AssertionType, expected: String, actual: String, path: Option<String>) -> (r: AssertionFailure)
    ensures
        r.assertion_type == kind && r.expected == expected && r.actual == actual && r.path == path,
{
    AssertionFailure { assertion_type: kind, expected, actual, path }
}

// ─── decimal status codes ────────────────────────────────────────────────────

/// `c` is an ASCII decimal digit.
pub open spec fn is_digit(c: char) -> bool {
    '0' <= c && c <= '9'
}

/// Every character of `d` is an ASCII digit.
pub open spec fn all_digits(d: Seq<char>) -> bool {
    forall|i: int| 0 <= i < d.len() ==> is_digit(#[trigger] d[i])
}

/// The value of the decimal digits `d`.
pub open spec fn digits_value(d: Seq<char>) -> nat
    decreases d.len(),
{
    if d.len() == 0 {
        0
    } else {
        digits_value(d.drop_last()) * 10 + ((d.last() as u32) - ('0' as u32)) as nat
    }
}

/// What `str::parse::<u16>` accepts: an optional `+` followed by one or more
/// ASCII digits whose value fits in `u16`.
pub open spec fn parse_u16_spec(s: Seq<char>) -> Option<u16> {
    let d = if s.len() >= 2 && s[0] == '+' { s.drop_first() } else { s };
    if d.len() > 0 && all_digits(d) && digits_value(d) <= 65535 {
        Some(digits_value(d) as u16)
    } else {
        None
    }
}

proof fn lemma_digits_value_mono(d: Seq<char>, i: int)
    requires
        0 <= i <= d.len(),
        all_digits(d),
    ensures
        digits_value(d.take(i)) <= digits_value(d),
    decreases d.len() - i,
{
    if i < d.len() {
        lemma_digits_value_mono(d, i + 1);
        assert(d.take(i + 1).drop_last() =~= d.take(i));
        assert(is_digit(d[i]));
    } else {
        assert(d.take(i) =~= d);
    }
}

/// Parses a status code as `str::parse::<u16>` does.
pub fn parse_u16(s: &str) -> (r: Option<u16>)
    ensures
        r == parse_u16_spec(s@),
{
    let v = chars_of(s);
    let start: usize = if v.len() >= 2 && v[0] == '+' { 1 } else { 0 };
    let ghost d = if v@.len() >= 2 && v@[0] == '+' { v@.drop_first() } else { v@ };
    assert(d =~= v@.skip(start as int));
    if start >= v.len() {
        return None;
    }
    let mut value: u32 = 0;
    let mut i = start;
    assert(d.take(0) =~= Seq::<char>::empty());
    while i < v.len()
        invariant
            start <= i <= v.len(),
            v@ == s@,
            d == if v@.len() >= 2 && v@[0] == '+' { v@.drop_first() } else { v@ },
            d == v@.skip(start as int),
            all_digits(d.take(i - start)),
            value == digits_value(d.take(i - start)),
            value <= 65535,
        decreases v.len() - i,
    {
        let c = v[i];
        assert(d[i - start] == v@[i as int]);
        if !('0' <= c && c <= '9') {
            assert(!is_digit(d[i - start]));
            assert(!all_digits(d));
            return None;
        }
        let dv = (c as u32) - ('0' as u32);
        proof {
            assert(d.take(i - start + 1).drop_last() =~= d.take(i - start));
            assert(d.take(i - start + 1).last() == c);
        }
        let next = value * 10 + dv;
        if next > 65535 {
            proof {
                assert(digits_value(d.take(i - start + 1)) == next);
                if all_digits(d) {
                    lemma_digits_value_mono(d, i - start + 1);
                }
            }
            return None;
        }
        value = next;
        i = i + 1;
    }
    assert(d.take(i - start) =~= d);
    Some(value as u16)
}

// ─── YAML scalars ────────────────────────────────────────────────────────────

/// The text of a YAML value used as an expected value: a string as is, a
/// number as printed, a boolean as `true`/`false`, null as empty, anything
/// else in its `Debug` rendering.
pub open spec fn yaml_scalar_text(v: YamlValue) -> Seq<char> {
    match v {
        YamlValue::String(s) => s@,
        YamlValue::Number(n) => n.text@,
        YamlValue::Bool(b) => bool_text(b),
        YamlValue::Null => Seq::empty(),
        YamlValue::Sequence { debug, .. } => debug@,
        YamlValue::Mapping { debug, .. } => debug@,
        YamlValue::Tagged { debug, .. } => debug@,
    }
}

/// Renders a YAML value as an expected-value string.
pub fn yaml_scalar_to_string(v: &YamlValue) -> (r: String)
    ensures
        r@ == yaml_scalar_text(*v),
{
    match v {
        YamlValue::String(s) => owned(s.as_str()),
        YamlValue::Number(n) => owned(n.text.as_str()),
        YamlValue::Bool(b) => bool_string(*b),
        YamlValue::Null => String::new(),
        YamlValue::Sequence { debug, .. } => owned(debug.as_str()),
        YamlValue::Mapping { debug, .. } => owned(debug.as_str()),
        YamlValue::Tagged { debug, .. } => owned(debug.as_str()),
    }
}

/// The `Debug` rendering of a YAML value that is neither a number nor a
/// string: `Null`, `Bool(b)`, or the carried rendering.
pub open spec fn yaml_debug_text(v: YamlValue) -> Seq<char> {
    match v {
        YamlValue::Null => "Null"@,
        YamlValue::Bool(b) => "Bool("@ + bool_text(b) + ")"@,
        YamlValue::Sequence { debug, .. } => debug@,
        YamlValue::Mapping { debug, .. } => debug@,
        YamlValue::Tagged { debug, .. } => debug@,
        YamlValue::Number(n) => "Number("@ + n.text@ + ")"@,
        YamlValue::String(s) => "String("@ + crate::error::debug_str(s@) + ")"@,
    }
}

fn yaml_debug_string(v: &YamlValue) -> (r: String)
    ensures
        r@ == yaml_debug_text(*v),
{
    match v {
        YamlValue::Null => owned("Null"),
        YamlValue::Bool(b) => {
            let mut s = owned("Bool(");
            let t = bool_string(*b);
            push_str(&mut s, t.as_str());
            push_str(&mut s, ")");
            s
        },
        YamlValue::Sequence { debug, .. } => owned(debug.as_str()),
        YamlValue::Mapping { debug, .. } => owned(debug.as_str()),
        YamlValue::Tagged { debug, .. } => owned(debug.as_str()),
        YamlValue::Number(n) => {
            let mut s = owned("Number(");
            push_str(&mut s, n.text.as_str());
            push_str(&mut s, ")");
            s
        },
        YamlValue::String(t) => {
            let mut s = owned("String(");
            let q = crate::error::debug_quote(t.as_str());
            push_str(&mut s, q.as_str());
            push_str(&mut s, ")");
            s
        },
    }
}

/// The status code an assertion's `status` value denotes, or the reason it is
/// not one.
pub open spec fn status_value(v: YamlValue) -> Result<u16, Seq<char>> {
    match v {
        YamlValue::Number(n) => match n.as_u64 {
            Some(x) => if x <= 65535 {
                Ok(x as u16)
            } else {
                Err("status value '"@ + n.text@ + "' is not a valid HTTP status code (0–65535)"@)
            },
            None => Err("status value '"@ + n.text@ + "' is not a valid HTTP status code (0–65535)"@),
        },
        YamlValue::String(s) => match parse_u16_spec(s@) {
            Some(c) => Ok(c),
            None => Err("status value '"@ + s@ + "' is not a valid HTTP status code"@),
        },
        _ => Err("status value must be a number or numeric string, got: "@ + yaml_debug_text(v)),
    }
}

/// Parses the value of a `status` assertion.
pub fn parse_status_value(v: &YamlValue) -> (r: Result<u16, RequestError>)
    ensures
        match (r, status_value(*v)) {
            (Ok(c), Ok(d)) => c == d,
            (Err(RequestError::InvalidAssertion { cause }), Err(t)) => cause@ == t,
            _ => false,
        },
{
    match v {
        YamlValue::Number(n) => {
            match n.as_u64 {
                Some(x) => {
                    if x <= 65535 {
                        return Ok(x as u16);
                    }
                },
                None => {},
            }
            let mut s = owned("status value '");
            push_str(&mut s, n.text.as_str());
            push_str(&mut s, "' is not a valid HTTP status code (0–65535)");
            Err(RequestError::InvalidAssertion { cause: s })
        },
        YamlValue::String(t) => match parse_u16(t.as_str()) {
            Some(c) => Ok(c),
            None => {
                let mut s = owned("status value '");
                push_str(&mut s, t.as_str());
                push_str(&mut s, "' is not a valid HTTP status code");
                Err(RequestError::InvalidAssertion { cause: s })
            },
        },
        _ => {
            let d = yaml_debug_string(v);
            Err(RequestError::InvalidAssertion {
                cause: concat("status value must be a number or numeric string, got: ", d.as_str()),
            })
        },
    }
}

// ─── checking ────────────────────────────────────────────────────────────────

/// The failure of a status assertion expecting `expected`, if any.
pub open spec fn status_failure(expected: u16, status: u16) -> Option<FailureText> {
    if status != expected {
        Some(FailureText {
            kind: AssertionType::Status,
            expected: decimal(expected as nat),
            actual: decimal(status as nat),
            path: None,
        })
    } else {
        None
    }
}

/// Checks a status assertion.
pub fn check_status(expected: u16, status: u16) -> (r: Option<AssertionFailure>)
    ensures
        opt_failure_text(r) == status_failure(expected, status),
{
    if status != expected {
        Some(failure(AssertionType::Status, u64_to_string(expected as u64), u64_to_string(status as u64), None))
    } else {
        None
    }
}

/// The failure of a header assertion on header `name`, given the response
/// headers, if any. An absent header reads as empty for `equals` and
/// `contains`.
pub open spec fn header_failure(name: Seq<char>, check: ValueCheck, headers: Map<Seq<char>, Seq<char>>) -> Option<FailureText> {
    let found = headers.contains_key(name);
    let actual = if found { headers[name] } else { Seq::empty() };
    match check {
        ValueCheck::Exists(e) => if found != e {
            Some(FailureText {
                kind: AssertionType::Header,
                expected: "header '"@ + name + "' exists="@ + bool_text(e),
                actual: "header '"@ + name + "' exists="@ + bool_text(found),
                path: None,
            })
        } else {
            None
        },
        ValueCheck::Equals(e) => if actual != e@ {
            Some(FailureText { kind: AssertionType::Header, expected: e@, actual, path: None })
        } else {
            None
        },
        ValueCheck::Contains(e) => if !contains_seq(actual, e@) {
            Some(FailureText {
                kind: AssertionType::Header,
                expected: "contains '"@ + e@ + "'"@,
                actual,
                path: None,
            })
        } else {
            None
        },
    }
}

fn header_exists_text(name: &str, b: bool) -> (r: String)
    ensures
        r@ == "header '"@ + name@ + "' exists="@ + bool_text(b),
{
    let mut s = owned("header '");
    push_str(&mut s, name);
    push_str(&mut s, "' exists=");
    let t = bool_string(b);
    push_str(&mut s, t.as_str());
    s
}

fn contains_text(e: &str) -> (r: String)
    ensures
        r@ == "contains '"@ + e@ + "'"@,
{
    let mut s = owned("contains '");
    push_str(&mut s, e);
    push_str(&mut s, "'");
    s
}

/// Checks a header assertion against the response headers.
pub fn check_header(name: &str, check: &ValueCheck, headers: &StrMap) -> (r: Option<AssertionFailure>)
    ensures
        opt_failure_text(r) == header_failure(name@, *check, headers@),
{
    let value = headers.get(name);
    let actual = match value {
        Some(v) => owned(v.as_str()),
        None => String::new(),
    };
    match check {
        ValueCheck::Exists(e) => {
            let found = value.is_some();
            if found != *e {
                Some(failure(AssertionType::Header, header_exists_text(name, *e), header_exists_text(name, found), None))
            } else {
                None
            }
        },
        ValueCheck::Equals(e) => {
            if !str_eq(actual.as_str(), e.as_str()) {
                Some(failure(AssertionType::Header, owned(e.as_str()), actual, None))
            } else {
                None
            }
        },
        ValueCheck::Contains(e) => {
            if !str_contains(actual.as_str(), e.as_str()) {
                Some(failure(AssertionType::Header, contains_text(e.as_str()), actual, None))
            } else {
                None
            }
        },
    }
}

// ─── JSONPath outcomes ───────────────────────────────────────────────────────

/// A node matched by a JSONPath query, as far as the checks read it.
pub enum JsonNode {
    /// A JSON string, by its content.
    Str(String),
    /// A JSON array: the comparison text of each element, and the array's
    /// JSON text.
    Array { items: Vec<String>, text: String },
    /// Any other JSON value, by its JSON text.
    Other(String),
}

/// The text a node is compared by: a string's content, otherwise the JSON
/// text.
pub open spec fn node_text(n: JsonNode) -> Seq<char> {
    match n {
        JsonNode::Str(s) => s@,
        JsonNode::Array { text, .. } => text@,
        JsonNode::Other(t) => t@,
    }
}

/// What evaluating a JSONPath assertion's query produced.
pub enum JsonQueryOutcome {
    /// The response body is not JSON.
    BodyNotJson,
    /// The JSONPath expression does not parse; the parser's message.
    InvalidPath(String),
    /// The nodes the query matched, in order.
    Nodes(Vec<JsonNode>),
}

/// The failure of a JSONPath assertion on `path`, given what its query
/// produced, if any.
pub open spec fn json_path_failure(path: Seq<char>, check: ValueCheck, o: JsonQueryOutcome) -> Option<FailureText> {
    let fail = |e: Seq<char>, a: Seq<char>| Some(FailureText { kind: AssertionType::JsonPath, expected: e, actual: a, path: Some(path) });
    match o {
        JsonQueryOutcome::BodyNotJson => fail("valid JSON body"@, "<body is not valid JSON>"@),
        JsonQueryOutcome::InvalidPath(m) => fail("valid JSONPath '"@ + path + "'"@, "invalid JSONPath: "@ + m@),
        JsonQueryOutcome::Nodes(ns) => match check {
            ValueCheck::Exists(e) => {
                let found = ns@.len() > 0;
                if found != e {
                    fail("exists="@ + bool_text(e), "exists="@ + bool_text(found))
                } else {
                    None
                }
            },
            ValueCheck::Equals(e) => {
                let actual = if ns@.len() > 0 { node_text(ns@[0]) } else { Seq::empty() };
                if actual != e@ {
                    fail(e@, actual)
                } else {
                    None
                }
            },
            ValueCheck::Contains(e) => {
                if ns@.len() == 0 {
                    fail("contains '"@ + e@ + "'"@, "<no match>"@)
                } else {
                    let first = ns@[0];
                    let matches = match first {
                        JsonNode::Str(s) => contains_seq(s@, e@),
                        JsonNode::Array { items, .. } => views(items@).contains(e@),
                        JsonNode::Other(_) => false,
                    };
                    if !matches {
                        fail("contains '"@ + e@ + "'"@, node_text(first))
                    } else {
                        None
                    }
                }
            },
        },
    }
}

/// A JSONPath `exists` check on a JSON body with a valid path fails exactly
/// when whether the query matched anything differs from what it expects:
/// `exists: false` fails when a node matches, `exists: true` when none does.
pub proof fn law_exists_check(path: Seq<char>, expected: bool, ns: Vec<JsonNode>)
    ensures
        json_path_failure(path, ValueCheck::Exists(expected), JsonQueryOutcome::Nodes(ns)) is None <==> ((ns@.len()
            > 0) == expected),
{
}

fn node_string(n: &JsonNode) -> (r: String)
    ensures
        r@ == node_text(*n),
{
    match n {
        JsonNode::Str(s) => owned(s.as_str()),
        JsonNode::Array { text, .. } => owned(text.as_str()),
        JsonNode::Other(t) => owned(t.as_str()),
    }
}

fn contains_string(v: &Vec<String>, k: &str) -> (r: bool)
    ensures
        r == views(v@).contains(k@),
{
    let mut i: usize = 0;
    while i < v.len()
        invariant
            i <= v.len(),
            forall|j: int| 0 <= j < i ==> v@[j]@ != k@,
        decreases v.len() - i,
    {
        if str_eq(v[i].as_str(), k) {
            assert(views(v@)[i as int] == k@);
            return true;
        }
        i = i + 1;
    }
    proof {
        if views(v@).contains(k@) {
            let j = choose|j: int| 0 <= j < views(v@).len() && views(v@)[j] == k@;
            assert(v@[j]@ == k@);
        }
    }
    false
}

/// Decides a JSONPath assertion on `path` from what its query produced.
pub fn json_path_verdict(path: &str, check: &ValueCheck, outcome: &JsonQueryOutcome) -> (r: Option<AssertionFailure>)
    ensures
        opt_failure_text(r) == json_path_failure(path@, *check, *outcome),
        (check is Exists && outcome is Nodes) ==> (r is None <==> ((outcome->Nodes_0@.len() > 0)
            == check->Exists_0)),
{
    proof {
        if check is Exists && outcome is Nodes {
            law_exists_check(path@, check->Exists_0, outcome->Nodes_0);
        }
    }
    let p = Some(owned(path));
    match outcome {
        JsonQueryOutcome::BodyNotJson => {
            let r = Some(failure(AssertionType::JsonPath, owned("valid JSON body"), owned("<body is not valid JSON>"), p));
            r
        },
        JsonQueryOutcome::InvalidPath(m) => {
            let mut e = owned("valid JSONPath '");
            push_str(&mut e, path);
            push_str(&mut e, "'");
            Some(failure(AssertionType::JsonPath, e, concat("invalid JSONPath: ", m.as_str()), p))
        },
        JsonQueryOutcome::Nodes(ns) => match check {
            ValueCheck::Exists(e) => {
                let found = ns.len() > 0;
                if found != *e {
                    let a = concat("exists=", bool_string(*e).as_str());
                    let b = concat("exists=", bool_string(found).as_str());
                    Some(failure(AssertionType::JsonPath, a, b, p))
                } else {
                    None
                }
            },
            ValueCheck::Equals(e) => {
                let actual = if ns.len() > 0 { node_string(&ns[0]) } else { String::new() };
                if !str_eq(actual.as_str(), e.as_str()) {
                    Some(failure(AssertionType::JsonPath, owned(e.as_str()), actual, p))
                } else {
                    None
                }
            },
            ValueCheck::Contains(e) => {
                if ns.len() == 0 {
                    return Some(failure(AssertionType::JsonPath, contains_text(e.as_str()), owned("<no match>"), p));
                }
                let first = &ns[0];
                let matches = match first {
                    JsonNode::Str(s) => str_contains(s.as_str(), e.as_str()),
                    JsonNode::Array { items, .. } => contains_string(items, e.as_str()),
                    JsonNode::Other(_) => false,
                };
                if !matches {
                    Some(failure(AssertionType::JsonPath, contains_text(e.as_str()), node_string(first), p))
                } else {
                    None
                }
            },
        },
    }
}

// ─── JSONPath queries ────────────────────────────────────────────────────────

/// `n` is the node read from the JSON value whose compact text is `t`.
pub open spec fn node_fits(n: JsonNode, t: Seq<char>) -> bool {
    match json_kind(t) {
        JsonKind::Str(s) => n matches JsonNode::Str(x) && x@ == s,
        JsonKind::Array(items) => n matches JsonNode::Array { items: xs, text } && text@ == t
            && views(xs@) == items.map_values(|i: Seq<char>| comparable_text(i)),
        _ => n matches JsonNode::Other(x) && x@ == t,
    }
}

fn json_node(d: &JsonDoc) -> (r: JsonNode)
    ensures
        node_fits(r, d@),
{
    match json_shape(d) {
        JsonShape::Str(s) => JsonNode::Str(s),
        JsonShape::Array(items) => {
            let ghost ts = doc_views(items@);
            let mut texts: Vec<String> = Vec::new();
            let mut i: usize = 0;
            while i < items.len()
                invariant
                    i <= items@.len(),
                    ts == doc_views(items@),
                    texts@.len() == i,
                    forall|j: int| 0 <= j < i ==> (#[trigger] texts@[j])@ == comparable_text(ts[j]),
                decreases items.len() - i,
            {
                texts.push(json_comparable(&items[i]));
                i = i + 1;
            }
            assert(views(texts@) =~= ts.map_values(|x: Seq<char>| comparable_text(x)));
            JsonNode::Array { items: texts, text: owned(d.text()) }
        },
        _ => JsonNode::Other(owned(d.text())),
    }
}

/// What the query of a JSONPath assertion produces on `body`: a body that is
/// not JSON, else a path that does not parse (with the parser's message),
/// else the nodes the query selects, read in order.
pub open spec fn json_outcome_fits(o: JsonQueryOutcome, body: Seq<char>, path: Seq<char>) -> bool {
    match json_parse_result(body) {
        Err(_) => o is BodyNotJson,
        Ok(doc) => match json_path_compiled(path) {
            Err(t) => o matches JsonQueryOutcome::InvalidPath(m) && m@ == t,
            Ok(()) => o matches JsonQueryOutcome::Nodes(ns) && ns@.len() == json_path_nodes(path, doc).len()
                && forall|i: int| 0 <= i < ns@.len() ==> node_fits(#[trigger] ns@[i], json_path_nodes(path, doc)[i]),
        },
    }
}

/// Runs a JSONPath assertion on a response body: parses the body, compiles
/// the path, queries, and decides with [`json_path_verdict`].
pub fn check_json_path(path: &str, check: &ValueCheck, body: &str) -> (r: Option<AssertionFailure>)
    ensures
        exists|o: JsonQueryOutcome|
            json_outcome_fits(o, body@, path@) && opt_failure_text(r) == json_path_failure(path@, *check, o),
{
    let outcome = match parse_json_value(body) {
        Err(_) => JsonQueryOutcome::BodyNotJson,
        Ok(doc) => match compile_json_path(path) {
            Err(m) => JsonQueryOutcome::InvalidPath(m),
            Ok(compiled) => {
                let found = query_json_nodes(&compiled, &doc);
                let ghost qs = json_path_nodes(path@, doc@);
                let mut nodes: Vec<JsonNode> = Vec::new();
                let mut i: usize = 0;
                while i < found.len()
                    invariant
                        i <= found@.len(),
                        doc_views(found@) == qs,
                        nodes@.len() == i,
                        forall|j: int| 0 <= j < i ==> node_fits(#[trigger] nodes@[j], qs[j]),
                    decreases found.len() - i,
                {
                    nodes.push(json_node(&found[i]));
                    i = i + 1;
                }
                JsonQueryOutcome::Nodes(nodes)
            },
        },
    };
    let r = json_path_verdict(path, check, &outcome);
    assert(json_outcome_fits(outcome, body@, path@));
    r
}

// ─── parsing assertion maps ──────────────────────────────────────────────────

/// `r` is what interpolating the template `t` with `vars` gives, an
/// interpolation failure wrapped as a request error.
pub open spec fn interp_rel(t: Seq<char>, vars: Map<Seq<char>, Seq<char>>, r: Result<String, RequestError>) -> bool {
    match r {
        Ok(s) => interpolate_result(t, vars, Ok(s)),
        Err(RequestError::Interpolation(e)) => interpolate_result(t, vars, Err(e)),
        _ => false,
    }
}

/// The check of a `jsonPath` or `header` assertion map (`owner` names the
/// kind in the error): the first of `exists` (a boolean), `equals`,
/// `contains` that is present; expected values are interpolated.
pub open spec fn check_rel(
    entries: Seq<(String, YamlValue)>,
    vars: Map<Seq<char>, Seq<char>>,
    owner: Seq<char>,
    r: Result<ValueCheck, RequestError>,
) -> bool {
    match assertion_lookup(entries, "exists"@) {
        Some(v) => match v {
            YamlValue::Bool(b) => r == Ok::<ValueCheck, RequestError>(ValueCheck::Exists(b)),
            _ => r matches Err(RequestError::InvalidAssertion { cause }) && cause@ == "exists value must be a boolean"@,
        },
        None => match assertion_lookup(entries, "equals"@) {
            Some(v) => match r {
                Ok(ValueCheck::Equals(s)) => interp_rel(yaml_scalar_text(v), vars, Ok(s)),
                Err(e) => interp_rel(yaml_scalar_text(v), vars, Err(e)),
                _ => false,
            },
            None => match assertion_lookup(entries, "contains"@) {
                Some(v) => match r {
                    Ok(ValueCheck::Contains(s)) => interp_rel(yaml_scalar_text(v), vars, Ok(s)),
                    Err(e) => interp_rel(yaml_scalar_text(v), vars, Err(e)),
                    _ => false,
                },
                None => r matches Err(RequestError::InvalidAssertion { cause }) && cause@ == owner
                    + " assertion must have one of: exists, equals, contains"@,
            },
        },
    }
}

fn parse_check(map: &AssertionMap, vars: &StrMap, owner: &str) -> (r: Result<ValueCheck, RequestError>)
    ensures
        check_rel(map.entries@, vars@, owner@, r),
{
    match map.get("exists") {
        Some(v) => {
            return match v {
                YamlValue::Bool(b) => Ok(ValueCheck::Exists(*b)),
                _ => Err(RequestError::InvalidAssertion { cause: owned("exists value must be a boolean") }),
            };
        },
        None => {},
    }
    match map.get("equals") {
        Some(v) => {
            let t = yaml_scalar_to_string(v);
            return match interpolate(t.as_str(), vars) {
                Ok(s) => Ok(ValueCheck::Equals(s)),
                Err(e) => Err(RequestError::Interpolation(e)),
            };
        },
        None => {},
    }
    match map.get("contains") {
        Some(v) => {
            let t = yaml_scalar_to_string(v);
            return match interpolate(t.as_str(), vars) {
                Ok(s) => Ok(ValueCheck::Contains(s)),
                Err(e) => Err(RequestError::Interpolation(e)),
            };
        },
        None => {},
    }
    Err(RequestError::InvalidAssertion {
        cause: concat(owner, " assertion must have one of: exists, equals, contains"),
    })
}

/// The keys of an assertion map, in order.
pub open spec fn map_keys(entries: Seq<(String, YamlValue)>) -> Seq<Seq<char>> {
    entries.map_values(|e: (String, YamlValue)| e.0@)
}

/// What parsing an assertion map gives: a `status` key makes a status
/// assertion; else a `jsonPath` key (a string) a JSONPath assertion; else a
/// `header` key (a string, lowercased) a header assertion; any other map is
/// an error listing its keys.
pub open spec fn parse_rel(
    entries: Seq<(String, YamlValue)>,
    vars: Map<Seq<char>, Seq<char>>,
    r: Result<Assertion, RequestError>,
) -> bool {
    match assertion_lookup(entries, "status"@) {
        Some(v) => match (r, status_value(v)) {
            (Ok(Assertion::Status(c)), Ok(d)) => c == d,
            (Err(RequestError::InvalidAssertion { cause }), Err(t)) => cause@ == t,
            _ => false,
        },
        None => match assertion_lookup(entries, "jsonPath"@) {
            Some(pv) => match pv {
                YamlValue::String(p) => match r {
                    Ok(Assertion::JsonPath { path, check }) => path@ == p@ && check_rel(entries, vars, "jsonPath"@, Ok(check)),
                    Err(e) => check_rel(entries, vars, "jsonPath"@, Err(e)),
                    _ => false,
                },
                _ => r matches Err(RequestError::InvalidAssertion { cause }) && cause@ == "jsonPath value must be a string"@,
            },
            None => match assertion_lookup(entries, "header"@) {
                Some(hv) => match hv {
                    YamlValue::String(h) => match r {
                        Ok(Assertion::Header { name, check }) => name@ == lowercase(h@) && check_rel(entries, vars, "header"@, Ok(check)),
                        Err(e) => check_rel(entries, vars, "header"@, Err(e)),
                        _ => false,
                    },
                    _ => r matches Err(RequestError::InvalidAssertion { cause }) && cause@ == "header value must be a string"@,
                },
                None => r matches Err(RequestError::InvalidAssertion { cause }) && cause@
                    == "unknown assertion key(s): "@ + debug_list(map_keys(entries)),
            },
        },
    }
}

/// Parses one assertion map, interpolating expected values with `vars`.
pub fn parse_assertion_map(map: &AssertionMap, vars: &StrMap) -> (r: Result<Assertion, RequestError>)
    ensures
        parse_rel(map.entries@, vars@, r),
{
    match map.get("status") {
        Some(v) => {
            return match parse_status_value(v) {
                Ok(c) => Ok(Assertion::Status(c)),
                Err(e) => Err(e),
            };
        },
        None => {},
    }
    match map.get("jsonPath") {
        Some(pv) => {
            return match pv {
                YamlValue::String(p) => match parse_check(map, vars, "jsonPath") {
                    Ok(check) => Ok(Assertion::JsonPath { path: owned(p.as_str()), check }),
                    Err(e) => Err(e),
                },
                _ => Err(RequestError::InvalidAssertion { cause: owned("jsonPath value must be a string") }),
            };
        },
        None => {},
    }
    match map.get("header") {
        Some(hv) => {
            return match hv {
                YamlValue::String(h) => match parse_check(map, vars, "header") {
                    Ok(check) => Ok(Assertion::Header { name: to_lowercase(h.as_str()), check }),
                    Err(e) => Err(e),
                },
                _ => Err(RequestError::InvalidAssertion { cause: owned("header value must be a string") }),
            };
        },
        None => {},
    }
    let mut keys: Vec<String> = Vec::new();
    let mut i: usize = 0;
    while i < map.entries.len()
        invariant
            i <= map.entries.len(),
            views(keys@) == map_keys(map.entries@).take(i as int),
        decreases map.entries.len() - i,
    {
        let ghost before = keys@;
        let k = owned(map.entries[i].0.as_str());
        keys.push(k);
        proof {
            crate::text::lemma_views_push(before, k);
            assert(map_keys(map.entries@).take(i + 1) =~= map_keys(map.entries@).take(i as int).push(map.entries@[i as int].0@));
        }
        i = i + 1;
    }
    assert(map_keys(map.entries@).take(i as int) =~= map_keys(map.entries@));
    let listed = debug_string_list(&keys);
    Err(RequestError::InvalidAssertion { cause: concat("unknown assertion key(s): ", listed.as_str()) })
}

// ─── evaluation ──────────────────────────────────────────────────────────────

/// The human-readable description of an assertion, as listed when it passes.
pub open spec fn passed_text(a: Assertion) -> Seq<char> {
    match a {
        Assertion::Status(c) => "status "@ + decimal(c as nat),
        Assertion::JsonPath { path, check } => "jsonPath "@ + path@ + check_text(check),
        Assertion::Header { name, check } => "header "@ + name@ + check_text(check),
    }
}

/// The description of a check: ` exists=b`, ` equals v` or ` contains v`.
pub open spec fn check_text(c: ValueCheck) -> Seq<char> {
    match c {
        ValueCheck::Exists(b) => " exists="@ + bool_text(b),
        ValueCheck::Equals(s) => " equals "@ + s@,
        ValueCheck::Contains(s) => " contains "@ + s@,
    }
}

fn check_string(c: &ValueCheck) -> (r: String)
    ensures
        r@ == check_text(*c),
{
    match c {
        ValueCheck::Exists(b) => concat(" exists=", bool_string(*b).as_str()),
        ValueCheck::Equals(s) => concat(" equals ", s.as_str()),
        ValueCheck::Contains(s) => concat(" contains ", s.as_str()),
    }
}

/// Describes an assertion, for the list of passed ones.
pub fn passed_description(a: &Assertion) -> (r: String)
    ensures
        r@ == passed_text(*a),
{
    match a {
        Assertion::Status(c) => concat("status ", u64_to_string(*c as u64).as_str()),
        Assertion::JsonPath { path, check } => {
            let mut s = concat("jsonPath ", path.as_str());
            push_str(&mut s, check_string(check).as_str());
            s
        },
        Assertion::Header { name, check } => {
            let mut s = concat("header ", name.as_str());
            push_str(&mut s, check_string(check).as_str());
            s
        },
    }
}

/// What may come of checking assertion `a` against a response with status
/// `status`, headers `headers` and body `body`: status and header checks are
/// exact; a JSONPath check is decided by [`json_path_failure`] on some
/// outcome that the body and path admit.
pub open spec fn assertion_failure_rel(
    a: Assertion,
    status: u16,
    headers: Map<Seq<char>, Seq<char>>,
    body: Seq<char>,
    f: Option<FailureText>,
) -> bool {
    match a {
        Assertion::Status(c) => f == status_failure(c, status),
        Assertion::Header { name, check } => f == header_failure(name@, check, headers),
        Assertion::JsonPath { path, check } => exists|o: JsonQueryOutcome|
            json_outcome_fits(o, body, path@) && f == json_path_failure(path@, check, o),
    }
}

/// Checks one parsed assertion against a response.
pub fn check_assertion(a: &Assertion, response: &HttpResponse) -> (r: Option<AssertionFailure>)
    ensures
        assertion_failure_rel(*a, response.status, response.headers@, response.body@, opt_failure_text(r)),
{
    match a {
        Assertion::Status(c) => check_status(*c, response.status),
        Assertion::JsonPath { path, check } => check_json_path(path.as_str(), check, response.body.as_str()),
        Assertion::Header { name, check } => check_header(name.as_str(), check, &response.headers),
    }
}

/// The map parses into some assertion.
pub open spec fn map_parses(m: AssertionMap, vars: Map<Seq<char>, Seq<char>>) -> bool {
    exists|a: Assertion| parse_rel(m.entries@, vars, Ok(a))
}

/// Every map of `raw` parses.
pub open spec fn all_parse(raw: Seq<AssertionMap>, vars: Map<Seq<char>, Seq<char>>) -> bool {
    forall|i: int| 0 <= i < raw.len() ==> #[trigger] map_parses(raw[i], vars)
}

/// The descriptions of the assertions whose check found no failure, in order.
pub open spec fn passed_texts(as_: Seq<Assertion>, os: Seq<Option<FailureText>>) -> Seq<Seq<char>>
    decreases os.len(),
{
    if os.len() == 0 {
        Seq::empty()
    } else {
        let prev = passed_texts(as_.drop_last(), os.drop_last());
        if os.last() is None { prev.push(passed_text(as_.last())) } else { prev }
    }
}

/// The failures found, in order.
pub open spec fn failed_texts(os: Seq<Option<FailureText>>) -> Seq<FailureText>
    decreases os.len(),
{
    if os.len() == 0 {
        Seq::empty()
    } else {
        let prev = failed_texts(os.drop_last());
        match os.last() {
            Some(f) => prev.push(f),
            None => prev,
        }
    }
}

/// The text forms of a list of failures.
pub open spec fn failure_texts(fs: Seq<AssertionFailure>) -> Seq<FailureText> {
    fs.map_values(|f: AssertionFailure| failure_text(f))
}

/// `as_` are the assertions the maps `raw` parse into, and `os` what
/// checking each against the response may give.
pub open spec fn evaluation_rel(
    raw: Seq<AssertionMap>,
    vars: Map<Seq<char>, Seq<char>>,
    response: HttpResponse,
    as_: Seq<Assertion>,
    os: Seq<Option<FailureText>>,
) -> bool {
    &&& as_.len() == raw.len()
    &&& os.len() == raw.len()
    &&& forall|i: int| 0 <= i < raw.len() ==> parse_rel(#[trigger] raw[i].entries@, vars, Ok(as_[i]))
        && assertion_failure_rel(as_[i], response.status, response.headers@, response.body@, os[i])
}

/// Evaluates the assertion maps of a request against its response.
///
/// Expected values are interpolated with `vars`. Every map is parsed and its
/// assertion checked, in order: the result lists the descriptions of the
/// assertions that passed and the failures of the others; the first map that
/// does not parse stops the evaluation with its error.
pub fn evaluate(raw: &Vec<AssertionMap>, response: &HttpResponse, vars: &StrMap) -> (r: Result<(Vec<String>, Vec<AssertionFailure>), RequestError>)
    ensures
        match r {
            Ok((p, f)) => all_parse(raw@, vars@) && exists|as_: Seq<Assertion>, os: Seq<Option<FailureText>>|
                #![trigger evaluation_rel(raw@, vars@, *response, as_, os)]
                evaluation_rel(raw@, vars@, *response, as_, os) && views(p@) == passed_texts(as_, os)
                    && failure_texts(f@) == failed_texts(os),
            Err(e) => exists|i: int|
                0 <= i < raw@.len() && all_parse(raw@.take(i), vars@) && parse_rel(raw@[i].entries@, vars@, Err(e)),
        },
{
    let mut passed: Vec<String> = Vec::new();
    let mut failures: Vec<AssertionFailure> = Vec::new();
    let ghost mut as_: Seq<Assertion> = Seq::empty();
    let ghost mut os: Seq<Option<FailureText>> = Seq::empty();
    let mut i: usize = 0;
    proof {
        assert(views(passed@) =~= passed_texts(as_, os));
        assert(failure_texts(failures@) =~= failed_texts(os));
    }
    while i < raw.len()
        invariant
            i <= raw.len(),
            all_parse(raw@.take(i as int), vars@),
            evaluation_rel(raw@.take(i as int), vars@, *response, as_, os),
            views(passed@) == passed_texts(as_, os),
            failure_texts(failures@) == failed_texts(os),
        decreases raw.len() - i,
    {
        match parse_assertion_map(&raw[i], vars) {
            Err(e) => {
                return Err(e);
            },
            Ok(a) => {
                proof {
                    let prev = raw@.take(i as int);
                    assert(parse_rel(raw@[i as int].entries@, vars@, Ok(a)));
                    assert(map_parses(raw@[i as int], vars@));
                    assert forall|j: int| 0 <= j < i + 1 implies #[trigger] map_parses(raw@.take(i + 1)[j], vars@) by {
                        if j < i {
                            assert(raw@.take(i + 1)[j] == prev[j]);
                            assert(map_parses(prev[j], vars@));
                        } else {
                            assert(raw@.take(i + 1)[j] == raw@[i as int]);
                        }
                    }
                }
                let outcome = check_assertion(&a, response);
                let ghost as0 = as_;
                let ghost os0 = os;
                let ghost p0 = passed@;
                let ghost f0 = failures@;
                proof {
                    as_ = as0.push(a);
                    os = os0.push(opt_failure_text(outcome));
                    assert(as_.drop_last() =~= as0);
                    assert(os.drop_last() =~= os0);
                    let prev = raw@.take(i as int);
                    let next = raw@.take(i + 1);
                    assert forall|j: int| 0 <= j < next.len() implies parse_rel(#[trigger] next[j].entries@, vars@, Ok(as_[j]))
                        && assertion_failure_rel(as_[j], response.status, response.headers@, response.body@, os[j]) by {
                        if j < i {
                            assert(next[j] == prev[j]);
                            assert(parse_rel(prev[j].entries@, vars@, Ok(as0[j])));
                        } else {
                            assert(next[j] == raw@[i as int]);
                        }
                    }
                }
                match outcome {
                    Some(f) => {
                        failures.push(f);
                        proof {
                            assert(failure_texts(failures@) =~= failure_texts(f0).push(failure_text(f)));
                        }
                    },
                    None => {
                        let d = passed_description(&a);
                        passed.push(d);
                        proof {
                            crate::text::lemma_views_push(p0, d);
                        }
                    },
                }
            },
        }
        i = i + 1;
    }
    assert(raw@.take(i as int) =~= raw@);
    Ok((passed, failures))
}

} // verus!

use strex::assertions::evaluate;
use strex::error::{AssertionFailure, AssertionType, RequestError};
use strex::http::{HttpResponse, RequestTiming};
use strex::strmap::StrMap;
use strex::yaml::{AssertionMap, YamlNumber, YamlValue};

fn response(status: u16, body: &str) -> HttpResponse {
    HttpResponse {
        status,
        headers: StrMap::new(),
        body: body.to_string(),
        timing: RequestTiming::default(),
        request_body: None,
        url: String::new(),
    }
}

fn response_with_header(status: u16, name: &str, value: &str) -> HttpResponse {
    let mut r = response(status, "");
    r.headers.insert(name.to_lowercase(), value.to_string());
    r
}

fn num(n: u64) -> YamlValue {
    YamlValue::Number(YamlNumber { text: n.to_string(), as_u64: Some(n) })
}

fn text(s: &str) -> YamlValue {
    YamlValue::String(s.to_string())
}

fn map(entries: Vec<(&str, YamlValue)>) -> AssertionMap {
    AssertionMap { entries: entries.into_iter().map(|(k, v)| (k.to_string(), v)).collect() }
}

fn status_map(code: u64) -> AssertionMap {
    map(vec![("status", num(code))])
}

fn jsonpath_map(path: &str, op: &str, val: YamlValue) -> AssertionMap {
    map(vec![("jsonPath", text(path)), (op, val)])
}

fn header_map(name: &str, op: &str, val: YamlValue) -> AssertionMap {
    map(vec![("header", text(name)), (op, val)])
}

fn failures_of(raw: Vec<AssertionMap>, resp: &HttpResponse, vars: &StrMap) -> Vec<AssertionFailure> {
    let (passed, failures) = evaluate(&raw, resp, vars).unwrap();
    assert_eq!(passed.len() + failures.len(), raw.len());
    failures
}

fn no_vars() -> StrMap {
    StrMap::new()
}

#[test]
fn status_assertion_passes_on_match() {
    let failures = failures_of(vec![status_map(200)], &response(200, ""), &no_vars());
    assert!(failures.is_empty());
}

#[test]
fn status_assertion_fails_on_mismatch() {
    let failures = failures_of(vec![status_map(200)], &response(404, ""), &no_vars());
    assert_eq!(failures.len(), 1);
    assert_eq!(failures[0].assertion_type, AssertionType::Status);
    assert_eq!(failures[0].expected, "200");
    assert_eq!(failures[0].actual, "404");
}

#[test]
fn status_string_value_is_accepted() {
    let failures = failures_of(vec![map(vec![("status", text("200"))])], &response(200, ""), &no_vars());
    assert!(failures.is_empty());
}

#[test]
fn status_non_numeric_returns_invalid_assertion_error() {
    let raw = vec![map(vec![("status", text("ok"))])];
    let err = evaluate(&raw, &response(200, ""), &no_vars()).unwrap_err();
    assert!(matches!(err, RequestError::InvalidAssertion { .. }), "{err:?}");
}

#[test]
fn jsonpath_exists_true_passes_when_found() {
    let raw = vec![jsonpath_map("$.id", "exists", YamlValue::Bool(true))];
    assert!(failures_of(raw, &response(200, r#"{"id": 1}"#), &no_vars()).is_empty());
}

#[test]
fn jsonpath_exists_true_fails_when_not_found() {
    let raw = vec![jsonpath_map("$.missing", "exists", YamlValue::Bool(true))];
    let failures = failures_of(raw, &response(200, r#"{"id": 1}"#), &no_vars());
    assert_eq!(failures.len(), 1);
    assert_eq!(failures[0].assertion_type, AssertionType::JsonPath);
}

#[test]
fn jsonpath_equals_number_as_string() {
    let raw = vec![jsonpath_map("$.id", "equals", text("1"))];
    let failures = failures_of(raw, &response(200, r#"{"id": 1}"#), &no_vars());
    assert!(failures.is_empty(), "{failures:?}");
}

#[test]
fn jsonpath_equals_string_value() {
    let raw = vec![jsonpath_map("$.name", "equals", text("John"))];
    let failures = failures_of(raw, &response(200, r#"{"name": "John"}"#), &no_vars());
    assert!(failures.is_empty(), "{failures:?}");
}

#[test]
fn jsonpath_equals_fails_on_mismatch() {
    let raw = vec![jsonpath_map("$.id", "equals", text("999"))];
    assert_eq!(failures_of(raw, &response(200, r#"{"id": 1}"#), &no_vars()).len(), 1);
}

#[test]
fn jsonpath_contains_string_substring() {
    let raw = vec![jsonpath_map("$.email", "contains", text("@example.com"))];
    let failures = failures_of(raw, &response(200, r#"{"email": "user@example.com"}"#), &no_vars());
    assert!(failures.is_empty(), "{failures:?}");
}

#[test]
fn jsonpath_contains_array_element() {
    let raw = vec![jsonpath_map("$.tags", "contains", text("admin"))];
    let failures = failures_of(raw, &response(200, r#"{"tags": ["user", "admin", "editor"]}"#), &no_vars());
    assert!(failures.is_empty(), "{failures:?}");
}

#[test]
fn jsonpath_non_json_body_produces_failure_not_error() {
    let raw = vec![jsonpath_map("$.id", "exists", YamlValue::Bool(true))];
    let failures = failures_of(raw, &response(200, "not json"), &no_vars());
    assert_eq!(failures.len(), 1);
    assert!(failures[0].actual.contains("not valid JSON"), "{}", failures[0].actual);
}

#[test]
fn jsonpath_failure_carries_its_path() {
    let raw = vec![jsonpath_map("$.id", "equals", text("2"))];
    let failures = failures_of(raw, &response(200, r#"{"id": 1}"#), &no_vars());
    assert_eq!(failures[0].path.as_deref(), Some("$.id"));
    assert_eq!(failures[0].actual, "1");
}

#[test]
fn header_contains_passes() {
    let raw = vec![header_map("content-type", "contains", text("application/json"))];
    let resp = response_with_header(200, "content-type", "application/json; charset=utf-8");
    let failures = failures_of(raw, &resp, &no_vars());
    assert!(failures.is_empty(), "{failures:?}");
}

#[test]
fn header_name_is_case_insensitive() {
    let raw = vec![header_map("Content-Type", "equals", text("application/json"))];
    let resp = response_with_header(200, "content-type", "application/json");
    let failures = failures_of(raw, &resp, &no_vars());
    assert!(failures.is_empty(), "{failures:?}");
}

#[test]
fn header_exists_false_passes_when_absent() {
    let raw = vec![header_map("x-rate-limit", "exists", YamlValue::Bool(false))];
    let failures = failures_of(raw, &response(200, ""), &no_vars());
    assert!(failures.is_empty(), "{failures:?}");
}

#[test]
fn header_equals_fails_when_different() {
    let raw = vec![header_map("x-a", "equals", text("1"))];
    let failures = failures_of(raw, &response_with_header(200, "x-a", "2"), &no_vars());
    assert_eq!(failures.len(), 1);
    assert_eq!(failures[0].assertion_type, AssertionType::Header);
}

#[test]
fn assertion_expected_value_is_interpolated() {
    let raw = vec![jsonpath_map("$.name", "equals", text("{{expected_name}}"))];
    let mut vars = StrMap::new();
    vars.insert("expected_name".to_string(), "Alice".to_string());
    let failures = failures_of(raw, &response(200, r#"{"name": "Alice"}"#), &vars);
    assert!(failures.is_empty(), "{failures:?}");
}

#[test]
fn missing_interpolation_variable_returns_error() {
    let raw = vec![jsonpath_map("$.name", "equals", text("{{missing_var}}"))];
    let err = evaluate(&raw, &response(200, r#"{"name": "Alice"}"#), &no_vars()).unwrap_err();
    assert!(matches!(err, RequestError::Interpolation(_)), "{err:?}");
}

#[test]
fn unknown_assertion_key_returns_invalid_assertion_error() {
    let raw = vec![map(vec![("badKey", text("value"))])];
    let err = evaluate(&raw, &response(200, ""), &no_vars()).unwrap_err();
    assert!(matches!(err, RequestError::InvalidAssertion { .. }), "{err:?}");
}

#[test]
fn first_unparsable_assertion_stops_evaluation() {
    let raw = vec![status_map(500), map(vec![("badKey", text("v"))]), status_map(200)];
    assert!(evaluate(&raw, &response(200, ""), &no_vars()).is_err());
}

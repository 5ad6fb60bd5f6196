use strex::collection::Collection;
use strex::context::ExecutionContext;
use strex::error::RequestError;
use strex::http::{extract_domain, form_display, map_transport_error, merge_response_headers, TransportFailure};
use strex::strmap::StrMap;

fn collection_with(environment: StrMap, variables: Vec<(String, Option<String>)>) -> Collection {
    Collection { name: "test".to_string(), version: "1.0".to_string(), environment, variables, requests: vec![] }
}

fn map_of(pairs: &[(&str, &str)]) -> StrMap {
    let mut m = StrMap::new();
    for (k, v) in pairs {
        m.insert(k.to_string(), v.to_string());
    }
    m
}

fn get<'a>(m: &'a StrMap, k: &str) -> &'a str {
    m.get(k).unwrap().as_str()
}

#[test]
fn data_beats_variables_beats_environment() {
    let col = collection_with(map_of(&[("key", "from_env")]), vec![("key".to_string(), Some("from_vars".to_string()))]);
    let mut ctx = ExecutionContext::new(&col);
    ctx.data.insert("key".to_string(), "from_data".to_string());
    assert_eq!(get(&ctx.resolve_all(), "key"), "from_data");
}

#[test]
fn variables_beat_environment() {
    let col = collection_with(map_of(&[("key", "from_env")]), vec![("key".to_string(), Some("from_vars".to_string()))]);
    let ctx = ExecutionContext::new(&col);
    assert_eq!(get(&ctx.resolve_all(), "key"), "from_vars");
}

#[test]
fn environment_used_when_no_override() {
    let col = collection_with(map_of(&[("baseUrl", "https://api.example.com")]), vec![]);
    let ctx = ExecutionContext::new(&col);
    assert_eq!(get(&ctx.resolve_all(), "baseUrl"), "https://api.example.com");
}

#[test]
fn none_variable_becomes_empty_string() {
    let col = collection_with(StrMap::new(), vec![("token".to_string(), None)]);
    let ctx = ExecutionContext::new(&col);
    assert_eq!(get(&ctx.variables, "token"), "");
    assert_eq!(get(&ctx.resolve_all(), "token"), "");
}

#[test]
fn key_absent_from_all_layers_not_in_resolved() {
    let ctx = ExecutionContext::new(&collection_with(StrMap::new(), vec![]));
    assert!(!ctx.resolve_all().contains_key("missing"));
}

#[test]
fn data_field_starts_empty() {
    let ctx = ExecutionContext::new(&collection_with(StrMap::new(), vec![]));
    assert!(ctx.data.is_empty());
}

#[test]
fn new_with_data_populates_data_field() {
    let row = map_of(&[("email", "alice@example.com"), ("name", "Alice")]);
    let ctx = ExecutionContext::new_with_data(&collection_with(StrMap::new(), vec![]), &row);
    assert_eq!(get(&ctx.data, "email"), "alice@example.com");
    assert_eq!(get(&ctx.data, "name"), "Alice");
}

#[test]
fn new_with_data_row_beats_collection_variable() {
    let col = collection_with(StrMap::new(), vec![("key".to_string(), Some("from_vars".to_string()))]);
    let ctx = ExecutionContext::new_with_data(&col, &map_of(&[("key", "from_row")]));
    assert_eq!(get(&ctx.resolve_all(), "key"), "from_row");
}

#[test]
fn later_declaration_of_a_variable_wins() {
    let col = collection_with(
        StrMap::new(),
        vec![("k".to_string(), Some("first".to_string())), ("k".to_string(), Some("second".to_string()))],
    );
    assert_eq!(get(&ExecutionContext::new(&col).variables, "k"), "second");
}

#[test]
fn display_body_form_is_sorted_and_url_encoded() {
    let form = map_of(&[("z_key", "last"), ("a_key", "first"), ("m key", "mid val")]);
    let result = form_display(&form);
    let pos_a = result.find("a_key").unwrap();
    let pos_m = result.find("m+key").unwrap();
    let pos_z = result.find("z_key").unwrap();
    assert!(pos_a < pos_m, "a_key should come before m+key");
    assert!(pos_m < pos_z, "m+key should come before z_key");
    assert!(result.contains("mid+val") || result.contains("mid%20val"));
    assert_eq!(result, "a_key=first&m+key=mid+val&z_key=last");
}

#[test]
fn form_encoding_escapes_reserved_bytes() {
    assert_eq!(form_display(&map_of(&[("a&b", "c=d/é")])), "a%26b=c%3Dd%2F%C3%A9");
    assert_eq!(form_display(&StrMap::new()), "");
}

#[test]
fn response_header_names_are_lowercased_and_repeats_joined() {
    let raw = vec![
        ("Set-Cookie".to_string(), "a=1".to_string()),
        ("Content-Type".to_string(), "text/plain".to_string()),
        ("set-cookie".to_string(), "b=2".to_string()),
    ];
    let m = merge_response_headers(&raw);
    assert_eq!(m.len(), 2);
    assert_eq!(get(&m, "set-cookie"), "a=1, b=2");
    assert_eq!(get(&m, "content-type"), "text/plain");
}

#[test]
fn domain_of_urls() {
    assert_eq!(extract_domain("https://api.example.com:8443/x?y"), "api.example.com");
    assert_eq!(extract_domain("not a url"), "not a url");
}

fn failure(is_timeout: bool, is_redirect: bool, is_connect: bool, message: &str) -> TransportFailure {
    TransportFailure { is_timeout, is_redirect, is_connect, message: message.to_string() }
}

#[test]
fn transport_failures_are_classified() {
    let url = "https://api.example.com/x";
    assert!(matches!(
        map_transport_error(&failure(true, false, false, "t"), url, 50),
        RequestError::Timeout { timeout_ms: 50, .. }
    ));
    assert!(matches!(
        map_transport_error(&failure(false, true, false, "r"), url, 50),
        RequestError::TooManyRedirects { max_redirects: 10, .. }
    ));
    match map_transport_error(&failure(false, false, true, "DNS error: no such host"), url, 50) {
        RequestError::DnsResolution { domain, .. } => assert_eq!(domain, "api.example.com"),
        other => panic!("{other:?}"),
    }
    assert!(matches!(
        map_transport_error(&failure(false, false, true, "invalid certificate"), url, 50),
        RequestError::TlsHandshake { .. }
    ));
    assert!(matches!(
        map_transport_error(&failure(false, false, true, "Connection refused (os error 111)"), url, 50),
        RequestError::ConnectionRefused { .. }
    ));
    assert!(matches!(
        map_transport_error(&failure(false, false, false, "connection refused"), url, 50),
        RequestError::Network { .. }
    ));
}

use strex::collection::BodyType;
use strex::error::CollectionError;
use strex::interpolation::interpolate;
use strex::strmap::StrMap;

fn vars(pairs: &[(&str, &str)]) -> StrMap {
    let mut m = StrMap::new();
    for (k, v) in pairs {
        m.insert(k.to_string(), v.to_string());
    }
    m
}

#[test]
fn body_type_json_is_distinct_from_text() {
    assert_ne!(BodyType::Json, BodyType::Text);
}

#[test]
fn plain_string_passes_through_unchanged() {
    let result = interpolate("hello world", &vars(&[])).unwrap();
    assert_eq!(result, "hello world");
}

#[test]
fn known_variable_is_replaced() {
    let result = interpolate("{{baseUrl}}/users", &vars(&[("baseUrl", "https://api.example.com")])).unwrap();
    assert_eq!(result, "https://api.example.com/users");
}

#[test]
fn multiple_variables_are_replaced() {
    let result = interpolate(
        "{{scheme}}://{{host}}/{{path}}",
        &vars(&[("scheme", "https"), ("host", "api.example.com"), ("path", "users")]),
    )
    .unwrap();
    assert_eq!(result, "https://api.example.com/users");
}

#[test]
fn unknown_variable_returns_variable_not_found() {
    let err = interpolate("{{missing}}", &vars(&[("other", "val")])).unwrap_err();
    match err {
        CollectionError::VariableNotFound { variable, available } => {
            assert_eq!(variable, "missing");
            assert!(available.contains(&"other".to_string()));
        }
        other => panic!("expected VariableNotFound, got: {other:?}"),
    }
}

#[test]
fn variable_not_found_available_list_is_sorted() {
    let err = interpolate("{{x}}", &vars(&[("z", "1"), ("a", "2"), ("m", "3")])).unwrap_err();
    if let CollectionError::VariableNotFound { available, .. } = err {
        let mut sorted = available.clone();
        sorted.sort();
        assert_eq!(available, sorted, "available list must be sorted");
    }
}

#[test]
fn unclosed_placeholder_returns_variable_syntax_error() {
    let err = interpolate("hello {{unclosed", &vars(&[])).unwrap_err();
    assert!(matches!(err, CollectionError::VariableSyntaxError { .. }), "expected VariableSyntaxError, got: {err:?}");
}

#[test]
fn placeholder_with_whitespace_around_key_is_trimmed() {
    let result = interpolate("{{ baseUrl }}", &vars(&[("baseUrl", "https://x.com")])).unwrap();
    assert_eq!(result, "https://x.com");
}

#[test]
fn empty_string_returns_empty_string() {
    let result = interpolate("", &vars(&[])).unwrap();
    assert_eq!(result, "");
}

#[test]
fn interpolates_full_url_with_base_url_variable() {
    let result = interpolate(
        "{{baseUrl}}/api/v1/users/{{userId}}",
        &vars(&[("baseUrl", "https://api.example.com"), ("userId", "42")]),
    )
    .unwrap();
    assert_eq!(result, "https://api.example.com/api/v1/users/42");
}

#[test]
fn interpolates_header_value() {
    let result = interpolate("Bearer {{token}}", &vars(&[("token", "abc123")])).unwrap();
    assert_eq!(result, "Bearer abc123");
}

#[test]
fn missing_variable_error_lists_available_keys() {
    let err = interpolate("{{missing}}", &vars(&[("token", "abc"), ("baseUrl", "https://x.com")])).unwrap_err();
    match err {
        CollectionError::VariableNotFound { variable, available } => {
            assert_eq!(variable, "missing");
            assert!(available.contains(&"token".to_string()));
            assert!(available.contains(&"baseUrl".to_string()));
        }
        other => panic!("unexpected error: {other:?}"),
    }
}

#[test]
fn malformed_placeholder_reports_position() {
    let template = "prefix{{unclosed";
    let err = interpolate(template, &vars(&[])).unwrap_err();
    match err {
        CollectionError::VariableSyntaxError { position, .. } => {
            assert_eq!(position, 6, "position should be the index of opening `{{`");
        }
        other => panic!("unexpected error: {other:?}"),
    }
}

#[test]
fn position_counts_bytes_of_multibyte_prefix() {
    let err = interpolate("é{{x", &vars(&[])).unwrap_err();
    match err {
        CollectionError::VariableSyntaxError { position, template } => {
            assert_eq!(position, 2);
            assert_eq!(template, "é{{x");
        }
        other => panic!("unexpected error: {other:?}"),
    }
}

#[test]
fn template_without_placeholders_is_returned_unchanged() {
    let t = "a } b { c }} d";
    assert_eq!(interpolate(t, &vars(&[("a", "1")])).unwrap(), t);
}

#[test]
fn replaced_value_is_not_interpolated_again() {
    let result = interpolate("{{a}}", &vars(&[("a", "{{b}}"), ("b", "2")])).unwrap();
    assert_eq!(result, "{{b}}");
}

use strex::error::{AssertionFailure, AssertionType, CollectionError, RequestError};

#[test]
fn unknown_field_with_suggestion_formats_correctly() {
    let err = CollectionError::UnknownField {
        field: "metod".to_string(),
        suggestion: Some("method".to_string()),
    };
    assert_eq!(err.message(), "Unknown field 'metod'. Did you mean 'method'?");
}

#[test]
fn unknown_field_without_suggestion_formats_correctly() {
    let err = CollectionError::UnknownField { field: "foobar".to_string(), suggestion: None };
    assert_eq!(err.message(), "Unknown field 'foobar'");
}

#[test]
fn variable_not_found_includes_variable_name() {
    let err = CollectionError::VariableNotFound {
        variable: "userId".to_string(),
        available: vec!["baseUrl".to_string(), "token".to_string()],
    };
    let msg = err.message();
    assert!(msg.contains("userId"), "message: {msg}");
    assert!(msg.contains("baseUrl"), "message: {msg}");
}

#[test]
fn nesting_too_deep_includes_max() {
    let err = CollectionError::NestingTooDeep { max: 20 };
    assert!(err.message().contains("20"), "{}", err.message());
}

#[test]
fn request_error_interpolation_displays_source() {
    let source = CollectionError::VariableNotFound { variable: "token".to_string(), available: vec![] };
    let err = RequestError::Interpolation(source);
    assert!(err.message().contains("interpolation failed"), "{}", err.message());
}

#[test]
fn request_error_timeout_includes_url_and_ms() {
    let err = RequestError::Timeout { url: "https://api.example.com".to_string(), timeout_ms: 5000 };
    let s = err.message();
    assert!(s.contains("api.example.com"), "{s}");
    assert!(s.contains("5000"), "{s}");
}

#[test]
fn request_error_too_many_redirects_includes_url() {
    let err = RequestError::TooManyRedirects { url: "https://api.example.com".to_string(), max_redirects: 10 };
    assert!(err.message().contains("api.example.com"), "{}", err.message());
}

#[test]
fn assertion_failure_fields_are_accessible() {
    let f = AssertionFailure {
        assertion_type: AssertionType::Status,
        expected: "200".to_string(),
        actual: "404".to_string(),
        path: None,
    };
    assert_eq!(f.assertion_type, AssertionType::Status);
    assert_eq!(f.expected, "200");
    assert_eq!(f.actual, "404");
}

#[test]
fn every_collection_error_has_its_exact_message() {
    let cases = vec![
        (CollectionError::FileRead { path: "a.yaml".to_string(), cause: "gone".to_string() }, "Could not read file a.yaml: gone"),
        (CollectionError::FileTooLarge { size_bytes: 11 }, "Collection file too large: 11 bytes (limit: 10MB)"),
        (CollectionError::AnchorsNotAllowed, "Anchors are not allowed in Strex collections"),
        (CollectionError::AliasesNotAllowed, "Aliases are not allowed in Strex collections"),
        (CollectionError::DuplicateKey { key: "name".to_string() }, "Duplicate key 'name' found"),
        (CollectionError::YamlParse { cause: "bad".to_string() }, "YAML parse error: bad"),
        (CollectionError::NestingTooDeep { max: 20 }, "Maximum nesting depth exceeded (20 levels)"),
        (CollectionError::MissingField { field: "url".to_string() }, "Missing required field 'url'"),
        (
            CollectionError::VariableNotFound { variable: "x".to_string(), available: vec!["a".to_string(), "b".to_string()] },
            "Variable 'x' not found. Available: [\"a\", \"b\"]",
        ),
        (
            CollectionError::VariableSyntaxError { template: "{{a".to_string(), position: 0 },
            "Malformed variable placeholder in template '{{a' at position 0",
        ),
    ];
    for (err, expected) in cases {
        assert_eq!(err.message(), expected);
    }
}

#[test]
fn every_request_error_has_its_exact_message() {
    let cases = vec![
        (RequestError::DnsResolution { domain: "d".to_string(), cause: "c".to_string() }, "DNS resolution failed for 'd': c"),
        (RequestError::TlsHandshake { domain: "d".to_string(), cause: "c".to_string() }, "TLS handshake failed for 'd': c"),
        (RequestError::ConnectionRefused { url: "u".to_string() }, "Connection refused to 'u'"),
        (RequestError::Timeout { url: "u".to_string(), timeout_ms: 7 }, "Request to 'u' timed out after 7ms"),
        (RequestError::TooManyRedirects { url: "u".to_string(), max_redirects: 10 }, "Too many redirects for 'u' (max: 10)"),
        (RequestError::InvalidResponse { cause: "c".to_string() }, "Invalid HTTP response: c"),
        (RequestError::Network { cause: "c".to_string() }, "Network error: c"),
        (RequestError::InvalidAssertion { cause: "c".to_string() }, "Invalid assertion definition: c"),
        (RequestError::InvalidBody { cause: "c".to_string() }, "Invalid request body: c"),
        (
            RequestError::Interpolation(CollectionError::MissingField { field: "f".to_string() }),
            "Variable interpolation failed: Missing required field 'f'",
        ),
    ];
    for (err, expected) in cases {
        assert_eq!(err.message(), expected);
    }
}

use strex::import::{
    base_url, convert, from_curl, from_openapi, parse_tokens, request_name, scrub_body, scrub_headers, tokenize, url_path,
    ImportError, ImportMode,
};

#[test]
fn tokenize_simple() {
    assert_eq!(tokenize("curl https://example.com"), vec!["curl", "https://example.com"]);
}

#[test]
fn tokenize_quoted_header() {
    let tokens = tokenize(r#"curl -H "Authorization: Bearer abc123" https://example.com"#);
    assert_eq!(tokens[1], "-H");
    assert_eq!(tokens[2], "Authorization: Bearer abc123");
}

#[test]
fn tokenize_line_continuation() {
    assert_eq!(tokenize("curl \\\n  https://example.com"), vec!["curl", "https://example.com"]);
}

#[test]
fn tokenize_single_quotes_and_escapes() {
    assert_eq!(tokenize(r#"a 'b c' "d\"e" f\ g"#), vec!["a", "b c", "d\"e", "fg"]);
    assert_eq!(tokenize("   "), Vec::<String>::new());
}

#[test]
fn parse_get_no_flags() {
    let yaml = convert("curl https://api.example.com/users", ImportMode::Scaffold).unwrap();
    assert!(yaml.contains("method: GET"));
    assert!(yaml.contains("GET /users"));
    assert!(yaml.contains("baseUrl: \"https://api.example.com\""));
}

#[test]
fn parse_infers_post_when_data_present() {
    let yaml = convert(r#"curl -d '{"name":"Alice"}' https://api.example.com/users"#, ImportMode::Scaffold).unwrap();
    assert!(yaml.contains("method: POST"));
}

#[test]
fn explicit_method_overrides_inference() {
    let yaml =
        convert(r#"curl -X PUT -d '{"name":"Bob"}' https://api.example.com/users/1"#, ImportMode::Scaffold).unwrap();
    assert!(yaml.contains("method: PUT"));
}

#[test]
fn scrubs_authorization_header() {
    let yaml =
        convert(r#"curl -H "Authorization: Bearer secret-token" https://api.example.com/me"#, ImportMode::Scaffold)
            .unwrap();
    assert!(yaml.contains("{{authorization}}"));
    assert!(!yaml.contains("secret-token"));
}

#[test]
fn scrubs_api_key_header() {
    let yaml = convert(r#"curl -H "X-Api-Key: sk-abc123" https://api.example.com/data"#, ImportMode::Scaffold).unwrap();
    assert!(yaml.contains("{{api_key}}"));
    assert!(!yaml.contains("sk-abc123"));
}

#[test]
fn non_sensitive_header_is_not_scrubbed() {
    let yaml =
        convert(r#"curl -H "Content-Type: application/json" https://api.example.com/users"#, ImportMode::Scaffold)
            .unwrap();
    assert!(yaml.contains("application/json"));
}

#[test]
fn scrubs_password_in_json_body() {
    let yaml = convert(
        r#"curl -d '{"username":"alice","password":"hunter2"}' https://api.example.com/login"#,
        ImportMode::Scaffold,
    )
    .unwrap();
    assert!(yaml.contains("{{password}}"));
    assert!(!yaml.contains("hunter2"));
}

#[test]
fn user_flag_becomes_basic_auth_placeholder() {
    let yaml = convert("curl -u admin:secret https://api.example.com/admin", ImportMode::Scaffold).unwrap();
    assert!(yaml.contains("Basic {{credentials}}"));
    assert!(!yaml.contains("secret"));
}

#[test]
fn with_tests_mode_adds_status_assertion() {
    let yaml = convert("curl https://api.example.com/users", ImportMode::WithTests).unwrap();
    assert!(yaml.contains("status: 200"));
}

#[test]
fn scaffold_mode_has_no_assertions() {
    let yaml = convert("curl https://api.example.com/users", ImportMode::Scaffold).unwrap();
    assert!(!yaml.contains("assertions:"));
}

#[test]
fn missing_url_returns_error() {
    assert!(convert("curl -X GET", ImportMode::Scaffold).is_err());
}

#[test]
fn non_curl_input_returns_error() {
    assert!(convert("wget https://example.com", ImportMode::Scaffold).is_err());
}

#[test]
fn import_error_messages() {
    let e = from_curl("wget x", ImportMode::Scaffold).unwrap_err();
    assert!(matches!(e, ImportError::CurlParse(_)));
    assert!(e.message().starts_with("Failed to parse curl command: "), "{}", e.message());
    let e = from_openapi("openapi: [", ImportMode::Scaffold).unwrap_err();
    assert!(matches!(e, ImportError::OpenApiParse(_)));
    assert!(e.message().starts_with("Failed to parse OpenAPI spec: "), "{}", e.message());
}

#[test]
fn url_pieces() {
    assert_eq!(base_url("https://api.example.com/users/1?x=1"), "https://api.example.com");
    assert_eq!(url_path("https://api.example.com/users/1"), "/users/1");
    assert_eq!(url_path("https://api.example.com"), "/");
    assert_eq!(request_name("GET", "https://api.example.com/users"), "GET /users");
}

#[test]
fn parsed_tokens_keep_headers_and_body() {
    let tokens = tokenize(r#"curl -X PATCH -H "A: b" --data-raw 'x=1' https://h.io/p"#);
    let p = parse_tokens(&tokens).unwrap();
    assert_eq!(p.method, "PATCH");
    assert_eq!(p.url, "https://h.io/p");
    assert_eq!(p.headers, vec![("A".to_string(), "b".to_string())]);
    assert_eq!(p.body, Some("x=1".to_string()));
}

#[test]
fn scrub_keeps_header_order_and_replaces_secrets() {
    let hs = vec![
        ("Accept".to_string(), "*/*".to_string()),
        ("Cookie".to_string(), "sid=1".to_string()),
        ("X-Auth-Token".to_string(), "t".to_string()),
    ];
    let out = scrub_headers(hs);
    assert_eq!(out[0], ("Accept".to_string(), "*/*".to_string()));
    assert_eq!(out[1].0, "Cookie");
    assert_ne!(out[1].1, "sid=1");
    assert_eq!(out[2].0, "X-Auth-Token");
    assert_ne!(out[2].1, "t");
}

#[test]
fn non_json_body_is_left_unchanged() {
    assert_eq!(scrub_body("password=hunter2"), "password=hunter2");
}

#[test]
fn json_body_is_scrubbed_and_written_compactly() {
    assert_eq!(
        scrub_body("{ \"username\": \"alice\", \"token\": \"t0k\", \"n\": 1 }"),
        "{\"n\":1,\"token\":\"{{token}}\",\"username\":\"alice\"}"
    );
    assert_eq!(scrub_body("[1, 2]"), "[1,2]");
}

#[test]
fn json_body_is_pretty_printed_in_the_collection() {
    let yaml = convert(r#"curl -d '{"a":1}' https://api.example.com/x"#, ImportMode::Scaffold).unwrap();
    assert!(yaml.contains("        {\n          \"a\": 1\n        }\n"), "{}", yaml);
}

#[test]
fn openapi_without_openapi_or_swagger_key_is_unrecognised() {
    let e = from_openapi("foo: bar", ImportMode::Scaffold).unwrap_err();
    assert!(matches!(e, ImportError::UnrecognisedFormat));
    assert!(matches!(from_openapi("[1, 2]", ImportMode::Scaffold), Err(ImportError::UnrecognisedFormat)));
}

#[test]
fn openapi_document_becomes_a_collection() {
    let spec = "openapi: 3.0.0\ninfo:\n  title: Pets\nservers:\n  - url: https://api.example.com\npaths:\n  /pets:\n    get: {}\n    post: {}\n    parameters: []\n  /pets/{id}:\n    delete: {}\n";
    let y = from_openapi(spec, ImportMode::WithTests).unwrap();
    assert_eq!(
        y,
        [
            "name: \"Pets\"\nversion: \"1.0\"\n\nenvironment:\n  baseUrl: \"https://api.example.com\"\n\nrequests:\n",
            "  - name: \"GET /pets\"\n    method: GET\n    url: \"{{baseUrl}}/pets\"\n    assertions:\n      - status: 200\n",
            "  - name: \"POST /pets\"\n    method: POST\n    url: \"{{baseUrl}}/pets\"\n    assertions:\n      - status: 200\n",
            "  - name: \"DELETE /pets/{id}\"\n    method: DELETE\n    url: \"{{baseUrl}}/pets/{id}\"\n    assertions:\n      - status: 200\n",
        ]
        .concat()
    );
}

#[test]
fn swagger_json_document_uses_host_and_base_path() {
    let spec = r#"{"swagger": "2.0", "host": "api.example.com", "basePath": "/v1", "paths": {"/a": {"get": {}}}}"#;
    let y = from_openapi(spec, ImportMode::Scaffold).unwrap();
    assert_eq!(
        y,
        "name: \"Imported API\"\nversion: \"1.0\"\n\nenvironment:\n  baseUrl: \"https://api.example.com/v1\"\n\nrequests:\n  - name: \"GET /a\"\n    method: GET\n    url: \"{{baseUrl}}/a\"\n"
    );
    let empty = from_openapi("openapi: 3.1.0", ImportMode::Scaffold).unwrap();
    assert_eq!(empty, "name: \"Imported API\"\nversion: \"1.0\"\n\nenvironment:\n  baseUrl: \"\"\n\nrequests: []\n");
}

#[test]
fn with_tests_is_scaffold_plus_status_assertion() {
    let cmd = r#"curl -X put -H "Accept: text/plain" -d '{"a":1}' https://api.example.com/x"#;
    let scaffold = convert(cmd, ImportMode::Scaffold).unwrap();
    let with_tests = convert(cmd, ImportMode::WithTests).unwrap();
    assert_eq!(with_tests, [scaffold.as_str(), "    assertions:\n      - status: 200\n"].concat());
    assert!(scaffold.contains("    method: PUT\n"));
}

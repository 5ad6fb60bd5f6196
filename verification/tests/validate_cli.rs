use strex::cli::{data_kind_for_path, exit_code, path_extension, path_file_name, run_exit_code, validation_success_message};
use strex::collection::{Body, BodyType, Collection, Request};
use strex::data::DataRunResult;
use strex::report::{RunOutcome, RunResult};
use strex::runner::{CollectionResult, RequestOutcome, RequestResult};
use strex::strmap::StrMap;
use strex::ui::DataFileKind;
use strex::parser::validate_raw_collection;
use strex::validate::{extract_placeholders, sorted_declared_list, validate_collection};
use strex::yaml::YamlValue;

fn request(name: &str, url: &str) -> Request {
    Request {
        name: name.to_string(),
        method: "GET".to_string(),
        url: url.to_string(),
        headers: StrMap::new(),
        body: None,
        pre_script: None,
        post_script: None,
        assertions: vec![],
        timeout: None,
        on_failure: None,
    }
}

fn collection(variables: Vec<(&str, &str)>, requests: Vec<Request>) -> Collection {
    Collection {
        name: "Test".to_string(),
        version: "1.0".to_string(),
        environment: StrMap::new(),
        variables: variables.into_iter().map(|(k, v)| (k.to_string(), Some(v.to_string()))).collect(),
        requests,
    }
}

#[test]
fn validate_valid_collection_with_no_variables_exits_zero() {
    let c = collection(vec![], vec![request("Get", "https://example.com/api")]);
    assert_eq!(validate_collection(&c), Ok(1));
}

#[test]
fn validate_valid_collection_with_declared_variable_exits_zero() {
    let c = collection(vec![("token", "abc123")], vec![request("Get", "https://example.com/{{token}}")]);
    assert!(validate_collection(&c).is_ok());
}

#[test]
fn validate_unresolved_variable_in_url_exits_nonzero() {
    let c = collection(vec![], vec![request("Get", "https://{{baseUrl}}/api")]);
    let msg = validate_collection(&c).unwrap_err();
    assert!(msg.contains("unresolved variable"), "msg: {}", msg);
    assert!(msg.contains("baseUrl"), "msg: {}", msg);
    assert_eq!(msg, "error: unresolved variable `baseUrl` in requests[0].url\n  declared variables: (none)");
}

#[test]
fn validate_unresolved_variable_in_header_exits_nonzero() {
    let mut r = request("Get", "https://example.com/api");
    r.headers.insert("Authorization".to_string(), "Bearer {{authToken}}".to_string());
    let msg = validate_collection(&collection(vec![], vec![r])).unwrap_err();
    assert!(msg.contains("unresolved variable"), "msg: {}", msg);
    assert!(msg.contains("authToken"), "msg: {}", msg);
    assert!(msg.contains("requests[0].headers"), "msg: {}", msg);
}

#[test]
fn validate_unresolved_variable_in_body_exits_nonzero() {
    let mut r = request("Post", "https://example.com/api");
    r.body = Some(Body {
        body_type: BodyType::Json,
        content: YamlValue::Mapping {
            entries: vec![(YamlValue::String("id".to_string()), YamlValue::String("{{userId}}".to_string()))],
            debug: String::new(),
        },
    });
    let msg = validate_collection(&collection(vec![], vec![r])).unwrap_err();
    assert!(msg.contains("unresolved variable"), "msg: {}", msg);
    assert!(msg.contains("userId"), "msg: {}", msg);
    assert!(msg.contains("requests[0].body"), "msg: {}", msg);
}

#[test]
fn validate_declared_variables_listed_in_error_message() {
    let c = collection(vec![("beta", "b"), ("alpha", "a")], vec![request("Get", "https://{{missing}}/api")]);
    let msg = validate_collection(&c).unwrap_err();
    assert!(msg.contains("alpha"), "msg: {}", msg);
    assert!(msg.contains("beta"), "msg: {}", msg);
    assert!(msg.contains("missing"), "msg: {}", msg);
    assert!(msg.ends_with("declared variables: alpha, beta"), "msg: {}", msg);
}

#[test]
fn validate_multiple_requests_first_unresolved_reported() {
    let c = collection(
        vec![],
        vec![request("First", "https://example.com/ok"), request("Second", "https://example.com/{{secretVar}}")],
    );
    let msg = validate_collection(&c).unwrap_err();
    assert!(msg.contains("secretVar"), "msg: {}", msg);
    assert!(msg.contains("requests[1]"), "msg: {}", msg);
}

#[test]
fn validate_valid_collection_reports_request_count() {
    let raw = "\nname: Test\nversion: \"1.0\"\nrequests:\n  - name: First\n    method: GET\n    url: \"https://example.com/one\"\n  - name: Second\n    method: GET\n    url: \"https://example.com/two\"\n";
    assert!(validate_raw_collection(raw).is_ok());
    let c = collection(
        vec![],
        vec![request("First", "https://example.com/one"), request("Second", "https://example.com/two")],
    );
    let n = validate_collection(&c).unwrap();
    assert_eq!(n, 2);
    assert_eq!(validation_success_message("dir/api.yaml", n), "valid: api.yaml (2 requests, 0 unresolved variables)");
}

#[test]
fn placeholders_are_extracted_in_order_and_trimmed() {
    assert_eq!(extract_placeholders("{{ a }}/{{b}}/{{}}/{{c"), vec!["a".to_string(), "b".to_string()]);
}

#[test]
fn file_names_and_extensions_follow_path_rules() {
    assert_eq!(path_file_name("a/b/c.yaml").as_deref(), Some("c.yaml"));
    assert_eq!(path_file_name("foo.txt/.").as_deref(), Some("foo.txt"));
    assert_eq!(path_file_name("a/.."), None);
    assert_eq!(path_file_name("/"), None);
    assert_eq!(path_extension("rows.csv").as_deref(), Some("csv"));
    assert_eq!(path_extension("archive.tar.gz").as_deref(), Some("gz"));
    assert_eq!(path_extension(".hidden"), None);
    assert_eq!(path_extension("noext"), None);
    assert_eq!(path_extension("a.").as_deref(), Some(""));
}

#[test]
fn unsupported_data_extension_returns_error() {
    assert!(matches!(data_kind_for_path("d/rows.csv"), Ok(DataFileKind::Csv)));
    assert!(matches!(data_kind_for_path("rows.json"), Ok(DataFileKind::Json)));
    assert_eq!(data_kind_for_path("rows.txt").err().unwrap(), "unsupported data file extension: txt");
    assert_eq!(data_kind_for_path("rows").err().unwrap(), "unsupported data file extension: ");
}

fn one(outcome: RequestOutcome) -> CollectionResult {
    CollectionResult {
        request_results: vec![RequestResult {
            name: "r".to_string(),
            outcome,
            duration_ms: 1,
            response: None,
            logs: vec![],
            passed_assertions: vec![],
        }],
    }
}

#[test]
fn exit_code_reflects_the_run() {
    let c = || collection(vec![], vec![request("r", "u")]);
    let ok = RunResult { collection: c(), outcome: RunOutcome::Single(one(RequestOutcome::Passed)) };
    assert_eq!(run_exit_code(&ok), 0);
    let failed = RunResult {
        collection: c(),
        outcome: RunOutcome::Single(one(RequestOutcome::Error(strex::error::RequestError::Network {
            cause: "x".to_string(),
        }))),
    };
    assert_eq!(run_exit_code(&failed), 1);
    let data = RunResult {
        collection: c(),
        outcome: RunOutcome::DataDriven(DataRunResult { iterations: vec![], passed: 0, failed: 1 }),
    };
    assert_eq!(run_exit_code(&data), 1);
    assert_eq!(exit_code(Some(&ok)), 0);
    assert_eq!(exit_code(Some(&data)), 1);
    assert_eq!(exit_code(None), 2);
}

#[test]
fn validate_tests_valid_collection_with_no_variables_exits_zero() {
    let c = collection(vec![], vec![request("Get", "https://example.com/api")]);
    assert_eq!(validate_collection(&c), Ok(1));
}

#[test]
fn validate_tests_valid_collection_with_declared_variable_exits_zero() {
    let c = collection(vec![("token", "abc123")], vec![request("Get", "https://example.com/{{token}}")]);
    assert!(validate_collection(&c).is_ok());
}

#[test]
fn validate_tests_unresolved_variable_in_url_exits_nonzero() {
    let c = collection(vec![], vec![request("Get", "https://{{baseUrl}}/api")]);
    let msg = validate_collection(&c).unwrap_err();
    assert!(msg.contains("unresolved variable"), "msg: {}", msg);
    assert!(msg.contains("baseUrl"), "msg: {}", msg);
    assert_eq!(msg, "error: unresolved variable `baseUrl` in requests[0].url\n  declared variables: (none)");
}

#[test]
fn validate_tests_unresolved_variable_in_header_exits_nonzero() {
    let mut r = request("Get", "https://example.com/api");
    r.headers.insert("Authorization".to_string(), "Bearer {{authToken}}".to_string());
    let msg = validate_collection(&collection(vec![], vec![r])).unwrap_err();
    assert!(msg.contains("unresolved variable"), "msg: {}", msg);
    assert!(msg.contains("authToken"), "msg: {}", msg);
    assert!(msg.contains("requests[0].headers"), "msg: {}", msg);
}

#[test]
fn validate_tests_unresolved_variable_in_body_exits_nonzero() {
    let mut r = request("Post", "https://example.com/api");
    r.body = Some(Body {
        body_type: BodyType::Json,
        content: YamlValue::Mapping {
            entries: vec![(YamlValue::String("id".to_string()), YamlValue::String("{{userId}}".to_string()))],
            debug: String::new(),
        },
    });
    let msg = validate_collection(&collection(vec![], vec![r])).unwrap_err();
    assert!(msg.contains("unresolved variable"), "msg: {}", msg);
    assert!(msg.contains("userId"), "msg: {}", msg);
    assert!(msg.contains("requests[0].body"), "msg: {}", msg);
}

#[test]
fn validate_tests_declared_variables_listed_in_error_message() {
    let c = collection(vec![("beta", "b"), ("alpha", "a")], vec![request("Get", "https://{{missing}}/api")]);
    let msg = validate_collection(&c).unwrap_err();
    assert!(msg.contains("alpha"), "msg: {}", msg);
    assert!(msg.contains("beta"), "msg: {}", msg);
    assert!(msg.contains("missing"), "msg: {}", msg);
    assert!(msg.ends_with("declared variables: alpha, beta"), "msg: {}", msg);
}

#[test]
fn validate_tests_multiple_requests_first_unresolved_reported() {
    let c = collection(
        vec![],
        vec![request("First", "https://example.com/ok"), request("Second", "https://example.com/{{secretVar}}")],
    );
    let msg = validate_collection(&c).unwrap_err();
    assert!(msg.contains("secretVar"), "msg: {}", msg);
    assert!(msg.contains("requests[1]"), "msg: {}", msg);
}

#[test]
fn validate_tests_valid_collection_reports_request_count() {
    let raw = "\nname: Test\nversion: \"1.0\"\nrequests:\n  - name: First\n    method: GET\n    url: \"https://example.com/one\"\n  - name: Second\n    method: GET\n    url: \"https://example.com/two\"\n";
    assert!(validate_raw_collection(raw).is_ok());
    let c = collection(
        vec![],
        vec![request("First", "https://example.com/one"), request("Second", "https://example.com/two")],
    );
    let n = validate_collection(&c).unwrap();
    assert_eq!(n, 2);
    assert_eq!(validation_success_message("dir/api.yaml", n), "valid: api.yaml (2 requests, 0 unresolved variables)");
}

#[test]
fn request_has_optional_body() {
    let _r = Request {
        name: "test".to_string(),
        method: "GET".to_string(),
        url: "https://example.com".to_string(),
        headers: StrMap::new(),
        body: None,
        pre_script: None,
        post_script: None,
        assertions: vec![],
        timeout: None,
        on_failure: None,
    };
}

#[test]
fn collection_request_body_body_type_implement_clone() {
    let col = Collection {
        name: "c".to_string(),
        version: "1.0".to_string(),
        environment: StrMap::new(),
        variables: vec![],
        requests: vec![Request {
            name: "r".to_string(),
            method: "GET".to_string(),
            url: "https://example.com".to_string(),
            headers: StrMap::new(),
            body: Some(Body { body_type: BodyType::Json, content: YamlValue::Null }),
            pre_script: None,
            post_script: None,
            assertions: vec![],
            timeout: None,
            on_failure: None,
        }],
    };
    let cloned = col.clone();
    assert_eq!(cloned.name, "c");
    assert_eq!(cloned.requests[0].name, "r");
    assert!(matches!(cloned.requests[0].body.as_ref().unwrap().body_type, BodyType::Json));
}

#[test]
fn cloned_headers_keep_entries_and_order() {
    let mut h = StrMap::new();
    h.insert("b".to_string(), "2".to_string());
    h.insert("a".to_string(), "1".to_string());
    let c = h.clone();
    assert_eq!(c.len(), 2);
    assert_eq!(c.get("a"), Some(&"1".to_string()));
    assert_eq!(c.entry_at(0).0, "b");
}

#[test]
fn declared_list_is_sorted_or_none() {
    assert_eq!(sorted_declared_list(&vec![]), "(none)");
    let vars = vec![("beta".to_string(), Some("b".to_string())), ("alpha".to_string(), None)];
    assert_eq!(sorted_declared_list(&vars), "alpha, beta");
}

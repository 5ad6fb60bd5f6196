use strex::error::{AssertionFailure, AssertionType, RequestError};
use strex::http::{HttpResponse, RequestTiming};
use strex::runner::{RequestOutcome, RequestResult};
use strex::strmap::StrMap;
use strex::ui::{
    data_file_kind, default_concurrency, format_failure, is_safe_relative_path, outcome_fields, repeat_count,
    truncate_body, validate_save_filename, DataFileKind, RunTally, BODY_LIMIT,
};

fn result(outcome: RequestOutcome, response: Option<HttpResponse>) -> RequestResult {
    RequestResult {
        name: "test".into(),
        outcome,
        duration_ms: 0,
        response,
        logs: vec![],
        passed_assertions: vec![],
    }
}

fn response_with_request_body(body: Option<String>) -> HttpResponse {
    HttpResponse {
        status: 200,
        headers: StrMap::new(),
        body: String::new(),
        timing: RequestTiming::default(),
        request_body: body,
        url: String::new(),
    }
}

#[test]
fn format_failure_status() {
    let f = AssertionFailure {
        assertion_type: AssertionType::Status,
        expected: "200".into(),
        actual: "404".into(),
        path: None,
    };
    assert_eq!(format_failure(&f), "status expected 200, got 404");
}

#[test]
fn format_failure_json_path() {
    let f = AssertionFailure {
        assertion_type: AssertionType::JsonPath,
        expected: "$.id exists".into(),
        actual: "null".into(),
        path: Some("$.id".into()),
    };
    assert_eq!(format_failure(&f), "jsonPath $.id expected $.id exists, got null");
}

#[test]
fn format_failure_header() {
    let f = AssertionFailure {
        assertion_type: AssertionType::Header,
        expected: "application/json".into(),
        actual: "text/plain".into(),
        path: None,
    };
    assert_eq!(format_failure(&f), "header expected application/json, got text/plain");
}

#[test]
fn format_failure_script() {
    let f = AssertionFailure {
        assertion_type: AssertionType::Script,
        expected: "must be non-empty".into(),
        actual: String::new(),
        path: None,
    };
    assert_eq!(format_failure(&f), "must be non-empty");
}

#[test]
fn default_concurrency_is_one() {
    assert_eq!(default_concurrency(), 1);
}

#[test]
fn outcome_fields_passed() {
    let (passed, status, failures, error, body, headers, _request_body, _url, _logs, _passed) =
        outcome_fields(&result(RequestOutcome::Passed, None));
    assert!(passed);
    assert!(status.is_none());
    assert!(failures.is_empty());
    assert!(error.is_none());
    assert!(body.is_none());
    assert!(headers.is_none());
}

#[test]
fn outcome_fields_assertions_failed() {
    let failures_in = vec![AssertionFailure {
        assertion_type: AssertionType::Status,
        expected: "200".into(),
        actual: "500".into(),
        path: None,
    }];
    let (passed, _status, failures, error, _body, _headers, _request_body, _url, _logs, _passed) =
        outcome_fields(&result(RequestOutcome::AssertionsFailed(failures_in), None));
    assert!(!passed);
    assert_eq!(failures, vec!["status expected 200, got 500"]);
    assert!(error.is_none());
}

#[test]
fn outcome_fields_of_error_and_skip() {
    let (passed, _, failures, error, ..) = outcome_fields(&result(
        RequestOutcome::Error(RequestError::ConnectionRefused { url: "http://x".into() }),
        None,
    ));
    assert!(!passed);
    assert!(failures.is_empty());
    assert_eq!(error.as_deref(), Some("Connection refused to 'http://x'"));
    let (passed, _, _, error, ..) = outcome_fields(&result(RequestOutcome::Skipped, None));
    assert!(!passed);
    assert_eq!(error.as_deref(), Some("skipped"));
}

#[test]
fn truncate_body_short_body_unchanged() {
    assert_eq!(truncate_body("hello"), "hello");
}

#[test]
fn truncate_body_long_body_is_truncated() {
    let body = "x".repeat(20_000);
    let result = truncate_body(&body);
    assert!(result.ends_with(" [truncated]"));
    assert_eq!(result.len(), BODY_LIMIT + " [truncated]".len());
}

#[test]
fn truncate_body_never_splits_a_character() {
    let body = "é".repeat(6000);
    let result = truncate_body(&body);
    assert!(result.ends_with(" [truncated]"));
    assert_eq!(result.len(), BODY_LIMIT + " [truncated]".len());
    let exact = "x".repeat(BODY_LIMIT);
    assert_eq!(truncate_body(&exact), exact);
}

#[test]
fn outcome_fields_includes_request_body() {
    let r = result(RequestOutcome::Passed, Some(response_with_request_body(Some("hello=world".to_string()))));
    let (.., request_body, _url, _logs, _passed) = outcome_fields(&r);
    assert_eq!(request_body.as_deref(), Some("hello=world"));
}

#[test]
fn outcome_fields_truncates_long_request_body() {
    let r = result(RequestOutcome::Passed, Some(response_with_request_body(Some("x".repeat(20_000)))));
    let (.., request_body, _url, _logs, _passed) = outcome_fields(&r);
    let rb = request_body.unwrap();
    assert!(rb.ends_with(" [truncated]"));
    assert_eq!(rb.len(), BODY_LIMIT + " [truncated]".len());
}

#[test]
fn rejects_absolute_path() {
    assert!(!is_safe_relative_path("/etc/passwd"));
}

#[test]
fn rejects_parent_dir_component() {
    assert!(!is_safe_relative_path("../secrets.yaml"));
    assert!(!is_safe_relative_path("a/../b.yaml"));
}

#[test]
fn accepts_simple_filename() {
    assert!(is_safe_relative_path("collection.yaml"));
    assert!(is_safe_relative_path("dir/..x.yaml"));
}

#[test]
fn save_filename_rules() {
    assert_eq!(validate_save_filename("a.json").unwrap_err(), "Filename must end in .yaml");
    assert_eq!(
        validate_save_filename("../a.yaml").unwrap_err(),
        "Filename must not contain path separators or .."
    );
    assert!(validate_save_filename("a.yaml").is_ok());
}

#[test]
fn data_file_kind_by_extension() {
    assert!(matches!(data_file_kind("rows.csv"), Ok(DataFileKind::Csv)));
    assert!(matches!(data_file_kind("rows.json"), Ok(DataFileKind::Json)));
    assert!(data_file_kind("rows.txt").is_err());
}

#[test]
fn repeat_count_is_at_least_one() {
    assert_eq!(repeat_count(None), 1);
    assert_eq!(repeat_count(Some(0)), 1);
    assert_eq!(repeat_count(Some(4)), 4);
}

#[test]
fn tally_counts_and_averages() {
    let mut t = RunTally::new();
    t.record(true, None, 10);
    t.record(false, None, 20);
    t.record(false, Some("boom"), 30);
    assert_eq!(t.avg_response_ms(), 20);
}

#[test]
fn tally_counts_every_event_once() {
    let events: [(bool, Option<&str>, u64); 5] =
        [(true, None, 10), (false, Some("skipped"), 0), (false, None, 20), (false, Some("boom"), 30), (true, None, 5)];
    let mut t = RunTally::new();
    for (p, e, d) in events {
        t.record(p, e, d);
    }
    assert_eq!((t.passed, t.failed, t.skipped), (2, 2, 1));
    assert_eq!(t.passed + t.failed + t.skipped, events.len());
    assert_eq!(t.total_duration_ms, 65);
    assert_eq!(t.avg_response_ms(), 16);
}

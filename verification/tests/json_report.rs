use strex::collection::{Collection, Request};
use strex::data::{DataRunResult, IterationResult};
use strex::error::{AssertionFailure, AssertionType, RequestError};
use strex::http::{HttpResponse, RequestTiming};
use strex::report::{json_report, request_json, RunOutcome, RunResult};
use strex::runner::{CollectionResult, RequestOutcome, RequestResult};
use strex::strmap::StrMap;

fn make_collection() -> Collection {
    Collection {
        name: "API Tests".to_string(),
        version: "1.0".to_string(),
        environment: StrMap::new(),
        variables: vec![],
        requests: vec![Request {
            name: "Get User".to_string(),
            method: "GET".to_string(),
            url: "https://example.com/user".to_string(),
            headers: StrMap::new(),
            body: None,
            pre_script: None,
            post_script: None,
            assertions: vec![],
            timeout: None,
            on_failure: None,
        }],
    }
}

fn result(name: &str, outcome: RequestOutcome, response: Option<HttpResponse>) -> RequestResult {
    RequestResult { name: name.to_string(), outcome, duration_ms: 5, response, logs: vec![], passed_assertions: vec![] }
}

fn single(results: Vec<RequestResult>) -> RunResult {
    RunResult { collection: make_collection(), outcome: RunOutcome::Single(CollectionResult { request_results: results }) }
}

fn parse(text: &str) -> serde_json::Value {
    serde_json::from_str(text).unwrap()
}

#[test]
fn single_passed_produces_valid_json_with_counts() {
    let resp = HttpResponse {
        status: 200,
        headers: StrMap::new(),
        body: String::new(),
        timing: RequestTiming::default(),
        request_body: None,
        url: String::new(),
    };
    let v = parse(&json_report(&single(vec![result("Get User", RequestOutcome::Passed, Some(resp))])));
    assert_eq!(v["passed"], 1);
    assert_eq!(v["failed"], 0);
    assert_eq!(v["requests"][0]["name"], "Get User");
    assert_eq!(v["requests"][0]["passed"], true);
    assert_eq!(v["requests"][0]["status"], 200);
}

#[test]
fn failed_assertion_appears_in_assertions_array() {
    let outcome = RequestOutcome::AssertionsFailed(vec![AssertionFailure {
        assertion_type: AssertionType::Status,
        expected: "200".to_string(),
        actual: "404".to_string(),
        path: None,
    }]);
    let v = parse(&json_report(&single(vec![result("Get User", outcome, None)])));
    assert_eq!(v["requests"][0]["passed"], false);
    assert!(v["requests"][0]["status"].is_null());
    assert_eq!(v["requests"][0]["assertions"][0]["message"], "status expected 200, got 404");
}

#[test]
fn error_outcome_has_error_field_and_null_status() {
    let outcome = RequestOutcome::Error(RequestError::ConnectionRefused { url: "https://example.com".to_string() });
    let v = parse(&json_report(&single(vec![result("Get User", outcome, None)])));
    assert_eq!(v["requests"][0]["passed"], false);
    assert!(v["requests"][0]["status"].is_null());
    assert!(v["requests"][0]["error"].is_string());
}

#[test]
fn data_driven_produces_iterations_array() {
    let mut row = StrMap::new();
    row.insert("email".to_string(), "alice@example.com".to_string());
    let iter = IterationResult {
        row_index: 0,
        row,
        collection_result: CollectionResult { request_results: vec![result("Create", RequestOutcome::Passed, None)] },
    };
    let r = RunResult {
        collection: make_collection(),
        outcome: RunOutcome::DataDriven(DataRunResult { iterations: vec![iter], passed: 1, failed: 0 }),
    };
    let v = parse(&json_report(&r));
    assert_eq!(v["passed"], 1);
    assert_eq!(v["failed"], 0);
    assert!(v["iterations"].is_array());
    assert_eq!(v["iterations"][0]["row_index"], 0);
    assert_eq!(v["iterations"][0]["row"]["email"], "alice@example.com");
    assert_eq!(v["iterations"][0]["passed"], true);
}

#[test]
fn json_report_text_is_exact() {
    let out = json_report(&single(vec![
        result("a", RequestOutcome::Passed, None),
        result("b", RequestOutcome::Skipped, None),
    ]));
    assert_eq!(
        out,
        concat_all(&[
            r#"{"failed":1,"passed":1,"requests":["#,
            r#"{"assertions":[],"name":"a","passed":true,"status":null},"#,
            r#"{"assertions":[],"name":"b","passed":false,"skipped":true,"status":null}]}"#,
        ])
    );
    let d = request_json(&result("x\"y", RequestOutcome::Passed, None));
    assert_eq!(d.text(), r#"{"assertions":[],"name":"x\"y","passed":true,"status":null}"#);
}

fn concat_all(parts: &[&str]) -> String {
    parts.concat()
}

use strex::collection::{Collection, Request};
use strex::data::{DataRunResult, IterationResult};
use strex::error::{AssertionFailure, AssertionType, RequestError};
use strex::report::{console_report, escape_xml, junit_report, RunOutcome, RunResult};
use strex::runner::{CollectionResult, RequestOutcome, RequestResult};
use strex::strmap::StrMap;

fn make_collection(method: &str, req_name: &str) -> Collection {
    Collection {
        name: "My Collection".to_string(),
        version: "1.0".to_string(),
        environment: StrMap::new(),
        variables: vec![],
        requests: vec![Request {
            name: req_name.to_string(),
            method: method.to_string(),
            url: "https://example.com".to_string(),
            headers: StrMap::new(),
            body: None,
            pre_script: None,
            post_script: None,
            assertions: vec![],
            timeout: None,
            on_failure: None,
        }],
    }
}

fn req(name: &str, outcome: RequestOutcome, duration_ms: u64) -> RequestResult {
    RequestResult { name: name.to_string(), outcome, duration_ms, response: None, logs: vec![], passed_assertions: vec![] }
}

fn status_failure(expected: &str, actual: &str) -> RequestOutcome {
    RequestOutcome::AssertionsFailed(vec![AssertionFailure {
        assertion_type: AssertionType::Status,
        expected: expected.to_string(),
        actual: actual.to_string(),
        path: None,
    }])
}

fn single(col: Collection, results: Vec<RequestResult>) -> RunResult {
    RunResult { collection: col, outcome: RunOutcome::Single(CollectionResult { request_results: results }) }
}

fn row(k: &str, v: &str) -> StrMap {
    let mut m = StrMap::new();
    m.insert(k.to_string(), v.to_string());
    m
}

#[test]
fn passed_run_produces_testsuite_with_zero_failures() {
    let out = junit_report(&single(
        make_collection("GET", "Create User"),
        vec![req("Create User", RequestOutcome::Passed, 10)],
    ));
    assert!(out.contains(r#"failures="0""#), "expected failures=0 in:\n{out}");
    assert!(out.contains(r#"errors="0""#), "expected errors=0 in:\n{out}");
    assert!(out.contains(r#"<testcase name="#), "expected testcase in:\n{out}");
    assert!(!out.contains("<failure"), "unexpected <failure in:\n{out}");
    assert!(!out.contains("<error"), "unexpected <error in:\n{out}");
}

#[test]
fn failed_assertion_produces_failure_element_and_count() {
    let out = junit_report(&single(
        make_collection("GET", "Authenticate"),
        vec![req("Authenticate", status_failure("200", "401"), 5)],
    ));
    assert!(out.contains(r#"failures="1""#), "expected failures=1 in:\n{out}");
    assert!(out.contains(r#"<failure message="#), "expected <failure message in:\n{out}");
}

#[test]
fn special_chars_in_names_are_xml_escaped() {
    let out = junit_report(&single(
        make_collection("GET", "Request <&> Test"),
        vec![req("Request <&> Test", RequestOutcome::Passed, 5)],
    ));
    assert!(out.contains("Request &lt;&amp;&gt; Test"), "expected escaped chars in:\n{out}");
    assert!(!out.contains("Request <&>"), "raw special chars must not appear in:\n{out}");
}

#[test]
fn xml_has_declaration_and_testsuites_root() {
    let out = junit_report(&single(make_collection("GET", "Ping"), vec![req("Ping", RequestOutcome::Passed, 1)]));
    assert!(out.starts_with("<?xml"), "output must start with <?xml, got:\n{out}");
    assert!(out.contains("<testsuites>"), "expected <testsuites> in:\n{out}");
}

#[test]
fn error_request_produces_error_element_and_count() {
    let out = junit_report(&single(
        make_collection("GET", "Create User"),
        vec![req("Create User", RequestOutcome::Error(RequestError::Network { cause: "connection reset".to_string() }), 0)],
    ));
    assert!(out.contains(r#"errors="1""#), "expected errors=1 in:\n{out}");
    assert!(out.contains(r#"<error message="#), "expected <error message in:\n{out}");
}

#[test]
fn data_driven_produces_one_testsuite_per_iteration() {
    let iter0 = IterationResult {
        row_index: 0,
        row: row("email", "alice@example.com"),
        collection_result: CollectionResult { request_results: vec![req("Create User", RequestOutcome::Passed, 5)] },
    };
    let iter1 = IterationResult {
        row_index: 1,
        row: row("email", "bob@example.com"),
        collection_result: CollectionResult {
            request_results: vec![req("Create User", status_failure("200", "409"), 5)],
        },
    };
    let result = RunResult {
        collection: make_collection("GET", "Create User"),
        outcome: RunOutcome::DataDriven(DataRunResult { iterations: vec![iter0, iter1], passed: 1, failed: 1 }),
    };
    let out = junit_report(&result);
    assert!(out.contains("My Collection row 0"), "expected row 0 suite in:\n{out}");
    assert!(out.contains("My Collection row 1"), "expected row 1 suite in:\n{out}");
    assert!(out.contains(r#"failures="1""#), "expected failures=1 in:\n{out}");
}

#[test]
fn escape_xml_covers_all_five_chars() {
    let name = r#"a&b<c>d"e'f"#;
    let s = junit_report(&single(make_collection("GET", name), vec![req(name, RequestOutcome::Passed, 1)]));
    assert!(s.contains("a&amp;b&lt;c&gt;d&quot;e&apos;f"), "Got: {}", s);
    assert_eq!(escape_xml(name), "a&amp;b&lt;c&gt;d&quot;e&apos;f");
    assert_eq!(escape_xml("plain"), "plain");
}

#[test]
fn passed_request_shows_checkmark_and_summary() {
    let out = console_report(&single(make_collection("GET", "Ping"), vec![req("Ping", RequestOutcome::Passed, 10)]));
    assert!(out.contains('✓'), "expected ✓ in:\n{out}");
    assert!(out.contains("1 passed"), "expected '1 passed' in:\n{out}");
    assert!(out.contains("0 failed"), "expected '0 failed' in:\n{out}");
}

#[test]
fn failed_assertion_shows_cross_and_failure_message() {
    let out = console_report(&single(make_collection("POST", "Login"), vec![req("Login", status_failure("200", "401"), 5)]));
    assert!(out.contains('✗'), "expected ✗ in:\n{out}");
    assert!(out.contains("status expected 200, got 401"), "expected failure message in:\n{out}");
    assert!(out.contains("1 failed"), "expected '1 failed' in:\n{out}");
}

#[test]
fn data_driven_shows_row_header_and_summary() {
    let iter = IterationResult {
        row_index: 0,
        row: row("email", "alice@example.com"),
        collection_result: CollectionResult { request_results: vec![req("Create", RequestOutcome::Passed, 5)] },
    };
    let result = RunResult {
        collection: make_collection("POST", "Create"),
        outcome: RunOutcome::DataDriven(DataRunResult { iterations: vec![iter], passed: 1, failed: 0 }),
    };
    let out = console_report(&result);
    assert!(out.contains("Row 1"), "expected 'Row 1' in:\n{out}");
    assert!(out.contains("alice@example.com"), "expected row data in:\n{out}");
    assert!(out.contains("1 passed"), "expected '1 passed' in:\n{out}");
}

#[test]
fn skipped_request_is_marked_in_both_reports() {
    let result = single(make_collection("GET", "Ping"), vec![req("Ping", RequestOutcome::Skipped, 0)]);
    let xml = junit_report(&result);
    assert!(xml.contains("<skipped/>"), "{xml}");
    let text = console_report(&result);
    assert!(text.contains("1 skipped") || text.contains("skipped"), "{text}");
}

#[test]
fn console_report_exact_text_single_run() {
    let out = console_report(&single(make_collection("GET", "Get Octocat"), vec![req("Get Octocat", RequestOutcome::Passed, 3)]));
    assert_eq!(out, "GET  Get Octocat  ✓\n\n1 requests · 1 passed · 0 failed\n");
    let out = console_report(&single(make_collection("GET", "Get User"), vec![req("Get User", status_failure("200", "404"), 3)]));
    assert_eq!(
        out,
        "GET  Get User  ✗\n    assertion failed: status expected 200, got 404\n\n1 requests · 0 passed · 1 failed\n"
    );
}

#[test]
fn console_report_exact_text_data_run() {
    let mut r = StrMap::new();
    r.insert("username".to_string(), "alice".to_string());
    r.insert("role".to_string(), "admin".to_string());
    let iter = IterationResult {
        row_index: 0,
        row: r,
        collection_result: CollectionResult { request_results: vec![req("Check access", RequestOutcome::Passed, 1)] },
    };
    let result = RunResult {
        collection: make_collection("GET", "Check access"),
        outcome: RunOutcome::DataDriven(DataRunResult { iterations: vec![iter], passed: 1, failed: 0 }),
    };
    let out = console_report(&result);
    let dashes = "─".repeat(20);
    assert_eq!(
        out,
        format!("── Row 1 (role=admin, username=alice) {dashes}\nGET  Check access  ✓\n\n1 iterations · 1 passed · 0 failed\n")
    );
}

#[test]
fn junit_report_exact_text() {
    let result = single(
        make_collection("GET", "a"),
        vec![
            req("a", RequestOutcome::Passed, 1),
            req("b<", status_failure("200", "500"), 1),
            req("c", RequestOutcome::Error(RequestError::Network { cause: "reset".to_string() }), 1),
        ],
    );
    let expected = [
        "<?xml version=\"1.0\" encoding=\"UTF-8\"?>\n",
        "<testsuites>\n",
        "  <testsuite name=\"My Collection\" tests=\"3\" failures=\"1\" errors=\"1\">\n",
        "    <testcase name=\"a\"/>\n",
        "    <testcase name=\"b&lt;\">\n",
        "      <failure message=\"status expected 200, got 500\"/>\n",
        "    </testcase>\n",
        "    <testcase name=\"c\">\n",
        "      <error message=\"Network error: reset\"/>\n",
        "    </testcase>\n",
        "  </testsuite>\n",
        "</testsuites>\n",
    ]
    .concat();
    assert_eq!(junit_report(&result), expected);
}

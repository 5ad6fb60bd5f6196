use strex::data::{
    check_data_run_opts, finish_data_run, parse_csv, parse_json, rows_from_json, DataError, DataRunOpts,
    IterationResult, JsonRowsDoc,
};
use strex::runner::{CollectionResult, RequestOutcome, RequestResult};
use strex::strmap::StrMap;

fn cell<'a>(row: &'a StrMap, k: &str) -> &'a str {
    row.get(k).unwrap().as_str()
}

fn message_of<T>(r: Result<T, DataError>) -> String {
    match r {
        Ok(_) => "Ok".to_string(),
        Err(e) => e.message(),
    }
}

#[test]
fn data_error_invalid_concurrency_display() {
    assert_eq!(DataError::InvalidConcurrency.message(), "concurrency must be at least 1");
}

#[test]
fn data_error_json_not_array_display() {
    assert_eq!(DataError::JsonNotArray.message(), "JSON data file must be a top-level array");
}

#[test]
fn data_error_json_row_not_object_display() {
    assert_eq!(DataError::JsonRowNotObject { index: 2 }.message(), "JSON row 2 is not an object");
}

#[test]
fn data_error_task_panic_display() {
    assert_eq!(DataError::TaskPanic("oh no".to_string()).message(), "iteration task panicked: oh no");
}

#[test]
fn data_error_internal_display() {
    assert_eq!(DataError::Internal("semaphore gone".to_string()).message(), "internal error: semaphore gone");
}

#[test]
fn data_run_opts_default_concurrency_is_1() {
    let opts = DataRunOpts::default();
    assert_eq!(opts.concurrency, 1);
    assert!(!opts.fail_fast);
}

#[test]
fn zero_concurrency_is_rejected() {
    let mut opts = DataRunOpts::default();
    assert!(check_data_run_opts(&opts).is_ok());
    opts.concurrency = 0;
    assert!(matches!(check_data_run_opts(&opts), Err(DataError::InvalidConcurrency)));
}

#[test]
fn parse_csv_basic() {
    let content = "email,name,age\nalice@example.com,Alice,30\nbob@example.com,Bob,25\n";
    let rows = parse_csv(content).unwrap();
    assert_eq!(rows.len(), 2);
    assert_eq!(cell(&rows[0], "email"), "alice@example.com");
    assert_eq!(cell(&rows[0], "name"), "Alice");
    assert_eq!(cell(&rows[0], "age"), "30");
    assert_eq!(cell(&rows[1], "email"), "bob@example.com");
    assert_eq!(cell(&rows[1], "name"), "Bob");
}

#[test]
fn parse_csv_empty_rows() {
    assert!(parse_csv("email,name\n").unwrap().is_empty());
}

#[test]
fn parse_csv_malformed_returns_error() {
    let result = parse_csv("a,b\n1,2,3\n");
    assert!(matches!(result, Err(DataError::CsvParse(_))), "expected CsvParse, got: {}", message_of(result));
}

#[test]
fn parse_json_basic() {
    let rows = parse_json(r#"[{"email":"alice@example.com","score":42,"active":true}]"#).unwrap();
    assert_eq!(rows.len(), 1);
    assert_eq!(cell(&rows[0], "email"), "alice@example.com");
    assert_eq!(cell(&rows[0], "score"), "42");
    assert_eq!(cell(&rows[0], "active"), "true");
}

#[test]
fn parse_json_empty_array() {
    assert!(parse_json("[]").unwrap().is_empty());
}

#[test]
fn parse_json_not_array() {
    let result = parse_json(r#"{"email":"a@b.com"}"#);
    assert!(matches!(result, Err(DataError::JsonNotArray)), "expected JsonNotArray, got: {}", message_of(result));
}

#[test]
fn parse_json_row_not_object() {
    let result = parse_json(r#"["not_an_object", {"key":"val"}]"#);
    assert!(
        matches!(result, Err(DataError::JsonRowNotObject { index: 0 })),
        "expected JsonRowNotObject{{index:0}}, got: {}",
        message_of(result)
    );
}

#[test]
fn parse_json_invalid_text_is_a_parse_error() {
    let result = parse_json("[1,");
    assert!(matches!(result, Err(DataError::JsonParse(_))), "{}", message_of(result));
}

#[test]
fn rows_from_document_model() {
    let doc = JsonRowsDoc::Elements(vec![Some(vec![("a".to_string(), "1".to_string()), ("a".to_string(), "2".to_string())])]);
    let rows = rows_from_json(&doc).unwrap();
    assert_eq!(cell(&rows[0], "a"), "2");
    let doc = JsonRowsDoc::Elements(vec![Some(vec![]), None]);
    assert!(matches!(rows_from_json(&doc), Err(DataError::JsonRowNotObject { index: 1 })));
    assert!(matches!(rows_from_json(&JsonRowsDoc::NotArray), Err(DataError::JsonNotArray)));
}

fn iteration(row_index: usize, outcome: RequestOutcome) -> IterationResult {
    IterationResult {
        row_index,
        row: StrMap::new(),
        collection_result: CollectionResult {
            request_results: vec![RequestResult {
                name: "r".to_string(),
                outcome,
                duration_ms: 1,
                response: None,
                logs: vec![],
                passed_assertions: vec![],
            }],
        },
    }
}

#[test]
fn finished_run_is_ordered_and_counted() {
    let its = vec![
        iteration(2, RequestOutcome::Passed),
        iteration(0, RequestOutcome::Skipped),
        iteration(1, RequestOutcome::Error(strex::error::RequestError::Network { cause: "x".to_string() })),
    ];
    let r = finish_data_run(its);
    let order: Vec<usize> = r.iterations.iter().map(|i| i.row_index).collect();
    assert_eq!(order, vec![0, 1, 2]);
    assert_eq!((r.passed, r.failed), (1, 2));
}

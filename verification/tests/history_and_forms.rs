use strex::collection::{check_skip_to_key, finish_skip_to, on_failure_from_name, OnFailure};
use strex::history::{history_file_name, history_stem, order_newest_first, yaml_file_names};
use strex::import::ImportError;
use strex::ui::{generate_error_message, is_remote_spec, preview_file_kind, DataFileKind};

#[test]
fn returns_yaml_files_sorted() {
    let names = vec!["b.yaml".to_string(), "a.yaml".to_string(), "skip.json".to_string()];
    assert_eq!(yaml_file_names(names), vec!["a.yaml", "b.yaml"]);
}

#[test]
fn ignores_non_yaml_files() {
    let names = vec!["data.csv".to_string(), "README.md".to_string(), "x.yml".to_string(), ".yaml".to_string()];
    assert!(yaml_file_names(names).is_empty());
}

#[test]
fn history_names_keep_only_safe_characters() {
    assert_eq!(history_stem("My API v2/β-test_1"), "My_API_v2_β-test_1");
    assert_eq!(history_file_name("2024-01-02T03-04-05", "a b"), "2024-01-02T03-04-05-a_b.json");
}

#[test]
fn runs_are_listed_newest_first() {
    let out = order_newest_first(vec![(5u128, "b"), (9, "c"), (1, "a"), (9, "d")]);
    let keys: Vec<u128> = out.iter().map(|e| e.0).collect();
    assert_eq!(keys, vec![9, 9, 5, 1]);
    let mut names: Vec<&str> = out.iter().map(|e| e.1).collect();
    names.sort();
    assert_eq!(names, vec!["a", "b", "c", "d"]);
}

#[test]
fn failure_action_forms() {
    assert!(matches!(on_failure_from_name("stop"), Ok(OnFailure::Stop)));
    assert_eq!(on_failure_from_name("halt").err().unwrap(), "unknown variant `halt`, expected `stop`");
    assert_eq!(check_skip_to_key(None).unwrap_err(), "expected `skip_to` key");
    assert!(check_skip_to_key(Some("skip_to")).is_ok());
    assert_eq!(check_skip_to_key(Some("goto")).unwrap_err(), "unknown field `goto`, expected `skip_to`");
    assert!(matches!(finish_skip_to("Login".to_string(), false), Ok(OnFailure::SkipTo(t)) if t == "Login"));
    assert_eq!(finish_skip_to("Login".to_string(), true).err().unwrap(), "unexpected extra key after `skip_to`");
}

#[test]
fn import_sources_and_errors() {
    assert!(is_remote_spec("https://x/openapi.yaml"));
    assert!(is_remote_spec("http://x"));
    assert!(!is_remote_spec("./openapi.yaml"));
    let e = ImportError::FetchTimeout { url: "https://x".to_string() };
    assert_eq!(generate_error_message(&e), "Request timed out fetching the spec URL");
    let e = ImportError::CurlParse("no URL found".to_string());
    assert_eq!(generate_error_message(&e), "Failed to parse curl command: no URL found");
}

#[test]
fn preview_accepts_csv_and_json_only() {
    assert!(matches!(preview_file_kind("a.csv"), Ok(DataFileKind::Csv)));
    assert!(matches!(preview_file_kind("a.json"), Ok(DataFileKind::Json)));
    assert_eq!(
        preview_file_kind("a.txt").err().unwrap(),
        "Unsupported file extension (expected .csv or .json): a.txt"
    );
}

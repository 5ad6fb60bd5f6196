use strex::error::CollectionError;
use strex::parser::{
    check_collection_text, enrich_serde_error, extract_mapping_key, extract_missing_field, extract_unknown_field, extract_valid_fields,
    scan_for_anchors_aliases, scan_for_duplicate_keys, validate_file_size, validate_max_depth, validate_raw_collection,
    MAX_FILE_SIZE,
};
use strex::yaml::YamlValue;

fn s(v: &str) -> YamlValue {
    YamlValue::String(v.to_string())
}

/// A chain of `levels` nested single-key mappings `l0: l1: ...` ending in `leaf: value`.
fn nested(levels: usize) -> YamlValue {
    let mut value = YamlValue::Mapping { entries: vec![(s("leaf"), s("value"))], debug: String::new() };
    for i in (0..levels).rev() {
        value = YamlValue::Mapping { entries: vec![(s(&format!("l{i}")), value)], debug: String::new() };
    }
    value
}

#[test]
fn file_size_ok_when_under_limit() {
    let small = "x".repeat(100);
    assert!(validate_file_size(&small).is_ok());
}

#[test]
fn file_size_rejected_when_over_10mb() {
    let big = "x".repeat(10 * 1024 * 1024 + 1);
    let err = validate_file_size(&big).unwrap_err();
    assert!(matches!(err, CollectionError::FileTooLarge { .. }));
}

#[test]
fn file_size_exactly_at_limit_is_ok() {
    let exact = "x".repeat(MAX_FILE_SIZE);
    assert!(validate_file_size(&exact).is_ok());
    let err = validate_file_size(&format!("{exact}y")).unwrap_err();
    assert!(matches!(err, CollectionError::FileTooLarge { size_bytes } if size_bytes == MAX_FILE_SIZE + 1));
}

#[test]
fn anchor_token_is_rejected() {
    let err = scan_for_anchors_aliases("key: &anchor value\n").unwrap_err();
    assert!(matches!(err, CollectionError::AnchorsNotAllowed));
}

#[test]
fn alias_token_is_rejected() {
    let err = scan_for_anchors_aliases("key: *alias\n").unwrap_err();
    assert!(matches!(err, CollectionError::AliasesNotAllowed));
}

#[test]
fn url_with_wildcard_is_not_rejected() {
    assert!(scan_for_anchors_aliases("url: \"https://api.example.com/*\"\n").is_ok());
}

#[test]
fn comment_line_is_skipped() {
    assert!(scan_for_anchors_aliases("# &not_an_anchor\nkey: value\n").is_ok());
}

#[test]
fn anchor_in_flow_sequence_is_rejected() {
    let err = scan_for_anchors_aliases("list: [&a 1]\n").unwrap_err();
    assert!(matches!(err, CollectionError::AnchorsNotAllowed));
}

#[test]
fn duplicate_key_at_same_indent_is_rejected() {
    let err = scan_for_duplicate_keys("name: foo\nname: bar\n").unwrap_err();
    assert!(matches!(err, CollectionError::DuplicateKey { key } if key == "name"));
}

#[test]
fn same_key_at_different_indent_levels_is_ok() {
    assert!(scan_for_duplicate_keys("name: outer\nchild:\n  name: inner\n").is_ok());
}

#[test]
fn same_key_in_sibling_mappings_is_ok() {
    let yaml = "a:\n  x: 1\nb:\n  x: 2\n";
    assert!(scan_for_duplicate_keys(yaml).is_ok());
}

#[test]
fn mapping_key_of_a_line() {
    assert_eq!(extract_mapping_key("name: foo"), Some("name".to_string()));
    assert_eq!(extract_mapping_key("- just a value"), None);
}

#[test]
fn shallow_value_is_ok() {
    let value = YamlValue::Mapping { entries: vec![(s("key"), s("value"))], debug: String::new() };
    assert!(validate_max_depth(&value, 0).is_ok());
}

#[test]
fn value_at_exactly_max_depth_is_ok() {
    assert!(validate_max_depth(&nested(19), 0).is_ok());
}

#[test]
fn value_exceeding_max_depth_is_rejected() {
    let err = validate_max_depth(&nested(20), 0).unwrap_err();
    assert!(matches!(err, CollectionError::NestingTooDeep { .. }));
}

#[test]
fn raw_collection_reports_the_first_failing_stage() {
    let err = validate_raw_collection("a: &x 1\na: 2\n").unwrap_err();
    assert!(matches!(err, CollectionError::AnchorsNotAllowed));
    let err = validate_raw_collection("a: 1\na: 2\n").unwrap_err();
    assert!(matches!(err, CollectionError::DuplicateKey { key } if key == "a"));
    assert!(validate_raw_collection("a: 1\nb: 2\n").is_ok());
}

#[test]
fn extract_unknown_field_returns_field_name() {
    let msg = "unknown field `metod`, expected one of `name`, `method`, `url`";
    assert_eq!(extract_unknown_field(msg), Some("metod".to_string()));
}

#[test]
fn extract_valid_fields_returns_all_fields() {
    let msg = "unknown field `metod`, expected one of `name`, `method`, `url`";
    assert_eq!(extract_valid_fields(msg), vec!["name".to_string(), "method".to_string(), "url".to_string()]);
}

#[test]
fn extract_missing_field_returns_field_name() {
    assert_eq!(extract_missing_field("missing field `url` at line 3"), Some("url".to_string()));
    assert_eq!(extract_missing_field("something else"), None);
}

#[test]
fn enrich_maps_each_message_kind() {
    let msg = "unknown field `metod`, expected one of `name`, `method`, `url`";
    let e = enrich_serde_error(msg, Some("method".to_string()));
    assert_eq!(e.message(), "Unknown field 'metod'. Did you mean 'method'?");
    let e = enrich_serde_error("missing field `url`", None);
    assert!(matches!(e, CollectionError::MissingField { field } if field == "url"));
    let e = enrich_serde_error("invalid type", None);
    assert!(matches!(e, CollectionError::YamlParse { cause } if cause == "invalid type"));
}

#[test]
fn sequence_items_do_not_share_keys() {
    let yaml = "requests:\n  - name: a\n    method: GET\n  - name: b\n    method: GET\n";
    assert!(scan_for_duplicate_keys(yaml).is_ok());
    let top = "requests:\n- name: a\n  method: GET\n- name: b\n  method: GET\n";
    assert!(scan_for_duplicate_keys(top).is_ok());
}

#[test]
fn duplicate_key_inside_one_sequence_item_is_rejected() {
    let yaml = "requests:\n  - name: a\n    method: GET\n    name: b\n";
    let err = scan_for_duplicate_keys(yaml).unwrap_err();
    assert!(matches!(err, CollectionError::DuplicateKey { ref key } if key == "name"), "{:?}", err);
}

#[test]
fn collection_text_is_checked_then_parsed() {
    let raw = "name: Example Collection\nversion: \"1.0\"\nrequests:\n  - name: Get users\n    method: GET\n    url: https://x\n";
    match check_collection_text(raw).unwrap() {
        YamlValue::Mapping { entries, .. } => {
            assert_eq!(entries.len(), 3);
            assert!(matches!(&entries[0].0, YamlValue::String(k) if k == "name"));
            assert!(matches!(&entries[0].1, YamlValue::String(v) if v == "Example Collection"));
            assert!(matches!(&entries[2].1, YamlValue::Sequence { items, .. } if items.len() == 1));
        }
        _ => panic!("expected a mapping"),
    }
}

#[test]
fn collection_text_errors_come_in_check_order() {
    assert!(matches!(check_collection_text("a: &x 1\nb: *x\n"), Err(CollectionError::AnchorsNotAllowed)));
    assert!(matches!(
        check_collection_text("name: a\nname: b\n"),
        Err(CollectionError::DuplicateKey { ref key }) if key == "name"
    ));
    assert!(matches!(check_collection_text("name: [unclosed\n"), Err(CollectionError::YamlParse { .. })));
    let deep = format!("a: {}1{}\n", "[".repeat(25), "]".repeat(25));
    assert!(matches!(check_collection_text(&deep), Err(CollectionError::NestingTooDeep { max: 20 })));
    assert!(check_collection_text("a: [[1]]\n").is_ok());
}

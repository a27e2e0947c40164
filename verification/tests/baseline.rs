use matchy_core::baseline::{parse, Baseline, BaselineError};

#[test]
fn test_parse_two_entries_one_with_note() {
    let json = r#"[
            {"id": "issue_aabbcc001122", "note": "intentional change"},
            {"id": "issue_112233445566"}
        ]"#;
    let baseline = parse(json.as_bytes()).expect("parse must succeed");
    assert_eq!(baseline.len(), 2);
    assert!(baseline.contains("issue_aabbcc001122"));
    assert!(baseline.contains("issue_112233445566"));
    assert!(!baseline.is_empty());
}

#[test]
fn test_parse_empty_array() {
    let json = r#"[]"#;
    let baseline = parse(json.as_bytes()).expect("parse must succeed");
    assert!(baseline.is_empty());
    assert_eq!(baseline.len(), 0);
}

#[test]
fn test_entry_missing_id_is_skipped() {
    let json = r#"[
            {"note": "no id here"},
            {"id": "issue_goodid000000"}
        ]"#;
    let baseline = parse(json.as_bytes()).expect("parse must succeed");
    assert_eq!(baseline.len(), 1, "entry missing id must be skipped");
    assert!(baseline.contains("issue_goodid000000"));
}

#[test]
fn test_from_ids() {
    let ids = vec!["issue_aaa".to_string(), "issue_bbb".to_string()];
    let baseline = Baseline::from_ids(ids);
    assert_eq!(baseline.len(), 2);
    assert!(baseline.contains("issue_aaa"));
    assert!(baseline.contains("issue_bbb"));
}

#[test]
fn test_invalid_json_returns_error() {
    let bad = b"not json";
    assert!(parse(bad).is_err());
}

#[test]
fn test_id_not_string_is_skipped() {
    let json = r#"[{"id": 42}, {"id": "issue_valid000000"}]"#;
    let baseline = parse(json.as_bytes()).expect("parse must succeed");
    assert_eq!(baseline.len(), 1);
    assert!(baseline.contains("issue_valid000000"));
}

#[test]
fn baseline_duplicate_ids_collapse_and_iterate_sorted() {
    let baseline = Baseline::from_ids(vec![
        "issue_c".to_string(),
        "issue_a".to_string(),
        "issue_c".to_string(),
        "issue_b".to_string(),
    ]);
    assert_eq!(baseline.len(), 3);
    let ids: Vec<&str> = baseline.iter_ids().iter().map(|s| s.as_str()).collect();
    assert_eq!(ids, vec!["issue_a", "issue_b", "issue_c"]);
    assert!(!baseline.contains("issue_d"));
}

#[test]
fn baseline_object_instead_of_array_is_error_with_detail() {
    match parse(br#"{"id": "issue_x"}"#) {
        Err(BaselineError::InvalidJson { detail }) => assert!(!detail.is_empty()),
        Ok(_) => panic!("an object is not a baseline array"),
    }
}

#[test]
fn baseline_default_is_empty() {
    let b = Baseline::default();
    assert!(b.is_empty());
    assert_eq!(b.iter_ids().len(), 0);
}

#[test]
fn invalid_json_detail_is_the_json_message() {
    let bytes = b"{\"id\": 1}";
    let msg = serde_json::from_slice::<Vec<serde_json::Value>>(bytes).unwrap_err().to_string();
    match parse(bytes) {
        Err(BaselineError::InvalidJson { detail }) => assert_eq!(detail, msg),
        Ok(_) => panic!("an object is not a baseline"),
    }
}

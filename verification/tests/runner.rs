use matchy_core::contract::IssueSeverity;
use matchy_core::contract::IssueType;
use matchy_core::runner::{
    compute_exit_code, issue_counts_by_type, parse_viewport_arg, self_check_failed_message,
    volatile_capture_message, SELF_CHECK_FAILED_CODE, VOLATILE_CAPTURE_CODE,
};

fn failed(v: &[(&str, &str)]) -> Vec<(String, String)> {
    let mut out: Vec<(String, String)> = v.iter().map(|(a, b)| (a.to_string(), b.to_string())).collect();
    out.sort();
    out
}

#[test]
fn test_self_check_failed_warning_none_when_all_ok() {
    let warning = self_check_failed_message(&[], false, 2);
    assert!(warning.is_none(), "no failed viewports and a successful write must produce no warning");
}

#[test]
fn test_self_check_failed_warning_two_failed_viewports() {
    let f = failed(&[("mobile", "analysis"), ("desktop", "capture")]);
    let message = self_check_failed_message(&f, false, 2).expect("two failed viewports must produce a warning");
    assert_eq!(SELF_CHECK_FAILED_CODE, "self_check_failed");
    assert_eq!(
        message,
        "self-check probe failed for 2 of 2 viewport(s): desktop (capture), mobile (analysis)"
    );
}

#[test]
fn test_self_check_failed_warning_write_only_failure() {
    let message = self_check_failed_message(&[], true, 2).expect("write failure alone must still produce a warning");
    assert_eq!(message, "self-check probe ran but self-check.json could not be written");
}

#[test]
fn test_self_check_failed_warning_deterministic() {
    let f = failed(&[("desktop", "missing_old_bundle")]);
    let a = self_check_failed_message(&f, true, 1).unwrap();
    let b = self_check_failed_message(&f, true, 1).unwrap();
    assert_eq!(a, b, "identical inputs must give identical messages");
    assert_eq!(
        a,
        "self-check probe failed for 1 of 1 viewport(s): desktop (missing_old_bundle); failed to write self-check.json"
    );
}

#[test]
fn test_self_check_failed_warning_code_is_exact() {
    let f = failed(&[("desktop", "capture")]);
    assert!(self_check_failed_message(&f, false, 1).is_some());
    assert_eq!(SELF_CHECK_FAILED_CODE, "self_check_failed");
}

#[test]
fn exit_codes_follow_fail_on_threshold() {
    let sev = [IssueSeverity::Warning, IssueSeverity::Info];
    assert_eq!(compute_exit_code(&sev, "never"), 0);
    assert_eq!(compute_exit_code(&sev, "info"), 1);
    assert_eq!(compute_exit_code(&sev, "warning"), 1);
    assert_eq!(compute_exit_code(&sev, "error"), 0);
    assert_eq!(compute_exit_code(&sev, "bogus"), 0);
    assert_eq!(compute_exit_code(&[IssueSeverity::Error], "bogus"), 1);
    assert_eq!(compute_exit_code(&[IssueSeverity::Critical], "critical"), 1);
    assert_eq!(compute_exit_code(&[], "info"), 0);
}

#[test]
fn viewport_arguments() {
    assert_eq!(parse_viewport_arg("desktop=1440x1000"), Some(("desktop".to_string(), 1440, 1000)));
    assert_eq!(parse_viewport_arg("m=390x844"), Some(("m".to_string(), 390, 844)));
    assert_eq!(parse_viewport_arg("=1x2"), Some(("".to_string(), 1, 2)));
    assert_eq!(parse_viewport_arg("desktop"), None);
    assert_eq!(parse_viewport_arg("d=1440"), None);
    assert_eq!(parse_viewport_arg("d=ax2"), None);
    assert_eq!(parse_viewport_arg("d=1x2x3"), None);
    assert_eq!(parse_viewport_arg("d=+5x7"), Some(("d".to_string(), 5, 7)));
}

#[test]
fn volatile_capture_warning_parts() {
    assert_eq!(volatile_capture_message(0), None);
    assert_eq!(
        volatile_capture_message(3).as_deref(),
        Some("self-check: 3 issue(s) appeared when diffing two captures of the old page against each other; treat similar issues in the main result with suspicion (capture volatility, e.g. rotating content)")
    );
    assert_eq!(VOLATILE_CAPTURE_CODE, "volatile_capture");
    let by_type = issue_counts_by_type(&[
        IssueType::StyleChanged,
        IssueType::MissingText,
        IssueType::StyleChanged,
        IssueType::BrokenLink,
    ]);
    assert_eq!(
        by_type,
        vec![
            ("broken_link".to_string(), 1),
            ("missing_text".to_string(), 1),
            ("style_changed".to_string(), 2),
        ]
    );
    assert!(issue_counts_by_type(&[]).is_empty());
}

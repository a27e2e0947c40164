use matchy_core::doctor::{
    all_ok, capture_doctor_checks, doctor_table, node_check, parse_doctor_response, parse_node_major,
    reply_checks, Check,
};

#[test]
fn parse_doctor_response_old_build_no_new_fields() {
    // An older capture script that does not report executablePath / exists / browsersPath.
    let value = r#"{
        "ok": true,
        "node": "v24.0.0",
        "playwright": "1.60.0",
        "chromium": { "ok": true, "version": "chromium-1223" }
    }"#;
    let resp = parse_doctor_response(value);
    assert!(resp.playwright_ok);
    assert!(resp.chromium_ok_raw);
    assert_eq!(resp.chromium_version, "chromium-1223");
    assert!(resp.chromium_executable_path.is_none());
    assert!(resp.chromium_exists.is_none());
    assert!(resp.browsers_path.is_none());
}

#[test]
fn parse_doctor_response_new_fields_ok() {
    let value = r#"{
        "ok": true,
        "node": "v24.0.0",
        "playwright": "1.60.0",
        "chromium": {
            "ok": true,
            "version": "chromium-1223",
            "executablePath": "/repo/.pw-browsers/chromium_headless_shell-1223/chrome-linux/chrome",
            "exists": true
        },
        "browsersPath": "/repo/.pw-browsers"
    }"#;
    let resp = parse_doctor_response(value);
    assert!(resp.playwright_ok);
    assert!(resp.chromium_ok_raw);
    assert_eq!(
        resp.chromium_executable_path.as_deref(),
        Some("/repo/.pw-browsers/chromium_headless_shell-1223/chrome-linux/chrome")
    );
    assert_eq!(resp.chromium_exists, Some(true));
    assert_eq!(resp.browsers_path.as_deref(), Some("/repo/.pw-browsers"));
}

#[test]
fn parse_doctor_response_exists_false_overrides_ok() {
    let value = r#"{
        "ok": false,
        "node": "v24.0.0",
        "playwright": "1.60.0",
        "chromium": {
            "ok": false,
            "version": "",
            "executablePath": "/home/user/.cache/ms-playwright/chromium_headless_shell-1223/chrome-linux/chrome",
            "exists": false
        },
        "browsersPath": null
    }"#;
    let resp = parse_doctor_response(value);
    let chromium_ok = match resp.chromium_exists {
        Some(exists) => resp.chromium_ok_raw && exists,
        None => resp.chromium_ok_raw,
    };
    assert!(!chromium_ok);
    assert_eq!(resp.chromium_exists, Some(false));
}

#[test]
fn parse_doctor_response_browsers_path_null() {
    let value = r#"{
        "ok": false,
        "node": "v24.0.0",
        "playwright": "1.60.0",
        "chromium": { "ok": false, "version": "" },
        "browsersPath": null
    }"#;
    let resp = parse_doctor_response(value);
    assert!(resp.browsers_path.is_none());
}

#[test]
fn parse_doctor_response_defaults_when_fields_missing() {
    let resp = parse_doctor_response("{}");
    assert!(!resp.playwright_ok);
    assert_eq!(resp.playwright_version, "unknown");
    assert!(!resp.chromium_ok_raw);
    assert_eq!(resp.chromium_version, "unknown");
}

#[test]
fn node_major_parsing() {
    assert_eq!(parse_node_major("v24.1.0"), 24);
    assert_eq!(parse_node_major("v18.19.1\n"), 18);
    assert_eq!(parse_node_major("20"), 20);
    assert_eq!(parse_node_major("garbage"), 0);
    assert_eq!(parse_node_major(""), 0);
}

#[test]
fn node_check_verdicts() {
    let ok = node_check("v22.3.0");
    assert_eq!(ok.name, "node.js");
    assert!(ok.ok);
    assert_eq!(ok.detail, "v22.3.0");
    assert!(ok.remediation.is_none());

    let old = node_check("v18.0.0");
    assert!(!old.ok);
    assert_eq!(old.detail, "v18.0.0 (need >= 20)");
    assert_eq!(
        old.remediation.as_deref(),
        Some("Upgrade Node.js to >= 20. Use nvm: `nvm install 20 && nvm use 20`")
    );
}

#[test]
fn capture_checks_empty_output() {
    let checks = capture_doctor_checks("", None);
    assert_eq!(checks.len(), 2);
    assert_eq!(checks[0].name, "playwright");
    assert!(!checks[0].ok);
    assert_eq!(checks[0].detail, "capture doctor returned no output");
    assert_eq!(checks[1].detail, "skipped");
    assert!(!all_ok(&checks));
}

#[test]
fn capture_checks_parse_error() {
    let checks = capture_doctor_checks("not json", None);
    assert_eq!(checks.len(), 2);
    assert!(checks[0].detail.starts_with("capture doctor parse error: "));
    assert!(checks[0].detail.ends_with(" (raw: not json)"));
    assert_eq!(checks[1].detail, "skipped");
}

#[test]
fn capture_checks_all_good() {
    let line = r#"{"ok":true,"playwright":"1.60.0","chromium":{"ok":true,"version":"chromium-1223","exists":true},"browsersPath":"/repo/.pw-browsers"}"#;
    let checks = capture_doctor_checks(line, Some("/repo"));
    assert_eq!(checks.len(), 2);
    assert!(checks[0].ok);
    assert_eq!(checks[0].detail, "v1.60.0");
    assert!(checks[1].ok);
    assert_eq!(checks[1].detail, "build chromium-1223  browsers: /repo/.pw-browsers");
    assert!(all_ok(&checks));
}

#[test]
fn capture_checks_missing_browser_with_repo_root() {
    let line = r#"{"ok":true,"playwright":"1.60.0","chromium":{"ok":true,"version":"chromium-1223","executablePath":"/x/chromium_headless_shell-1223/chrome-linux/chrome","exists":false}}"#;
    let checks = capture_doctor_checks(line, Some("/repo"));
    assert!(!checks[1].ok);
    assert_eq!(checks[1].detail, "build chromium-1223  (FAIL)");
    let remedy = checks[1].remediation.clone().unwrap();
    assert!(remedy.starts_with("Chromium build 1223 not found.\n  Current browsers path: (not set"));
    assert!(remedy.contains("  Expected executable: /x/chromium_headless_shell-1223/chrome-linux/chrome\n"));
    assert!(remedy.ends_with("export PLAYWRIGHT_BROWSERS_PATH=/repo/.pw-browsers"));
}

#[test]
fn reply_checks_playwright_failure_remedy() {
    let resp = parse_doctor_response(r#"{"ok":false,"playwright":"1.2.3","chromium":{"ok":true,"version":"c"}}"#);
    let checks = reply_checks(&resp, None);
    assert!(!checks[0].ok);
    assert_eq!(checks[0].remediation.as_deref(), Some("Run `cd packages/capture && npm ci`"));
    assert!(checks[1].ok);
}

#[test]
fn doctor_table_layout() {
    let checks = vec![
        Check { name: "node.js", ok: true, detail: "v22.0.0".to_string(), remediation: None },
        Check { name: "playwright", ok: false, detail: "v1".to_string(), remediation: Some("fix it".to_string()) },
    ];
    let t = doctor_table(&checks);
    let expected = format!(
        "\n{:<20} {:<10} Detail\n{}\n{:<20} {:<10} v22.0.0\n{:<20} {:<10} v1\n{:<20} {:<10} Remedy: fix it\n\n",
        "Check",
        "Status",
        "-".repeat(72),
        "node.js",
        "OK",
        "playwright",
        "FAIL",
        "",
        ""
    );
    assert_eq!(t, expected);
}

#[test]
fn capture_parse_error_carries_the_json_message() {
    let line = "{\"ok\": tru";
    let checks = capture_doctor_checks(line, None);
    let msg = serde_json::from_str::<serde_json::Value>(line).unwrap_err().to_string();
    assert_eq!(checks[0].detail, format!("capture doctor parse error: {} (raw: {})", msg, line));
}

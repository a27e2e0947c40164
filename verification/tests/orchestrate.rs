use matchy_core::orchestrate::trim_string;
use matchy_core::orchestrate::{
    extract_chromium_rev, format_browser_remedy, is_advisory_content, is_box_bottom, is_box_side,
    is_box_top, AdvisoryFilter,
};

#[test]
fn extract_chromium_rev_headless_shell() {
    let path =
        "/home/admin/.cache/ms-playwright/chromium_headless_shell-1223/chrome-linux/chrome";
    assert_eq!(extract_chromium_rev(path), Some("1223".to_string()));
}

#[test]
fn extract_chromium_rev_chromium() {
    let path = "/home/admin/.cache/ms-playwright/chromium-1217/chrome-linux/chrome";
    assert_eq!(extract_chromium_rev(path), Some("1217".to_string()));
}

#[test]
fn extract_chromium_rev_no_match() {
    let path = "/some/random/path/chrome";
    assert_eq!(extract_chromium_rev(path), None);
}

#[test]
fn format_browser_remedy_with_repo_root() {
    let missing =
        "/home/admin/.cache/ms-playwright/chromium_headless_shell-1223/chrome-linux/chrome";
    let repo = "/home/admin/MatchyMatchy";
    let msg = format_browser_remedy(missing, Some(repo));

    assert!(msg.contains("Chromium build 1223 not found at:"));
    assert!(msg.contains(missing));
    assert!(msg.contains("cd /home/admin/MatchyMatchy/packages/capture"));
    assert!(msg.contains("PLAYWRIGHT_BROWSERS_PATH=/home/admin/MatchyMatchy/.pw-browsers"));
    assert!(
        msg.contains("export PLAYWRIGHT_BROWSERS_PATH=/home/admin/MatchyMatchy/.pw-browsers")
    );
}

#[test]
fn format_browser_remedy_without_repo_root() {
    let missing = "/some/.cache/ms-playwright/chromium-1217/chrome-linux/chrome";
    let msg = format_browser_remedy(missing, None);

    assert!(msg.contains("Chromium build 1217 not found at:"));
    assert!(msg.contains("<repo-root>"));
}

#[test]
fn extract_chromium_rev_skips_non_numeric_segments() {
    assert_eq!(extract_chromium_rev("/x/chromium-abc/chromium-42/y"), Some("42".to_string()));
    assert_eq!(extract_chromium_rev("/x/chromium-/y"), None);
    assert_eq!(extract_chromium_rev("/x/chromium_headless_shell-7a/y"), None);
}

#[test]
fn format_browser_remedy_unknown_revision_exact_text() {
    let msg = format_browser_remedy("/p/chrome", Some("/r"));
    assert_eq!(
        msg,
        "Chromium build unknown not found at:\n  /p/chrome\nInstall it with:\n  cd /r/packages/capture && PLAYWRIGHT_BROWSERS_PATH=/r/.pw-browsers npx playwright install chromium\nThen run matchy with:\n  export PLAYWRIGHT_BROWSERS_PATH=/r/.pw-browsers"
    );
}

fn feed_all(f: &mut AdvisoryFilter, lines: &[&str]) -> Vec<String> {
    let mut out = Vec::new();
    for l in lines {
        out.extend(f.feed_line(l.to_string()).emit);
    }
    out.extend(f.finish());
    out
}

#[test]
fn advisory_box_replaced_once_and_other_boxes_pass() {
    let mut f = AdvisoryFilter::new();
    let out = feed_all(
        &mut f,
        &[
            "plain line",
            "╔════╗",
            "║ Looks like Playwright was just installed ║",
            "╚════╝",
            "╔════╗",
            "║ Please run the following command ║",
            "╚════╝",
            "╔══╗",
            "║ hello ║",
            "╚══╝",
            "tail",
        ],
    );
    assert_eq!(
        out,
        vec![
            "plain line".to_string(),
            "note: Playwright reported missing browsers (advisory suppressed; see remedy below)"
                .to_string(),
            "╔══╗".to_string(),
            "║ hello ║".to_string(),
            "╚══╝".to_string(),
            "tail".to_string(),
        ]
    );
}

#[test]
fn advisory_filter_reports_missing_browser_and_flushes_open_box() {
    let mut f = AdvisoryFilter::new();
    let step = f.feed_line("Executable doesn't exist at  /x/chromium-9/chrome  ".to_string());
    assert_eq!(step.missing_browser.as_deref(), Some("/x/chromium-9/chrome"));
    assert_eq!(step.emit.len(), 1);
    let step = f.feed_line("╔ open".to_string());
    assert!(step.emit.is_empty());
    assert!(f.feed_line("║ body".to_string()).missing_browser.is_none());
    assert_eq!(f.finish(), vec!["╔ open".to_string(), "║ body".to_string()]);
}

#[test]
fn box_line_classifiers() {
    assert!(is_box_top("╔═"));
    assert!(!is_box_top(" ╔"));
    assert!(is_box_bottom("╚═"));
    assert!(is_box_side("║ x"));
    assert!(is_advisory_content("run npx playwright install now"));
    assert!(!is_advisory_content("nothing to see"));
}

#[test]
fn capture_candidates_in_search_order() {
    let c = matchy_core::orchestrate::capture_script_candidates(Some("/repo/target/release/matchy"), "/work");
    assert_eq!(
        c,
        vec![
            "/repo/target/release/capture.cjs".to_string(),
            "/repo/target/release/packages/capture/dist/capture.cjs".to_string(),
            "/repo/target/packages/capture/dist/capture.cjs".to_string(),
            "/repo/packages/capture/dist/capture.cjs".to_string(),
            "/packages/capture/dist/capture.cjs".to_string(),
            "/work/packages/capture/dist/capture.cjs".to_string(),
        ]
    );
}

#[test]
fn capture_candidates_without_executable() {
    let c = matchy_core::orchestrate::capture_script_candidates(None, "/some/other/place");
    assert_eq!(c, vec!["/some/other/place/packages/capture/dist/capture.cjs".to_string()]);
}

#[test]
fn trim_string_matches_str_trim() {
    for s in ["  a b  ", "\u{3000}x\u{85}\n", "\u{200b}y\u{200b}", "", " \t\r\n", "\u{a0}z\u{2029}"] {
        assert_eq!(trim_string(s), s.trim());
    }
    assert_eq!(trim_string("\u{3000} a b\u{85}\n"), "a b");
    assert_eq!(trim_string("\u{200b}x"), "\u{200b}x");
}

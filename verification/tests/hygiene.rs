use matchy_core::contract::{IssueCategory, IssueSeverity, IssueType};
use matchy_core::drafts::{JsonField, JsonLeaf, SeverityProfile};
use matchy_core::hygiene::check_locale_path;
use matchy_core::config::TrailingSlashPolicy;
use matchy_core::hygiene::{
    check_trailing_slash_url, host_stripped, locale_path_findings, replace_all_str, resolve_href,
    strip_fragment, trailing_slash_rewrite, url_path_query, url_scheme,
};

#[test]
fn test_trailing_slash_never_root_exempt() {
    // Root "/" should not fire under Never policy
    assert!(!check_trailing_slash_url(
        "http://localhost:3000/",
        None,
        TrailingSlashPolicy::Never
    ));
}

#[test]
fn test_trailing_slash_never_fires_on_non_root() {
    // /products/ should fire under Never
    assert!(check_trailing_slash_url(
        "http://localhost:3000/products/",
        None,
        TrailingSlashPolicy::Never
    ));
}

#[test]
fn test_trailing_slash_never_no_slash_ok() {
    // /products (no slash) is fine under Never
    assert!(!check_trailing_slash_url(
        "http://localhost:3000/products",
        None,
        TrailingSlashPolicy::Never
    ));
}

#[test]
fn test_trailing_slash_always_fires_on_missing() {
    // /products should fire under Always
    assert!(check_trailing_slash_url(
        "http://localhost:3000/products",
        None,
        TrailingSlashPolicy::Always
    ));
}

#[test]
fn test_trailing_slash_always_root_exempt() {
    // Root "/" should NOT fire under Always (already has slash)
    assert!(!check_trailing_slash_url(
        "http://localhost:3000/",
        None,
        TrailingSlashPolicy::Always
    ));
}

#[test]
fn test_trailing_slash_always_with_slash_ok() {
    // /products/ is fine under Always
    assert!(!check_trailing_slash_url(
        "http://localhost:3000/products/",
        None,
        TrailingSlashPolicy::Always
    ));
}

#[test]
fn test_trailing_slash_preserve_mismatch() {
    // old has slash, new does not → fires
    assert!(check_trailing_slash_url(
        "http://localhost:3000/products",
        Some("http://localhost:3000/products/"),
        TrailingSlashPolicy::Preserve
    ));
}

#[test]
fn test_trailing_slash_preserve_match_no_slash() {
    // both have no slash → ok
    assert!(!check_trailing_slash_url(
        "http://localhost:3000/products",
        Some("http://localhost:3000/products"),
        TrailingSlashPolicy::Preserve
    ));
}

#[test]
fn test_trailing_slash_preserve_match_with_slash() {
    // both have slash → ok
    assert!(!check_trailing_slash_url(
        "http://localhost:3000/products/",
        Some("http://localhost:3000/products/"),
        TrailingSlashPolicy::Preserve
    ));
}

#[test]
fn test_trailing_slash_query_preservation() {
    // /products/?q=1 should fire (has trailing slash with query)
    assert!(check_trailing_slash_url(
        "http://localhost:3000/products/?q=1",
        None,
        TrailingSlashPolicy::Never
    ));
}


#[test]
fn url_helpers_values() {
    assert_eq!(url_path_query("http://x.com/a/b?q=1#frag").as_deref(), Some("/a/b?q=1"));
    assert_eq!(url_path_query("not a url"), None);
    assert_eq!(host_stripped("https://x.com:8443/p").as_deref(), Some("/p"));
    assert_eq!(url_scheme("https://x.com/").as_deref(), Some("https"));
    assert_eq!(resolve_href("../c", "http://x.com/a/b/"), "http://x.com/a/c");
    assert_eq!(resolve_href("/z", "nonsense"), "/z");
    assert_eq!(strip_fragment("http://x.com/a#top"), "http://x.com/a");
    assert_eq!(strip_fragment("a#b"), "a#b");
}

#[test]
fn trailing_slash_rewrite_texts() {
    let (path, from, to) =
        trailing_slash_rewrite("http://x.com/products//?q=1", TrailingSlashPolicy::Never).unwrap();
    assert_eq!(path, "/products//");
    assert_eq!(from, "/products//?q=1");
    assert_eq!(to, "/products?q=1");
    let (_, _, to) = trailing_slash_rewrite("http://x.com/products", TrailingSlashPolicy::Always).unwrap();
    assert_eq!(to, "/products/");
    assert!(trailing_slash_rewrite("::", TrailingSlashPolicy::Never).is_none());
}

#[test]
fn replace_all_semantics() {
    assert_eq!(replace_all_str("aaa", "aa", "b"), "ba");
    assert_eq!(replace_all_str("es_MX/x/es_MX", "es_MX", "es-MX"), "es-MX/x/es-MX");
    assert_eq!(replace_all_str("abc", "z", "y"), "abc");
}

#[test]
fn locale_path_findings_rules() {
    let f = locale_path_findings("http://x.com/ES_mx/products?a=1").unwrap();
    assert_eq!(f.segment, "ES_mx");
    assert_eq!(f.url_path_query, "/ES_mx/products?a=1");
    let (e, c) = f.separator_fix.unwrap();
    assert_eq!(e, "ES-mx");
    assert_eq!(c, "/ES-mx/products?a=1");
    let (e, c) = f.case_fix.unwrap();
    assert_eq!(e, "es-MX");
    assert_eq!(c, "/es-MX/products?a=1");
    assert!(f.unknown_subtag.is_none());

    let f = locale_path_findings("http://x.com/xx-MX/").unwrap();
    assert!(f.separator_fix.is_none() && f.case_fix.is_none());
    assert_eq!(f.unknown_subtag.as_deref(), Some("xx"));

    assert!(locale_path_findings("http://x.com/products/connect").is_none());
    assert!(locale_path_findings("no url").is_none());
}

fn profile() -> SeverityProfile {
    SeverityProfile {
        by_type: vec![(IssueType::LocaleUnknown, IssueSeverity::Info)],
        fallback: IssueSeverity::Warning,
    }
}

fn field(fs: &[JsonField], path: &str) -> Option<String> {
    fs.iter().find(|f| f.path == path).and_then(|f| match &f.value {
        JsonLeaf::Text(s) => Some(s.clone()),
        _ => None,
    })
}

#[test]
fn test_locale_separator_invalid_emits_issue() {
    let lang = Some("es".to_string());
    let issues = check_locale_path("http://example.com/es_MX/products", "desktop", &profile(), &lang);
    assert!(
        issues.iter().any(|i| i.issue_type == IssueType::LocaleSeparatorInvalid),
        "should emit locale_separator_invalid"
    );
    let d = &issues[0];
    assert_eq!(d.issue_type, IssueType::LocaleSeparatorInvalid);
    assert_eq!(d.category, IssueCategory::Hygiene);
    assert_eq!(d.severity, IssueSeverity::Warning);
    assert_eq!(d.goal.as_deref(), Some("G6"));
    assert_eq!(d.locale.as_deref(), Some("es"));
    assert_eq!(d.message, "Locale separator invalid in segment 'es_MX': use hyphen not underscore");
    assert_eq!(field(&d.evidence, "new.expected").as_deref(), Some("es-MX"));
    assert_eq!(field(&d.evidence, "new.url").as_deref(), Some("http://example.com/es_MX/products"));
    let rm = d.remediation.as_ref().unwrap();
    assert_eq!(field(rm, "from").as_deref(), Some("/es_MX/products"));
    assert_eq!(field(rm, "to").as_deref(), Some("/es-MX/products"));
    assert_eq!(d.locator.anchors.href.as_deref(), Some("/es_MX/products"));
    assert_eq!(d.id.len(), 18);
    assert!(d.id.starts_with("issue_"));
}

#[test]
fn test_locale_case_invalid_emits_issue() {
    let issues = check_locale_path("http://example.com/es-mx/products", "desktop", &profile(), &None);
    assert!(
        issues.iter().any(|i| i.issue_type == IssueType::LocaleCaseInvalid),
        "should emit locale_case_invalid"
    );
    let d = issues.iter().find(|i| i.issue_type == IssueType::LocaleCaseInvalid).unwrap();
    assert_eq!(d.message, "Locale case invalid in segment 'es-mx': expected 'es-MX'");
    assert_eq!(field(d.remediation.as_ref().unwrap(), "to").as_deref(), Some("/es-MX/products"));
    assert_eq!(d.locale, None);
}

#[test]
fn locale_unknown_issue_has_no_remediation() {
    let issues = check_locale_path("https://example.com/xx-QQ/", "mobile", &profile(), &None);
    let d = issues.iter().find(|i| i.issue_type == IssueType::LocaleUnknown).unwrap();
    assert!(d.remediation.is_none());
    assert_eq!(d.severity, IssueSeverity::Info);
    assert_eq!(d.viewport, "mobile");
    assert!(d.message.starts_with("Unknown locale subtag '"));
}

#[test]
fn locale_path_without_locale_or_url_gives_nothing() {
    assert!(check_locale_path("https://example.com/products/", "desktop", &profile(), &None).is_empty());
    assert!(check_locale_path("not a url", "desktop", &profile(), &None).is_empty());
    assert!(check_locale_path("https://example.com/es-MX/", "desktop", &profile(), &None).is_empty());
}

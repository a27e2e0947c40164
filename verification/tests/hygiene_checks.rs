use matchy_core::config::TrailingSlashPolicy;
use matchy_core::contract::{IssueSeverity, IssueType, LinkProbe, NodeAnchors, SemanticNode};
use matchy_core::drafts::{JsonField, JsonLeaf, SeverityProfile};
use matchy_core::text::{replace_first_str, trim_start_all_str};
use matchy_core::hygiene_checks::{
    canonical_mismatch, check_per_link_protocol_downgrade, normalize_url_for_compare, per_link_downgrades, per_link_trailing_slashes,
    probe_redirect_fires, protocol_downgraded, redirect_owner, status_parity_fires,
};

fn link(id: &str, seq: u32, href: &str) -> SemanticNode {
    SemanticNode {
        id: id.to_string(),
        kind: "link".to_string(),
        href: Some(href.to_string()),
        seq_index: seq,
        ..Default::default()
    }
}

#[test]
fn status_parity_decisions() {
    assert!(status_parity_fires(200, 404));
    assert!(!status_parity_fires(404, 404));
    assert!(!status_parity_fires(404, 200));
    assert!(status_parity_fires(200, 0));
    assert!(!status_parity_fires(204, 299));
    assert!(status_parity_fires(299, 300));
}

#[test]
fn page_protocol_downgrade() {
    assert!(protocol_downgraded("https://example.com/", "http://example.com/"));
    assert!(!protocol_downgraded("http://example.com/", "http://example.com/"));
    assert!(!protocol_downgraded("https://example.com/", "https://example.com/"));
    assert!(!protocol_downgraded("not a url", "http://example.com/"));
}

#[test]
fn canonical_decisions() {
    let fin = "https://example.com/about";
    let p = TrailingSlashPolicy::Never;
    // Different canonicals pointing elsewhere: fires.
    let r = canonical_mismatch(
        Some("https://old.example.com/about"),
        Some("https://different.example.com/about"),
        fin,
        p,
    );
    assert_eq!(
        r,
        Some(("https://different.example.com/about".to_string(), "https://example.com/about".to_string()))
    );
    // Same raw canonical on both sides: suppressed.
    assert_eq!(canonical_mismatch(Some("https://x.example/"), Some("https://x.example/"), fin, p), None);
    // Canonical equal to the final URL: no issue.
    assert_eq!(canonical_mismatch(None, Some("https://example.com/about"), fin, p), None);
    // Relative canonical resolved against the final URL.
    assert_eq!(canonical_mismatch(None, Some("/about"), fin, p), None);
    // A trailing slash is normalised away under Never.
    assert_eq!(canonical_mismatch(None, Some("https://example.com/about/"), fin, p), None);
    // No canonical at all: nothing to check.
    assert_eq!(canonical_mismatch(Some("x"), None, fin, p), None);
}

#[test]
fn normalisation_for_compare() {
    assert_eq!(
        normalize_url_for_compare("https://e.com/a/b/#frag", TrailingSlashPolicy::Never).as_deref(),
        Some("https://e.com/a/b")
    );
    assert_eq!(
        normalize_url_for_compare("https://e.com/a/b/#frag", TrailingSlashPolicy::Always).as_deref(),
        Some("https://e.com/a/b/")
    );
    assert_eq!(normalize_url_for_compare("https://e.com/", TrailingSlashPolicy::Never).as_deref(), Some("https://e.com/"));
    assert_eq!(normalize_url_for_compare("nope", TrailingSlashPolicy::Never), None);
}

#[test]
fn per_link_downgrade_fires_for_http_link_of_https_old_link() {
    let old = vec![link("node_0", 0, "https://example.com/about")];
    let new = vec![link("node_0", 0, "http://example.com/about")];
    assert_eq!(per_link_downgrades(&old, &new, "https://example.com/"), vec![0]);
}

#[test]
fn per_link_downgrade_no_false_positive_both_http() {
    let old = vec![link("node_0", 0, "http://example.com/about")];
    let new = vec![link("node_0", 0, "http://example.com/about")];
    assert!(per_link_downgrades(&old, &new, "https://example.com/").is_empty());
}

#[test]
fn per_link_downgrade_ignores_other_sites_and_orders_by_seq_index() {
    let old = vec![
        link("o1", 0, "https://example.com/a"),
        link("o2", 1, "https://example.com/b"),
        link("o3", 2, "https://other.com/c"),
    ];
    let new = vec![
        link("n_b", 5, "http://EXAMPLE.com/b"),
        link("n_a", 3, "http://example.com/a"),
        link("n_c", 1, "http://other.com/c"),
    ];
    assert_eq!(per_link_downgrades(&old, &new, "https://example.com/"), vec![1, 0]);
    assert!(per_link_downgrades(&old, &new, "::bad").is_empty());
}

#[test]
fn per_link_trailing_slash_with_parity_suppression() {
    let old = vec![link("o", 0, "https://example.com/kept/")];
    let new = vec![
        link("n1", 2, "https://example.com/docs/"),
        link("n2", 1, "https://example.com/kept/"),
        link("n3", 0, "https://example.com/fine"),
        link("n4", 3, "https://elsewhere.com/x/"),
        link("n5", 4, "https://example.com/"),
    ];
    assert_eq!(
        per_link_trailing_slashes(&old, &new, "https://example.com/", TrailingSlashPolicy::Never),
        vec![0]
    );
    assert_eq!(
        per_link_trailing_slashes(&old, &new, "https://example.com/", TrailingSlashPolicy::Always),
        vec![2]
    );
}

#[test]
fn probe_redirect_decisions() {
    let page = "https://example.com/";
    let probe = LinkProbe {
        url: "https://example.com/old".to_string(),
        redirect_chain: vec!["https://example.com/old".to_string(), "https://example.com/mid".to_string()],
        final_url: Some("https://example.com/new".to_string()),
        status: Some(200),
        skipped: None,
        error: None,
    };
    assert!(probe_redirect_fires(&probe, page));
    let one_hop = LinkProbe { redirect_chain: vec!["https://example.com/old".to_string()], ..probe.clone() };
    assert!(!probe_redirect_fires(&one_hop, page));
    let skipped = LinkProbe { skipped: Some("budget".to_string()), ..probe.clone() };
    assert!(!probe_redirect_fires(&skipped, page));
    let foreign = LinkProbe { url: "https://other.com/old".to_string(), ..probe.clone() };
    assert!(!probe_redirect_fires(&foreign, page));
}

#[test]
fn redirect_owner_is_lowest_seq_index() {
    let nodes = vec![
        link("b", 7, "/old#x"),
        link("a", 2, "https://example.com/old"),
        link("c", 1, "/other"),
    ];
    assert_eq!(redirect_owner(&nodes, "https://example.com/", "https://example.com/old"), Some(1));
    assert_eq!(redirect_owner(&nodes, "https://example.com/", "https://example.com/none"), None);
}

fn anchored_link(href: &str) -> SemanticNode {
    SemanticNode {
        id: "node_0".to_string(),
        kind: "link".to_string(),
        role: Some("link".to_string()),
        text: Some("About".to_string()),
        acc_name: Some("About".to_string()),
        href: Some(href.to_string()),
        image_alt: None,
        bbox: [0, 0, 100, 30],
        seq_index: 0,
        anchors: NodeAnchors {
            text: Some("About".to_string()),
            role: Some("link".to_string()),
            href: Some(href.to_string()),
            alt: None,
            aria_label: None,
            nearest_heading: None,
            landmark: None,
            ordinal_in_landmark: None,
        },
        css_selector: None,
        ..Default::default()
    }
}

fn draft_text(fs: &[JsonField], path: &str) -> Option<String> {
    fs.iter().find(|f| f.path == path).and_then(|f| match &f.value {
        JsonLeaf::Text(s) => Some(s.clone()),
        _ => None,
    })
}

fn hygiene_profile() -> SeverityProfile {
    SeverityProfile { by_type: vec![], fallback: IssueSeverity::Error }
}

#[test]
fn test_per_link_protocol_downgrade_fires() {
    let old = vec![anchored_link("https://example.com/about")];
    let new = vec![anchored_link("http://example.com/about")];
    let issues = check_per_link_protocol_downgrade(
        &old,
        &new,
        "https://example.com/",
        "desktop",
        &hygiene_profile(),
        &None,
    );
    let downgrade: Vec<_> = issues.iter().filter(|i| i.issue_type == IssueType::UrlProtocolDowngrade).collect();
    assert!(
        downgrade
            .iter()
            .any(|i| draft_text(&i.evidence, "new.url").unwrap_or_default().starts_with("http://example.com/about")),
        "per-link downgrade should fire"
    );
    let d = downgrade[0];
    assert_eq!(draft_text(&d.evidence, "old.url").as_deref(), Some("https://example.com/about"));
    assert_eq!(d.message, "Per-link protocol downgrade: http://example.com/about should be https");
    let rm = d.remediation.as_ref().unwrap();
    assert_eq!(draft_text(rm, "findBy.grep.0").as_deref(), Some("example.com/about"));
    assert_eq!(draft_text(rm, "to").as_deref(), Some("https://example.com/about"));
    assert_eq!(d.goal.as_deref(), Some("G5"));
    assert_eq!(d.severity, IssueSeverity::Error);
    assert_eq!(d.locator.seq_index_new, Some(0));
    assert_eq!(d.locator.bbox_new, Some([0, 0, 100, 30]));
    assert_eq!(d.locator.anchors.text.as_deref(), Some("About"));
}

#[test]
fn test_per_link_protocol_downgrade_no_false_positive_both_http() {
    let old = vec![anchored_link("http://example.com/about")];
    let new = vec![anchored_link("http://example.com/about")];
    let issues = check_per_link_protocol_downgrade(
        &old,
        &new,
        "https://example.com/",
        "desktop",
        &hygiene_profile(),
        &None,
    );
    let downgrade: Vec<_> = issues.iter().filter(|i| i.issue_type == IssueType::UrlProtocolDowngrade).collect();
    assert!(downgrade.is_empty(), "no downgrade when old link was also http");
}

#[test]
fn replacen_and_trim_start_matches_semantics() {
    assert_eq!(replace_first_str("http://a/http://b", "http://", "https://"), "https://a/http://b");
    assert_eq!(replace_first_str("ftp://a", "http://", "https://"), "ftp://a");
    assert_eq!(trim_start_all_str("http://http://x", "http://"), "x");
    assert_eq!(trim_start_all_str("abc", ""), "abc");
}

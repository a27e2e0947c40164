use matchy_core::contract::{Anchors, IssueSeverity, IssueType, LinkProbe, NodeAnchors, SemanticNode};
use matchy_core::drafts::{IssueDraft, JsonField, JsonLeaf, SeverityProfile};
use matchy_core::hygiene_issues::{
    canonical_issues, hygiene_issues, link_redirect_issues, link_slash_issues, page_redirect_issues,
    page_slash_issues, HygienePage,
};
use matchy_core::issue::compute_issue_id;

fn make_page(url: &str, final_url: &str, redirect_chain: Vec<String>, status: u32) -> HygienePage {
    HygienePage {
        url: url.to_string(),
        final_url: final_url.to_string(),
        status_code: status,
        redirect_chain,
        canonical: None,
        nodes: vec![],
        link_probes: vec![],
        lang: Some("en".to_string()),
    }
}

fn profile() -> SeverityProfile {
    SeverityProfile {
        by_type: vec![(IssueType::StatusCodeMismatch, IssueSeverity::Critical)],
        fallback: IssueSeverity::Warning,
    }
}

fn strict_profile() -> SeverityProfile {
    SeverityProfile {
        by_type: vec![
            (IssueType::UrlTrailingSlash, IssueSeverity::Error),
            (IssueType::StatusCodeMismatch, IssueSeverity::Critical),
        ],
        fallback: IssueSeverity::Error,
    }
}

fn leaf<'a>(fs: &'a [JsonField], path: &str) -> Option<&'a JsonLeaf> {
    fs.iter().find(|f| f.path == path).map(|f| &f.value)
}

fn text_at(fs: &[JsonField], path: &str) -> Option<String> {
    match leaf(fs, path) {
        Some(JsonLeaf::Text(t)) => Some(t.clone()),
        _ => None,
    }
}

fn of_type(issues: &[IssueDraft], t: IssueType) -> Vec<&IssueDraft> {
    issues.iter().filter(|i| i.issue_type == t).collect()
}

fn link_node(href: &str) -> SemanticNode {
    SemanticNode {
        id: "node_0".to_string(),
        kind: "link".to_string(),
        role: Some("link".to_string()),
        text: Some("Products".to_string()),
        acc_name: Some("Products".to_string()),
        href: Some(href.to_string()),
        bbox: [0, 0, 100, 30],
        seq_index: 0,
        anchors: NodeAnchors {
            text: Some("Products".to_string()),
            role: Some("link".to_string()),
            href: Some(href.to_string()),
            ..Default::default()
        },
        ..Default::default()
    }
}

#[test]
fn test_redirect_chain_zero_hops_no_issue() {
    let new_b = make_page("http://localhost:3017/", "http://localhost:3017/", vec![], 200);
    let result = page_redirect_issues(&new_b, "desktop", &profile());
    assert!(result.is_empty(), "0-hop chain should not emit issue");
}

#[test]
fn test_redirect_chain_one_hop_no_issue() {
    let new_b = make_page(
        "http://localhost:3017/start",
        "http://localhost:3017/",
        vec!["http://localhost:3017/start".to_string()],
        200,
    );
    let result = page_redirect_issues(&new_b, "desktop", &profile());
    assert!(result.is_empty(), "1-hop chain should not emit issue (need > 1)");
}

#[test]
fn test_redirect_chain_two_hops_fires() {
    let new_b = make_page(
        "http://localhost:3017/start",
        "http://localhost:3017/",
        vec!["http://localhost:3017/start".to_string(), "http://localhost:3017/mid".to_string()],
        200,
    );
    let result = page_redirect_issues(&new_b, "desktop", &profile());
    assert!(!result.is_empty(), "2-hop chain should emit issue");
    let issue = &result[0];
    assert_eq!(issue.issue_type, IssueType::UrlRedirectChain);
    assert!(matches!(leaf(&issue.evidence, "new.hops"), Some(JsonLeaf::Number(2))));
    assert_eq!(text_at(&issue.evidence, "new.redirectChain.0").as_deref(), Some("http://localhost:3017/start"));
    assert_eq!(text_at(&issue.evidence, "new.redirectChain.1").as_deref(), Some("http://localhost:3017/mid"));
    // Further contents.
    assert_eq!(issue.message, "URL redirect chain has 2 hops: http://localhost:3017/start");
    assert_eq!(issue.locator.anchors.href.as_deref(), Some("/start"));
    let rm = issue.remediation.as_ref().unwrap();
    assert_eq!(text_at(rm, "to").as_deref(), Some("http://localhost:3017/"));
}

#[test]
fn test_status_parity_200_404_fires() {
    let old_b = make_page("http://old.com/", "http://old.com/", vec![], 200);
    let new_b = make_page("http://new.com/", "http://new.com/", vec![], 404);
    let result = hygiene_issues(&old_b, &new_b, "desktop", &profile());
    assert!(result.short_circuit, "should short-circuit");
    assert_eq!(result.issues.len(), 1);
    assert_eq!(result.issues[0].issue_type, IssueType::StatusCodeMismatch);
    assert_eq!(result.issues[0].severity, IssueSeverity::Critical);
    // Further contents.
    assert_eq!(result.issues[0].message, "Status code mismatch: old=200 new=404");
    assert!(matches!(leaf(&result.issues[0].evidence, "new.statusCode"), Some(JsonLeaf::Number(404))));
    assert_eq!(text_at(result.issues[0].remediation.as_ref().unwrap(), "from").as_deref(), Some("404"));
}

#[test]
fn test_status_parity_404_404_no_issue() {
    let old_b = make_page("http://old.com/", "http://old.com/", vec![], 404);
    let new_b = make_page("http://new.com/", "http://new.com/", vec![], 404);
    let result = hygiene_issues(&old_b, &new_b, "desktop", &profile());
    assert!(!result.short_circuit, "should not short-circuit");
    assert!(result.issues.iter().all(|i| i.issue_type != IssueType::StatusCodeMismatch));
}

#[test]
fn test_status_parity_404_200_no_issue() {
    let old_b = make_page("http://old.com/", "http://old.com/", vec![], 404);
    let new_b = make_page("http://new.com/", "http://new.com/", vec![], 200);
    let result = hygiene_issues(&old_b, &new_b, "desktop", &profile());
    assert!(!result.short_circuit);
    assert!(result.issues.iter().all(|i| i.issue_type != IssueType::StatusCodeMismatch));
}

#[test]
fn test_status_parity_status_zero_counts_non_2xx() {
    let old_b = make_page("http://old.com/", "http://old.com/", vec![], 200);
    let new_b = make_page("http://new.com/", "http://new.com/", vec![], 0);
    let result = hygiene_issues(&old_b, &new_b, "desktop", &profile());
    assert!(result.short_circuit, "status 0 should count as non-2xx");
}

#[test]
fn test_status_parity_critical_under_both_profiles() {
    let old_b = make_page("http://old.com/", "http://old.com/", vec![], 200);
    let new_b = make_page("http://new.com/", "http://new.com/", vec![], 404);
    let r1 = hygiene_issues(&old_b, &new_b, "desktop", &profile());
    assert_eq!(r1.issues[0].severity, IssueSeverity::Critical);
    let r2 = hygiene_issues(&old_b, &new_b, "desktop", &strict_profile());
    assert_eq!(r2.issues[0].severity, IssueSeverity::Critical);
}

#[test]
fn test_protocol_downgrade_fires() {
    let old_b = make_page("https://example.com/", "https://example.com/", vec![], 200);
    let new_b = make_page("http://example.com/", "http://example.com/", vec![], 200);
    let result = hygiene_issues(&old_b, &new_b, "desktop", &profile());
    assert!(result.issues.iter().any(|i| i.issue_type == IssueType::UrlProtocolDowngrade));
    let d = of_type(&result.issues, IssueType::UrlProtocolDowngrade)[0];
    assert_eq!(d.message, "Protocol downgrade: old=https://example.com/ new=http://example.com/");
    assert_eq!(text_at(d.remediation.as_ref().unwrap(), "to").as_deref(), Some("https://example.com/"));
}

#[test]
fn test_protocol_downgrade_no_false_positive_both_http() {
    let old_b = make_page("http://example.com/", "http://example.com/", vec![], 200);
    let new_b = make_page("http://example.com/", "http://example.com/", vec![], 200);
    let result = hygiene_issues(&old_b, &new_b, "desktop", &profile());
    assert!(result.issues.iter().all(|i| i.issue_type != IssueType::UrlProtocolDowngrade));
}

#[test]
fn test_canonical_mismatch_fires() {
    let mut old_b = make_page("https://example.com/about", "https://example.com/about", vec![], 200);
    let mut new_b = make_page("https://example.com/about", "https://example.com/about", vec![], 200);
    old_b.canonical = Some("https://old.example.com/about".to_string());
    new_b.canonical = Some("https://different.example.com/about".to_string());
    let result = hygiene_issues(&old_b, &new_b, "desktop", &profile());
    assert!(result.issues.iter().any(|i| i.issue_type == IssueType::CanonicalMismatch));
    let d = &canonical_issues(&old_b, &new_b, "desktop", &profile())[0];
    assert_eq!(
        d.message,
        "Canonical URL mismatch: canonical resolves to https://different.example.com/about but final URL is https://example.com/about"
    );
    assert_eq!(text_at(&d.evidence, "old.canonical").as_deref(), Some("https://old.example.com/about"));
}

#[test]
fn test_canonical_raw_parity_suppression() {
    let mut old_b = make_page("https://example.com/about", "https://example.com/about", vec![], 200);
    let mut new_b = make_page("https://example.com/about", "https://example.com/about", vec![], 200);
    old_b.canonical = Some("branded-call.html".to_string());
    new_b.canonical = Some("branded-call.html".to_string());
    let result = hygiene_issues(&old_b, &new_b, "desktop", &profile());
    assert!(result.issues.iter().all(|i| i.issue_type != IssueType::CanonicalMismatch));
}

#[test]
fn test_canonical_absolute_match_no_issue() {
    let mut old_b = make_page("https://example.com/about", "https://example.com/about", vec![], 200);
    let mut new_b = make_page("https://example.com/about", "https://example.com/about", vec![], 200);
    old_b.canonical = Some("https://example.com/about2".to_string());
    new_b.canonical = Some("https://example.com/about".to_string());
    let result = hygiene_issues(&old_b, &new_b, "desktop", &profile());
    assert!(result.issues.iter().all(|i| i.issue_type != IssueType::CanonicalMismatch));
}

#[test]
fn test_canonical_relative() {
    let mut old_b = make_page("https://example.com/about", "https://example.com/about", vec![], 200);
    let mut new_b = make_page("https://example.com/about", "https://example.com/about", vec![], 200);
    old_b.canonical = Some("other.html".to_string());
    new_b.canonical = Some("other.html".to_string());
    let result = hygiene_issues(&old_b, &new_b, "desktop", &profile());
    assert!(result.issues.iter().all(|i| i.issue_type != IssueType::CanonicalMismatch));
}

#[test]
fn test_canonical_trailing_slash_policy_normalization() {
    let mut old_b = make_page("https://example.com/about", "https://example.com/about", vec![], 200);
    let mut new_b = make_page("https://example.com/about", "https://example.com/about", vec![], 200);
    old_b.canonical = Some("other-src".to_string());
    new_b.canonical = Some("https://example.com/about/".to_string());
    let result = hygiene_issues(&old_b, &new_b, "desktop", &profile());
    assert!(result.issues.iter().all(|i| i.issue_type != IssueType::CanonicalMismatch));
}

#[test]
fn test_per_link_parity_suppression_identical_bundles() {
    let mut old_b = make_page("http://example.com/", "http://example.com/", vec![], 200);
    let mut new_b = make_page("http://example.com/", "http://example.com/", vec![], 200);
    old_b.nodes = vec![link_node("http://example.com/products/")];
    new_b.nodes = vec![link_node("http://example.com/products/")];
    let result = hygiene_issues(&old_b, &new_b, "desktop", &profile());
    let slash_issues = of_type(&result.issues, IssueType::UrlTrailingSlash);
    assert!(slash_issues.is_empty(), "identical link should be parity-suppressed");
}

#[test]
fn test_issue_id_stable_under_bbox_jitter() {
    let anchors1 = Anchors { href: Some("/products/".to_string()), ..Default::default() };
    let id1 = compute_issue_id(&IssueType::UrlTrailingSlash, "desktop", &anchors1, None);
    let id2 = compute_issue_id(&IssueType::UrlTrailingSlash, "desktop", &anchors1, None);
    assert_eq!(id1, id2, "ID must be stable");
}

#[test]
fn test_per_link_redirect_chain_from_probes() {
    let mut new_b = make_page("http://example.com/", "http://example.com/", vec![], 200);
    new_b.link_probes = vec![LinkProbe {
        url: "http://example.com/start".to_string(),
        redirect_chain: vec!["http://example.com/start".to_string(), "http://example.com/mid".to_string()],
        final_url: Some("http://example.com/end".to_string()),
        status: Some(200),
        skipped: None,
        error: None,
    }];
    let old_b = make_page("http://example.com/", "http://example.com/", vec![], 200);
    let result = hygiene_issues(&old_b, &new_b, "desktop", &profile());
    let chain_issues = of_type(&result.issues, IssueType::UrlRedirectChain);
    assert_eq!(chain_issues.len(), 1, "should emit 1 redirect chain issue from probes");
    assert!(matches!(leaf(&chain_issues[0].evidence, "new.hops"), Some(JsonLeaf::Number(2))));
}

#[test]
fn link_trailing_slash_issue_and_page_slash() {
    let old_b = make_page("http://example.com/", "http://example.com/", vec![], 200);
    let mut new_b = make_page("http://example.com/", "http://example.com/shop/", vec![], 200);
    new_b.nodes = vec![link_node("http://example.com/products/?a=1")];
    let links = link_slash_issues(&old_b, &new_b, "desktop", &strict_profile());
    assert_eq!(links.len(), 1);
    assert_eq!(links[0].severity, IssueSeverity::Error);
    assert_eq!(links[0].locator.anchors.text.as_deref(), Some("Products"));
    assert_eq!(links[0].locator.bbox_new, Some([0, 0, 100, 30]));
    let rm = links[0].remediation.as_ref().unwrap();
    assert_eq!(text_at(rm, "from").as_deref(), Some("/products/?a=1"));
    assert_eq!(text_at(rm, "to").as_deref(), Some("/products?a=1"));
    assert_eq!(links[0].message, "URL has a trailing slash that should not be present: /products/");
    let page = page_slash_issues(&old_b, &new_b, "desktop", &profile());
    assert_eq!(page.len(), 1);
    assert_eq!(text_at(&page[0].evidence, "policy").as_deref(), Some("never"));
    assert_eq!(page[0].locator.anchors.href.as_deref(), Some("/shop/"));
}

#[test]
fn link_redirect_probes_sorted_and_owned() {
    let mut new_b = make_page("http://example.com/", "http://example.com/", vec![], 200);
    let chain = vec!["a".to_string(), "b".to_string()];
    let probe = |url: &str| LinkProbe {
        url: url.to_string(),
        redirect_chain: chain.clone(),
        final_url: None,
        status: Some(200),
        skipped: None,
        error: None,
    };
    new_b.link_probes = vec![probe("http://example.com/z"), probe("http://example.com/a"), probe("http://other.com/x")];
    new_b.nodes = vec![link_node("/a")];
    let issues = link_redirect_issues(&new_b, "desktop", &profile());
    assert_eq!(issues.len(), 2);
    assert_eq!(text_at(&issues[0].evidence, "new.requestedUrl").as_deref(), Some("http://example.com/a"));
    assert_eq!(issues[0].locator.anchors.text.as_deref(), Some("Products"));
    assert_eq!(text_at(&issues[1].evidence, "new.finalUrl").as_deref(), Some("http://example.com/z"));
    assert_eq!(issues[1].locator.anchors.href.as_deref(), Some("/z"));
}

use matchy_core::contract::{Anchors, ConsoleEntry, IssueSeverity, IssueType, NetworkRequest, NodeAnchors, SemanticNode};
use matchy_core::drafts::{JsonLeaf, SeverityProfile};
use matchy_core::network_diff::{
    filename_from_url, find_anchor_node, is_failing, network_console_issues, new_only_console_errors, NetworkPage,
    new_only_failing_requests, node_to_anchors, null_locator, request_key, single_node_locator,
};

/// Verify request_key directly: page-directory-relative keying for same-site URLs.
#[test]
fn test_request_key_page_dir_relative() {
    // Root page: base_dir = "/"
    assert_eq!(
        request_key(
            "http://localhost:3000/assets/images/x.png",
            "http://localhost:3000/"
        ),
        "assets/images/x.png"
    );

    // Path-prefix page: base_dir = "/products/connect/branded-call/"
    assert_eq!(
        request_key(
            "http://localhost:3014/products/connect/branded-call/assets/images/x.png",
            "http://localhost:3014/products/connect/branded-call/"
        ),
        "assets/images/x.png"
    );

    // Same-origin but outside page dir (absolute /assets/ while page is /x/y/) → strip leading "/"
    assert_eq!(
        request_key(
            "http://localhost:3014/assets/images/x.png",
            "http://localhost:3014/products/connect/branded-call/"
        ),
        "assets/images/x.png"
    );

    // No trailing slash on own_final_url: "/es_MX/products/connect/branded-call"
    // → base_dir = "/es_MX/products/connect/"
    // asset at "/es_MX/products/connect/assets/images/x.png" → rel = "assets/images/x.png"
    assert_eq!(
        request_key(
            "http://localhost:3015/es_MX/products/connect/assets/images/x.png",
            "http://localhost:3015/es_MX/products/connect/branded-call"
        ),
        "assets/images/x.png"
    );

    // Third-party URL → returned unchanged
    assert_eq!(
        request_key(
            "https://cdn.example.com/font.woff2",
            "http://localhost:3000/"
        ),
        "https://cdn.example.com/font.woff2"
    );

    // Query string preserved
    assert_eq!(
        request_key(
            "http://localhost:3000/assets/x.png?v=2",
            "http://localhost:3000/"
        ),
        "assets/x.png?v=2"
    );
}


fn req(url: &str, status: Option<u32>, failed: bool) -> NetworkRequest {
    NetworkRequest {
        url: url.to_string(),
        status,
        request_type: Some("image".to_string()),
        failed,
    }
}

#[test]
fn network_new_only_failing_selection() {
    let old = vec![
        req("http://localhost:3000/missing.png", Some(404), false),
        req("http://localhost:3000/ok.png", Some(200), false),
    ];
    let new = vec![
        req("http://localhost:3001/zeta.png", Some(500), false),
        req("http://localhost:3001/missing.png", Some(404), false),
        req("http://localhost:3001/ok.png", None, true),
        req("http://localhost:3001/zeta.png", Some(404), false),
        req("http://localhost:3001/fine.png", Some(0), false),
    ];
    let sel = new_only_failing_requests(&old, "http://localhost:3000/", &new, "http://localhost:3001/");
    assert_eq!(
        sel,
        vec![("ok.png".to_string(), 2), ("zeta.png".to_string(), 0)]
    );
}

#[test]
fn network_path_prefix_mount_correlation() {
    let old = vec![req("http://localhost:3000/assets/images/x.png", Some(404), true)];
    let new = vec![req(
        "http://localhost:3014/products/connect/branded-call/assets/images/x.png",
        Some(404),
        false,
    )];
    let sel = new_only_failing_requests(
        &old,
        "http://localhost:3000/",
        &new,
        "http://localhost:3014/products/connect/branded-call/",
    );
    assert!(sel.is_empty(), "shared dangling asset must be suppressed");
}

fn entry(level: &str, text: &str) -> ConsoleEntry {
    ConsoleEntry { level: level.to_string(), text: text.to_string() }
}

#[test]
fn console_new_only_errors_selection() {
    let old = vec![entry("error", "Something went wrong")];
    let new = vec![
        entry("error", "Something went wrong"),
        entry("warning", "deprecated"),
        entry("error", "Failed to load resource: 404"),
        entry("error", "b: boom"),
        entry("error", "a: crash"),
        entry("error", "b: boom"),
    ];
    let sel = new_only_console_errors(&old, &new);
    assert_eq!(sel, vec![("a: crash".to_string(), 4), ("b: boom".to_string(), 3)]);
}

#[test]
fn network_helpers() {
    assert!(is_failing(Some(404), false));
    assert!(is_failing(None, true));
    assert!(!is_failing(Some(0), false));
    assert!(!is_failing(Some(399), false));
    assert_eq!(filename_from_url("http://x.com/a/b/logo.png?v=1"), "logo.png");
    assert_eq!(filename_from_url("http://x.com/a/"), "");
    assert_eq!(filename_from_url("relative/path/file.js"), "file.js");
    assert_eq!(filename_from_url("plain"), "plain");
    let node = SemanticNode {
        id: "n1".to_string(),
        src: Some("http://x.com/logo.png".to_string()),
        css_selector: Some("img.logo".to_string()),
        bbox: [1, 2, 3, 4],
        seq_index: 7,
        anchors: NodeAnchors {
            alt: Some("Logo".to_string()),
            ..NodeAnchors::default()
        },
        ..SemanticNode::default()
    };
    let nodes = vec![SemanticNode::default(), node];
    assert_eq!(find_anchor_node(&nodes, "http://x.com/logo.png"), Some(1));
    assert_eq!(find_anchor_node(&nodes, "http://x.com/other.png"), None);
    let a = node_to_anchors(&nodes[1]);
    assert_eq!(a.alt.as_deref(), Some("Logo"));
    let loc = single_node_locator(a.clone(), &nodes[1]);
    assert_eq!(loc.seq_index_new, Some(7));
    assert_eq!(loc.bbox_new, Some([1, 2, 3, 4]));
    assert_eq!(loc.css_selector_new.as_deref(), Some("img.logo"));
    let nl = null_locator(Anchors::null());
    assert!(nl.bbox_new.is_none() && nl.seq_index_old.is_none());
}

fn page(url: &str, requests: Vec<NetworkRequest>, console: Vec<ConsoleEntry>, nodes: Vec<SemanticNode>) -> NetworkPage {
    NetworkPage { final_url: url.to_string(), requests, console, nodes, lang: Some("en".to_string()) }
}

fn content_profile() -> SeverityProfile {
    SeverityProfile { by_type: vec![(IssueType::ConsoleError, IssueSeverity::Warning)], fallback: IssueSeverity::Error }
}

fn make_image_node(id: &str, src: &str, nearest_heading: Option<&str>) -> SemanticNode {
    SemanticNode {
        id: id.to_string(),
        kind: "image".to_string(),
        image_alt: Some("test image".to_string()),
        bbox: [10, 20, 100, 80],
        anchors: NodeAnchors {
            alt: Some("test image".to_string()),
            nearest_heading: nearest_heading.map(str::to_string),
            ..Default::default()
        },
        css_selector: Some(format!("img#{}", id)),
        src: Some(src.to_string()),
        loaded: Some(false),
        ..Default::default()
    }
}

fn leaf<'a>(fs: &'a [matchy_core::drafts::JsonField], path: &str) -> Option<&'a JsonLeaf> {
    fs.iter().find(|f| f.path == path).map(|f| &f.value)
}

#[test]
fn test_network_error_new_only_404() {
    let img_url = "http://localhost:3001/assets/logo.png";
    let old_img_url = "http://localhost:3000/assets/logo.png";
    let old_requests = vec![NetworkRequest {
        url: old_img_url.to_string(),
        status: Some(200),
        request_type: Some("image".to_string()),
        failed: false,
    }];
    let new_requests = vec![NetworkRequest {
        url: img_url.to_string(),
        status: Some(404),
        request_type: Some("image".to_string()),
        failed: false,
    }];
    let img_node = make_image_node("img1", img_url, Some("Performance Analytics"));
    let old = page("http://localhost:3000/", old_requests, vec![], vec![]);
    let new = page("http://localhost:3001/", new_requests, vec![], vec![img_node]);
    let issues = network_console_issues(&old, &new, "desktop", &content_profile());
    let net_issues: Vec<_> = issues.iter().filter(|i| i.issue_type == IssueType::NetworkError).collect();
    assert_eq!(net_issues.len(), 1, "should emit exactly one network_error");
    let issue = net_issues[0];
    assert_eq!(issue.goal, Some("G7".to_string()));
    assert_eq!(issue.locator.anchors.nearest_heading, Some("Performance Analytics".to_string()));
    assert!(issue.locator.css_selector_new.is_some(), "should have css_selector_new");
    // Extra checks on the draft's contents.
    assert_eq!(issue.message, "Network error: http://localhost:3001/assets/logo.png returned HTTP 404 on the new page");
    assert!(matches!(leaf(&issue.evidence, "old.status"), Some(JsonLeaf::Number(200))));
    assert!(matches!(leaf(&issue.evidence, "new.status"), Some(JsonLeaf::Number(404))));
    assert!(matches!(leaf(&issue.evidence, "new.failed"), Some(JsonLeaf::Flag(false))));
    let rm = issue.remediation.as_ref().unwrap();
    assert!(matches!(leaf(rm, "findBy.grep.0"), Some(JsonLeaf::Text(t)) if t == "logo.png"));
    assert!(matches!(leaf(rm, "findBy.near"), Some(JsonLeaf::Text(t)) if t == "Performance Analytics"));
    assert!(matches!(leaf(rm, "to"), Some(JsonLeaf::Null)));
    assert_eq!(issue.severity, IssueSeverity::Error);
    assert_eq!(issue.locale.as_deref(), Some("en"));
}

#[test]
fn test_network_error_both_sides_suppressed() {
    let old = page(
        "http://localhost:3000/",
        vec![NetworkRequest { url: "http://localhost:3000/missing.png".to_string(), status: Some(404), request_type: None, failed: false }],
        vec![],
        vec![],
    );
    let new = page(
        "http://localhost:3001/",
        vec![NetworkRequest { url: "http://localhost:3001/missing.png".to_string(), status: Some(404), request_type: None, failed: false }],
        vec![],
        vec![],
    );
    let issues = network_console_issues(&old, &new, "desktop", &content_profile());
    let net_issues: Vec<_> = issues.iter().filter(|i| i.issue_type == IssueType::NetworkError).collect();
    assert_eq!(net_issues.len(), 0, "symmetric failure on both sides must be suppressed");
}

#[test]
fn test_network_error_status_zero_not_failed_ignored() {
    let new = page(
        "http://localhost:3001/",
        vec![NetworkRequest { url: "http://localhost:3001/script.js".to_string(), status: Some(0), request_type: None, failed: false }],
        vec![],
        vec![],
    );
    let old = page("http://localhost:3000/", vec![], vec![], vec![]);
    let issues = network_console_issues(&old, &new, "desktop", &content_profile());
    let net_issues: Vec<_> = issues.iter().filter(|i| i.issue_type == IssueType::NetworkError).collect();
    assert_eq!(net_issues.len(), 0, "status=0 + !failed must not emit network_error");
}

#[test]
fn test_console_error_new_only() {
    let old = page("http://localhost:3000/", vec![], vec![], vec![]);
    let new = page(
        "http://localhost:3001/",
        vec![],
        vec![ConsoleEntry { level: "error".to_string(), text: "Widget failed to initialize".to_string() }],
        vec![],
    );
    let issues = network_console_issues(&old, &new, "desktop", &content_profile());
    let console_issues: Vec<_> = issues.iter().filter(|i| i.issue_type == IssueType::ConsoleError).collect();
    assert_eq!(console_issues.len(), 1, "should emit exactly one console_error");
    let issue = console_issues[0];
    let text_in_new = match leaf(&issue.evidence, "new.text") {
        Some(JsonLeaf::Text(t)) => t.clone(),
        _ => String::new(),
    };
    assert!(text_in_new.contains("Widget failed to initialize"), "text should be in evidence.new");
    assert_eq!(issue.goal, None);
    assert_eq!(issue.severity, IssueSeverity::Warning);
    assert_eq!(issue.message, "Console error: Widget failed to initialize");
}

#[test]
fn test_console_error_resource_load_excluded() {
    let old = page("http://localhost:3000/", vec![], vec![], vec![]);
    let new = page(
        "http://localhost:3001/",
        vec![],
        vec![ConsoleEntry {
            level: "error".to_string(),
            text: "Failed to load resource: the server responded with a status of 404".to_string(),
        }],
        vec![],
    );
    let issues = network_console_issues(&old, &new, "desktop", &content_profile());
    let console_issues: Vec<_> = issues.iter().filter(|i| i.issue_type == IssueType::ConsoleError).collect();
    assert_eq!(console_issues.len(), 0, "'Failed to load resource' must not emit console_error");
}

#[test]
fn test_console_error_on_both_sides_suppressed() {
    let entry = ConsoleEntry { level: "error".to_string(), text: "Something went wrong".to_string() };
    let old = page("http://localhost:3000/", vec![], vec![entry.clone()], vec![]);
    let new = page("http://localhost:3001/", vec![], vec![entry], vec![]);
    let issues = network_console_issues(&old, &new, "desktop", &content_profile());
    let console_issues: Vec<_> = issues.iter().filter(|i| i.issue_type == IssueType::ConsoleError).collect();
    assert_eq!(console_issues.len(), 0, "error present on both sides must be suppressed");
}

#[test]
fn test_network_determinism() {
    let new_requests = vec![
        NetworkRequest {
            url: "http://localhost:3001/assets/a.png".to_string(),
            status: Some(404),
            request_type: Some("image".to_string()),
            failed: false,
        },
        NetworkRequest {
            url: "http://localhost:3001/assets/b.png".to_string(),
            status: Some(500),
            request_type: Some("image".to_string()),
            failed: false,
        },
    ];
    let old = page("http://localhost:3000/", vec![], vec![], vec![]);
    let new = page("http://localhost:3001/", new_requests, vec![], vec![]);
    let issues1 = network_console_issues(&old, &new, "desktop", &content_profile());
    let issues2 = network_console_issues(&old, &new, "desktop", &content_profile());
    assert_eq!(issues1.len(), issues2.len());
    for (a, b) in issues1.iter().zip(issues2.iter()) {
        assert_eq!(a.id, b.id, "ids must be identical on repeated calls");
        assert_eq!(a.issue_type, b.issue_type, "issue_type must be identical on repeated calls");
    }
    // Without a matching node the issue is page-level with null anchors.
    assert!(issues1[0].locator.css_selector_new.is_none());
    assert!(matches!(leaf(&issues1[0].evidence, "old"), Some(JsonLeaf::Null)));
}

#[test]
fn test_path_prefix_mount_correlation() {
    let old_final_url = "http://localhost:3000/";
    let new_final_url = "http://localhost:3014/products/connect/branded-call/";
    let old_requests = vec![
        NetworkRequest {
            url: "http://localhost:3000/assets/images/x.png".to_string(),
            status: Some(404),
            request_type: Some("image".to_string()),
            failed: true,
        },
        NetworkRequest {
            url: "http://localhost:3000/assets/images/only-new.png".to_string(),
            status: Some(200),
            request_type: Some("image".to_string()),
            failed: false,
        },
    ];
    let new_requests = vec![
        NetworkRequest {
            url: "http://localhost:3014/products/connect/branded-call/assets/images/x.png".to_string(),
            status: Some(404),
            request_type: Some("image".to_string()),
            failed: true,
        },
        NetworkRequest {
            url: "http://localhost:3014/products/connect/branded-call/assets/images/only-new.png".to_string(),
            status: Some(404),
            request_type: Some("image".to_string()),
            failed: false,
        },
    ];
    let old = page(old_final_url, old_requests, vec![], vec![]);
    let new = page(new_final_url, new_requests, vec![], vec![]);
    let issues = network_console_issues(&old, &new, "desktop", &content_profile());
    let net_issues: Vec<_> = issues.iter().filter(|i| i.issue_type == IssueType::NetworkError).collect();
    assert_eq!(
        net_issues.len(),
        1,
        "x.png must be suppressed (both-sides 404); only-new.png must emit one network_error"
    );
    let new_url = match leaf(&net_issues[0].evidence, "new.url") {
        Some(JsonLeaf::Text(t)) => t.clone(),
        _ => String::new(),
    };
    assert!(new_url.contains("only-new.png"), "the emitted issue must be for only-new.png");
    // The old side's matching request (at 200) is the old evidence.
    assert!(matches!(leaf(&net_issues[0].evidence, "old.status"), Some(JsonLeaf::Number(200))));
}

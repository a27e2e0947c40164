use matchy_core::a11y_diff::{
    a11y_issues, cap_html, find_node_by_selector, first_violation_for, rule_difference, rule_set, A11yPage,
    AxeNode, AxeViolation,
};
use matchy_core::contract::{IssueSeverity, IssueType, NodeAnchors, SemanticNode};
use matchy_core::drafts::{JsonField, JsonLeaf, SeverityProfile};

fn ids(v: &[Option<&str>]) -> Vec<Option<String>> {
    v.iter().map(|o| o.map(str::to_string)).collect()
}

#[test]
fn rule_sets_are_sorted_and_deduplicated() {
    let r = rule_set(&ids(&[Some("label"), None, Some("color-contrast"), Some("label")]));
    assert_eq!(r, vec!["color-contrast".to_string(), "label".to_string()]);
    assert!(rule_set(&[]).is_empty());
}

#[test]
fn regressions_and_improvements_by_set_difference() {
    let old = rule_set(&ids(&[Some("a"), Some("b")]));
    let new = rule_set(&ids(&[Some("b"), Some("c"), Some("d")]));
    assert_eq!(rule_difference(&new, &old), vec!["c".to_string(), "d".to_string()]);
    assert_eq!(rule_difference(&old, &new), vec!["a".to_string()]);
    assert!(rule_difference(&old, &old).is_empty());
}

#[test]
fn first_violation_is_reported() {
    let v = ids(&[Some("x"), Some("label"), Some("label")]);
    assert_eq!(first_violation_for(&v, "label"), Some(1));
    assert_eq!(first_violation_for(&v, "missing"), None);
}

#[test]
fn node_found_by_selector() {
    let nodes = vec![
        SemanticNode { css_selector: Some("#a".to_string()), ..Default::default() },
        SemanticNode { css_selector: None, ..Default::default() },
        SemanticNode { css_selector: Some("#b".to_string()), ..Default::default() },
    ];
    assert_eq!(find_node_by_selector(&nodes, "#b"), Some(2));
    assert_eq!(find_node_by_selector(&nodes, "#c"), None);
}

#[test]
fn html_snippets_capped_at_500_characters() {
    let short = "<p>hi</p>";
    assert_eq!(cap_html(short), short);
    let long = "x".repeat(600);
    assert_eq!(cap_html(&long), "x".repeat(500));
    // Characters, not bytes: 300 two-byte characters stay whole.
    let accents = "é".repeat(300);
    assert_eq!(cap_html(&accents), accents);
    let many = "€".repeat(501);
    assert_eq!(cap_html(&many).chars().count(), 500);
    let exact = "z".repeat(500);
    assert_eq!(cap_html(&exact), exact);
}

fn a11y_page(violations: Vec<AxeViolation>) -> A11yPage {
    A11yPage { violations, nodes: vec![], lang: Some("en".to_string()) }
}

fn html_has_lang_violation() -> AxeViolation {
    AxeViolation {
        id: Some("html-has-lang".to_string()),
        impact: Some("serious".to_string()),
        help_url: Some("https://dequeuniversity.com/rules/axe/4.9/html-has-lang".to_string()),
        nodes: vec![AxeNode { target: Some(vec!["html".to_string()]), html: Some("<html>".to_string()) }],
    }
}

fn content_structure() -> SeverityProfile {
    SeverityProfile {
        by_type: vec![
            (IssueType::AccessibilityRegression, IssueSeverity::Warning),
            (IssueType::AccessibilityImproved, IssueSeverity::Info),
        ],
        fallback: IssueSeverity::Error,
    }
}

fn a11y_leaf<'a>(fs: &'a [JsonField], path: &str) -> Option<&'a JsonLeaf> {
    fs.iter().find(|f| f.path == path).map(|f| &f.value)
}

#[test]
fn test_a11y_regression_new_only() {
    let old = a11y_page(vec![]);
    let new = a11y_page(vec![html_has_lang_violation()]);
    let issues = a11y_issues(&old, &new, "desktop", &content_structure());
    let regressions: Vec<_> = issues.iter().filter(|i| i.issue_type == IssueType::AccessibilityRegression).collect();
    assert_eq!(regressions.len(), 1, "should emit one accessibility_regression");
    let issue = regressions[0];
    assert_eq!(issue.goal, Some("G8".to_string()));
    assert_eq!(issue.severity, IssueSeverity::Warning);
    assert!(
        matches!(a11y_leaf(&issue.evidence, "new.ruleId"), Some(JsonLeaf::Text(t)) if t == "html-has-lang"),
        "ruleId must be in evidence.new"
    );
    assert!(
        matches!(a11y_leaf(&issue.evidence, "old.present"), Some(JsonLeaf::Flag(false))),
        "evidence.old.present must be false"
    );
    // Further contents of the draft.
    assert_eq!(issue.message, "Accessibility regression: axe rule 'html-has-lang' now fails (serious)");
    assert!(matches!(a11y_leaf(&issue.evidence, "new.nodeCount"), Some(JsonLeaf::Number(1))));
    assert!(matches!(a11y_leaf(&issue.evidence, "new.nodes.0.target.0"), Some(JsonLeaf::Text(t)) if t == "html"));
    assert!(matches!(a11y_leaf(&issue.evidence, "new.nodes.0.htmlSnippet"), Some(JsonLeaf::Text(t)) if t == "<html>"));
    let rm = issue.remediation.as_ref().unwrap();
    assert!(matches!(a11y_leaf(rm, "findBy.grep.0"), Some(JsonLeaf::Text(t)) if t == "html"));
    assert!(matches!(a11y_leaf(rm, "note"), Some(JsonLeaf::Text(t))
        if t == "axe rule html-has-lang now fails on the new page (clean on old). See helpUrl."));
}

#[test]
fn test_a11y_improved_old_only() {
    let old = a11y_page(vec![html_has_lang_violation()]);
    let new = a11y_page(vec![]);
    let issues = a11y_issues(&old, &new, "desktop", &content_structure());
    let improvements: Vec<_> = issues.iter().filter(|i| i.issue_type == IssueType::AccessibilityImproved).collect();
    assert_eq!(improvements.len(), 1, "should emit one accessibility_improved");
    let issue = improvements[0];
    assert_eq!(issue.severity, IssueSeverity::Info);
    assert!(issue.remediation.is_none(), "improved → remediation must be null");
    assert!(
        matches!(a11y_leaf(&issue.evidence, "old.ruleId"), Some(JsonLeaf::Text(t)) if t == "html-has-lang"),
        "ruleId must be in evidence.old"
    );
    assert!(
        matches!(a11y_leaf(&issue.evidence, "new.present"), Some(JsonLeaf::Flag(false))),
        "evidence.new.present must be false"
    );
    assert_eq!(issue.message, "Accessibility improved: axe rule 'html-has-lang' no longer fails");
}

#[test]
fn test_a11y_same_rule_both_sides_no_issue() {
    let v = html_has_lang_violation();
    let old = a11y_page(vec![v.clone()]);
    let new = a11y_page(vec![v]);
    let issues = a11y_issues(&old, &new, "desktop", &content_structure());
    assert!(issues.is_empty(), "same rule on both sides must emit nothing");
}

#[test]
fn test_a11y_determinism() {
    let old = a11y_page(vec![]);
    let new = a11y_page(vec![html_has_lang_violation()]);
    let issues1 = a11y_issues(&old, &new, "desktop", &content_structure());
    let issues2 = a11y_issues(&old, &new, "desktop", &content_structure());
    assert_eq!(issues1.len(), issues2.len());
    for (a, b) in issues1.iter().zip(issues2.iter()) {
        assert_eq!(a.id, b.id, "ids must be identical on repeated calls");
        assert_eq!(a.issue_type, b.issue_type);
    }
}

#[test]
fn a11y_issue_anchored_to_matching_node_and_evidence_capped() {
    let node = SemanticNode {
        id: "n1".to_string(),
        css_selector: Some("img.hero".to_string()),
        anchors: NodeAnchors { alt: Some("Hero".to_string()), ..Default::default() },
        ..Default::default()
    };
    let mut nodes = Vec::new();
    for k in 0..7 {
        nodes.push(AxeNode { target: Some(vec!["img.hero".to_string()]), html: Some("x".repeat(600 + k)) });
    }
    let v = AxeViolation { id: Some("image-alt".to_string()), impact: None, help_url: None, nodes };
    let new = A11yPage { violations: vec![v], nodes: vec![node], lang: None };
    let issues = a11y_issues(&a11y_page(vec![]), &new, "desktop", &content_structure());
    assert_eq!(issues.len(), 1);
    let d = &issues[0];
    assert_eq!(d.locator.anchors.alt.as_deref(), Some("Hero"));
    assert!(d.locator.css_selector_new.is_none());
    assert_eq!(d.message, "Accessibility regression: axe rule 'image-alt' now fails (unknown)");
    assert!(matches!(a11y_leaf(&d.evidence, "new.nodeCount"), Some(JsonLeaf::Number(7))));
    assert!(a11y_leaf(&d.evidence, "new.nodes.4.htmlSnippet").is_some());
    assert!(a11y_leaf(&d.evidence, "new.nodes.5.htmlSnippet").is_none());
    assert!(matches!(a11y_leaf(&d.evidence, "new.nodes.0.htmlSnippet"), Some(JsonLeaf::Text(t)) if t.len() == 500));
    assert!(matches!(a11y_leaf(&d.evidence, "impact"), Some(JsonLeaf::Null)));
}

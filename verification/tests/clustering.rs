use matchy_core::clustering::{cluster_issues, style_property, ClusterInput};
use matchy_core::contract::{IssueCategory, IssueType};

fn make_issue(
    id: &str,
    issue_type: IssueType,
    category: IssueCategory,
    landmark: Option<&str>,
    remediation_property: Option<&str>,
) -> ClusterInput {
    ClusterInput {
        id: id.to_string(),
        issue_type,
        category,
        remediation_property: remediation_property.map(str::to_string),
        landmark: landmark.map(str::to_string),
    }
}

#[test]
fn test_property_precedence_over_landmark() {
    let issues: Vec<ClusterInput> = (0..4)
        .map(|i| {
            make_issue(
                &format!("issue_{:012}", i),
                IssueType::StyleChanged,
                IssueCategory::Style,
                Some("main"),
                Some("font-family"),
            )
        })
        .collect();

    let clusters = cluster_issues(&issues, 3, &[]);

    assert_eq!(clusters.len(), 1, "expected exactly one cluster");
    let c = &clusters[0];
    assert_eq!(c.shared_property.as_deref(), Some("font-family"), "cluster must be by property");
    assert!(c.shared_landmark.is_none(), "no landmark cluster expected");
    assert_eq!(c.issue_ids.len(), 4);
}

#[test]
fn test_sub_min_property_falls_through_to_landmark() {
    let i0 = make_issue(
        "issue_000000000000",
        IssueType::StyleChanged,
        IssueCategory::Style,
        Some("main"),
        Some("color"),
    );
    let i1 = make_issue(
        "issue_000000000001",
        IssueType::StyleChanged,
        IssueCategory::Style,
        Some("main"),
        Some("color"),
    );
    let i2 = make_issue(
        "issue_000000000002",
        IssueType::StyleChanged,
        IssueCategory::Style,
        Some("main"),
        None,
    );

    let issues = vec![i0, i1, i2];
    let clusters = cluster_issues(&issues, 3, &[]);

    let prop_clusters: Vec<_> = clusters.iter().filter(|c| c.shared_property.is_some()).collect();
    assert_eq!(prop_clusters.len(), 0, "sub-min property group must not become a property cluster");

    let lm_clusters: Vec<_> = clusters.iter().filter(|c| c.shared_landmark.is_some()).collect();
    assert_eq!(lm_clusters.len(), 1, "expected one landmark cluster");
    assert_eq!(lm_clusters[0].issue_ids.len(), 3);
    assert_eq!(lm_clusters[0].shared_landmark.as_deref(), Some("main"));
}

#[test]
fn test_landmark_cluster() {
    let issues: Vec<ClusterInput> = (0..3)
        .map(|i| {
            make_issue(
                &format!("issue_{:012}", i),
                IssueType::VisualRegionChanged,
                IssueCategory::Visual,
                Some("main"),
                None,
            )
        })
        .collect();

    let clusters = cluster_issues(&issues, 3, &[]);

    assert_eq!(clusters.len(), 1);
    let c = &clusters[0];
    assert!(c.shared_property.is_none());
    assert_eq!(c.shared_landmark.as_deref(), Some("main"));
    assert_eq!(c.issue_ids.len(), 3);
    let summary = c.summary.as_deref().unwrap_or("");
    assert!(summary.contains("visual_region_changed"), "summary must contain type: {}", summary);
    assert!(summary.contains("main"), "summary must contain landmark: {}", summary);
}

#[test]
fn test_determinism_under_shuffled_input() {
    let make = |id: &str| {
        make_issue(id, IssueType::StyleChanged, IssueCategory::Style, Some("footer"), Some("font-size"))
    };

    let issues_forward: Vec<_> =
        vec![make("issue_aaaaaaaaaaaa"), make("issue_bbbbbbbbbbbb"), make("issue_cccccccccccc")];
    let issues_reversed: Vec<_> =
        vec![make("issue_cccccccccccc"), make("issue_bbbbbbbbbbbb"), make("issue_aaaaaaaaaaaa")];

    let c1 = cluster_issues(&issues_forward, 3, &[]);
    let c2 = cluster_issues(&issues_reversed, 3, &[]);

    assert_eq!(c1.len(), c2.len(), "cluster count must match");
    for (a, b) in c1.iter().zip(c2.iter()) {
        assert_eq!(a.id, b.id, "cluster ids must match");
        assert_eq!(a.issue_ids, b.issue_ids, "member ids must match");
        assert_eq!(a.shared_property, b.shared_property);
        assert_eq!(a.shared_landmark, b.shared_landmark);
    }
}

#[test]
fn test_cluster_id_content_addressed() {
    let issues: Vec<_> = (0..3)
        .map(|i| {
            make_issue(
                &format!("issue_{:012x}", i),
                IssueType::StyleChanged,
                IssueCategory::Style,
                None,
                Some("font-family"),
            )
        })
        .collect();

    let c1 = cluster_issues(&issues, 3, &[]);
    let c2 = cluster_issues(&issues, 3, &[]);
    assert_eq!(c1.len(), 1);
    assert_eq!(c2.len(), 1);
    assert_eq!(c1[0].id, c2[0].id, "cluster id must be stable across calls");
    assert!(c1[0].id.starts_with("cluster_"), "id must start with 'cluster_'");
    assert_eq!(c1[0].id.len(), 20, "cluster_ + 12 hex = 20 chars");
}

#[test]
fn test_member_ids_sorted() {
    let issues = vec![
        make_issue("issue_zzz", IssueType::StyleChanged, IssueCategory::Style, None, Some("color")),
        make_issue("issue_aaa", IssueType::StyleChanged, IssueCategory::Style, None, Some("color")),
        make_issue("issue_mmm", IssueType::StyleChanged, IssueCategory::Style, None, Some("color")),
    ];

    let clusters = cluster_issues(&issues, 3, &[]);
    assert_eq!(clusters.len(), 1);
    let ids = &clusters[0].issue_ids;
    assert_eq!(ids, &["issue_aaa", "issue_mmm", "issue_zzz"]);
}

#[test]
fn cluster_id_is_sha256_prefix_of_canonical() {
    // sha256("style_changed\x1fprop\x1fcolor"), first twelve hex digits.
    let issues: Vec<_> = (0..2)
        .map(|i| make_issue(&format!("i{}", i), IssueType::StyleChanged, IssueCategory::Style, None, Some("color")))
        .collect();
    let clusters = cluster_issues(&issues, 2, &[]);
    assert_eq!(clusters.len(), 1);
    assert_eq!(clusters[0].id, "cluster_6d5bb140d09c");
    assert_eq!(clusters[0].summary.as_deref(), Some("2 style_changed issues share color"));
}

#[test]
fn pre_claimed_ids_never_cluster() {
    let issues: Vec<_> = (0..3)
        .map(|i| make_issue(&format!("i{}", i), IssueType::StyleChanged, IssueCategory::Style, Some("main"), Some("color")))
        .collect();
    let pre = vec!["i0".to_string()];
    // Two unclaimed issues left: below a minimum of three for both passes.
    assert!(cluster_issues(&issues, 3, &pre).is_empty());
    let clusters = cluster_issues(&issues, 2, &pre);
    assert_eq!(clusters.len(), 1);
    assert_eq!(clusters[0].issue_ids, vec!["i1".to_string(), "i2".to_string()]);
}

#[test]
fn clusters_ordered_by_count_then_id() {
    let mut issues = Vec::new();
    for i in 0..2 {
        issues.push(make_issue(&format!("a{}", i), IssueType::StyleChanged, IssueCategory::Style, None, Some("color")));
    }
    for i in 0..3 {
        issues.push(make_issue(&format!("b{}", i), IssueType::MissingText, IssueCategory::Content, Some("nav"), None));
    }
    let clusters = cluster_issues(&issues, 2, &[]);
    assert_eq!(clusters.len(), 2);
    assert_eq!(clusters[0].issue_ids.len(), 3);
    assert_eq!(clusters[0].shared_landmark.as_deref(), Some("nav"));
    assert_eq!(clusters[0].summary.as_deref(), Some("3 missing_text issues in nav"));
    assert_eq!(clusters[1].issue_ids.len(), 2);
}

#[test]
fn style_property_only_for_style_category() {
    let style = make_issue("x", IssueType::StyleChanged, IssueCategory::Style, None, Some("color"));
    assert_eq!(style_property(&style).as_deref(), Some("color"));
    let empty = make_issue("x", IssueType::StyleChanged, IssueCategory::Style, None, Some(""));
    assert_eq!(style_property(&empty), None);
    let visual = make_issue("x", IssueType::StyleChanged, IssueCategory::Visual, None, Some("color"));
    assert_eq!(style_property(&visual), None);
}

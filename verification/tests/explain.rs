use matchy_core::contract::{NodeAnchors, SemanticNode};
use matchy_core::explain::{
    build_hit_test_section, diff_prop_rows, explain, find_node, format_report, node_matches,
    parse_pseudo_selector, resolve_side, CaptureView, Locator, PseudoSlot, PseudoSlots, ResolutionStatus,
    StyleMap,
};
use matchy_core::hit_test_diff::{HitTestEntry, HitTestOutcome, HitTestPoint, HitTestStatus};
use matchy_core::keyed::KeyedMap;

#[test]
fn test_anchor_key_validation() {
    assert!(Locator::parse_anchor("text=foo").is_ok());
    assert!(Locator::parse_anchor("role=button").is_ok());
    assert!(Locator::parse_anchor("href=/about").is_ok());
    assert!(Locator::parse_anchor("nearestHeading=Hero").is_ok());
    assert!(Locator::parse_anchor("badkey=foo").is_err());
    assert!(Locator::parse_anchor("no-equals").is_err());
}

#[test]
fn test_parse_pseudo_selector() {
    assert_eq!(
        parse_pseudo_selector("#hr-corner::before"),
        Some(("#hr-corner".to_string(), PseudoSlot::Before))
    );
    assert_eq!(
        parse_pseudo_selector("#hr-corner::after"),
        Some(("#hr-corner".to_string(), PseudoSlot::After))
    );
    assert_eq!(parse_pseudo_selector("#hr-corner"), None);
}

#[test]
fn parse_anchor_messages_and_split_at_first_equals() {
    match Locator::parse_anchor("text=a=b").unwrap() {
        Locator::Anchor { key, value } => {
            assert_eq!(key, "text");
            assert_eq!(value, "a=b");
        }
        _ => panic!("anchor expected"),
    }
    assert_eq!(
        Locator::parse_anchor("no-equals").unwrap_err(),
        "invalid --anchor syntax 'no-equals': expected key=value"
    );
    assert_eq!(
        Locator::parse_anchor("badkey=foo").unwrap_err(),
        "unknown anchor key 'badkey': expected text, role, href, or nearestHeading"
    );
}

fn make_node(
    id: &str,
    text: Option<&str>,
    css_selector: Option<&str>,
    bbox: [i32; 4],
    seq_index: u32,
) -> SemanticNode {
    SemanticNode {
        id: id.to_string(),
        kind: "button".to_string(),
        text: text.map(str::to_string),
        bbox,
        seq_index,
        anchors: NodeAnchors {
            text: text.map(str::to_string),
            nearest_heading: Some("Hero".to_string()),
            ..NodeAnchors::default()
        },
        css_selector: css_selector.map(str::to_string),
        ..SemanticNode::default()
    }
}

fn styles(pairs: &[(&str, &str)]) -> StyleMap {
    let mut m = StyleMap::new();
    for (k, v) in pairs {
        m.insert(k.to_string(), v.to_string());
    }
    m
}

fn view(nodes: Vec<SemanticNode>, per_node: Vec<(&str, StyleMap)>) -> CaptureView {
    let mut computed = KeyedMap::new();
    for (id, m) in per_node {
        computed.insert(id.to_string(), m);
    }
    CaptureView {
        nodes,
        computed_styles: computed,
        hit_tests: None,
        pseudo_elements: None,
    }
}

#[test]
fn explain_anchor_text_diff_only() {
    let old = view(
        vec![
            make_node("node_other", Some("Sign in"), None, [0, 0, 100, 40], 0),
            make_node("node_cta_old", Some("Get started"), Some(".hero .cta"), [100, 200, 150, 50], 3),
        ],
        vec![(
            "node_cta_old",
            styles(&[
                ("background-image", "linear-gradient(90deg, #0070f3, #00c6ff)"),
                ("color", "#ffffff"),
            ]),
        )],
    );
    let new = view(
        vec![make_node("node_cta_new", Some("Get started"), Some(".hero .cta"), [100, 200, 150, 50], 3)],
        vec![("node_cta_new", styles(&[("background-image", "none"), ("color", "#ffffff")]))],
    );
    let loc = Locator::parse_anchor("text=Get started").unwrap();
    let report = explain(&old, &new, &loc, None);
    assert_eq!(report.old.status, ResolutionStatus::Resolved);
    assert_eq!(report.new.node_id.as_deref(), Some("node_cta_new"));
    assert_eq!(report.rows.len(), 1);
    assert_eq!(report.rows[0].property, "background-image");
    assert!(report.rows[0].changed);
    assert_eq!(report.rows[0].new_value, "none");
    assert!(report.asymmetry_message.is_none());
    assert!(report.hit_test.is_none());

    let text = format_report(&report, "text=Get started");
    assert!(text.starts_with("matchy explain — locator: text=Get started\n\nold: resolved  node=node_cta_old\n"));
    assert!(text.contains("background-image  linear-gradient(90deg, #0070f3, #00c6ff)  none  CHANGED\n"));
}

#[test]
fn explain_asymmetry_and_explicit_props() {
    let old = view(vec![make_node("a", Some("Buy"), None, [1, -2, 3, 4], 0)], vec![]);
    let new = view(vec![], vec![]);
    let loc = Locator::NodeId("a".to_string());
    let props = vec!["bbox.y".to_string(), "color".to_string(), "bbox.x".to_string()];
    let report = explain(&old, &new, &loc, Some(&props));
    assert_eq!(
        report.asymmetry_message.as_deref(),
        Some("node present in OLD only (id: a) — element may have been removed in new")
    );
    let names: Vec<&str> = report.rows.iter().map(|r| r.property.as_str()).collect();
    assert_eq!(names, vec!["bbox.x", "bbox.y", "color"]);
    assert_eq!(report.rows[1].old_value, "-2");
    assert_eq!(report.rows[1].new_value, "<absent>");
    assert!(!report.rows[2].changed);
    let text = format_report(&report, "a");
    assert!(text.contains("new: NOT FOUND\n"));
    assert!(text.contains("\nNOTE: node present in OLD only"));
}

#[test]
fn find_node_tie_break_by_seq_index_then_id() {
    let nodes = vec![
        make_node("node_b", Some("Get started"), None, [0, 300, 100, 40], 5),
        make_node("node_a", Some("Get started"), None, [0, 100, 100, 40], 2),
        make_node("node_0", Some("Get started"), None, [0, 100, 100, 40], 2),
    ];
    let loc = Locator::parse_anchor("text=Get started").unwrap();
    assert_eq!(find_node(&nodes, &loc).unwrap().id, "node_0");
    let sel = Locator::Selector(".cta".to_string());
    assert!(find_node(&nodes, &sel).is_none());
    let n = make_node("x", None, Some(".hero .cta"), [0, 0, 1, 1], 0);
    assert!(node_matches(&n, &sel));
    assert!(node_matches(&n, &Locator::parse_anchor("nearestHeading=He").unwrap()));
}

#[test]
fn diff_rows_union_of_keys_and_extra() {
    let old = styles(&[("a", "1"), ("b", "2")]);
    let new = styles(&[("b", "2"), ("c", "3")]);
    let rows = diff_prop_rows(&old, &new, &["z"], None);
    let names: Vec<&str> = rows.iter().map(|r| r.property.as_str()).collect();
    assert_eq!(names, vec!["a", "c"]);
    assert_eq!(rows[0].new_value, "<absent>");
}

fn pt(o: HitTestOutcome, w: Option<&str>) -> HitTestPoint {
    HitTestPoint { o, winner: w.map(str::to_string) }
}

#[test]
fn hit_test_section_joint_and_single_sided() {
    let old_entry = HitTestEntry {
        status: HitTestStatus::Sampled,
        skip_reason: None,
        grid_size: Some(2),
        points: Some(vec![
            pt(HitTestOutcome::Hit, None),
            pt(HitTestOutcome::Hit, None),
            pt(HitTestOutcome::Hit, None),
        ]),
    };
    let new_entry = HitTestEntry {
        status: HitTestStatus::Sampled,
        skip_reason: None,
        grid_size: Some(2),
        points: Some(vec![
            pt(HitTestOutcome::Miss, Some(".ov")),
            pt(HitTestOutcome::Hit, None),
            pt(HitTestOutcome::Clipped, None),
        ]),
    };
    let joint = build_hit_test_section(Some(&old_entry), Some(&new_entry)).unwrap();
    let o = joint.old.unwrap();
    let n = joint.new.unwrap();
    assert_eq!(o.fraction, "1.0000");
    assert_eq!(o.raw_hits, "2/2");
    assert_eq!(n.fraction, "0.5000");
    assert_eq!(n.raw_hits, "1/2");
    assert_eq!(n.miss_winners, ".ov (x1)");

    let single = build_hit_test_section(None, Some(&new_entry)).unwrap();
    assert!(single.old.is_none());
    assert_eq!(single.new.unwrap().raw_hits, "1/2");
    assert!(build_hit_test_section(None, None).is_none());

    let two_thirds = HitTestEntry {
        status: HitTestStatus::Sampled,
        skip_reason: None,
        grid_size: None,
        points: Some(vec![
            pt(HitTestOutcome::Hit, None),
            pt(HitTestOutcome::Hit, None),
            pt(HitTestOutcome::Miss, None),
        ]),
    };
    let s = build_hit_test_section(Some(&two_thirds), None).unwrap();
    assert_eq!(s.old.unwrap().fraction, "0.6667");
    let _ = PseudoSlots { before: true, after: false };
}

// ---------------------------------------------------------------------------
// Scenarios over two captures with a CTA whose background changed.
// ---------------------------------------------------------------------------

fn make_cta_views() -> (CaptureView, CaptureView) {
    let cta_old = make_node("node_cta_old", Some("Get started"), Some(".hero .cta"), [100, 200, 150, 50], 3);
    let cta_new = make_node("node_cta_new", Some("Get started"), Some(".hero .cta"), [100, 200, 150, 50], 3);
    let other_old = SemanticNode {
        anchors: NodeAnchors { text: Some("Sign in".to_string()), ..NodeAnchors::default() },
        ..make_node("node_other", Some("Sign in"), None, [0, 0, 100, 40], 0)
    };
    let old = view(
        vec![other_old, cta_old],
        vec![(
            "node_cta_old",
            styles(&[
                ("background-image", "linear-gradient(90deg, #0070f3, #00c6ff)"),
                ("color", "#ffffff"),
                ("font-family", "Inter, sans-serif"),
            ]),
        )],
    );
    let new = view(
        vec![cta_new],
        vec![(
            "node_cta_new",
            styles(&[("background-image", "none"), ("color", "#ffffff"), ("font-family", "Inter, sans-serif")]),
        )],
    );
    (old, new)
}

#[test]
fn test_anchor_text_diff_only() {
    let (old_v, new_v) = make_cta_views();
    let locator = Locator::parse_anchor("text=Get started").unwrap();
    let report = explain(&old_v, &new_v, &locator, None);

    assert_eq!(report.old.status, ResolutionStatus::Resolved);
    assert_eq!(report.new.status, ResolutionStatus::Resolved);
    assert_eq!(report.old.node_id.as_deref(), Some("node_cta_old"));
    assert_eq!(report.new.node_id.as_deref(), Some("node_cta_new"));

    let bg_row = report
        .rows
        .iter()
        .find(|r| r.property == "background-image")
        .expect("background-image must be in rows");
    assert!(bg_row.changed, "background-image must be marked changed");
    assert!(bg_row.old_value.contains("gradient"), "old background-image must contain gradient");
    assert_eq!(bg_row.new_value, "none");

    let unchanged_props: Vec<&str> = report.rows.iter().filter(|r| !r.changed).map(|r| r.property.as_str()).collect();
    assert!(!unchanged_props.contains(&"color"), "color must not appear in diff-only output");
    assert!(!unchanged_props.contains(&"font-family"), "font-family must not appear in diff-only output");
    for row in &report.rows {
        assert!(row.changed, "diff-only must only include changed rows, got unchanged: {}", row.property);
    }
}

#[test]
fn test_explicit_props_shows_unchanged() {
    let (old_v, new_v) = make_cta_views();
    let locator = Locator::parse_anchor("text=Get started").unwrap();
    let props = vec!["color".to_string(), "font-family".to_string()];
    let report = explain(&old_v, &new_v, &locator, Some(props.as_slice()));

    assert_eq!(report.old.status, ResolutionStatus::Resolved);
    assert_eq!(report.new.status, ResolutionStatus::Resolved);
    assert_eq!(report.rows.len(), 2, "must have exactly 2 rows for explicit props");
    let prop_names: Vec<&str> = report.rows.iter().map(|r| r.property.as_str()).collect();
    assert!(prop_names.contains(&"color"), "color must be present");
    assert!(prop_names.contains(&"font-family"), "font-family must be present");
    assert!(!prop_names.contains(&"background-image"), "background-image must not appear when not in --props");
    for row in &report.rows {
        assert!(!row.changed, "color/font-family must not be changed; got changed=true for {}", row.property);
    }
}

#[test]
fn test_node_id_resolves_cta() {
    let (old_v, new_v) = make_cta_views();
    let locator = Locator::NodeId("node_cta_old".to_string());
    let report = explain(&old_v, &new_v, &locator, None);
    assert_eq!(report.old.status, ResolutionStatus::Resolved);
    assert_eq!(report.old.node_id.as_deref(), Some("node_cta_old"));
    assert_eq!(report.new.status, ResolutionStatus::NotFound);
}

#[test]
fn test_selector_resolves_cta() {
    let (old_v, new_v) = make_cta_views();
    let locator = Locator::Selector(".hero .cta".to_string());
    let report = explain(&old_v, &new_v, &locator, None);
    assert_eq!(report.old.status, ResolutionStatus::Resolved);
    assert_eq!(report.new.status, ResolutionStatus::Resolved);
    assert_eq!(report.old.node_id.as_deref(), Some("node_cta_old"));
    assert_eq!(report.new.node_id.as_deref(), Some("node_cta_new"));
}

#[test]
fn test_one_side_only_no_panic() {
    let (old_v, new_v) = make_cta_views();
    let locator = Locator::NodeId("node_cta_new".to_string());
    let report = explain(&old_v, &new_v, &locator, None);
    assert_eq!(report.old.status, ResolutionStatus::NotFound);
    assert_eq!(report.new.status, ResolutionStatus::Resolved);
    assert_eq!(report.new.node_id.as_deref(), Some("node_cta_new"));
    assert!(report.asymmetry_message.is_some());
    let msg = report.asymmetry_message.as_deref().unwrap();
    assert!(msg.contains("NEW only"), "asymmetry message must mention NEW only");
}

#[test]
fn test_not_found_on_both_sides() {
    let (old_v, new_v) = make_cta_views();
    let locator = Locator::parse_anchor("text=DOES_NOT_EXIST_ANYWHERE").unwrap();
    let report = explain(&old_v, &new_v, &locator, None);
    assert_eq!(report.old.status, ResolutionStatus::NotFound);
    assert_eq!(report.new.status, ResolutionStatus::NotFound);
    assert!(report.asymmetry_message.is_none());
    assert!(report.rows.is_empty());
}

#[test]
fn test_tie_break_determinism() {
    let node_a = make_node("node_b", Some("Get started"), None, [0, 300, 100, 40], 5);
    let node_b = make_node("node_a", Some("Get started"), None, [0, 100, 100, 40], 2);
    let v = view(vec![node_a, node_b], vec![]);
    let locator = Locator::parse_anchor("text=Get started").unwrap();
    let side = resolve_side(&v, &locator);
    assert_eq!(side.status, ResolutionStatus::Resolved);
    assert_eq!(side.node_id.as_deref(), Some("node_a"));
}

#[test]
fn test_format_report_deterministic() {
    let (old_v, new_v) = make_cta_views();
    let locator = Locator::parse_anchor("text=Get started").unwrap();
    let report = explain(&old_v, &new_v, &locator, None);
    let out1 = format_report(&report, "text=Get started");
    let out2 = format_report(&report, "text=Get started");
    assert_eq!(out1, out2, "format_report must be byte-deterministic");
    assert!(out1.contains("property"), "must contain 'property' header");
    assert!(out1.contains("old"), "must contain 'old' header");
    assert!(out1.contains("new"), "must contain 'new' header");
    assert!(out1.contains("changed?"), "must contain 'changed?' header");
    assert!(out1.contains("CHANGED"), "must mark changed rows");
    assert!(out1.contains("background-image"), "must show background-image");
}

fn sampled(points: Vec<HitTestPoint>) -> HitTestEntry {
    HitTestEntry { status: HitTestStatus::Sampled, skip_reason: None, grid_size: Some(5), points: Some(points) }
}

fn with_hit_tests(mut v: CaptureView, entries: Vec<(&str, HitTestEntry)>) -> CaptureView {
    let mut m = KeyedMap::new();
    for (k, e) in entries {
        m.insert(k.to_string(), e);
    }
    v.hit_tests = Some(m);
    v
}

#[test]
fn test_hit_test_section_joint_view_both_sides() {
    let node_old = make_node("n_cta", Some("Get started"), None, [0, 0, 100, 40], 0);
    let node_new = make_node("n_cta", Some("Get started"), None, [0, 0, 100, 40], 0);
    let old_points: Vec<HitTestPoint> = (0..25).map(|_| pt(HitTestOutcome::Hit, None)).collect();
    let mut new_points: Vec<HitTestPoint> = (0..3).map(|_| pt(HitTestOutcome::Hit, None)).collect();
    new_points.extend((0..22).map(|_| pt(HitTestOutcome::Miss, Some("img.overlay"))));

    let old_v = with_hit_tests(view(vec![node_old], vec![]), vec![("n_cta", sampled(old_points))]);
    let new_v = with_hit_tests(view(vec![node_new], vec![]), vec![("n_cta", sampled(new_points))]);

    let locator = Locator::parse_anchor("text=Get started").unwrap();
    let report = explain(&old_v, &new_v, &locator, None);

    let ht = report.hit_test.clone().expect("hit_test section must be present");
    let old_view = ht.old.expect("old side present");
    let new_view = ht.new.expect("new side present");
    assert_eq!(old_view.fraction, "1.0000");
    assert_eq!(old_view.raw_hits, "25/25");
    assert_eq!(new_view.fraction, "0.1200");
    assert_eq!(new_view.raw_hits, "3/25");
    assert_eq!(new_view.miss_winners, "img.overlay (x22)");

    let out = format_report(&report, "text=Get started");
    assert!(out.contains("hit-test (clickable-area):"));
    assert!(out.contains("fraction=1.0000"));
    assert!(out.contains("fraction=0.1200"));
    assert!(out.contains("img.overlay (x22)"));
}

#[test]
fn test_hit_test_section_one_side_absent() {
    let node_old = make_node("n_cta", Some("Get started"), None, [0, 0, 100, 40], 0);
    let node_new = make_node("n_cta_new", Some("Get started"), None, [0, 0, 100, 40], 0);
    let old_points: Vec<HitTestPoint> = (0..25).map(|_| pt(HitTestOutcome::Hit, None)).collect();
    let old_v = with_hit_tests(view(vec![node_old], vec![]), vec![("n_cta", sampled(old_points))]);
    let new_v = view(vec![node_new], vec![]);

    let locator = Locator::parse_anchor("text=Get started").unwrap();
    let report = explain(&old_v, &new_v, &locator, None);

    let ht = report.hit_test.clone().expect("hit_test section must be present");
    assert!(ht.old.is_some());
    assert!(ht.new.is_none());
    assert_eq!(ht.old.unwrap().raw_hits, "25/25");

    let out = format_report(&report, "text=Get started");
    assert!(out.contains("new: <absent>"));
}

#[test]
fn test_hit_test_section_absent_on_both_no_section() {
    let (old_v, new_v) = make_cta_views();
    let locator = Locator::parse_anchor("text=Get started").unwrap();
    let report = explain(&old_v, &new_v, &locator, None);
    assert!(report.hit_test.is_none());
    let out = format_report(&report, "text=Get started");
    assert!(!out.contains("hit-test (clickable-area):"));
}

#[test]
fn test_node_locator_appends_owned_pseudo_note() {
    let node_old = make_node("n_cta", Some("Get started"), None, [0, 0, 100, 40], 0);
    let node_new = make_node("n_cta", Some("Get started"), None, [0, 0, 100, 40], 0);
    let mut pseudo = KeyedMap::new();
    pseudo.insert("n_cta".to_string(), PseudoSlots { before: true, after: true });
    let mut old_v = view(vec![node_old], vec![]);
    old_v.pseudo_elements = Some(pseudo);
    let new_v = view(vec![node_new], vec![]);

    let locator = Locator::parse_anchor("text=Get started").unwrap();
    let report = explain(&old_v, &new_v, &locator, None);
    assert_eq!(report.old.owned_pseudo_slots, vec!["::before".to_string(), "::after".to_string()]);
    assert!(report.new.owned_pseudo_slots.is_empty());

    let out = format_report(&report, "text=Get started");
    assert!(out.contains("pseudo-elements: ::before, ::after"));
    assert!(!out.contains("background-color"));
}

#[test]
fn selector_prefers_exact_match_over_substring() {
    let n1 = SemanticNode {
        id: "n1".to_string(),
        css_selector: Some(".hero .cta-wrap".to_string()),
        seq_index: 0,
        ..SemanticNode::default()
    };
    let n2 = SemanticNode {
        id: "n2".to_string(),
        css_selector: Some(".cta".to_string()),
        seq_index: 5,
        ..SemanticNode::default()
    };
    let nodes = vec![n1, n2];
    let loc = Locator::Selector(".cta".to_string());
    assert_eq!(find_node(&nodes, &loc).map(|n| n.id.as_str()), Some("n2"));
    let loc = Locator::Selector("cta-w".to_string());
    assert_eq!(find_node(&nodes, &loc).map(|n| n.id.as_str()), Some("n1"));
}

use matchy_core::clickable::clickable_regressions;
use matchy_core::contract::SemanticNode;
use matchy_core::hit_test_diff::{HitTestEntry, HitTestStatus};
use matchy_core::keyed::KeyedMap;
use matchy_core::contract::Anchors;
use matchy_core::drafts::JsonLeaf;
use matchy_core::hit_test_diff::clickable_remediation;
use matchy_core::contract::StepStatus;
use matchy_core::hit_test_diff::{
    format_miss_winners, is_clickable_regression, settle_penalty_applies, tally_points,
    top_miss_winner, HitTally, HitTestOutcome, HitTestPoint, QuiescenceStatus, SelectorCounts,
    SettleSignals,
};

fn pt(o: HitTestOutcome, winner: Option<&str>) -> HitTestPoint {
    HitTestPoint {
        o,
        winner: winner.map(str::to_string),
    }
}

/// `n` points, all `Hit`.
fn all_hit(n: usize) -> Vec<HitTestPoint> {
    (0..n).map(|_| pt(HitTestOutcome::Hit, None)).collect()
}

#[test]
fn test_format_miss_winners_count_desc_then_selector_asc() {
    let mut winners = SelectorCounts::new();
    winners.insert("b_sel".to_string(), 5);
    winners.insert("a_sel".to_string(), 5);
    winners.insert("c_sel".to_string(), 1);
    assert_eq!(
        format_miss_winners(&winners),
        "a_sel (x5); b_sel (x5); c_sel (x1)"
    );
}

#[test]
fn test_format_miss_winners_truncates_to_top_3() {
    let mut winners = SelectorCounts::new();
    winners.insert("img.sibling-photo".to_string(), 10);
    winners.insert(".overlay-banner".to_string(), 8);
    winners.insert(".nav-fixed".to_string(), 3);
    winners.insert(".footer-block".to_string(), 1);
    assert_eq!(
        format_miss_winners(&winners),
        "img.sibling-photo (x10); .overlay-banner (x8); .nav-fixed (x3)"
    );
}

#[test]
fn test_top_miss_winner_picks_highest_count() {
    let mut winners = SelectorCounts::new();
    winners.insert("low".to_string(), 1);
    winners.insert("high".to_string(), 9);
    assert_eq!(top_miss_winner(&winners), Some("high".to_string()));
}

#[test]
fn test_format_miss_winners_empty() {
    let winners = SelectorCounts::new();
    assert_eq!(format_miss_winners(&winners), "");
    assert_eq!(top_miss_winner(&winners), None);
}

#[test]
fn test_tally_both_sides_identical_occlusion_no_delta() {
    let mut old_points = all_hit(25);
    let mut new_points = all_hit(25);
    for i in 12..25 {
        old_points[i] = pt(HitTestOutcome::Miss, Some(".decor"));
        new_points[i] = pt(HitTestOutcome::Miss, Some(".decor"));
    }
    let tally = tally_points(&old_points, &new_points).expect("comparable");
    assert_eq!(tally.excluded, 0);
    assert_eq!(tally.denominator, 12);
    assert_eq!(tally.hits_old, 12);
    assert_eq!(tally.hits_new, 12);
}

#[test]
fn test_tally_pill_corners_clipped_both_sides() {
    let mut old_points = all_hit(25);
    let mut new_points = all_hit(25);
    for i in [0usize, 4, 20, 24] {
        old_points[i] = pt(HitTestOutcome::Clipped, None);
        new_points[i] = pt(HitTestOutcome::Clipped, None);
    }
    let tally = tally_points(&old_points, &new_points).expect("comparable");
    assert_eq!(tally.excluded, 4);
    assert_eq!(tally.denominator, 21);
    assert_eq!(tally.hits_old, 21);
    assert_eq!(tally.hits_new, 21);
}

#[test]
fn test_tally_pill_new_drops_to_10_of_21() {
    let mut old_points = all_hit(25);
    let mut new_points = all_hit(25);
    for i in [0usize, 4, 20, 24] {
        old_points[i] = pt(HitTestOutcome::Clipped, None);
        new_points[i] = pt(HitTestOutcome::Clipped, None);
    }
    // Of the 21 surviving indices, miss 11 of them on the new side.
    let mut missed = 0;
    for i in 0..25 {
        if [0usize, 4, 20, 24].contains(&i) {
            continue;
        }
        if missed < 11 {
            new_points[i] = pt(HitTestOutcome::Miss, Some("div.overlay"));
            missed += 1;
        }
    }
    let tally = tally_points(&old_points, &new_points).expect("comparable");
    assert_eq!(tally.excluded, 4);
    assert_eq!(tally.denominator, 21);
    assert_eq!(tally.hits_old, 21);
    assert_eq!(tally.hits_new, 10);
}

#[test]
fn test_tally_smaller_rounder_port_new_clipped_corners() {
    let old_points = all_hit(25);
    let mut new_points = all_hit(25);
    for i in [0usize, 4, 20, 24] {
        new_points[i] = pt(HitTestOutcome::Clipped, None);
    }
    let tally = tally_points(&old_points, &new_points).expect("comparable");
    assert_eq!(tally.excluded, 4);
    assert_eq!(tally.denominator, 21);
    assert_eq!(tally.hits_old, 21);
    assert_eq!(tally.hits_new, 21);
}

#[test]
fn test_tally_asymmetric_offviewport_excludes_regardless_of_new_outcome() {
    let mut old_points = all_hit(25);
    let mut new_points = all_hit(25);
    for i in 20..25 {
        old_points[i] = pt(HitTestOutcome::OffViewport, None);
        new_points[i] = pt(HitTestOutcome::Miss, Some("div.decoy"));
    }
    let tally = tally_points(&old_points, &new_points).expect("comparable");
    assert_eq!(tally.excluded, 5);
    assert_eq!(tally.denominator, 20);
    assert_eq!(tally.hits_old, 20);
    assert_eq!(tally.hits_new, 20);
    assert!(
        tally.new_miss_winners.is_empty(),
        "excluded indices must never contribute to new_miss_winners"
    );
}

#[test]
fn tally_rejects_empty_or_mismatched_arrays() {
    assert!(tally_points(&[], &[]).is_none());
    assert!(tally_points(&all_hit(3), &all_hit(4)).is_none());
}

#[test]
fn tally_counts_miss_winners_per_side() {
    let mut old_points = all_hit(6);
    let mut new_points = all_hit(6);
    new_points[0] = pt(HitTestOutcome::Miss, Some(".a"));
    new_points[1] = pt(HitTestOutcome::Miss, Some(".a"));
    new_points[2] = pt(HitTestOutcome::Miss, Some(".b"));
    new_points[3] = pt(HitTestOutcome::Miss, None);
    old_points[4] = pt(HitTestOutcome::Miss, Some(".c"));
    let tally = tally_points(&old_points, &new_points).unwrap();
    assert_eq!(tally.denominator, 6);
    assert_eq!(tally.hits_old, 5);
    assert_eq!(tally.hits_new, 2);
    assert_eq!(tally.new_miss_winners.get(".a"), Some(&2));
    assert_eq!(tally.new_miss_winners.get(".b"), Some(&1));
    assert_eq!(tally.new_miss_winners.len(), 2);
    assert_eq!(tally.old_miss_winners.get(".c"), Some(&1));
    assert_eq!(format_miss_winners(&tally.new_miss_winners), ".a (x2); .b (x1)");
    assert_eq!(top_miss_winner(&tally.new_miss_winners), Some(".a".to_string()));
}

#[test]
fn top_winner_is_first_listed_winner() {
    let mut winners = SelectorCounts::new();
    winners.insert("z".to_string(), 4);
    winners.insert("y".to_string(), 4);
    winners.insert("x".to_string(), 2);
    winners.insert("y".to_string(), 7);
    assert_eq!(winners.get("y"), Some(&7));
    let listing = format_miss_winners(&winners);
    let top = top_miss_winner(&winners).unwrap();
    assert!(listing.starts_with(&format!("{} (x", top)));
    assert_eq!(listing, "y (x7); z (x4); x (x2)");
}

fn tally(denominator: u32, hits_old: u32, hits_new: u32) -> HitTally {
    HitTally {
        excluded: 0,
        denominator,
        hits_old,
        hits_new,
        old_miss_winners: SelectorCounts::new(),
        new_miss_winners: SelectorCounts::new(),
    }
}

#[test]
fn clickable_regression_thresholds() {
    // 21/21 -> 10/21 fires.
    assert!(is_clickable_regression(&tally(21, 21, 10)));
    // A drop of exactly 0.1 is the minimum drop and fires.
    assert!(is_clickable_regression(&tally(10, 10, 9)));
    assert!(is_clickable_regression(&tally(40, 37, 33)));
    // A drop just under 0.1 does not.
    assert!(!is_clickable_regression(&tally(41, 41, 37)));
    assert!(is_clickable_regression(&tally(10, 9, 7)));
    // Old fraction below 0.9.
    assert!(!is_clickable_regression(&tally(20, 17, 0)));
    // Too few surviving points.
    assert!(!is_clickable_regression(&tally(8, 8, 0)));
    // New better than old.
    assert!(!is_clickable_regression(&tally(10, 10, 10)));
}

#[test]
fn settle_penalty_rules() {
    let clean = SettleSignals { settle: Some(StepStatus::Ran), quiescence: Some(QuiescenceStatus::Reached) };
    let absent = SettleSignals { settle: None, quiescence: None };
    let timeout = SettleSignals { settle: Some(StepStatus::Ran), quiescence: Some(QuiescenceStatus::Timeout) };
    let skipped = SettleSignals { settle: Some(StepStatus::Skipped), quiescence: None };
    assert!(!settle_penalty_applies(&clean, &absent));
    assert!(!settle_penalty_applies(&absent, &absent));
    assert!(settle_penalty_applies(&clean, &timeout));
    assert!(settle_penalty_applies(&skipped, &clean));
}

#[test]
fn clickable_remediation_grep_targets_and_note() {
    let text_of = |fs: &[matchy_core::drafts::JsonField], p: &str| -> Option<String> {
        fs.iter().find(|f| f.path == p).and_then(|f| match &f.value {
            JsonLeaf::Text(t) => Some(t.clone()),
            _ => None,
        })
    };
    let a = Anchors {
        href: Some("/signup".to_string()),
        text: Some("Sign up".to_string()),
        nearest_heading: Some("Pricing".to_string()),
        ..Default::default()
    };
    let rm = clickable_remediation(&a, &Some("div.overlay".to_string()));
    assert_eq!(text_of(&rm, "action").as_deref(), Some("restore_clickable_area"));
    assert_eq!(text_of(&rm, "findBy.grep.0").as_deref(), Some("\"/signup\""));
    assert_eq!(text_of(&rm, "findBy.grep.1").as_deref(), Some("Sign up"));
    assert_eq!(text_of(&rm, "findBy.grep.2").as_deref(), Some("div.overlay"));
    assert_eq!(text_of(&rm, "findBy.near").as_deref(), Some("Pricing"));
    assert!(text_of(&rm, "note").unwrap().starts_with("The element matching \"div.overlay\" overlaps"));
    // Without href or text the nearest heading is the grep target.
    let b = Anchors { nearest_heading: Some("Pricing".to_string()), ..Default::default() };
    let rm2 = clickable_remediation(&b, &None);
    assert_eq!(text_of(&rm2, "findBy.grep.0").as_deref(), Some("Pricing"));
    assert!(text_of(&rm2, "findBy.grep.1").is_none());
    assert!(text_of(&rm2, "note").unwrap().starts_with("An overlapping element"));
    let c = Anchors::default();
    let rm3 = clickable_remediation(&c, &None);
    assert!(matches!(rm3.iter().find(|f| f.path == "findBy.near").map(|f| &f.value), Some(JsonLeaf::Null)));
}

#[test]
fn clickable_regressions_selects_firing_pairs_in_old_node_order() {
    let node = |id: &str, seq: u32| SemanticNode { id: id.to_string(), seq_index: seq, ..Default::default() };
    let entry = |pts: Vec<HitTestPoint>| HitTestEntry {
        status: HitTestStatus::Sampled,
        skip_reason: None,
        grid_size: Some(3),
        points: Some(pts),
    };
    let hits = |n: usize| (0..n).map(|_| pt(HitTestOutcome::Hit, None)).collect::<Vec<_>>();
    let mostly_miss = || {
        (0..10)
            .map(|k| if k < 3 { pt(HitTestOutcome::Hit, None) } else { pt(HitTestOutcome::Miss, Some("div.overlay")) })
            .collect::<Vec<_>>()
    };
    let old_nodes = vec![node("a", 5), node("b", 1), node("c", 2)];
    let new_nodes = vec![node("A", 0), node("B", 0), node("C", 0)];
    let mut old_hits = KeyedMap::new();
    old_hits.insert("a".to_string(), entry(hits(10)));
    old_hits.insert("b".to_string(), entry(hits(10)));
    old_hits.insert("c".to_string(), entry(hits(10)));
    let mut new_hits = KeyedMap::new();
    new_hits.insert("A".to_string(), entry(mostly_miss()));
    new_hits.insert("B".to_string(), entry(mostly_miss()));
    new_hits.insert("C".to_string(), entry(hits(10)));
    let pairs = vec![(0usize, 0usize), (1, 1), (2, 2)];
    let r = clickable_regressions(&old_nodes, &new_nodes, &pairs, &old_hits, &new_hits);
    assert_eq!(r.len(), 2);
    // Ordered by old node sequence index: "b" (1) before "a" (5).
    assert_eq!((r[0].old_idx, r[0].new_idx), (1, 1));
    assert_eq!((r[1].old_idx, r[1].new_idx), (0, 0));
    assert_eq!(r[0].tally.hits_old, 10);
    assert_eq!(r[0].tally.hits_new, 3);
    assert_eq!(r[0].tally.denominator, 10);
    // A pair without a sampled record on one side is skipped.
    let mut partial = KeyedMap::new();
    partial.insert("A".to_string(), HitTestEntry { status: HitTestStatus::Skipped, skip_reason: None, grid_size: None, points: None });
    assert!(clickable_regressions(&old_nodes, &new_nodes, &pairs[..1], &old_hits, &partial).is_empty());
}

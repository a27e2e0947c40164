use matchy_core::contract::{CaptureDeterminism, StepStatus};

fn det(a: StepStatus, b: StepStatus, clicked: &[&str], retried: bool) -> CaptureDeterminism {
    CaptureDeterminism {
        animations_disabled: a,
        reduced_motion: b,
        time_frozen: StepStatus::Ran,
        random_stubbed: StepStatus::Ran,
        fonts_ready: StepStatus::Ran,
        images_decoded: StepStatus::Ran,
        lazy_load_pass: StepStatus::Ran,
        settled: StepStatus::Skipped,
        clicked: clicked.iter().map(|s| s.to_string()).collect(),
        hidden: vec![],
        masked: vec![],
        retried_without_time_freeze: retried,
        integrity: None,
    }
}

#[test]
fn merge_worst_is_symmetric_and_idempotent() {
    let a = det(StepStatus::Failed, StepStatus::Ran, &["#b", "#a"], false);
    let b = det(StepStatus::Skipped, StepStatus::Skipped, &["#c", "#a"], true);
    let ab = CaptureDeterminism::merge_worst(&a, &b);
    let ba = CaptureDeterminism::merge_worst(&b, &a);
    assert_eq!(ab.animations_disabled, StepStatus::Failed);
    assert_eq!(ab.reduced_motion, StepStatus::Skipped);
    assert_eq!(ab.animations_disabled, ba.animations_disabled);
    assert_eq!(ab.reduced_motion, ba.reduced_motion);
    assert_eq!(ab.clicked, vec!["#a", "#b", "#c"]);
    assert_eq!(ab.clicked, ba.clicked);
    assert_eq!(ab.retried_without_time_freeze, ba.retried_without_time_freeze);
    let aa = CaptureDeterminism::merge_worst(&b, &b);
    assert_eq!(aa.animations_disabled, b.animations_disabled);
    assert_eq!(aa.settled, b.settled);
    assert_eq!(aa.clicked, vec!["#a", "#c"]);
}

#[test]
fn merge_worst_is_associative() {
    let a = det(StepStatus::Ran, StepStatus::Skipped, &["#z"], false);
    let b = det(StepStatus::Skipped, StepStatus::Ran, &["#a", "#m"], false);
    let c = det(StepStatus::Failed, StepStatus::Ran, &["#m", "#b"], true);
    let left = CaptureDeterminism::merge_worst(&CaptureDeterminism::merge_worst(&a, &b), &c);
    let right = CaptureDeterminism::merge_worst(&a, &CaptureDeterminism::merge_worst(&b, &c));
    assert_eq!(left.animations_disabled, right.animations_disabled);
    assert_eq!(left.reduced_motion, right.reduced_motion);
    assert_eq!(left.settled, right.settled);
    assert_eq!(left.clicked, right.clicked);
    assert_eq!(left.clicked, vec!["#a", "#b", "#m", "#z"]);
    assert_eq!(left.retried_without_time_freeze, right.retried_without_time_freeze);
}

use matchy_core::config::{
    ImageDimensionsMode, TrailingSlashPolicy, BUILTIN_PROPERTY_SEVERITY, BUILTIN_TYPE_SEVERITY,
    DEFAULT_TRAILING_SLASH_POLICY, HARD_CRITICAL_TYPES, MIN_HIT_DENOMINATOR,
    STYLE_DIFF_PROPERTIES,
};
use matchy_core::contract::IssueSeverity;

#[test]
fn test_image_dims_mode_parse_roundtrip() {
    assert_eq!(
        ImageDimensionsMode::parse("strict"),
        Some(ImageDimensionsMode::Strict)
    );
    assert_eq!(
        ImageDimensionsMode::parse("responsive"),
        Some(ImageDimensionsMode::Responsive)
    );
    assert_eq!(
        ImageDimensionsMode::Strict.as_str(),
        "strict",
        "Strict.as_str() must be 'strict'"
    );
    assert_eq!(
        ImageDimensionsMode::Responsive.as_str(),
        "responsive",
        "Responsive.as_str() must be 'responsive'"
    );
}

#[test]
fn test_image_dims_mode_parse_bad_value() {
    assert_eq!(ImageDimensionsMode::parse("unknown"), None);
    assert_eq!(ImageDimensionsMode::parse(""), None);
    assert_eq!(ImageDimensionsMode::parse("Strict"), None);
}

#[test]
fn test_hard_critical_types_frozen_set() {
    assert_eq!(
        HARD_CRITICAL_TYPES,
        ["load_error", "status_code_mismatch", "missing_form"]
    );
}

#[test]
fn test_builtin_type_severity_frozen() {
    assert_eq!(BUILTIN_TYPE_SEVERITY.len(), 1);
    assert_eq!(BUILTIN_TYPE_SEVERITY[0].0, "clickable_area_regressed");
    assert_eq!(BUILTIN_TYPE_SEVERITY[0].1, IssueSeverity::Error);
}

#[test]
fn test_builtin_property_severity_frozen() {
    assert_eq!(BUILTIN_PROPERTY_SEVERITY.len(), 2);
    let map: std::collections::BTreeMap<&str, IssueSeverity> =
        BUILTIN_PROPERTY_SEVERITY.iter().cloned().collect();
    assert_eq!(map.get("letter-spacing"), Some(&IssueSeverity::Info));
    assert_eq!(map.get("line-height"), Some(&IssueSeverity::Info));
}

#[test]
fn image_dims_mode_every_mode_round_trips() {
    for m in [ImageDimensionsMode::Strict, ImageDimensionsMode::Responsive] {
        assert_eq!(ImageDimensionsMode::parse(m.as_str()), Some(m));
    }
}

#[test]
fn style_diff_properties_exclude_background_shorthand() {
    assert_eq!(STYLE_DIFF_PROPERTIES.len(), 32);
    assert!(!STYLE_DIFF_PROPERTIES.contains(&"background"));
    assert!(STYLE_DIFF_PROPERTIES.contains(&"background-color"));
    assert!(STYLE_DIFF_PROPERTIES.contains(&"pointer-events"));
}

#[test]
fn default_trailing_slash_policy_is_never() {
    assert_eq!(DEFAULT_TRAILING_SLASH_POLICY, TrailingSlashPolicy::Never);
    assert_eq!(MIN_HIT_DENOMINATOR, 9);
}

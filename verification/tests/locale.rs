use matchy_core::locale::{
    detect_locale_in_path, parse_locale_segment, split_path_segments, validate_locale, LocaleShape,
};

#[test]
fn test_es_mx_ok() {
    let (seg, v) = detect_locale_in_path("/es-MX/products").unwrap();
    assert_eq!(seg, "es-MX");
    assert!(!v.separator_invalid);
    assert!(!v.case_invalid);
    assert!(!v.unknown);
}

#[test]
fn test_es_mx_separator_only() {
    let (seg, v) = detect_locale_in_path("/es_MX/products").unwrap();
    assert_eq!(seg, "es_MX");
    assert!(v.separator_invalid, "should flag separator invalid");
    assert!(!v.case_invalid, "case is actually ok (es lower, MX upper)");
    assert!(!v.unknown, "es-MX is known");
}

#[test]
fn test_es_mx_case_only() {
    let (seg, v) = detect_locale_in_path("/es-mx/products").unwrap();
    assert_eq!(seg, "es-mx");
    assert!(!v.separator_invalid);
    assert!(v.case_invalid, "mx should be uppercase");
    assert!(!v.unknown, "es-MX is known after normalization");
}

#[test]
fn test_es_hyphen_mx_case_upper_lang() {
    // ES-mx — lang uppercase + region lowercase
    let (seg, v) = detect_locale_in_path("/ES-mx/products").unwrap();
    assert_eq!(seg, "ES-mx");
    assert!(!v.separator_invalid);
    assert!(
        v.case_invalid,
        "ES should be lowercase and mx should be uppercase"
    );
    assert!(!v.unknown);
}

#[test]
fn test_es_underscore_mx_case_uppercase_lang() {
    // ES_mx — separator + case
    let (seg, v) = detect_locale_in_path("/ES_mx/products").unwrap();
    assert_eq!(seg, "ES_mx");
    assert!(v.separator_invalid);
    assert!(v.case_invalid);
    assert!(!v.unknown);
}

#[test]
fn test_xx_mx_unknown() {
    let (seg, v) = detect_locale_in_path("/xx-MX/products").unwrap();
    assert_eq!(seg, "xx-MX");
    assert!(!v.separator_invalid);
    assert!(!v.case_invalid);
    assert!(v.unknown, "xx is not a known language");
}

#[test]
fn test_es_bare_ok() {
    // bare "es" — known, lowercase
    let (seg, v) = detect_locale_in_path("/es/products").unwrap();
    assert_eq!(seg, "es");
    assert!(!v.separator_invalid);
    assert!(!v.case_invalid);
    assert!(!v.unknown);
}

#[test]
fn test_api_not_detected() {
    assert!(detect_locale_in_path("/api/products").is_none());
}

#[test]
fn test_img_not_detected() {
    assert!(detect_locale_in_path("/img/logo.png").is_none());
}

#[test]
fn test_products_not_detected() {
    // "products" is > 3 letters, not a locale shape
    assert!(detect_locale_in_path("/products/connect").is_none());
}

#[test]
fn test_fil_ph_unknown() {
    // "fil" is 3-letter, only 639-1 embedded, so always locale_unknown
    let (seg, v) = detect_locale_in_path("/fil-PH/about").unwrap();
    assert_eq!(seg, "fil-PH");
    assert!(!v.separator_invalid);
    assert!(!v.case_invalid, "fil is lowercase, PH is uppercase");
    assert!(v.unknown, "fil is 3-letter, only 639-1 supported");
}

#[test]
fn test_second_segment_detection() {
    // /docs/es-MX/about — es-MX is the second segment
    let (seg, v) = detect_locale_in_path("/docs/es-MX/about").unwrap();
    assert_eq!(seg, "es-MX");
    assert!(!v.separator_invalid);
    assert!(!v.case_invalid);
    assert!(!v.unknown);
}

#[test]
fn test_digit_region_accepted() {
    // es-419 — 3-digit M49 region, accepted unvalidated
    let (seg, v) = detect_locale_in_path("/es-419/products").unwrap();
    assert_eq!(seg, "es-419");
    assert!(!v.separator_invalid);
    assert!(!v.case_invalid, "digits have no case");
    assert!(!v.unknown, "digit regions are accepted unvalidated");
}

#[test]
fn test_locale_data_iso_639_1_sorted_and_deduped() {
    // Assert via windows(2) comparison — do NOT print contents
    let arr = matchy_core::locale_data::ISO_639_1;
    for w in arr.windows(2) {
        assert!(
            w[0] < w[1],
            "ISO_639_1 must be sorted ascending and deduped: {:?} >= {:?}",
            w[0],
            w[1]
        );
    }
}

#[test]
fn test_locale_data_iso_3166_1_alpha2_sorted_and_deduped() {
    // Assert via windows(2) comparison — do NOT print contents
    let arr = matchy_core::locale_data::ISO_3166_1_ALPHA2;
    for w in arr.windows(2) {
        assert!(
            w[0] < w[1],
            "ISO_3166_1_ALPHA2 must be sorted ascending and deduped: {:?} >= {:?}",
            w[0],
            w[1]
        );
    }
}


#[test]
fn locale_corrected_segment_validates_clean() {
    for raw in ["ES_mx", "es-mx", "EN", "fr_419", "xx-mx"] {
        let shape = parse_locale_segment(raw).expect("locale shaped");
        let v = validate_locale(&shape, raw);
        let shape2 = parse_locale_segment(&v.corrected_segment).expect("corrected is locale shaped");
        let v2 = validate_locale(&shape2, &v.corrected_segment);
        assert!(!v2.separator_invalid);
        assert!(!v2.case_invalid);
        assert_eq!(v2.unknown, v.unknown);
        assert_eq!(v2.corrected_segment, v.corrected_segment);
    }
}

#[test]
fn locale_corrected_and_unknown_subtag_values() {
    let (_, v) = detect_locale_in_path("/ES_mx/x").unwrap();
    assert_eq!(v.corrected_segment, "es-MX");
    assert_eq!(v.raw_segment, "ES_mx");
    assert_eq!(v.unknown_subtag, None);
    let (_, v) = detect_locale_in_path("/xx-QQ/x").unwrap();
    assert!(v.unknown);
    assert_eq!(v.unknown_subtag.as_deref(), Some("xx"));
    let (_, v) = detect_locale_in_path("/en-QQ/x").unwrap();
    assert_eq!(v.unknown_subtag.as_deref(), Some("QQ"));
    let (_, v) = detect_locale_in_path("/EN/x").unwrap();
    assert!(v.case_invalid);
    assert_eq!(v.corrected_segment, "en");
}

#[test]
fn locale_shapes_parsed() {
    assert_eq!(
        parse_locale_segment("pt_BR"),
        Some(LocaleShape::Separated {
            language: "pt".to_string(),
            separator: '_',
            region: "BR".to_string()
        })
    );
    assert_eq!(
        parse_locale_segment("De"),
        Some(LocaleShape::Bare { language: "De".to_string() })
    );
    assert_eq!(parse_locale_segment("zz"), None);
    assert_eq!(parse_locale_segment("e-US"), None);
    assert_eq!(parse_locale_segment("en-U5"), None);
    assert_eq!(parse_locale_segment("en-4190"), None);
    assert_eq!(parse_locale_segment("ñe-US"), None);
}

#[test]
fn locale_third_segment_is_not_checked() {
    assert!(detect_locale_in_path("/a/b/es-MX").is_none());
    assert_eq!(
        split_path_segments("//a//b/"),
        vec!["a".to_string(), "b".to_string()]
    );
}

//! Locale path segments: recognising BCP-47-shaped segments in URL paths
//! (`es-MX`, `es_mx`, `es-419`, bare `es`) and validating their separator,
//! case and ISO codes.
//!
//! Every accepted character is ASCII, so working on characters gives the same
//! answers as working on UTF-8 bytes.
use vstd::prelude::*;

use crate::contract::views;
use crate::locale_data::{ISO_3166_1_ALPHA2, ISO_639_1};
use crate::text::{
    ascii_lowercase, ascii_uppercase, char_is_ascii_alpha, char_is_ascii_digit, chars_of,
    chars_slice_string, is_ascii_alpha, is_ascii_digit, is_ascii_lower, is_ascii_upper,
    lower_seq, push_char, push_str, to_owned_string, upper_seq,
};

verus! {

/// The locale shape detected in a path segment.
#[derive(Debug, Clone, PartialEq, Eq)]
pub enum LocaleShape {
    /// `lang-REGION` or `lang_REGION` (2-3 letters, separator, 2 letters or 3 digits).
    Separated { language: String, separator: char, region: String },
    /// A bare two-letter language code.
    Bare { language: String },
}

/// The mathematical value of a [`LocaleShape`].
#[verifier::ext_equal]
pub enum LocaleShapeModel {
    Separated { language: Seq<char>, separator: char, region: Seq<char> },
    Bare { language: Seq<char> },
}

impl View for LocaleShape {
    type V = LocaleShapeModel;

    open spec fn view(&self) -> LocaleShapeModel {
        match self {
            LocaleShape::Separated { language, separator, region } => LocaleShapeModel::Separated {
                language: language@,
                separator: *separator,
                region: region@,
            },
            LocaleShape::Bare { language } => LocaleShapeModel::Bare { language: language@ },
        }
    }
}

/// The validation result for a locale segment.
#[derive(Debug, Clone, Default)]
pub struct LocaleValidation {
    /// The separator is `_` instead of `-`.
    pub separator_invalid: bool,
    /// The language is not all lowercase, or an alphabetic region not all uppercase.
    pub case_invalid: bool,
    /// The language or region is not an ISO 639-1 / 3166-1 code.
    pub unknown: bool,
    /// The segment as found in the path.
    pub raw_segment: String,
    /// The segment with every fix applied.
    pub corrected_segment: String,
    /// The unknown subtag, normalised (language preferred when both are unknown).
    pub unknown_subtag: Option<String>,
}

/// The mathematical value of a [`LocaleValidation`].
#[verifier::ext_equal]
pub struct LocaleValidationModel {
    pub separator_invalid: bool,
    pub case_invalid: bool,
    pub unknown: bool,
    pub raw_segment: Seq<char>,
    pub corrected_segment: Seq<char>,
    pub unknown_subtag: Option<Seq<char>>,
}

impl View for LocaleValidation {
    type V = LocaleValidationModel;

    open spec fn view(&self) -> LocaleValidationModel {
        LocaleValidationModel {
            separator_invalid: self.separator_invalid,
            case_invalid: self.case_invalid,
            unknown: self.unknown,
            raw_segment: self.raw_segment@,
            corrected_segment: self.corrected_segment@,
            unknown_subtag: match self.unknown_subtag {
                Some(s) => Some(s@),
                None => None,
            },
        }
    }
}

// ---------------------------------------------------------------------------
// Specification
// ---------------------------------------------------------------------------

/// `s` is one of the embedded ISO 639-1 language codes.
pub open spec fn known_language(s: Seq<char>) -> bool {
    exists|i: int| 0 <= i < ISO_639_1@.len() && (#[trigger] ISO_639_1@[i])@ == s
}

/// `s` is one of the embedded ISO 3166-1 alpha-2 region codes.
pub open spec fn known_region(s: Seq<char>) -> bool {
    exists|i: int| 0 <= i < ISO_3166_1_ALPHA2@.len() && (#[trigger] ISO_3166_1_ALPHA2@[i])@ == s
}

pub open spec fn is_locale_sep(c: char) -> bool {
    c == '-' || c == '_'
}

/// Index of the first `-` or `_` in `s`, or `s.len()` when there is none.
pub open spec fn sep_index(s: Seq<char>) -> int
    decreases s.len(),
{
    if s.len() == 0 {
        0
    } else if is_locale_sep(s[0]) {
        0
    } else {
        1 + sep_index(s.drop_first())
    }
}

pub open spec fn all_alpha(s: Seq<char>) -> bool {
    forall|k: int| 0 <= k < s.len() ==> is_ascii_alpha(#[trigger] s[k])
}

pub open spec fn all_digit(s: Seq<char>) -> bool {
    forall|k: int| 0 <= k < s.len() ==> is_ascii_digit(#[trigger] s[k])
}

pub open spec fn has_upper(s: Seq<char>) -> bool {
    exists|k: int| 0 <= k < s.len() && is_ascii_upper(#[trigger] s[k])
}

pub open spec fn has_lower(s: Seq<char>) -> bool {
    exists|k: int| 0 <= k < s.len() && is_ascii_lower(#[trigger] s[k])
}

/// Two ASCII letters: the shape of a bare language code.
pub open spec fn bare_shaped(seg: Seq<char>) -> bool {
    seg.len() == 2 && all_alpha(seg)
}

/// A region subtag: two ASCII letters or three ASCII digits.
pub open spec fn region_shaped(r: Seq<char>) -> bool {
    (r.len() == 2 && all_alpha(r)) || (r.len() == 3 && all_digit(r))
}

/// The locale shape of a path segment, if it has one.
pub open spec fn locale_shape_of(seg: Seq<char>) -> Option<LocaleShapeModel> {
    if bare_shaped(seg) {
        if known_language(lower_seq(seg)) {
            Some(LocaleShapeModel::Bare { language: seg })
        } else {
            None
        }
    } else {
        let p = sep_index(seg);
        if p < seg.len() && 2 <= p <= 3 && all_alpha(seg.take(p)) && region_shaped(
            seg.skip(p + 1),
        ) {
            Some(
                LocaleShapeModel::Separated {
                    language: seg.take(p),
                    separator: seg[p],
                    region: seg.skip(p + 1),
                },
            )
        } else {
            None
        }
    }
}

/// The validation of a locale shape found as `raw`.
pub open spec fn validation_of(shape: LocaleShapeModel, raw: Seq<char>) -> LocaleValidationModel {
    match shape {
        LocaleShapeModel::Bare { language } => LocaleValidationModel {
            separator_invalid: false,
            case_invalid: has_upper(language),
            unknown: false,
            raw_segment: raw,
            corrected_segment: lower_seq(language),
            unknown_subtag: None,
        },
        LocaleShapeModel::Separated { language, separator, region } => {
            let digit = region.len() == 3 && all_digit(region);
            let lang_known = language.len() == 2 && known_language(lower_seq(language));
            let region_known = digit || known_region(upper_seq(region));
            let unknown = !lang_known || !region_known;
            LocaleValidationModel {
                separator_invalid: separator == '_',
                case_invalid: has_upper(language) || (!digit && has_lower(region)),
                unknown,
                raw_segment: raw,
                corrected_segment: lower_seq(language) + seq!['-'] + (if digit {
                    region
                } else {
                    upper_seq(region)
                }),
                unknown_subtag: if !unknown {
                    None
                } else if !lang_known {
                    Some(lower_seq(language))
                } else {
                    Some(upper_seq(region))
                },
            }
        },
    }
}

/// Splitting on `/` from position `i`, with `cur` the part of the current
/// segment read so far; empty segments are dropped.
pub open spec fn split_path_from(s: Seq<char>, i: int, cur: Seq<char>) -> Seq<Seq<char>>
    decreases s.len() - i,
{
    if i >= s.len() {
        if cur.len() > 0 {
            seq![cur]
        } else {
            seq![]
        }
    } else if s[i] == '/' {
        (if cur.len() > 0 {
            seq![cur]
        } else {
            seq![]
        }) + split_path_from(s, i + 1, seq![])
    } else {
        split_path_from(s, i + 1, cur.push(s[i]))
    }
}

/// The non-empty `/`-separated segments of a path, in order.
pub open spec fn path_segments(path: Seq<char>) -> Seq<Seq<char>> {
    split_path_from(path, 0, seq![])
}

/// No element is empty.
pub open spec fn all_nonempty(v: Seq<Seq<char>>) -> bool {
    forall|k: int| 0 <= k < v.len() ==> (#[trigger] v[k]).len() > 0
}

proof fn lemma_split_nonempty(s: Seq<char>, i: int, cur: Seq<char>)
    ensures
        all_nonempty(split_path_from(s, i, cur)),
    decreases s.len() - i,
{
    if i >= s.len() {
    } else if s[i] == '/' {
        lemma_split_nonempty(s, i + 1, seq![]);
        let head: Seq<Seq<char>> = if cur.len() > 0 {
            seq![cur]
        } else {
            seq![]
        };
        let tail = split_path_from(s, i + 1, seq![]);
        assert(split_path_from(s, i, cur) == head + tail);
        assert forall|k: int| 0 <= k < (head + tail).len() implies (#[trigger] (head + tail)[k]).len() > 0 by {
            if k >= head.len() {
                assert((head + tail)[k] == tail[k - head.len()]);
            }
        }
    } else {
        lemma_split_nonempty(s, i + 1, cur.push(s[i]));
    }
}

/// Every path segment is non-empty.
pub proof fn lemma_path_segments_nonempty(path: Seq<char>)
    ensures
        all_nonempty(path_segments(path)),
{
    lemma_split_nonempty(path, 0, seq![]);
}

/// The first of the first two path segments that has a locale shape, with its
/// validation.
pub open spec fn detected_locale(path: Seq<char>) -> Option<(Seq<char>, LocaleValidationModel)> {
    let segs = path_segments(path);
    if segs.len() > 0 && locale_shape_of(segs[0]) is Some {
        Some((segs[0], validation_of(locale_shape_of(segs[0])->0, segs[0])))
    } else if segs.len() > 1 && locale_shape_of(segs[1]) is Some {
        Some((segs[1], validation_of(locale_shape_of(segs[1])->0, segs[1])))
    } else {
        None
    }
}

// ---------------------------------------------------------------------------
// Executable helpers
// ---------------------------------------------------------------------------

/// The code `pair` spells exactly the characters `cs`.
fn pair_matches(pair: [char; 2], cs: &[char]) -> (r: bool)
    ensures
        r == (pair@ == cs@),
{
    if cs.len() != 2 {
        assert(pair@.len() != cs@.len());
        return false;
    }
    if pair[0] == cs[0] && pair[1] == cs[1] {
        assert(pair@ =~= cs@);
        true
    } else {
        assert(pair@[0] != cs@[0] || pair@[1] != cs@[1]);
        false
    }
}

fn lookup_language(s: &str) -> (r: bool)
    ensures
        r == known_language(s@),
{
    let cs = chars_of(s);
    let mut i: usize = 0;
    while i < 184
        invariant
            cs@ == s@,
            ISO_639_1@.len() == 184,
            i <= 184,
            forall|k: int| 0 <= k < i ==> (#[trigger] ISO_639_1@[k])@ != s@,
        decreases 184 - i,
    {
        if pair_matches(ISO_639_1[i], cs.as_slice()) {
            assert(ISO_639_1@[i as int]@ == s@);
            return true;
        }
        i = i + 1;
    }
    false
}

fn lookup_region(s: &str) -> (r: bool)
    ensures
        r == known_region(s@),
{
    let cs = chars_of(s);
    let mut i: usize = 0;
    while i < 249
        invariant
            cs@ == s@,
            ISO_3166_1_ALPHA2@.len() == 249,
            i <= 249,
            forall|k: int| 0 <= k < i ==> (#[trigger] ISO_3166_1_ALPHA2@[k])@ != s@,
        decreases 249 - i,
    {
        if pair_matches(ISO_3166_1_ALPHA2[i], cs.as_slice()) {
            assert(ISO_3166_1_ALPHA2@[i as int]@ == s@);
            return true;
        }
        i = i + 1;
    }
    false
}

fn range_all_alpha(cs: &[char], from: usize, to: usize) -> (r: bool)
    requires
        from <= to <= cs@.len(),
    ensures
        r == all_alpha(cs@.subrange(from as int, to as int)),
{
    let mut i: usize = from;
    while i < to
        invariant
            from <= i <= to <= cs@.len(),
            forall|k: int| from <= k < i ==> is_ascii_alpha(#[trigger] cs@[k]),
        decreases to - i,
    {
        if !char_is_ascii_alpha(cs[i]) {
            assert(cs@.subrange(from as int, to as int)[i - from] == cs@[i as int]);
            return false;
        }
        i = i + 1;
    }
    assert forall|k: int| 0 <= k < to - from implies is_ascii_alpha(
        #[trigger] cs@.subrange(from as int, to as int)[k],
    ) by {
        assert(cs@.subrange(from as int, to as int)[k] == cs@[from + k]);
    }
    true
}

fn range_all_digit(cs: &[char], from: usize, to: usize) -> (r: bool)
    requires
        from <= to <= cs@.len(),
    ensures
        r == all_digit(cs@.subrange(from as int, to as int)),
{
    let mut i: usize = from;
    while i < to
        invariant
            from <= i <= to <= cs@.len(),
            forall|k: int| from <= k < i ==> is_ascii_digit(#[trigger] cs@[k]),
        decreases to - i,
    {
        if !char_is_ascii_digit(cs[i]) {
            assert(cs@.subrange(from as int, to as int)[i - from] == cs@[i as int]);
            return false;
        }
        i = i + 1;
    }
    assert forall|k: int| 0 <= k < to - from implies is_ascii_digit(
        #[trigger] cs@.subrange(from as int, to as int)[k],
    ) by {
        assert(cs@.subrange(from as int, to as int)[k] == cs@[from + k]);
    }
    true
}

fn str_has_upper(s: &str) -> (r: bool)
    ensures
        r == has_upper(s@),
{
    let cs = chars_of(s);
    let mut i: usize = 0;
    while i < cs.len()
        invariant
            cs@ == s@,
            i <= cs@.len(),
            forall|k: int| 0 <= k < i ==> !is_ascii_upper(#[trigger] cs@[k]),
        decreases cs.len() - i,
    {
        if 'A' <= cs[i] && cs[i] <= 'Z' {
            return true;
        }
        i = i + 1;
    }
    false
}

fn str_has_lower(s: &str) -> (r: bool)
    ensures
        r == has_lower(s@),
{
    let cs = chars_of(s);
    let mut i: usize = 0;
    while i < cs.len()
        invariant
            cs@ == s@,
            i <= cs@.len(),
            forall|k: int| 0 <= k < i ==> !is_ascii_lower(#[trigger] cs@[k]),
        decreases cs.len() - i,
    {
        if 'a' <= cs[i] && cs[i] <= 'z' {
            return true;
        }
        i = i + 1;
    }
    false
}

/// Index of the first separator, as `sep_index` says.
fn find_sep(cs: &[char]) -> (p: usize)
    ensures
        p as int == sep_index(cs@),
        p <= cs@.len(),
        p < cs@.len() ==> is_locale_sep(cs@[p as int]),
{
    let mut p: usize = 0;
    assert(cs@.skip(0) =~= cs@);
    while p < cs.len() && !(cs[p] == '-' || cs[p] == '_')
        invariant
            p <= cs@.len(),
            sep_index(cs@) == p + sep_index(cs@.skip(p as int)),
        decreases cs.len() - p,
    {
        assert(cs@.skip(p as int).drop_first() =~= cs@.skip(p + 1));
        assert(cs@.skip(p as int)[0] == cs@[p as int]);
        p = p + 1;
    }
    if p < cs.len() {
        assert(cs@.skip(p as int)[0] == cs@[p as int]);
    } else {
        assert(cs@.skip(p as int).len() == 0);
    }
    p
}

// ---------------------------------------------------------------------------
// Public operations
// ---------------------------------------------------------------------------

/// Reads a path segment as a locale shape; `None` if it does not look like a
/// locale at all (a bare two-letter segment must be a known language).
pub fn parse_locale_segment(segment: &str) -> (r: Option<LocaleShape>)
    ensures
        match r {
            Some(shape) => locale_shape_of(segment@) == Some(shape@),
            None => locale_shape_of(segment@) is None,
        },
{
    let cs = chars_of(segment);
    let len = cs.len();
    if len == 2 && char_is_ascii_alpha(cs[0]) && char_is_ascii_alpha(cs[1]) {
        assert(all_alpha(segment@)) by {
            assert forall|k: int| 0 <= k < 2 implies is_ascii_alpha(#[trigger] segment@[k]) by {
                if k == 0 {
                } else {
                }
            }
        }
        let lower = ascii_lowercase(segment);
        if lookup_language(lower.as_str()) {
            return Some(LocaleShape::Bare { language: to_owned_string(segment) });
        }
        return None;
    }
    assert(!bare_shaped(segment@)) by {
        if len == 2 {
            if !is_ascii_alpha(cs@[0]) {
                assert(!is_ascii_alpha(segment@[0]));
            } else {
                assert(!is_ascii_alpha(segment@[1]));
            }
        }
    }
    let p = find_sep(cs.as_slice());
    if p == len {
        return None;
    }
    if p < 2 || p > 3 {
        return None;
    }
    assert(cs@.subrange(0, p as int) =~= segment@.take(p as int));
    if !range_all_alpha(cs.as_slice(), 0, p) {
        return None;
    }
    let region_len = len - p - 1;
    assert(cs@.subrange(p + 1, len as int) =~= segment@.skip(p + 1));
    let region_is_alpha = region_len == 2 && range_all_alpha(cs.as_slice(), p + 1, len);
    let region_is_digit = region_len == 3 && range_all_digit(cs.as_slice(), p + 1, len);
    if !region_is_alpha && !region_is_digit {
        return None;
    }
    Some(
        LocaleShape::Separated {
            language: chars_slice_string(cs.as_slice(), 0, p),
            separator: cs[p],
            region: chars_slice_string(cs.as_slice(), p + 1, len),
        },
    )
}

/// Validates a locale shape found as `raw_segment`: separator, case and known
/// codes are each checked on their own, and the corrected spelling built.
pub fn validate_locale(shape: &LocaleShape, raw_segment: &str) -> (v: LocaleValidation)
    ensures
        v@ == validation_of(shape@, raw_segment@),
{
    match shape {
        LocaleShape::Bare { language } => {
            let case_invalid = str_has_upper(language.as_str());
            let corrected = ascii_lowercase(language.as_str());
            let v = LocaleValidation {
                separator_invalid: false,
                case_invalid,
                unknown: false,
                raw_segment: to_owned_string(raw_segment),
                corrected_segment: corrected,
                unknown_subtag: None,
            };
            assert(v@ =~= validation_of(shape@, raw_segment@));
            v
        },
        LocaleShape::Separated { language, separator, region } => {
            let rcs = chars_of(region.as_str());
            let region_is_digit = rcs.len() == 3 && range_all_digit(rcs.as_slice(), 0, 3);
            assert(rcs@.subrange(0, rcs@.len() as int) =~= region@);
            let separator_invalid = *separator == '_';
            let lang_case_bad = str_has_upper(language.as_str());
            let region_case_bad = !region_is_digit && str_has_lower(region.as_str());
            let case_invalid = lang_case_bad || region_case_bad;
            let lang_lower = ascii_lowercase(language.as_str());
            let lcs = chars_of(language.as_str());
            let lang_known = lcs.len() == 2 && lookup_language(lang_lower.as_str());
            let region_upper = ascii_uppercase(region.as_str());
            let region_known = region_is_digit || lookup_region(region_upper.as_str());
            let unknown = !lang_known || !region_known;
            let unknown_subtag = if unknown {
                if !lang_known {
                    Some(lang_lower.clone())
                } else {
                    Some(region_upper.clone())
                }
            } else {
                None
            };
            let mut corrected = lang_lower.clone();
            push_char(&mut corrected, '-');
            if region_is_digit {
                push_str(&mut corrected, region.as_str());
            } else {
                push_str(&mut corrected, region_upper.as_str());
            }
            LocaleValidation {
                separator_invalid,
                case_invalid,
                unknown,
                raw_segment: to_owned_string(raw_segment),
                corrected_segment: corrected,
                unknown_subtag,
            }
        },
    }
}

/// The non-empty `/`-separated segments of a path.
pub fn split_path_segments(path: &str) -> (r: Vec<String>)
    ensures
        views(r@) == path_segments(path@),
{
    let cs = chars_of(path);
    let mut out: Vec<String> = Vec::new();
    let mut cur: Vec<char> = Vec::new();
    let mut i: usize = 0;
    while i < cs.len()
        invariant
            cs@ == path@,
            i <= cs@.len(),
            views(out@) + split_path_from(cs@, i as int, cur@) == path_segments(path@),
        decreases cs.len() - i,
    {
        if cs[i] == '/' {
            if cur.len() > 0 {
                let seg = chars_slice_string(cur.as_slice(), 0, cur.len());
                assert(cur@.subrange(0, cur@.len() as int) =~= cur@);
                let ghost before = views(out@);
                out.push(seg);
                assert(views(out@) =~= before.push(cur@));
                assert(before + split_path_from(cs@, i as int, cur@) =~= views(out@)
                    + split_path_from(cs@, i + 1, seq![]));
            } else {
                assert(split_path_from(cs@, i as int, cur@) =~= split_path_from(
                    cs@,
                    i + 1,
                    seq![],
                ));
            }
            cur = Vec::new();
            assert(cur@ =~= Seq::<char>::empty());
        } else {
            cur.push(cs[i]);
        }
        i = i + 1;
    }
    if cur.len() > 0 {
        let seg = chars_slice_string(cur.as_slice(), 0, cur.len());
        assert(cur@.subrange(0, cur@.len() as int) =~= cur@);
        let ghost before = views(out@);
        out.push(seg);
        assert(views(out@) =~= before.push(cur@));
        assert(before + seq![cur@] =~= views(out@));
    } else {
        assert(views(out@) + seq![] =~= views(out@));
    }
    out
}

/// The first locale-shaped segment among the first two path segments, with
/// its validation; `None` when neither has a locale shape.
pub fn detect_locale_in_path(path: &str) -> (r: Option<(String, LocaleValidation)>)
    ensures
        match r {
            Some((seg, v)) => detected_locale(path@) == Some((seg@, v@)),
            None => detected_locale(path@) is None,
        },
{
    let segments = split_path_segments(path);
    let mut i: usize = 0;
    while i < segments.len() && i < 2
        invariant
            views(segments@) == path_segments(path@),
            i <= 2,
            i <= segments@.len(),
            forall|k: int| 0 <= k < i ==> locale_shape_of(#[trigger] views(segments@)[k]) is None,
        decreases 2 - i,
    {
        assert(views(segments@)[i as int] == segments@[i as int]@);
        match parse_locale_segment(segments[i].as_str()) {
            Some(shape) => {
                let validation = validate_locale(&shape, segments[i].as_str());
                return Some((segments[i].clone(), validation));
            },
            None => {},
        }
        i = i + 1;
    }
    None
}

// ---------------------------------------------------------------------------
// Laws
// ---------------------------------------------------------------------------

proof fn lemma_lower_all_alpha(s: Seq<char>)
    requires
        all_alpha(s),
    ensures
        all_alpha(lower_seq(s)),
        !has_upper(lower_seq(s)),
        lower_seq(lower_seq(s)) == lower_seq(s),
        lower_seq(s).len() == s.len(),
{
    assert forall|k: int| 0 <= k < s.len() implies is_ascii_alpha(#[trigger] lower_seq(s)[k])
        && !is_ascii_upper(lower_seq(s)[k]) by {
        assert(is_ascii_alpha(s[k]));
    }
    assert(lower_seq(lower_seq(s)) =~= lower_seq(s));
}

proof fn lemma_upper_all_alpha(s: Seq<char>)
    requires
        all_alpha(s),
    ensures
        all_alpha(upper_seq(s)),
        !has_lower(upper_seq(s)),
        upper_seq(upper_seq(s)) == upper_seq(s),
        upper_seq(s).len() == s.len(),
{
    assert forall|k: int| 0 <= k < s.len() implies is_ascii_alpha(#[trigger] upper_seq(s)[k])
        && !is_ascii_lower(upper_seq(s)[k]) by {
        assert(is_ascii_alpha(s[k]));
    }
    assert(upper_seq(upper_seq(s)) =~= upper_seq(s));
}

proof fn lemma_sep_index_prefix(lang: Seq<char>, rest: Seq<char>)
    requires
        all_alpha(lang),
        rest.len() > 0,
        is_locale_sep(rest[0]),
    ensures
        sep_index(lang + rest) == lang.len(),
    decreases lang.len(),
{
    if lang.len() == 0 {
        assert(lang + rest =~= rest);
    } else {
        assert(is_ascii_alpha(lang[0]));
        assert((lang + rest).drop_first() =~= lang.drop_first() + rest);
        assert(all_alpha(lang.drop_first())) by {
            assert forall|k: int| 0 <= k < lang.drop_first().len() implies is_ascii_alpha(
                #[trigger] lang.drop_first()[k],
            ) by {
                assert(lang.drop_first()[k] == lang[k + 1]);
            }
        }
        lemma_sep_index_prefix(lang.drop_first(), rest);
    }
}

proof fn lemma_sep_index_alpha(s: Seq<char>)
    requires
        all_alpha(s),
    ensures
        sep_index(s) == s.len(),
    decreases s.len(),
{
    if s.len() > 0 {
        assert(is_ascii_alpha(s[0]));
        assert(all_alpha(s.drop_first())) by {
            assert forall|k: int| 0 <= k < s.drop_first().len() implies is_ascii_alpha(
                #[trigger] s.drop_first()[k],
            ) by {
                assert(s.drop_first()[k] == s[k + 1]);
            }
        }
        lemma_sep_index_alpha(s.drop_first());
    }
}

proof fn lemma_lower_fixed(s: Seq<char>)
    ensures
        (lower_seq(s) == s) <==> !has_upper(s),
{
    if has_upper(s) {
        let k = choose|k: int| 0 <= k < s.len() && is_ascii_upper(#[trigger] s[k]);
        assert(!is_ascii_upper(crate::text::lower_char(s[k])));
        assert(lower_seq(s)[k] != s[k]);
    } else {
        assert forall|k: int| 0 <= k < s.len() implies #[trigger] lower_seq(s)[k] == s[k] by {
            assert(!is_ascii_upper(s[k]));
        }
        assert(lower_seq(s) =~= s);
    }
}

proof fn lemma_upper_fixed(s: Seq<char>)
    ensures
        (upper_seq(s) == s) <==> !has_lower(s),
{
    if has_lower(s) {
        let k = choose|k: int| 0 <= k < s.len() && is_ascii_lower(#[trigger] s[k]);
        assert(!is_ascii_lower(crate::text::upper_char(s[k])));
        assert(upper_seq(s)[k] != s[k]);
    } else {
        assert forall|k: int| 0 <= k < s.len() implies #[trigger] upper_seq(s)[k] == s[k] by {
            assert(!is_ascii_lower(s[k]));
        }
        assert(upper_seq(s) =~= s);
    }
}

/// A locale segment with its separator written as `-` (itself when it has
/// no separator).
pub open spec fn dash_form(seg: Seq<char>) -> Seq<char> {
    if sep_index(seg) < seg.len() {
        seg.update(sep_index(seg), '-')
    } else {
        seg
    }
}

/// Case verdict of a locale segment: it is flagged exactly when a letter
/// before its separator (the language) is uppercase, or a letter after it
/// (the region) is lowercase.
pub proof fn lemma_case_verdict(seg: Seq<char>)
    requires
        locale_shape_of(seg) is Some,
    ensures
        validation_of(locale_shape_of(seg)->0, seg).case_invalid <==> exists|i: int|
            0 <= i < seg.len() && ((i < sep_index(seg) && is_ascii_upper(#[trigger] seg[i])) || (i
                > sep_index(seg) && is_ascii_lower(seg[i]))),
{
    let shape = locale_shape_of(seg)->0;
    let v = validation_of(shape, seg);
    match shape {
        LocaleShapeModel::Bare { language } => {
            assert(language == seg);
            lemma_sep_index_alpha(seg);
            if v.case_invalid {
                let k = choose|k: int| 0 <= k < seg.len() && is_ascii_upper(#[trigger] seg[k]);
                assert(k < sep_index(seg) && is_ascii_upper(seg[k]));
            }
        },
        LocaleShapeModel::Separated { language, separator, region } => {
            let p = sep_index(seg);
            assert(language == seg.take(p));
            assert(region == seg.skip(p + 1));
            if has_upper(language) {
                let k = choose|k: int| 0 <= k < language.len() && is_ascii_upper(#[trigger] language[k]);
                assert(seg[k] == language[k]);
                assert(k < p && is_ascii_upper(seg[k]));
            }
            let digit = region.len() == 3 && all_digit(region);
            if !digit && has_lower(region) {
                let k = choose|k: int| 0 <= k < region.len() && is_ascii_lower(#[trigger] region[k]);
                assert(seg[p + 1 + k] == region[k]);
                assert(p + 1 + k > p && is_ascii_lower(seg[p + 1 + k]));
            }
            if exists|i: int|
                0 <= i < seg.len() && ((i < p && is_ascii_upper(#[trigger] seg[i])) || (i > p
                    && is_ascii_lower(seg[i]))) {
                let i = choose|i: int|
                    0 <= i < seg.len() && ((i < p && is_ascii_upper(#[trigger] seg[i])) || (i > p
                        && is_ascii_lower(seg[i])));
                if i < p {
                    assert(language[i] == seg[i]);
                    assert(has_upper(language));
                } else {
                    assert(region[i - p - 1] == seg[i]);
                    assert(has_lower(region));
                    if digit {
                        assert(is_ascii_digit(region[i - p - 1]));
                    }
                }
            }
        },
    }
}

/// A locale segment passes the case rule exactly when it already is its own
/// corrected spelling, up to the separator.
pub proof fn lemma_case_clean_iff_corrected(seg: Seq<char>)
    requires
        locale_shape_of(seg) is Some,
    ensures
        !validation_of(locale_shape_of(seg)->0, seg).case_invalid <==> dash_form(seg)
            == validation_of(locale_shape_of(seg)->0, seg).corrected_segment,
{
    let shape = locale_shape_of(seg)->0;
    let v = validation_of(shape, seg);
    match shape {
        LocaleShapeModel::Bare { language } => {
            assert(language == seg);
            lemma_sep_index_alpha(seg);
            assert(dash_form(seg) == seg);
            lemma_lower_fixed(seg);
        },
        LocaleShapeModel::Separated { language, separator, region } => {
            let p = sep_index(seg);
            assert(language == seg.take(p));
            assert(region == seg.skip(p + 1));
            let digit = region.len() == 3 && all_digit(region);
            let r2 = if digit {
                region
            } else {
                upper_seq(region)
            };
            let d = dash_form(seg);
            assert(d =~= language + seq!['-'] + region);
            let c = v.corrected_segment;
            assert(c == lower_seq(language) + seq!['-'] + r2);
            lemma_lower_fixed(language);
            lemma_upper_fixed(region);
            if digit {
                assert(!has_lower(region)) by {
                    if has_lower(region) {
                        let k = choose|k: int| 0 <= k < region.len() && is_ascii_lower(#[trigger] region[k]);
                        assert(is_ascii_digit(region[k]));
                    }
                }
            }
            if !v.case_invalid {
                assert(lower_seq(language) == language);
                assert(r2 == region);
                assert(d =~= c);
            } else {
                if d == c {
                    assert(d.take(language.len() as int) =~= language);
                    assert(c.take(language.len() as int) =~= lower_seq(language));
                    assert(d.skip(language.len() as int + 1) =~= region);
                    assert(c.skip(language.len() as int + 1) =~= r2);
                }
            }
        },
    }
}

/// The corrected spelling of a locale segment, position by position: it has
/// the segment's length, `-` at the separator, the language letters in
/// lowercase, an alphabetic region in uppercase and a numeric region as it
/// is; and the separator is flagged exactly when it is `_`.
pub proof fn lemma_corrected_by_position(seg: Seq<char>)
    requires
        locale_shape_of(seg) is Some,
    ensures
        ({
            let v = validation_of(locale_shape_of(seg)->0, seg);
            let c = v.corrected_segment;
            let p = sep_index(seg);
            &&& c.len() == seg.len()
            &&& forall|i: int| 0 <= i < p && i < seg.len() ==> #[trigger] c[i] == crate::text::lower_char(seg[i])
            &&& forall|i: int| 0 <= i < p && i < seg.len() ==> !is_ascii_upper(#[trigger] c[i])
            &&& forall|i: int| p < i < seg.len() ==> !is_ascii_lower(#[trigger] c[i])
            &&& forall|i: int|
                p < i < seg.len() ==> (#[trigger] c[i] == seg[i] || c[i] == crate::text::upper_char(seg[i]))
            &&& p < seg.len() ==> c[p] == '-'
            &&& v.separator_invalid <==> (p < seg.len() && seg[p] == '_')
        }),
{
    let shape = locale_shape_of(seg)->0;
    match shape {
        LocaleShapeModel::Bare { language } => {
            assert(language == seg);
            lemma_sep_index_alpha(seg);
            lemma_lower_all_alpha(seg);
        },
        LocaleShapeModel::Separated { language, separator, region } => {
            let p = sep_index(seg);
            assert(language == seg.take(p));
            assert(region == seg.skip(p + 1));
            lemma_lower_all_alpha(language);
            let digit = region.len() == 3 && all_digit(region);
            if !digit {
                lemma_upper_all_alpha(region);
            } else {
                assert forall|k: int| 0 <= k < region.len() implies !is_ascii_lower(#[trigger] region[k]) by {
                    assert(is_ascii_digit(region[k]));
                }
            }
            let c = validation_of(shape, seg).corrected_segment;
            assert forall|i: int| p < i < seg.len() implies !is_ascii_lower(#[trigger] c[i]) && (c[i] == seg[i]
                || c[i] == crate::text::upper_char(seg[i])) by {
                assert(seg[i] == region[i - p - 1]);
                if !digit {
                    assert(c[i] == upper_seq(region)[i - p - 1]);
                } else {
                    assert(c[i] == region[i - p - 1]);
                }
            }
            assert forall|i: int| 0 <= i < p && i < seg.len() implies #[trigger] c[i] == crate::text::lower_char(seg[i])
                && !is_ascii_upper(c[i]) by {
                assert(seg[i] == language[i]);
                assert(c[i] == lower_seq(language)[i]);
            }
        },
    }
}

/// The unknown-code verdict of a locale segment: a bare language code is
/// never unknown; an unknown code is reported as the corrected spelling of
/// one of the segment's two subtags, and only when the segment is unknown;
/// the segment is recorded as found.
pub proof fn lemma_unknown_subtag(seg: Seq<char>)
    requires
        locale_shape_of(seg) is Some,
    ensures
        ({
            let v = validation_of(locale_shape_of(seg)->0, seg);
            let c = v.corrected_segment;
            let p = sep_index(seg);
            &&& v.raw_segment == seg
            &&& v.unknown <==> v.unknown_subtag is Some
            &&& p >= seg.len() ==> !v.unknown
            &&& v.unknown_subtag matches Some(t) ==> (t == c.take(p) || t == c.skip(p + 1))
        }),
{
    let shape = locale_shape_of(seg)->0;
    match shape {
        LocaleShapeModel::Bare { language } => {
            lemma_sep_index_alpha(seg);
        },
        LocaleShapeModel::Separated { language, separator, region } => {
            let p = sep_index(seg);
            assert(language == seg.take(p));
            assert(region == seg.skip(p + 1));
            let v = validation_of(shape, seg);
            let c = v.corrected_segment;
            let digit = region.len() == 3 && all_digit(region);
            let r2 = if digit {
                region
            } else {
                upper_seq(region)
            };
            assert(c.take(p) =~= lower_seq(language));
            assert(c.skip(p + 1) =~= r2);
        },
    }
}

/// Fixing a locale segment is stable: the corrected spelling of any locale
/// segment is itself a locale segment, with a valid separator and case, the
/// same known/unknown verdict, and itself as its own correction.
pub proof fn lemma_corrected_segment_is_clean(seg: Seq<char>)
    requires
        locale_shape_of(seg) is Some,
    ensures
        ({
            let v = validation_of(locale_shape_of(seg)->0, seg);
            let c = v.corrected_segment;
            &&& locale_shape_of(c) is Some
            &&& !validation_of(locale_shape_of(c)->0, c).separator_invalid
            &&& !validation_of(locale_shape_of(c)->0, c).case_invalid
            &&& validation_of(locale_shape_of(c)->0, c).unknown == v.unknown
            &&& validation_of(locale_shape_of(c)->0, c).corrected_segment == c
        }),
{
    let shape = locale_shape_of(seg)->0;
    match shape {
        LocaleShapeModel::Bare { language } => {
            assert(language == seg);
            lemma_lower_all_alpha(seg);
            let c = lower_seq(seg);
            assert(bare_shaped(c));
            assert(locale_shape_of(c) == Some(LocaleShapeModel::Bare { language: c }));
        },
        LocaleShapeModel::Separated { language, separator, region } => {
            let p = sep_index(seg);
            assert(language == seg.take(p));
            assert(region == seg.skip(p + 1));
            lemma_lower_all_alpha(language);
            let ll = lower_seq(language);
            let digit = region.len() == 3 && all_digit(region);
            let r2 = if digit {
                region
            } else {
                upper_seq(region)
            };
            if !digit {
                assert(region.len() == 2 && all_alpha(region));
                lemma_upper_all_alpha(region);
            } else {
                assert(!has_lower(region)) by {
                    if has_lower(region) {
                        let k = choose|k: int| 0 <= k < region.len() && is_ascii_lower(
                            #[trigger] region[k],
                        );
                        assert(is_ascii_digit(region[k]));
                    }
                }
            }
            let c = ll + seq!['-'] + r2;
            assert(c == validation_of(shape, seg).corrected_segment);
            let rest = seq!['-'] + r2;
            assert(c =~= ll + rest);
            lemma_sep_index_prefix(ll, rest);
            assert(sep_index(c) == ll.len());
            assert(c.take(ll.len() as int) =~= ll);
            assert(c.skip(ll.len() as int + 1) =~= r2);
            assert(c[ll.len() as int] == '-');
            assert(!bare_shaped(c)) by {
                assert(c.len() == ll.len() + 1 + r2.len());
            }
            assert(region_shaped(r2));
            assert(locale_shape_of(c) == Some(
                LocaleShapeModel::Separated { language: ll, separator: '-', region: r2 },
            ));
            assert(lower_seq(ll) == ll);
            if digit {
                assert(r2.len() == 3 && all_digit(r2));
            } else {
                assert(!(r2.len() == 3)) by {
                    assert(r2.len() == 2);
                }
                assert(upper_seq(r2) == r2);
            }
        },
    }
}

} // verus!

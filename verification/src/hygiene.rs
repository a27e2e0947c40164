//! URL hygiene rules: trailing-slash policy, locale path segments, and the
//! URL helpers the hygiene checks share.
//!
//! Most functions here decide whether a rule fires and compute the texts it
//! reports; `check_locale_path` assembles the locale issues from them.
use vstd::prelude::*;

use crate::config::TrailingSlashPolicy;
use crate::contract::{Anchors, IssueCategory, IssueType, Locator};
use crate::drafts::{
    concat3, draft_head, fields_view, make_draft, text_field, text_leaf, IssueDraft, SeverityProfile,
};
use crate::network_diff::null_locator;
use crate::locale::{detect_locale_in_path, detected_locale, LocaleValidation};
use crate::text::{chars_of, chars_occurs_at, push_char, push_str, str_eq, to_owned_string};
use crate::weburl::{join_url, parse_url, url_join_of, url_parts_of, url_without_fragment, url_without_fragment_of};

verus! {

// ---------------------------------------------------------------------------
// URL helpers
// ---------------------------------------------------------------------------

/// `?query`, or nothing.
pub open spec fn query_part(q: Option<Seq<char>>) -> Seq<char> {
    match q {
        Some(q) => "?"@ + q,
        None => seq![],
    }
}

/// Path and `?query` of a URL (no scheme, host, port or fragment).
pub open spec fn path_query_spec(url: Seq<char>) -> Option<Seq<char>> {
    match url_parts_of(url) {
        Some(u) => Some(u.path + query_part(u.query)),
        None => None,
    }
}

/// The scheme of a URL.
pub fn url_scheme(url_str: &str) -> (r: Option<String>)
    ensures
        match r {
            Some(s) => url_parts_of(url_str@) matches Some(u) && s@ == u.scheme,
            None => url_parts_of(url_str@) is None,
        },
{
    match parse_url(url_str) {
        Some(u) => Some(u.scheme),
        None => None,
    }
}

/// Path plus `?query` of a URL (no scheme, host, port or fragment).
pub fn url_path_query(url_str: &str) -> (r: Option<String>)
    ensures
        match r {
            Some(s) => path_query_spec(url_str@) == Some(s@),
            None => path_query_spec(url_str@) is None,
        },
{
    match parse_url(url_str) {
        Some(u) => {
            let mut out = u.path.clone();
            match &u.query {
                Some(q) => {
                    push_str(&mut out, "?");
                    push_str(&mut out, q.as_str());
                },
                None => {},
            }
            Some(out)
        },
        None => None,
    }
}

/// The host-stripped form of a URL (path plus `?query`), used to join links
/// of the old and new pages.
pub fn host_stripped(url_str: &str) -> (r: Option<String>)
    ensures
        match r {
            Some(s) => path_query_spec(url_str@) == Some(s@),
            None => path_query_spec(url_str@) is None,
        },
{
    url_path_query(url_str)
}

/// An href resolved against a base URL; the href itself when either fails.
pub fn resolve_href(href: &str, base: &str) -> (r: String)
    ensures
        r@ == match url_join_of(base@, href@) {
            Some(j) => j,
            None => href@,
        },
{
    match join_url(base, href) {
        Some(j) => j,
        None => to_owned_string(href),
    }
}

/// A URL without its fragment; the text itself when it does not parse.
pub fn strip_fragment(url_str: &str) -> (r: String)
    ensures
        r@ == match url_without_fragment_of(url_str@) {
            Some(j) => j,
            None => url_str@,
        },
{
    match url_without_fragment(url_str) {
        Some(j) => j,
        None => to_owned_string(url_str),
    }
}

// ---------------------------------------------------------------------------
// Trailing slash
// ---------------------------------------------------------------------------

pub open spec fn ends_with_slash(p: Seq<char>) -> bool {
    p.len() > 0 && p.last() == '/'
}

/// Whether the new page URL breaks the trailing-slash policy (the root path
/// `/` never does; an unparsable URL never does).
pub open spec fn trailing_slash_violation(
    url: Seq<char>,
    old_url: Option<Seq<char>>,
    policy: TrailingSlashPolicy,
) -> bool {
    match url_parts_of(url) {
        None => false,
        Some(u) => if u.path == "/"@ {
            false
        } else {
            match policy {
                TrailingSlashPolicy::Never => ends_with_slash(u.path),
                TrailingSlashPolicy::Always => !ends_with_slash(u.path),
                TrailingSlashPolicy::Preserve => match old_url {
                    None => false,
                    Some(o) => match url_parts_of(o) {
                        None => false,
                        Some(ou) => ends_with_slash(u.path) != (ends_with_slash(ou.path) && ou.path
                            != "/"@),
                    },
                },
            }
        },
    }
}

fn path_ends_with_slash(p: &str) -> (r: bool)
    ensures
        r == ends_with_slash(p@),
{
    let cs = chars_of(p);
    cs.len() > 0 && cs[cs.len() - 1] == '/'
}

/// Whether a trailing-slash issue is due for the URL under the policy.
pub fn check_trailing_slash_url(
    url_str: &str,
    old_url_str: Option<&str>,
    policy: TrailingSlashPolicy,
) -> (r: bool)
    ensures
        r == trailing_slash_violation(
            url_str@,
            match old_url_str {
                Some(o) => Some(o@),
                None => None,
            },
            policy,
        ),
{
    let u = match parse_url(url_str) {
        Some(u) => u,
        None => return false,
    };
    if str_eq(u.path.as_str(), "/") {
        return false;
    }
    match policy {
        TrailingSlashPolicy::Never => path_ends_with_slash(u.path.as_str()),
        TrailingSlashPolicy::Always => !path_ends_with_slash(u.path.as_str()),
        TrailingSlashPolicy::Preserve => {
            let new_has_slash = path_ends_with_slash(u.path.as_str());
            match old_url_str {
                Some(old) => match parse_url(old) {
                    Some(ou) => {
                        let old_has_slash = path_ends_with_slash(ou.path.as_str()) && !str_eq(
                            ou.path.as_str(),
                            "/",
                        );
                        new_has_slash != old_has_slash
                    },
                    None => false,
                },
                None => false,
            }
        },
    }
}

/// `s` without all its trailing slashes (`str::trim_end_matches('/')`).
pub open spec fn trim_trailing_slashes(s: Seq<char>) -> Seq<char>
    decreases s.len(),
{
    if s.len() > 0 && s.last() == '/' {
        trim_trailing_slashes(s.drop_last())
    } else {
        s
    }
}

pub(crate) fn trim_slashes(s: &str) -> (r: String)
    ensures
        r@ == trim_trailing_slashes(s@),
{
    let cs = chars_of(s);
    let mut n: usize = cs.len();
    assert(cs@.take(n as int) =~= cs@);
    while n > 0 && cs[n - 1] == '/'
        invariant
            n <= cs@.len(),
            cs@ == s@,
            trim_trailing_slashes(s@) == trim_trailing_slashes(cs@.take(n as int)),
        decreases n,
    {
        assert(cs@.take(n as int).drop_last() =~= cs@.take(n - 1));
        n = n - 1;
    }
    crate::text::chars_slice_string(cs.as_slice(), 0, n)
}

/// The rewrite a trailing-slash issue proposes: the URL's path, and the
/// path-plus-query to rewrite from and to (slash removed for `Never` and
/// `Preserve`, added for `Always`).
pub open spec fn trailing_slash_rewrite_spec(url: Seq<char>, policy: TrailingSlashPolicy) -> Option<
    (Seq<char>, Seq<char>, Seq<char>),
> {
    match url_parts_of(url) {
        None => None,
        Some(u) => {
            let q = query_part(u.query);
            let bare = trim_trailing_slashes(u.path);
            Some(
                (
                    u.path,
                    u.path + q,
                    match policy {
                        TrailingSlashPolicy::Always => bare + "/"@ + q,
                        _ => bare + q,
                    },
                ),
            )
        },
    }
}

/// The path, the from-text and the to-text of a trailing-slash rewrite.
pub fn trailing_slash_rewrite(url_str: &str, policy: TrailingSlashPolicy) -> (r: Option<
    (String, String, String),
>)
    ensures
        match r {
            Some((p, f, t)) => trailing_slash_rewrite_spec(url_str@, policy) == Some((p@, f@, t@)),
            None => trailing_slash_rewrite_spec(url_str@, policy) is None,
        },
{
    let u = match parse_url(url_str) {
        Some(u) => u,
        None => return None,
    };
    let q = match &u.query {
        Some(q) => {
            let mut s = to_owned_string("?");
            push_str(&mut s, q.as_str());
            s
        },
        None => String::new(),
    };
    let bare = trim_slashes(u.path.as_str());
    let mut from = u.path.clone();
    push_str(&mut from, q.as_str());
    let mut to = bare;
    match policy {
        TrailingSlashPolicy::Always => {
            push_str(&mut to, "/");
        },
        _ => {},
    }
    push_str(&mut to, q.as_str());
    Some((u.path.clone(), from, to))
}

// ---------------------------------------------------------------------------
// Locale path segments
// ---------------------------------------------------------------------------

/// Every occurrence of a non-empty `pat` in `s`, left to right and not
/// overlapping, replaced by `rep` (`str::replace`).
pub open spec fn replace_all(s: Seq<char>, pat: Seq<char>, rep: Seq<char>) -> Seq<char>
    decreases s.len(),
{
    if pat.len() == 0 || s.len() < pat.len() {
        s
    } else if s.take(pat.len() as int) == pat {
        rep + replace_all(s.skip(pat.len() as int), pat, rep)
    } else {
        seq![s[0]] + replace_all(s.drop_first(), pat, rep)
    }
}

/// Replaces every occurrence of the non-empty `pat` in `s` by `rep`.
pub fn replace_all_str(s: &str, pat: &str, rep: &str) -> (r: String)
    requires
        pat@.len() > 0,
    ensures
        r@ == replace_all(s@, pat@, rep@),
{
    let cs = chars_of(s);
    let cp = chars_of(pat);
    let mut out = String::new();
    let mut i: usize = 0;
    assert(cs@.skip(0) =~= cs@);
    while i < cs.len()
        invariant
            cs@ == s@,
            cp@ == pat@,
            cp@.len() > 0,
            i <= cs@.len(),
            out@ + replace_all(cs@.skip(i as int), cp@, rep@) == replace_all(s@, pat@, rep@),
        decreases cs.len() - i,
    {
        let ghost rest = cs@.skip(i as int);
        if chars_occurs_at(cs.as_slice(), cp.as_slice(), i) {
            assert(rest.take(cp@.len() as int) =~= cs@.subrange(i as int, i + cp@.len()));
            assert(rest.skip(cp@.len() as int) =~= cs@.skip(i + cp@.len()));
            let ghost before = out@;
            push_str(&mut out, rep);
            assert(out@ + replace_all(cs@.skip(i + cp@.len()), cp@, rep@) =~= before + (rep@
                + replace_all(rest.skip(cp@.len() as int), cp@, rep@)));
            i = i + cp.len();
        } else {
            let ghost before = out@;
            push_char(&mut out, cs[i]);
            proof {
                assert(rest.drop_first() =~= cs@.skip(i + 1));
                assert(rest[0] == cs@[i as int]);
                if rest.len() >= cp@.len() {
                    assert(rest.take(cp@.len() as int) =~= cs@.subrange(i as int, i + cp@.len()));
                    assert(out@ + replace_all(cs@.skip(i + 1), cp@, rep@) =~= before + (seq![rest[0]]
                        + replace_all(rest.drop_first(), cp@, rep@)));
                } else {
                    assert(replace_all(rest, cp@, rep@) == rest);
                    assert(replace_all(cs@.skip(i + 1), cp@, rep@) == cs@.skip(i + 1));
                    assert(rest =~= seq![rest[0]] + cs@.skip(i + 1));
                    assert(out@ + replace_all(cs@.skip(i + 1), cp@, rep@) =~= before + rest);
                }
            }
            i = i + 1;
        }
    }
    assert(cs@.skip(i as int).len() == 0);
    assert(out@ + replace_all(cs@.skip(i as int), cp@, rep@) =~= out@);
    out
}

/// What the locale rules report for a page URL whose path carries a locale
/// segment.
#[derive(Debug, Clone)]
pub struct LocalePathFindings {
    /// The URL's path plus `?query` (`/` when it does not parse).
    pub url_path_query: String,
    /// The locale-shaped path segment.
    pub segment: String,
    pub validation: LocaleValidation,
    /// For a separator problem: the segment with `_` replaced by `-`, and the
    /// path-plus-query with that segment replaced.
    pub separator_fix: Option<(String, String)>,
    /// For a case problem: the corrected segment, and the path-plus-query
    /// with the segment replaced by it.
    pub case_fix: Option<(String, String)>,
    /// For an unknown code: the unknown subtag (the segment when there is none).
    pub unknown_subtag: Option<String>,
}

/// The findings of the locale rules for a page URL (see `LocalePathFindings`).
pub open spec fn locale_findings_ok(url: Seq<char>, r: Option<LocalePathFindings>) -> bool {
    match url_parts_of(url) {
        None => r is None,
        Some(u) => match detected_locale(u.path) {
            None => r is None,
            Some((seg, v)) => match r {
                None => false,
                Some(f) => {
                    let pq = match path_query_spec(url) {
                        Some(x) => x,
                        None => "/"@,
                    };
                    &&& f.url_path_query@ == pq
                    &&& f.segment@ == seg
                    &&& f.validation@ == v
                    &&& match f.separator_fix {
                        Some((e, c)) => v.separator_invalid && e@ == replace_all(seg, "_"@, "-"@) && c@
                            == replace_all(pq, seg, replace_all(seg, "_"@, "-"@)),
                        None => !v.separator_invalid,
                    }
                    &&& match f.case_fix {
                        Some((e, c)) => v.case_invalid && e@ == v.corrected_segment && c@ == replace_all(
                            pq,
                            seg,
                            v.corrected_segment,
                        ),
                        None => !v.case_invalid,
                    }
                    &&& match f.unknown_subtag {
                        Some(t) => v.unknown && t@ == match v.unknown_subtag {
                            Some(x) => x,
                            None => seg,
                        },
                        None => !v.unknown,
                    }
                },
            },
        },
    }
}

/// Applies the locale rules to a page's final URL: finds the locale segment
/// of its path and computes what each failing rule reports.
pub fn locale_path_findings(new_final_url: &str) -> (r: Option<LocalePathFindings>)
    ensures
        locale_findings_ok(new_final_url@, r),
{
    let u = match parse_url(new_final_url) {
        Some(u) => u,
        None => return None,
    };
    let (seg, validation) = match detect_locale_in_path(u.path.as_str()) {
        Some(d) => d,
        None => return None,
    };
    proof {
        reveal_strlit("/");
        reveal_strlit("_");
        reveal_strlit("-");
    }
    let pq = match url_path_query(new_final_url) {
        Some(x) => x,
        None => to_owned_string("/"),
    };
    assert(crate::locale::path_segments(u.path@).contains(seg@)) by {
        let segs = crate::locale::path_segments(u.path@);
        if segs.len() > 0 && crate::locale::locale_shape_of(segs[0]) is Some {
            assert(segs[0] == seg@);
        } else {
            assert(segs[1] == seg@);
        }
    }
    proof {
        crate::locale::lemma_path_segments_nonempty(u.path@);
    }
    let separator_fix = if validation.separator_invalid {
        let expected = replace_all_str(seg.as_str(), "_", "-");
        let corrected = replace_all_str(pq.as_str(), seg.as_str(), expected.as_str());
        Some((expected, corrected))
    } else {
        None
    };
    let case_fix = if validation.case_invalid {
        let expected = validation.corrected_segment.clone();
        let corrected = replace_all_str(pq.as_str(), seg.as_str(), expected.as_str());
        Some((expected, corrected))
    } else {
        None
    };
    let unknown_subtag = if validation.unknown {
        match &validation.unknown_subtag {
            Some(t) => Some(t.clone()),
            None => Some(seg.clone()),
        }
    } else {
        None
    };
    Some(
        LocalePathFindings {
            url_path_query: pq,
            segment: seg,
            validation,
            separator_fix,
            case_fix,
            unknown_subtag,
        },
    )
}


// ---------------------------------------------------------------------------
// Locale issues
// ---------------------------------------------------------------------------

/// The anchors of a page-level URL issue: only the path plus query.
pub open spec fn path_anchors(pq: String) -> Anchors {
    Anchors {
        text: None,
        role: None,
        href: Some(pq),
        alt: None,
        aria_label: None,
        nearest_heading: None,
        landmark: None,
        ordinal_in_landmark: None,
    }
}

/// A locator naming no node.
pub open spec fn is_page_locator(l: Locator) -> bool {
    &&& l.css_selector_old is None
    &&& l.css_selector_new is None
    &&& l.bbox_old is None
    &&& l.bbox_new is None
    &&& l.seq_index_old is None
    &&& l.seq_index_new is None
}

/// The types of the locale issues, in report order: separator, case, unknown.
pub open spec fn locale_draft_types(f: LocalePathFindings) -> Seq<IssueType> {
    (if f.separator_fix is Some {
        seq![IssueType::LocaleSeparatorInvalid]
    } else {
        seq![]
    }) + (if f.case_fix is Some {
        seq![IssueType::LocaleCaseInvalid]
    } else {
        seq![]
    }) + (if f.unknown_subtag is Some {
        seq![IssueType::LocaleUnknown]
    } else {
        seq![]
    })
}

/// The remediation of a locale rewrite: grep for the segment, rewrite the
/// path plus query.
pub open spec fn locale_rewrite(seg: Seq<char>, from: Seq<char>, to: Seq<char>, note: Seq<char>) -> Seq<
    (Seq<char>, crate::drafts::LeafModel),
> {
    seq![
        text_leaf("action"@, "rewrite_url"@),
        text_leaf("findBy.grep.0"@, seg),
        text_leaf("from"@, from),
        text_leaf("to"@, to),
        text_leaf("note"@, note),
    ]
}

/// The locale issue of type `t` for findings `f` on the page `url`.
pub open spec fn locale_draft_ok(
    d: IssueDraft,
    t: IssueType,
    f: LocalePathFindings,
    url: Seq<char>,
    viewport: Seq<char>,
    profile: SeverityProfile,
    lang: Option<Seq<char>>,
) -> bool {
    let seg = f.segment@;
    let pq = f.url_path_query@;
    &&& draft_head(d, t, IssueCategory::Hygiene, profile, viewport, lang, Some("G6"@), path_anchors(f.url_path_query))
    &&& is_page_locator(d.locator)
    &&& match t {
        IssueType::LocaleSeparatorInvalid => match f.separator_fix {
            Some((e, c)) => {
                &&& d.message@ == "Locale separator invalid in segment '"@ + seg
                    + "': use hyphen not underscore"@
                &&& fields_view(d.evidence@) == seq![
                    text_leaf("new.url"@, url),
                    text_leaf("new.localeSegment"@, seg),
                    text_leaf("new.expected"@, e@),
                ]
                &&& match d.remediation {
                    Some(rm) => fields_view(rm@) == locale_rewrite(
                        seg,
                        pq,
                        c@,
                        "Locale separator should be a hyphen (-), not underscore (_). Update all references."@,
                    ),
                    None => false,
                }
            },
            None => false,
        },
        IssueType::LocaleCaseInvalid => match f.case_fix {
            Some((e, c)) => {
                &&& d.message@ == "Locale case invalid in segment '"@ + seg + "': expected '"@ + e@ + "'"@
                &&& fields_view(d.evidence@) == seq![
                    text_leaf("new.url"@, url),
                    text_leaf("new.localeSegment"@, seg),
                    text_leaf("new.expected"@, e@),
                ]
                &&& match d.remediation {
                    Some(rm) => fields_view(rm@) == locale_rewrite(
                        seg,
                        pq,
                        c@,
                        "Locale segment case is invalid. Language code must be lowercase, region code must be uppercase (e.g. es-MX)."@,
                    ),
                    None => false,
                }
            },
            None => false,
        },
        IssueType::LocaleUnknown => match f.unknown_subtag {
            Some(u) => {
                &&& d.message@ == "Unknown locale subtag '"@ + u@ + "' in segment '"@ + seg + "'"@
                &&& fields_view(d.evidence@) == seq![
                    text_leaf("new.url"@, url),
                    text_leaf("new.localeSegment"@, seg),
                    text_leaf("new.unknownSubtag"@, u@),
                ]
                &&& d.remediation is None
            },
            None => false,
        },
        _ => false,
    }
}

/// The locale issues for findings `f`, one per failing rule, in report order.
pub open spec fn locale_drafts_ok(
    r: Seq<IssueDraft>,
    f: LocalePathFindings,
    url: Seq<char>,
    viewport: Seq<char>,
    profile: SeverityProfile,
    lang: Option<Seq<char>>,
) -> bool {
    let ts = locale_draft_types(f);
    &&& r.len() == ts.len()
    &&& forall|k: int| 0 <= k < r.len() ==> locale_draft_ok(#[trigger] r[k], ts[k], f, url, viewport, profile, lang)
}

fn page_locator(pq: &String) -> (l: Locator)
    ensures
        l.anchors == path_anchors(*pq),
        is_page_locator(l),
{
    let anchors = Anchors {
        text: None,
        role: None,
        href: Some(pq.clone()),
        alt: None,
        aria_label: None,
        nearest_heading: None,
        landmark: None,
        ordinal_in_landmark: None,
    };
    null_locator(anchors)
}

fn rewrite_fields(seg: &str, from: &str, to: &str, note: &str) -> (r: Vec<crate::drafts::JsonField>)
    ensures
        fields_view(r@) == locale_rewrite(seg@, from@, to@, note@),
{
    let mut v = Vec::new();
    v.push(text_field("action", "rewrite_url"));
    v.push(text_field("findBy.grep.0", seg));
    v.push(text_field("from", from));
    v.push(text_field("to", to));
    v.push(text_field("note", note));
    assert(fields_view(v@) =~= locale_rewrite(seg@, from@, to@, note@));
    v
}

fn locale_evidence(url: &str, seg: &str, key: &str, v: &str) -> (r: Vec<crate::drafts::JsonField>)
    ensures
        fields_view(r@) == seq![
            text_leaf("new.url"@, url@),
            text_leaf("new.localeSegment"@, seg@),
            text_leaf(key@, v@),
        ],
{
    let mut out = Vec::new();
    out.push(text_field("new.url", url));
    out.push(text_field("new.localeSegment", seg));
    out.push(text_field(key, v));
    assert(fields_view(out@) =~= seq![
        text_leaf("new.url"@, url@),
        text_leaf("new.localeSegment"@, seg@),
        text_leaf(key@, v@),
    ]);
    out
}

fn locale_draft(
    t: IssueType,
    f: &LocalePathFindings,
    url: &str,
    viewport: &str,
    profile: &SeverityProfile,
    new_lang: &Option<String>,
) -> (d: IssueDraft)
    requires
        locale_draft_types(*f).contains(t),
    ensures
        locale_draft_ok(d, t, *f, url@, viewport@, *profile, crate::contract::opt_view(*new_lang)),
{
    let seg = f.segment.as_str();
    let pq = f.url_path_query.as_str();
    let locator = page_locator(&f.url_path_query);
    match t {
        IssueType::LocaleSeparatorInvalid => {
            let (e, c) = match &f.separator_fix {
                Some(x) => x,
                None => {
                    return make_draft(t, IssueCategory::Hygiene, profile, viewport, new_lang, Some("G6"), String::new(), locator, Vec::new(), None);
                },
            };
            let message = concat3("Locale separator invalid in segment '", seg, "': use hyphen not underscore");
            let evidence = locale_evidence(url, seg, "new.expected", e.as_str());
            let rm = rewrite_fields(
                seg,
                pq,
                c.as_str(),
                "Locale separator should be a hyphen (-), not underscore (_). Update all references.",
            );
            make_draft(t, IssueCategory::Hygiene, profile, viewport, new_lang, Some("G6"), message, locator, evidence, Some(rm))
        },
        IssueType::LocaleCaseInvalid => {
            let (e, c) = match &f.case_fix {
                Some(x) => x,
                None => {
                    return make_draft(t, IssueCategory::Hygiene, profile, viewport, new_lang, Some("G6"), String::new(), locator, Vec::new(), None);
                },
            };
            let mut message = concat3("Locale case invalid in segment '", seg, "': expected '");
            push_str(&mut message, e.as_str());
            push_str(&mut message, "'");
            let evidence = locale_evidence(url, seg, "new.expected", e.as_str());
            let rm = rewrite_fields(
                seg,
                pq,
                c.as_str(),
                "Locale segment case is invalid. Language code must be lowercase, region code must be uppercase (e.g. es-MX).",
            );
            make_draft(t, IssueCategory::Hygiene, profile, viewport, new_lang, Some("G6"), message, locator, evidence, Some(rm))
        },
        IssueType::LocaleUnknown => {
            let u = match &f.unknown_subtag {
                Some(x) => x,
                None => {
                    return make_draft(t, IssueCategory::Hygiene, profile, viewport, new_lang, Some("G6"), String::new(), locator, Vec::new(), None);
                },
            };
            let mut message = concat3("Unknown locale subtag '", u.as_str(), "' in segment '");
            push_str(&mut message, seg);
            push_str(&mut message, "'");
            let evidence = locale_evidence(url, seg, "new.unknownSubtag", u.as_str());
            make_draft(t, IssueCategory::Hygiene, profile, viewport, new_lang, Some("G6"), message, locator, evidence, None)
        },
        _ => make_draft(t, IssueCategory::Hygiene, profile, viewport, new_lang, Some("G6"), String::new(), locator, Vec::new(), None),
    }
}

/// The locale issues of a page: for a final URL whose path carries a locale
/// segment, one issue per failing rule (separator, then case, then unknown
/// code); none otherwise.
pub fn check_locale_path(
    new_final_url: &str,
    viewport: &str,
    profile: &SeverityProfile,
    new_lang: &Option<String>,
) -> (r: Vec<IssueDraft>)
    ensures
        locale_findings_ok(new_final_url@, None) ==> r@.len() == 0,
        !locale_findings_ok(new_final_url@, None) ==> exists|f: LocalePathFindings|
            locale_findings_ok(new_final_url@, Some(f)) && locale_drafts_ok(
                r@,
                f,
                new_final_url@,
                viewport@,
                *profile,
                crate::contract::opt_view(*new_lang),
            ),
{
    let f = match locale_path_findings(new_final_url) {
        Some(f) => f,
        None => return Vec::new(),
    };
    let ghost ts = locale_draft_types(f);
    let ghost lang = crate::contract::opt_view(*new_lang);
    let ghost a: Seq<IssueType> = if f.separator_fix is Some {
        seq![IssueType::LocaleSeparatorInvalid]
    } else {
        seq![]
    };
    let ghost b: Seq<IssueType> = if f.case_fix is Some {
        seq![IssueType::LocaleCaseInvalid]
    } else {
        seq![]
    };
    let ghost c: Seq<IssueType> = if f.unknown_subtag is Some {
        seq![IssueType::LocaleUnknown]
    } else {
        seq![]
    };
    assert(ts == a + b + c);
    let mut out: Vec<IssueDraft> = Vec::new();
    if f.separator_fix.is_some() {
        assert(ts[0] == IssueType::LocaleSeparatorInvalid);
        let d = locale_draft(IssueType::LocaleSeparatorInvalid, &f, new_final_url, viewport, profile, new_lang);
        out.push(d);
    }
    assert(out@.len() == a.len());
    assert(forall|k: int| 0 <= k < out@.len() ==> locale_draft_ok(#[trigger] out@[k], ts[k], f, new_final_url@, viewport@, *profile, lang));
    if f.case_fix.is_some() {
        assert(ts[a.len() as int] == IssueType::LocaleCaseInvalid);
        let d = locale_draft(IssueType::LocaleCaseInvalid, &f, new_final_url, viewport, profile, new_lang);
        out.push(d);
    }
    assert(out@.len() == a.len() + b.len());
    assert(forall|k: int| 0 <= k < out@.len() ==> locale_draft_ok(#[trigger] out@[k], ts[k], f, new_final_url@, viewport@, *profile, lang));
    if f.unknown_subtag.is_some() {
        assert(ts[(a.len() + b.len()) as int] == IssueType::LocaleUnknown);
        let d = locale_draft(IssueType::LocaleUnknown, &f, new_final_url, viewport, profile, new_lang);
        out.push(d);
    }
    assert(out@.len() == ts.len());
    assert(forall|k: int| 0 <= k < out@.len() ==> locale_draft_ok(#[trigger] out@[k], ts[k], f, new_final_url@, viewport@, *profile, lang));
    assert(locale_drafts_ok(out@, f, new_final_url@, viewport@, *profile, lang));
    out
}

} // verus!

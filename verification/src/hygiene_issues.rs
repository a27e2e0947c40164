//! The URL-hygiene issues of a page pair: status parity (which, when it
//! fires, is the only issue), trailing slashes, redirect chains, protocol
//! downgrades, canonical mismatch, locale paths, per-link trailing slashes and
//! per-link redirect chains, in that order.
use vstd::prelude::*;

use crate::config::{TrailingSlashPolicy, DEFAULT_TRAILING_SLASH_POLICY};
use crate::contract::{opt_view, Anchors, IssueCategory, IssueType, LinkProbe, Locator, SemanticNode};
use crate::drafts::{
    draft_head, fields_view, is_new_node_locator, make_draft, text_field, text_leaf, IssueDraft, JsonField,
    JsonLeaf, LeafModel, SeverityProfile,
};
use crate::hygiene::{
    check_locale_path, is_page_locator, locale_drafts_ok, locale_findings_ok, LocalePathFindings, path_query_spec, trailing_slash_rewrite, trailing_slash_rewrite_spec,
    trailing_slash_violation, url_path_query,
};
use crate::hygiene_checks::{
    canonical_mismatch, canonical_mismatch_spec, check_per_link_protocol_downgrade, downgrade_draft_ok,
    downgrade_order, https_twin, idx_before, is_2xx, links_to, page_site, protocol_downgrade_spec,
    protocol_downgraded, status_parity_fires,
    per_link_trailing_slashes, probe_redirect_fires, probe_redirect_spec, redirect_owner, report_order, slash_fires,
    without_scheme,
};
use crate::a11y_diff::{target_fields, target_leaves};
use crate::text::{lemma_seq_lt_transitive, lemma_seq_lt_trichotomy, seq_lt, str_compare};
use crate::network_diff::{anchors_of_node, node_to_anchors, null_locator, single_node_locator};
use crate::text::{dec, dec_string, push_str, replace_first_str, to_owned_string, trim_start_all_str};

verus! {

/// What the hygiene checks read of one capture.
#[derive(Debug, Clone)]
pub struct HygienePage {
    /// The URL that was requested.
    pub url: String,
    pub final_url: String,
    pub status_code: u32,
    pub redirect_chain: Vec<String>,
    pub canonical: Option<String>,
    pub nodes: Vec<SemanticNode>,
    pub link_probes: Vec<LinkProbe>,
    pub lang: Option<String>,
}

/// A URL's path plus query, or `/` when it does not parse.
pub open spec fn pq_or_root(url: Seq<char>) -> Seq<char> {
    match path_query_spec(url) {
        Some(x) => x,
        None => "/"@,
    }
}

fn pq_or_root_exec(url: &str) -> (r: String)
    ensures
        r@ == pq_or_root(url@),
{
    match url_path_query(url) {
        Some(x) => x,
        None => to_owned_string("/"),
    }
}

/// Anchors holding only an href with the text `pq`.
pub open spec fn is_path_anchors(a: Anchors, pq: Seq<char>) -> bool {
    &&& a.text is None
    &&& a.role is None
    &&& opt_view(a.href) == Some(pq)
    &&& a.alt is None
    &&& a.aria_label is None
    &&& a.nearest_heading is None
    &&& a.landmark is None
    &&& a.ordinal_in_landmark is None
}

fn path_locator(pq: &str) -> (l: Locator)
    ensures
        is_path_anchors(l.anchors, pq@),
        is_page_locator(l),
{
    let anchors = Anchors {
        text: None,
        role: None,
        href: Some(to_owned_string(pq)),
        alt: None,
        aria_label: None,
        nearest_heading: None,
        landmark: None,
        ordinal_in_landmark: None,
    };
    null_locator(anchors)
}

fn push_leaf(out: &mut Vec<JsonField>, f: JsonField)
    ensures
        fields_view(final(out)@) == fields_view(old(out)@).push(f@),
{
    out.push(f);
    assert(fields_view(out@) =~= fields_view(old(out)@).push(f@));
}

// ---------------------------------------------------------------------------
// Status parity
// ---------------------------------------------------------------------------

/// The status-parity issue.
pub open spec fn status_draft_ok(
    d: IssueDraft,
    old: HygienePage,
    new: HygienePage,
    viewport: Seq<char>,
    profile: SeverityProfile,
) -> bool {
    let pq = pq_or_root(new.final_url@);
    &&& draft_head(
        d,
        IssueType::StatusCodeMismatch,
        IssueCategory::Technical,
        profile,
        viewport,
        opt_view(new.lang),
        None,
        d.locator.anchors,
    )
    &&& is_path_anchors(d.locator.anchors, pq)
    &&& is_page_locator(d.locator)
    &&& d.message@ == "Status code mismatch: old="@ + dec(old.status_code as nat) + " new="@ + dec(
        new.status_code as nat,
    )
    &&& fields_view(d.evidence@) == seq![
        ("old.statusCode"@, LeafModel::Number(old.status_code as i64)),
        text_leaf("old.url"@, old.final_url@),
        ("new.statusCode"@, LeafModel::Number(new.status_code as i64)),
        text_leaf("new.url"@, new.final_url@),
    ]
    &&& match d.remediation {
        Some(rm) => fields_view(rm@) == seq![
            text_leaf("action"@, "fix_route"@),
            text_leaf("findBy.grep.0"@, pq),
            text_leaf("from"@, dec(new.status_code as nat)),
            text_leaf("to"@, "200"@),
            text_leaf(
                "note"@,
                "New page returns a non-2xx status while old page returned 2xx. Fix the route or content to return 200."@,
            ),
        ],
        None => false,
    }
}

fn status_draft(old: &HygienePage, new: &HygienePage, viewport: &str, profile: &SeverityProfile) -> (d: IssueDraft)
    ensures
        status_draft_ok(d, *old, *new, viewport@, *profile),
{
    let pq = pq_or_root_exec(new.final_url.as_str());
    let locator = path_locator(pq.as_str());
    let mut ev: Vec<JsonField> = Vec::new();
    push_leaf(
        &mut ev,
        JsonField { path: to_owned_string("old.statusCode"), value: JsonLeaf::Number(old.status_code as i64) },
    );
    push_leaf(&mut ev, text_field("old.url", old.final_url.as_str()));
    push_leaf(
        &mut ev,
        JsonField { path: to_owned_string("new.statusCode"), value: JsonLeaf::Number(new.status_code as i64) },
    );
    push_leaf(&mut ev, text_field("new.url", new.final_url.as_str()));
    let new_status = dec_string(new.status_code as u64);
    let mut rm: Vec<JsonField> = Vec::new();
    push_leaf(&mut rm, text_field("action", "fix_route"));
    push_leaf(&mut rm, text_field("findBy.grep.0", pq.as_str()));
    push_leaf(&mut rm, text_field("from", new_status.as_str()));
    push_leaf(&mut rm, text_field("to", "200"));
    push_leaf(
        &mut rm,
        text_field(
            "note",
            "New page returns a non-2xx status while old page returned 2xx. Fix the route or content to return 200.",
        ),
    );
    assert(fields_view(rm@) =~= seq![
        text_leaf("action"@, "fix_route"@),
        text_leaf("findBy.grep.0"@, pq@),
        text_leaf("from"@, dec(new.status_code as nat)),
        text_leaf("to"@, "200"@),
        text_leaf(
            "note"@,
            "New page returns a non-2xx status while old page returned 2xx. Fix the route or content to return 200."@,
        ),
    ]);
    let mut message = to_owned_string("Status code mismatch: old=");
    push_str(&mut message, dec_string(old.status_code as u64).as_str());
    push_str(&mut message, " new=");
    push_str(&mut message, new_status.as_str());
    assert(fields_view(ev@) =~= seq![
        ("old.statusCode"@, LeafModel::Number(old.status_code as i64)),
        text_leaf("old.url"@, old.final_url@),
        ("new.statusCode"@, LeafModel::Number(new.status_code as i64)),
        text_leaf("new.url"@, new.final_url@),
    ]);
    make_draft(
        IssueType::StatusCodeMismatch,
        IssueCategory::Technical,
        profile,
        viewport,
        &new.lang,
        None,
        message,
        locator,
        ev,
        Some(rm),
    )
}

// ---------------------------------------------------------------------------
// Page-level protocol downgrade
// ---------------------------------------------------------------------------

/// The page-level protocol-downgrade issue.
pub open spec fn page_downgrade_draft_ok(
    d: IssueDraft,
    old: HygienePage,
    new: HygienePage,
    viewport: Seq<char>,
    profile: SeverityProfile,
) -> bool {
    let nu = new.final_url@;
    let ou = old.final_url@;
    &&& draft_head(
        d,
        IssueType::UrlProtocolDowngrade,
        IssueCategory::Hygiene,
        profile,
        viewport,
        opt_view(new.lang),
        Some("G5"@),
        d.locator.anchors,
    )
    &&& is_path_anchors(d.locator.anchors, pq_or_root(nu))
    &&& is_page_locator(d.locator)
    &&& d.message@ == "Protocol downgrade: old="@ + ou + " new="@ + nu
    &&& fields_view(d.evidence@) == seq![text_leaf("old.url"@, ou), text_leaf("new.url"@, nu)]
    &&& match d.remediation {
        Some(rm) => fields_view(rm@) == seq![
            text_leaf("action"@, "rewrite_url"@),
            text_leaf("findBy.grep.0"@, without_scheme(nu)),
            text_leaf("from"@, nu),
            text_leaf("to"@, https_twin(nu)),
            text_leaf("note"@, "New page uses HTTP where old page used HTTPS. Update to HTTPS."@),
        ],
        None => false,
    }
}

fn page_downgrade_draft(
    old: &HygienePage,
    new: &HygienePage,
    viewport: &str,
    profile: &SeverityProfile,
) -> (d: IssueDraft)
    ensures
        page_downgrade_draft_ok(d, *old, *new, viewport@, *profile),
{
    let nu = new.final_url.as_str();
    let ou = old.final_url.as_str();
    let pq = pq_or_root_exec(nu);
    let locator = path_locator(pq.as_str());
    let https = replace_first_str(nu, "http://", "https://");
    let plain = trim_start_all_str(nu, "http://");
    let bare = trim_start_all_str(plain.as_str(), "https://");
    let mut ev: Vec<JsonField> = Vec::new();
    push_leaf(&mut ev, text_field("old.url", ou));
    push_leaf(&mut ev, text_field("new.url", nu));
    let mut rm: Vec<JsonField> = Vec::new();
    push_leaf(&mut rm, text_field("action", "rewrite_url"));
    push_leaf(&mut rm, text_field("findBy.grep.0", bare.as_str()));
    push_leaf(&mut rm, text_field("from", nu));
    push_leaf(&mut rm, text_field("to", https.as_str()));
    push_leaf(&mut rm, text_field("note", "New page uses HTTP where old page used HTTPS. Update to HTTPS."));
    assert(fields_view(ev@) =~= seq![text_leaf("old.url"@, ou@), text_leaf("new.url"@, nu@)]);
    assert(fields_view(rm@) =~= seq![
        text_leaf("action"@, "rewrite_url"@),
        text_leaf("findBy.grep.0"@, without_scheme(nu@)),
        text_leaf("from"@, nu@),
        text_leaf("to"@, https_twin(nu@)),
        text_leaf("note"@, "New page uses HTTP where old page used HTTPS. Update to HTTPS."@),
    ]);
    let mut message = to_owned_string("Protocol downgrade: old=");
    push_str(&mut message, ou);
    push_str(&mut message, " new=");
    push_str(&mut message, nu);
    make_draft(
        IssueType::UrlProtocolDowngrade,
        IssueCategory::Hygiene,
        profile,
        viewport,
        &new.lang,
        Some("G5"),
        message,
        locator,
        ev,
        Some(rm),
    )
}

// ---------------------------------------------------------------------------
// Canonical mismatch
// ---------------------------------------------------------------------------

/// The canonical check's verdict for the page pair.
pub open spec fn canonical_verdict(old: HygienePage, new: HygienePage) -> Option<(Seq<char>, Seq<char>)> {
    canonical_mismatch_spec(opt_view(old.canonical), opt_view(new.canonical), new.final_url@, DEFAULT_TRAILING_SLASH_POLICY)
}

/// The canonical-mismatch issue for the resolved canonical `cr` and the
/// normalised final URL `fnorm`.
pub open spec fn canonical_draft_ok(
    d: IssueDraft,
    old: HygienePage,
    new: HygienePage,
    cr: Seq<char>,
    fnorm: Seq<char>,
    viewport: Seq<char>,
    profile: SeverityProfile,
) -> bool {
    &&& draft_head(
        d,
        IssueType::CanonicalMismatch,
        IssueCategory::Hygiene,
        profile,
        viewport,
        opt_view(new.lang),
        Some("G5"@),
        d.locator.anchors,
    )
    &&& is_path_anchors(d.locator.anchors, pq_or_root(new.final_url@))
    &&& is_page_locator(d.locator)
    &&& d.message@ == "Canonical URL mismatch: canonical resolves to "@ + cr + " but final URL is "@ + fnorm
    &&& fields_view(d.evidence@) == seq![
        text_leaf(
            "old.canonical"@,
            match old.canonical {
                Some(c) => c@,
                None => seq![],
            },
        ),
        text_leaf(
            "new.canonical"@,
            match new.canonical {
                Some(c) => c@,
                None => seq![],
            },
        ),
        text_leaf("new.canonicalResolved"@, cr),
        text_leaf("new.finalUrl"@, new.final_url@),
    ]
    &&& match d.remediation {
        Some(rm) => fields_view(rm@) == seq![
            text_leaf("action"@, "update_canonical"@),
            text_leaf("findBy.grep.0"@, "rel=\"canonical\""@),
            text_leaf("from"@, cr),
            text_leaf("to"@, fnorm),
            text_leaf(
                "note"@,
                "The canonical URL does not match the final URL. Update the canonical tag to point to the correct URL."@,
            ),
        ],
        None => false,
    }
}

/// The canonical issues: one when the canonical check finds a mismatch.
pub open spec fn canonical_drafts_ok(
    r: Seq<IssueDraft>,
    old: HygienePage,
    new: HygienePage,
    viewport: Seq<char>,
    profile: SeverityProfile,
) -> bool {
    match canonical_verdict(old, new) {
        None => r.len() == 0,
        Some((cr, fnorm)) => r.len() == 1 && canonical_draft_ok(r[0], old, new, cr, fnorm, viewport, profile),
    }
}

fn opt_str(o: &Option<String>) -> (r: Option<&str>)
    ensures
        match r {
            Some(s) => o matches Some(t) && s@ == t@,
            None => o is None,
        },
{
    match o {
        Some(s) => Some(s.as_str()),
        None => None,
    }
}

fn text_or_empty(o: &Option<String>) -> (r: &str)
    ensures
        r@ == match o {
            Some(c) => c@,
            None => Seq::<char>::empty(),
        },
{
    proof {
        reveal_strlit("");
    }
    match o {
        Some(s) => s.as_str(),
        None => "",
    }
}

/// The canonical-mismatch issues of the page pair (none or one).
pub fn canonical_issues(
    old: &HygienePage,
    new: &HygienePage,
    viewport: &str,
    profile: &SeverityProfile,
) -> (r: Vec<IssueDraft>)
    ensures
        canonical_drafts_ok(r@, *old, *new, viewport@, *profile),
{
    let oc = opt_str(&old.canonical);
    let nc = opt_str(&new.canonical);
    let verdict = canonical_mismatch(oc, nc, new.final_url.as_str(), DEFAULT_TRAILING_SLASH_POLICY);
    assert(opt_view(old.canonical) == match oc {
        Some(s) => Some(s@),
        None => None::<Seq<char>>,
    });
    assert(opt_view(new.canonical) == match nc {
        Some(s) => Some(s@),
        None => None::<Seq<char>>,
    });
    let (cr, fnorm) = match verdict {
        Some(x) => x,
        None => return Vec::new(),
    };
    let pq = pq_or_root_exec(new.final_url.as_str());
    let locator = path_locator(pq.as_str());
    let mut ev: Vec<JsonField> = Vec::new();
    push_leaf(&mut ev, text_field("old.canonical", text_or_empty(&old.canonical)));
    push_leaf(&mut ev, text_field("new.canonical", text_or_empty(&new.canonical)));
    push_leaf(&mut ev, text_field("new.canonicalResolved", cr.as_str()));
    push_leaf(&mut ev, text_field("new.finalUrl", new.final_url.as_str()));
    let mut rm: Vec<JsonField> = Vec::new();
    push_leaf(&mut rm, text_field("action", "update_canonical"));
    push_leaf(&mut rm, text_field("findBy.grep.0", "rel=\"canonical\""));
    push_leaf(&mut rm, text_field("from", cr.as_str()));
    push_leaf(&mut rm, text_field("to", fnorm.as_str()));
    push_leaf(
        &mut rm,
        text_field(
            "note",
            "The canonical URL does not match the final URL. Update the canonical tag to point to the correct URL.",
        ),
    );
    assert(fields_view(ev@) =~= seq![
        text_leaf(
            "old.canonical"@,
            match old.canonical {
                Some(c) => c@,
                None => seq![],
            },
        ),
        text_leaf(
            "new.canonical"@,
            match new.canonical {
                Some(c) => c@,
                None => seq![],
            },
        ),
        text_leaf("new.canonicalResolved"@, cr@),
        text_leaf("new.finalUrl"@, new.final_url@),
    ]);
    assert(fields_view(rm@) =~= seq![
        text_leaf("action"@, "update_canonical"@),
        text_leaf("findBy.grep.0"@, "rel=\"canonical\""@),
        text_leaf("from"@, cr@),
        text_leaf("to"@, fnorm@),
        text_leaf(
            "note"@,
            "The canonical URL does not match the final URL. Update the canonical tag to point to the correct URL."@,
        ),
    ]);
    let mut message = to_owned_string("Canonical URL mismatch: canonical resolves to ");
    push_str(&mut message, cr.as_str());
    push_str(&mut message, " but final URL is ");
    push_str(&mut message, fnorm.as_str());
    let d = make_draft(
        IssueType::CanonicalMismatch,
        IssueCategory::Hygiene,
        profile,
        viewport,
        &new.lang,
        Some("G5"),
        message,
        locator,
        ev,
        Some(rm),
    );
    let mut out = Vec::new();
    out.push(d);
    assert(out@[0] == d);
    out
}

// ---------------------------------------------------------------------------
// Trailing slashes
// ---------------------------------------------------------------------------

/// The policy's name as the evidence spells it.
pub open spec fn policy_name(p: TrailingSlashPolicy) -> Seq<char> {
    match p {
        TrailingSlashPolicy::Never => "never"@,
        TrailingSlashPolicy::Always => "always"@,
        TrailingSlashPolicy::Preserve => "preserve"@,
    }
}

fn policy_name_exec(p: TrailingSlashPolicy) -> (r: &'static str)
    ensures
        r@ == policy_name(p),
{
    match p {
        TrailingSlashPolicy::Never => "never",
        TrailingSlashPolicy::Always => "always",
        TrailingSlashPolicy::Preserve => "preserve",
    }
}

/// The trailing-slash issue for `url` (on link `node`, or page-level).
pub open spec fn slash_draft_ok(
    d: IssueDraft,
    url: Seq<char>,
    node: Option<SemanticNode>,
    policy: TrailingSlashPolicy,
    lang: Option<Seq<char>>,
    viewport: Seq<char>,
    profile: SeverityProfile,
) -> bool {
    match trailing_slash_rewrite_spec(url, policy) {
        None => false,
        Some((path, from, to)) => {
            &&& draft_head(
                d,
                IssueType::UrlTrailingSlash,
                IssueCategory::Hygiene,
                profile,
                viewport,
                lang,
                Some("G5"@),
                d.locator.anchors,
            )
            &&& match node {
                Some(n) => d.locator.anchors == anchors_of_node(n) && is_new_node_locator(d.locator, n),
                None => is_path_anchors(d.locator.anchors, from) && is_page_locator(d.locator),
            }
            &&& d.message@ == "URL has a trailing slash that should not be present: "@ + path
            &&& fields_view(d.evidence@) == seq![
                text_leaf("new.url"@, url),
                text_leaf("new.path"@, path),
                text_leaf("policy"@, policy_name(policy)),
            ]
            &&& match d.remediation {
                Some(rm) => fields_view(rm@) == seq![
                    text_leaf("action"@, "rewrite_url"@),
                    text_leaf("findBy.grep.0"@, from),
                    text_leaf("from"@, from),
                    text_leaf("to"@, to),
                    text_leaf(
                        "note"@,
                        "Trailing slash policy is '"@ + policy_name(policy) + "'. Rewrite the URL to conform."@,
                    ),
                ],
                None => false,
            }
        },
    }
}

fn slash_draft(
    url: &str,
    node: Option<&SemanticNode>,
    policy: TrailingSlashPolicy,
    lang: &Option<String>,
    viewport: &str,
    profile: &SeverityProfile,
) -> (r: Option<IssueDraft>)
    ensures
        match r {
            Some(d) => slash_draft_ok(
                d,
                url@,
                match node {
                    Some(n) => Some(*n),
                    None => None,
                },
                policy,
                opt_view(*lang),
                viewport@,
                *profile,
            ),
            None => trailing_slash_rewrite_spec(url@, policy) is None,
        },
{
    let (path, from, to) = match trailing_slash_rewrite(url, policy) {
        Some(x) => x,
        None => return None,
    };
    let locator = match node {
        Some(n) => single_node_locator(node_to_anchors(n), n),
        None => path_locator(from.as_str()),
    };
    let name = policy_name_exec(policy);
    let mut ev: Vec<JsonField> = Vec::new();
    push_leaf(&mut ev, text_field("new.url", url));
    push_leaf(&mut ev, text_field("new.path", path.as_str()));
    push_leaf(&mut ev, text_field("policy", name));
    assert(fields_view(ev@) =~= seq![
        text_leaf("new.url"@, url@),
        text_leaf("new.path"@, path@),
        text_leaf("policy"@, policy_name(policy)),
    ]);
    let mut note = to_owned_string("Trailing slash policy is '");
    push_str(&mut note, name);
    push_str(&mut note, "'. Rewrite the URL to conform.");
    let mut rm: Vec<JsonField> = Vec::new();
    push_leaf(&mut rm, text_field("action", "rewrite_url"));
    push_leaf(&mut rm, text_field("findBy.grep.0", from.as_str()));
    push_leaf(&mut rm, text_field("from", from.as_str()));
    push_leaf(&mut rm, text_field("to", to.as_str()));
    push_leaf(&mut rm, text_field("note", note.as_str()));
    assert(fields_view(rm@) =~= seq![
        text_leaf("action"@, "rewrite_url"@),
        text_leaf("findBy.grep.0"@, from@),
        text_leaf("from"@, from@),
        text_leaf("to"@, to@),
        text_leaf("note"@, "Trailing slash policy is '"@ + policy_name(policy) + "'. Rewrite the URL to conform."@),
    ]);
    let mut message = to_owned_string("URL has a trailing slash that should not be present: ");
    push_str(&mut message, path.as_str());
    Some(
        make_draft(
            IssueType::UrlTrailingSlash,
            IssueCategory::Hygiene,
            profile,
            viewport,
            lang,
            Some("G5"),
            message,
            locator,
            ev,
            Some(rm),
        ),
    )
}

/// The page-level trailing-slash issues: one when the new page's final URL
/// breaks the default policy (compared with the old page's under
/// `Preserve`).
pub open spec fn page_slash_drafts_ok(
    r: Seq<IssueDraft>,
    old: HygienePage,
    new: HygienePage,
    viewport: Seq<char>,
    profile: SeverityProfile,
) -> bool {
    if trailing_slash_violation(new.final_url@, Some(old.final_url@), DEFAULT_TRAILING_SLASH_POLICY) {
        r.len() == 1 && slash_draft_ok(
            r[0],
            new.final_url@,
            None,
            DEFAULT_TRAILING_SLASH_POLICY,
            opt_view(new.lang),
            viewport,
            profile,
        )
    } else {
        r.len() == 0
    }
}

/// The page-level trailing-slash issues of the page pair (none or one).
pub fn page_slash_issues(
    old: &HygienePage,
    new: &HygienePage,
    viewport: &str,
    profile: &SeverityProfile,
) -> (r: Vec<IssueDraft>)
    ensures
        page_slash_drafts_ok(r@, *old, *new, viewport@, *profile),
{
    let mut out: Vec<IssueDraft> = Vec::new();
    if crate::hygiene::check_trailing_slash_url(
        new.final_url.as_str(),
        Some(old.final_url.as_str()),
        DEFAULT_TRAILING_SLASH_POLICY,
    ) {
        match slash_draft(new.final_url.as_str(), None, DEFAULT_TRAILING_SLASH_POLICY, &new.lang, viewport, profile) {
            Some(d) => {
                out.push(d);
                assert(out@[0] == d);
            },
            None => {},
        }
    }
    out
}

/// The href of a link node (empty without one).
pub open spec fn href_of(n: SemanticNode) -> Seq<char> {
    match n.href {
        Some(h) => h@,
        None => seq![],
    }
}

/// `idx` lists, in report order, the new-page links breaking the default
/// trailing-slash policy with no old link of the same host-stripped form.
pub open spec fn slash_order(
    old: Seq<SemanticNode>,
    new: Seq<SemanticNode>,
    host: Seq<char>,
    port: Option<u16>,
    idx: Seq<usize>,
) -> bool {
    report_order(new, idx, |k: int| slash_fires(old, new[k], host, port, DEFAULT_TRAILING_SLASH_POLICY))
}

/// The per-link trailing-slash issues: one per reported link, in report
/// order, none when the new page's final URL does not parse.
pub open spec fn link_slash_drafts_ok(
    r: Seq<IssueDraft>,
    old: HygienePage,
    new: HygienePage,
    viewport: Seq<char>,
    profile: SeverityProfile,
) -> bool {
    match page_site(new.final_url@) {
        None => r.len() == 0,
        Some((host, port)) => exists|idx: Seq<usize>|
            {
                &&& #[trigger] slash_order(old.nodes@, new.nodes@, host, port, idx)
                &&& r.len() == idx.len()
                &&& forall|p: int|
                    0 <= p < idx.len() ==> slash_draft_ok(
                        #[trigger] r[p],
                        href_of(new.nodes@[idx[p] as int]),
                        Some(new.nodes@[idx[p] as int]),
                        DEFAULT_TRAILING_SLASH_POLICY,
                        opt_view(new.lang),
                        viewport,
                        profile,
                    )
            },
    }
}

/// The per-link trailing-slash issues of the page pair.
pub fn link_slash_issues(
    old: &HygienePage,
    new: &HygienePage,
    viewport: &str,
    profile: &SeverityProfile,
) -> (r: Vec<IssueDraft>)
    ensures
        link_slash_drafts_ok(r@, *old, *new, viewport@, *profile),
{
    let idx = per_link_trailing_slashes(
        old.nodes.as_slice(),
        new.nodes.as_slice(),
        new.final_url.as_str(),
        DEFAULT_TRAILING_SLASH_POLICY,
    );
    proof {
        match page_site(new.final_url@) {
            Some((host, port)) => {
                assert(slash_order(old.nodes@, new.nodes@, host, port, idx@));
                assert forall|p: int| 0 <= p < idx@.len() implies (#[trigger] idx@[p]) < new.nodes@.len()
                    && new.nodes@[idx@[p] as int].href is Some && trailing_slash_rewrite_spec(
                    href_of(new.nodes@[idx@[p] as int]),
                    DEFAULT_TRAILING_SLASH_POLICY,
                ) is Some by {
                    assert(slash_fires(old.nodes@, new.nodes@[idx@[p] as int], host, port, DEFAULT_TRAILING_SLASH_POLICY));
                }
            },
            None => {},
        }
    }
    let mut out: Vec<IssueDraft> = Vec::new();
    let mut p: usize = 0;
    while p < idx.len()
        invariant
            p <= idx@.len(),
            out@.len() == p,
            forall|q: int|
                0 <= q < idx@.len() ==> (#[trigger] idx@[q]) < new.nodes@.len() && new.nodes@[idx@[q] as int].href is Some
                    && trailing_slash_rewrite_spec(
                    href_of(new.nodes@[idx@[q] as int]),
                    DEFAULT_TRAILING_SLASH_POLICY,
                ) is Some,
            forall|q: int|
                0 <= q < p ==> slash_draft_ok(
                    #[trigger] out@[q],
                    href_of(new.nodes@[idx@[q] as int]),
                    Some(new.nodes@[idx@[q] as int]),
                    DEFAULT_TRAILING_SLASH_POLICY,
                    opt_view(new.lang),
                    viewport@,
                    *profile,
                ),
        decreases idx.len() - p,
    {
        let k = idx[p];
        let node = &new.nodes[k];
        let h = match &node.href {
            Some(h) => h.as_str(),
            None => "",
        };
        match slash_draft(h, Some(node), DEFAULT_TRAILING_SLASH_POLICY, &new.lang, viewport, profile) {
            Some(d) => {
                out.push(d);
            },
            None => {
                assert(false);
            },
        }
        p = p + 1;
    }
    out
}

// ---------------------------------------------------------------------------
// Redirect chains
// ---------------------------------------------------------------------------

/// The redirect-chain issue for a request of `requested` that went through
/// `chain` to `final_url`; the anchors and locator are the caller's.
pub open spec fn redirect_draft_ok(
    d: IssueDraft,
    requested: Seq<char>,
    chain: Seq<String>,
    final_url: Seq<char>,
    lang: Option<Seq<char>>,
    viewport: Seq<char>,
    profile: SeverityProfile,
) -> bool {
    &&& draft_head(
        d,
        IssueType::UrlRedirectChain,
        IssueCategory::Hygiene,
        profile,
        viewport,
        lang,
        Some("G5"@),
        d.locator.anchors,
    )
    &&& d.message@ == "URL redirect chain has "@ + dec(chain.len()) + " hops: "@ + requested
    &&& fields_view(d.evidence@) == seq![text_leaf("new.requestedUrl"@, requested)] + target_leaves(
        "new.redirectChain."@,
        chain,
    ) + seq![
        text_leaf("new.finalUrl"@, final_url),
        ("new.hops"@, LeafModel::Number(chain.len() as i64)),
    ]
    &&& match d.remediation {
        Some(rm) => fields_view(rm@) == seq![
            text_leaf("action"@, "update_link_target"@),
            text_leaf("findBy.grep.0"@, pq_or_root(requested)),
            text_leaf("from"@, requested),
            text_leaf("to"@, final_url),
            text_leaf(
                "note"@,
                "Update references to point directly to the final URL, avoiding the redirect chain."@,
            ),
        ],
        None => false,
    }
}

fn redirect_draft(
    requested: &str,
    chain: &Vec<String>,
    final_url: &str,
    locator: Locator,
    lang: &Option<String>,
    viewport: &str,
    profile: &SeverityProfile,
) -> (d: IssueDraft)
    ensures
        redirect_draft_ok(d, requested@, chain@, final_url@, opt_view(*lang), viewport@, *profile),
        d.locator == locator,
{
    let mut ev: Vec<JsonField> = Vec::new();
    push_leaf(&mut ev, text_field("new.requestedUrl", requested));
    let ghost head = fields_view(ev@);
    target_fields(&mut ev, "new.redirectChain.", chain);
    let ghost mid = fields_view(ev@);
    push_leaf(&mut ev, text_field("new.finalUrl", final_url));
    push_leaf(&mut ev, JsonField { path: to_owned_string("new.hops"), value: JsonLeaf::Number(chain.len() as i64) });
    assert(fields_view(ev@) =~= seq![text_leaf("new.requestedUrl"@, requested@)] + target_leaves(
        "new.redirectChain."@,
        chain@,
    ) + seq![
        text_leaf("new.finalUrl"@, final_url@),
        ("new.hops"@, LeafModel::Number(chain@.len() as i64)),
    ]);
    let pq = pq_or_root_exec(requested);
    let mut rm: Vec<JsonField> = Vec::new();
    push_leaf(&mut rm, text_field("action", "update_link_target"));
    push_leaf(&mut rm, text_field("findBy.grep.0", pq.as_str()));
    push_leaf(&mut rm, text_field("from", requested));
    push_leaf(&mut rm, text_field("to", final_url));
    push_leaf(
        &mut rm,
        text_field("note", "Update references to point directly to the final URL, avoiding the redirect chain."),
    );
    assert(fields_view(rm@) =~= seq![
        text_leaf("action"@, "update_link_target"@),
        text_leaf("findBy.grep.0"@, pq_or_root(requested@)),
        text_leaf("from"@, requested@),
        text_leaf("to"@, final_url@),
        text_leaf("note"@, "Update references to point directly to the final URL, avoiding the redirect chain."@),
    ]);
    let mut message = to_owned_string("URL redirect chain has ");
    push_str(&mut message, dec_string(chain.len() as u64).as_str());
    push_str(&mut message, " hops: ");
    push_str(&mut message, requested);
    make_draft(
        IssueType::UrlRedirectChain,
        IssueCategory::Hygiene,
        profile,
        viewport,
        lang,
        Some("G5"),
        message,
        locator,
        ev,
        Some(rm),
    )
}

/// The page-level redirect-chain issues: one when the new page was reached
/// through two or more hops, anchored to the requested URL's path.
pub open spec fn page_redirect_drafts_ok(
    r: Seq<IssueDraft>,
    new: HygienePage,
    viewport: Seq<char>,
    profile: SeverityProfile,
) -> bool {
    let chain = new.redirect_chain@;
    if chain.len() > 1 {
        &&& r.len() == 1
        &&& redirect_draft_ok(r[0], chain[0]@, chain, new.final_url@, opt_view(new.lang), viewport, profile)
        &&& is_path_anchors(r[0].locator.anchors, pq_or_root(chain[0]@))
        &&& is_page_locator(r[0].locator)
    } else {
        r.len() == 0
    }
}

/// The page-level redirect-chain issues of the new page (none or one).
pub fn page_redirect_issues(new: &HygienePage, viewport: &str, profile: &SeverityProfile) -> (r: Vec<IssueDraft>)
    ensures
        page_redirect_drafts_ok(r@, *new, viewport@, *profile),
{
    let mut out: Vec<IssueDraft> = Vec::new();
    if new.redirect_chain.len() > 1 {
        let requested = new.redirect_chain[0].as_str();
        let pq = pq_or_root_exec(requested);
        let locator = path_locator(pq.as_str());
        let d = redirect_draft(
            requested,
            &new.redirect_chain,
            new.final_url.as_str(),
            locator,
            &new.lang,
            viewport,
            profile,
        );
        out.push(d);
        assert(out@[0] == d);
    }
    out
}

/// Probe `a` comes before probe `b`: a smaller URL, or the same URL and an
/// earlier record.
pub open spec fn probe_before(ps: Seq<LinkProbe>, a: int, b: int) -> bool {
    seq_lt(ps[a].url@, ps[b].url@) || (ps[a].url@ == ps[b].url@ && a < b)
}

/// `idx` lists, ordered by URL (record order on a tie), exactly the probes
/// that report a redirect chain.
pub open spec fn probe_order(ps: Seq<LinkProbe>, page_final: Seq<char>, idx: Seq<usize>) -> bool {
    &&& forall|p: int| 0 <= p < idx.len() ==> #[trigger] idx[p] < ps.len() && probe_redirect_spec(ps[idx[p] as int], page_final)
    &&& forall|k: int| 0 <= k < ps.len() && probe_redirect_spec(ps[k], page_final) ==> #[trigger] idx.contains(k as usize)
    &&& forall|p: int, q: int| 0 <= p < q < idx.len() ==> probe_before(ps, #[trigger] idx[p] as int, #[trigger] idx[q] as int)
}

fn insert_by_url(out: &mut Vec<usize>, ps: &[LinkProbe], x: usize)
    requires
        x < ps@.len(),
        forall|p: int| 0 <= p < old(out)@.len() ==> #[trigger] old(out)@[p] < x,
        forall|p: int, q: int|
            0 <= p < q < old(out)@.len() ==> probe_before(ps@, #[trigger] old(out)@[p] as int, #[trigger] old(out)@[q] as int),
    ensures
        exists|pos: int| 0 <= pos <= old(out)@.len() && final(out)@ == old(out)@.insert(pos, x),
        forall|p: int, q: int|
            0 <= p < q < final(out)@.len() ==> probe_before(ps@, #[trigger] final(out)@[p] as int, #[trigger] final(out)@[q] as int),
{
    let mut p: usize = 0;
    while p < out.len() && str_compare(ps[x].url.as_str(), ps[out[p]].url.as_str()) != -1
        invariant
            p <= out@.len(),
            x < ps@.len(),
            forall|k: int| 0 <= k < out@.len() ==> #[trigger] out@[k] < x,
            forall|k: int| 0 <= k < out@.len() ==> out@[k] < ps@.len(),
            forall|k: int| 0 <= k < p ==> !seq_lt(ps@[x as int].url@, ps@[#[trigger] out@[k] as int].url@),
        decreases out.len() - p,
    {
        p = p + 1;
    }
    let ghost before = out@;
    proof {
        assert forall|a: int, b: int| 0 <= a < b < before.len() + 1 implies probe_before(
            ps@,
            #[trigger] before.insert(p as int, x)[a] as int,
            #[trigger] before.insert(p as int, x)[b] as int,
        ) by {
            let t = before.insert(p as int, x);
            if b < p {
                assert(t[a] == before[a] && t[b] == before[b]);
            } else if b == p {
                assert(t[a] == before[a] && t[b] == x);
                let ua = ps@[before[a] as int].url@;
                let ux = ps@[x as int].url@;
                lemma_seq_lt_trichotomy(ua, ux);
            } else if a < p {
                assert(t[a] == before[a] && t[b] == before[b - 1]);
            } else if a == p {
                assert(t[a] == x && t[b] == before[b - 1]);
                let ux = ps@[x as int].url@;
                let up = ps@[before[p as int] as int].url@;
                assert(seq_lt(ux, up));
                if b - 1 > p {
                    assert(probe_before(ps@, before[p as int] as int, before[b - 1] as int));
                    let ub = ps@[before[b - 1] as int].url@;
                    if seq_lt(up, ub) {
                        lemma_seq_lt_transitive(ux, up, ub);
                    }
                }
            } else {
                assert(t[a] == before[a - 1] && t[b] == before[b - 1]);
            }
        }
    }
    out.insert(p, x);
}

/// The probes that report a redirect chain, ordered by URL.
fn redirect_probes(ps: &[LinkProbe], page_final: &str) -> (r: Vec<usize>)
    ensures
        probe_order(ps@, page_final@, r@),
{
    let mut out: Vec<usize> = Vec::new();
    let mut i: usize = 0;
    while i < ps.len()
        invariant
            i <= ps@.len(),
            forall|p: int| 0 <= p < out@.len() ==> #[trigger] out@[p] < i && probe_redirect_spec(ps@[out@[p] as int], page_final@),
            forall|k: int| 0 <= k < i && probe_redirect_spec(ps@[k], page_final@) ==> #[trigger] out@.contains(k as usize),
            forall|p: int, q: int|
                0 <= p < q < out@.len() ==> probe_before(ps@, #[trigger] out@[p] as int, #[trigger] out@[q] as int),
        decreases ps.len() - i,
    {
        if probe_redirect_fires(&ps[i], page_final) {
            let ghost before = out@;
            insert_by_url(&mut out, ps, i);
            proof {
                let pos = choose|pos: int| 0 <= pos <= before.len() && out@ == before.insert(pos, i);
                assert(out@[pos] == i);
                assert forall|k: int| 0 <= k < i + 1 && probe_redirect_spec(ps@[k], page_final@) implies #[trigger] out@.contains(k as usize) by {
                    if k < i {
                        assert(before.contains(k as usize));
                        let w = choose|w: int| 0 <= w < before.len() && before[w] == k as usize;
                        if w < pos {
                            assert(out@[w] == before[w]);
                        } else {
                            assert(out@[w + 1] == before[w]);
                        }
                    }
                }
                assert forall|p: int| 0 <= p < out@.len() implies #[trigger] out@[p] < i + 1 && probe_redirect_spec(ps@[out@[p] as int], page_final@) by {
                    if p < pos {
                        assert(out@[p] == before[p]);
                    } else if p > pos {
                        assert(out@[p] == before[p - 1]);
                    }
                }
            }
        }
        i = i + 1;
    }
    out
}

/// Node `i` owns the probed URL: it links there, before every other node
/// that does.
pub open spec fn is_owner(nodes: Seq<SemanticNode>, page_final: Seq<char>, url: Seq<char>, i: int) -> bool {
    &&& 0 <= i < nodes.len()
    &&& links_to(nodes, i, page_final, url)
    &&& forall|k: int| 0 <= k < nodes.len() && k != i && links_to(nodes, k, page_final, url) ==> idx_before(nodes, i, k)
}

/// The anchors and locator of a per-link redirect issue: those of the owning
/// node, else the probed URL's path.
pub open spec fn probe_locator_ok(l: Locator, nodes: Seq<SemanticNode>, page_final: Seq<char>, url: Seq<char>) -> bool {
    ||| exists|i: int|
        #[trigger] is_owner(nodes, page_final, url, i) && l.anchors == anchors_of_node(nodes[i]) && is_new_node_locator(
            l,
            nodes[i],
        )
    ||| (forall|k: int| 0 <= k < nodes.len() ==> !links_to(nodes, k, page_final, url)) && is_path_anchors(
        l.anchors,
        pq_or_root(url),
    ) && is_page_locator(l)
}

/// Where a probe ended: its final URL, else the probed URL.
pub open spec fn probe_final(p: LinkProbe) -> Seq<char> {
    match p.final_url {
        Some(f) => f@,
        None => p.url@,
    }
}

/// The per-link redirect-chain issues: one per probe that reports a chain,
/// ordered by the probed URL.
pub open spec fn link_redirect_drafts_ok(
    r: Seq<IssueDraft>,
    new: HygienePage,
    viewport: Seq<char>,
    profile: SeverityProfile,
) -> bool {
    exists|idx: Seq<usize>|
        {
            &&& #[trigger] probe_order(new.link_probes@, new.final_url@, idx)
            &&& r.len() == idx.len()
            &&& forall|p: int|
                0 <= p < idx.len() ==> {
                    let pr = new.link_probes@[idx[p] as int];
                    &&& redirect_draft_ok(
                        #[trigger] r[p],
                        pr.url@,
                        pr.redirect_chain@,
                        probe_final(pr),
                        opt_view(new.lang),
                        viewport,
                        profile,
                    )
                    &&& probe_locator_ok(r[p].locator, new.nodes@, new.final_url@, pr.url@)
                }
        }
}

/// The per-link redirect-chain issues of the new page.
pub fn link_redirect_issues(new: &HygienePage, viewport: &str, profile: &SeverityProfile) -> (r: Vec<IssueDraft>)
    ensures
        link_redirect_drafts_ok(r@, *new, viewport@, *profile),
{
    let idx = redirect_probes(new.link_probes.as_slice(), new.final_url.as_str());
    let mut out: Vec<IssueDraft> = Vec::new();
    let mut p: usize = 0;
    while p < idx.len()
        invariant
            p <= idx@.len(),
            out@.len() == p,
            probe_order(new.link_probes@, new.final_url@, idx@),
            forall|q: int|
                0 <= q < p ==> {
                    let pr = new.link_probes@[idx@[q] as int];
                    &&& redirect_draft_ok(
                        #[trigger] out@[q],
                        pr.url@,
                        pr.redirect_chain@,
                        probe_final(pr),
                        opt_view(new.lang),
                        viewport@,
                        *profile,
                    )
                    &&& probe_locator_ok(out@[q].locator, new.nodes@, new.final_url@, pr.url@)
                },
        decreases idx.len() - p,
    {
        let k = idx[p];
        assert(k < new.link_probes@.len());
        let pr = &new.link_probes[k];
        let fin = match &pr.final_url {
            Some(f) => f.as_str(),
            None => pr.url.as_str(),
        };
        let locator = match redirect_owner(new.nodes.as_slice(), new.final_url.as_str(), pr.url.as_str()) {
            Some(i) => {
                assert(is_owner(new.nodes@, new.final_url@, pr.url@, i as int));
                single_node_locator(node_to_anchors(&new.nodes[i]), &new.nodes[i])
            },
            None => {
                let pq = pq_or_root_exec(pr.url.as_str());
                path_locator(pq.as_str())
            },
        };
        let d = redirect_draft(pr.url.as_str(), &pr.redirect_chain, fin, locator, &new.lang, viewport, profile);
        out.push(d);
        p = p + 1;
    }
    out
}

// ---------------------------------------------------------------------------
// All hygiene issues
// ---------------------------------------------------------------------------

/// The page-level protocol-downgrade issues: one when the new page is
/// `http` where the old one was `https`.
pub open spec fn page_downgrade_drafts_ok(
    r: Seq<IssueDraft>,
    old: HygienePage,
    new: HygienePage,
    viewport: Seq<char>,
    profile: SeverityProfile,
) -> bool {
    if protocol_downgrade_spec(old.final_url@, new.final_url@) {
        r.len() == 1 && page_downgrade_draft_ok(r[0], old, new, viewport, profile)
    } else {
        r.len() == 0
    }
}

/// The per-link protocol-downgrade issues (see
/// `check_per_link_protocol_downgrade`).
pub open spec fn link_downgrade_drafts_ok(
    r: Seq<IssueDraft>,
    old: HygienePage,
    new: HygienePage,
    viewport: Seq<char>,
    profile: SeverityProfile,
) -> bool {
    match page_site(new.final_url@) {
        Some((host, port)) => exists|idx: Seq<usize>|
            {
                &&& #[trigger] downgrade_order(old.nodes@, new.nodes@, host, port, idx)
                &&& r.len() == idx.len()
                &&& forall|p: int|
                    0 <= p < idx.len() ==> downgrade_draft_ok(
                        #[trigger] r[p],
                        new.nodes@[idx[p] as int],
                        viewport,
                        profile,
                        opt_view(new.lang),
                    )
            },
        None => r.len() == 0,
    }
}

/// The locale issues of the new page (see `check_locale_path`).
pub open spec fn locale_issue_drafts_ok(
    r: Seq<IssueDraft>,
    new: HygienePage,
    viewport: Seq<char>,
    profile: SeverityProfile,
) -> bool {
    &&& locale_findings_ok(new.final_url@, None) ==> r.len() == 0
    &&& !locale_findings_ok(new.final_url@, None) ==> exists|f: LocalePathFindings|
        locale_findings_ok(new.final_url@, Some(f)) && locale_drafts_ok(
            r,
            f,
            new.final_url@,
            viewport,
            profile,
            opt_view(new.lang),
        )
}

/// The eight groups of hygiene issues, in emission order: page trailing
/// slash, page redirect chain, page protocol downgrade, per-link protocol
/// downgrades, canonical mismatch, locale path, per-link trailing slashes,
/// per-link redirect chains.
pub open spec fn hygiene_parts_ok(
    parts: Seq<Seq<IssueDraft>>,
    old: HygienePage,
    new: HygienePage,
    viewport: Seq<char>,
    profile: SeverityProfile,
) -> bool {
    &&& parts.len() == 8
    &&& page_slash_drafts_ok(parts[0], old, new, viewport, profile)
    &&& page_redirect_drafts_ok(parts[1], new, viewport, profile)
    &&& page_downgrade_drafts_ok(parts[2], old, new, viewport, profile)
    &&& link_downgrade_drafts_ok(parts[3], old, new, viewport, profile)
    &&& canonical_drafts_ok(parts[4], old, new, viewport, profile)
    &&& locale_issue_drafts_ok(parts[5], new, viewport, profile)
    &&& link_slash_drafts_ok(parts[6], old, new, viewport, profile)
    &&& link_redirect_drafts_ok(parts[7], new, viewport, profile)
}

/// The hygiene issues of a page pair, and whether they replace every other
/// issue (a status-parity failure).
#[derive(Debug, Clone)]
pub struct HygieneOutcome {
    pub issues: Vec<IssueDraft>,
    pub short_circuit: bool,
}

/// Runs the hygiene checks: when the old page answered 2xx and the new page
/// did not, the status-parity issue alone, replacing every other issue;
/// otherwise the eight groups of `hygiene_parts_ok`, in order.
pub fn hygiene_issues(
    old: &HygienePage,
    new: &HygienePage,
    viewport: &str,
    profile: &SeverityProfile,
) -> (r: HygieneOutcome)
    ensures
        if is_2xx(old.status_code) && !is_2xx(new.status_code) {
            &&& r.short_circuit
            &&& r.issues@.len() == 1
            &&& status_draft_ok(r.issues@[0], *old, *new, viewport@, *profile)
        } else {
            &&& !r.short_circuit
            &&& exists|parts: Seq<Seq<IssueDraft>>|
                #[trigger] hygiene_parts_ok(parts, *old, *new, viewport@, *profile) && r.issues@ == parts[0]
                    + parts[1] + parts[2] + parts[3] + parts[4] + parts[5] + parts[6] + parts[7]
        },
{
    if status_parity_fires(old.status_code, new.status_code) {
        let d = status_draft(old, new, viewport, profile);
        let mut issues = Vec::new();
        issues.push(d);
        assert(issues@[0] == d);
        return HygieneOutcome { issues, short_circuit: true };
    }
    let mut p0 = page_slash_issues(old, new, viewport, profile);
    let mut p1 = page_redirect_issues(new, viewport, profile);
    let mut p2: Vec<IssueDraft> = Vec::new();
    if protocol_downgraded(old.final_url.as_str(), new.final_url.as_str()) {
        let d = page_downgrade_draft(old, new, viewport, profile);
        p2.push(d);
        assert(p2@[0] == d);
    }
    let mut p3 = check_per_link_protocol_downgrade(
        old.nodes.as_slice(),
        new.nodes.as_slice(),
        new.final_url.as_str(),
        viewport,
        profile,
        &new.lang,
    );
    let mut p4 = canonical_issues(old, new, viewport, profile);
    let mut p5 = check_locale_path(new.final_url.as_str(), viewport, profile, &new.lang);
    let mut p6 = link_slash_issues(old, new, viewport, profile);
    let mut p7 = link_redirect_issues(new, viewport, profile);
    let ghost parts = seq![p0@, p1@, p2@, p3@, p4@, p5@, p6@, p7@];
    assert(hygiene_parts_ok(parts, *old, *new, viewport@, *profile));
    let ghost all = p0@ + p1@ + p2@ + p3@ + p4@ + p5@ + p6@ + p7@;
    let mut issues: Vec<IssueDraft> = Vec::new();
    issues.append(&mut p0);
    issues.append(&mut p1);
    issues.append(&mut p2);
    issues.append(&mut p3);
    issues.append(&mut p4);
    issues.append(&mut p5);
    issues.append(&mut p6);
    issues.append(&mut p7);
    assert(issues@ =~= all);
    HygieneOutcome { issues, short_circuit: false }
}

} // verus!

//! The decisions of the page-level and per-link hygiene checks: status
//! parity, protocol downgrades, canonical mismatch, per-link trailing
//! slashes and per-link redirect chains. Most return what fires (and the
//! values its issue reports); `check_per_link_protocol_downgrade` also
//! assembles its issues, and `hygiene_issues` assembles the others.
use vstd::prelude::*;

use crate::config::TrailingSlashPolicy;
use crate::contract::{opt_view, IssueCategory, IssueType, LinkProbe, SemanticNode};
use crate::drafts::{
    concat3, draft_head, fields_view, is_new_node_locator, make_draft, text_field, text_leaf, IssueDraft,
    JsonField, LeafModel, SeverityProfile,
};
use crate::network_diff::{anchors_of_node, node_to_anchors, single_node_locator};
use crate::text::{replace_first, replace_first_str, trim_start_all, trim_start_all_str};
use crate::egress::{check_probe_url, probe_decision, EgressDecision};
use crate::explain::{lemma_node_key_order, node_key_less, node_key_lt};
use crate::hygiene::{check_trailing_slash_url, trim_slashes, ends_with_slash, path_query_spec, resolve_href, strip_fragment, trailing_slash_violation, trim_trailing_slashes, url_path_query};
use crate::text::{ascii_lowercase, chars_of, lower_seq, str_eq};
use crate::weburl::{join_url, parse_url, url_join_of, url_parts_of, url_with_path, url_with_path_of, url_without_fragment, url_without_fragment_of};

verus! {

// ---------------------------------------------------------------------------
// Status parity
// ---------------------------------------------------------------------------

pub open spec fn is_2xx(s: u32) -> bool {
    200 <= s < 300
}

/// The status-parity check fires when the old page answered 2xx and the new
/// page did not (a status of 0 counts as not 2xx).
pub fn status_parity_fires(old_status: u32, new_status: u32) -> (r: bool)
    ensures
        r == (is_2xx(old_status) && !is_2xx(new_status)),
{
    let old_2xx = 200 <= old_status && old_status < 300;
    let new_2xx = 200 <= new_status && new_status < 300;
    old_2xx && !new_2xx
}

// ---------------------------------------------------------------------------
// Protocol downgrade (page level)
// ---------------------------------------------------------------------------

/// The new page's final URL is `http` where the old one was `https`.
pub open spec fn protocol_downgrade_spec(old_final: Seq<char>, new_final: Seq<char>) -> bool {
    match (url_parts_of(new_final), url_parts_of(old_final)) {
        (Some(n), Some(o)) => n.scheme == "http"@ && o.scheme == "https"@,
        _ => false,
    }
}

/// Whether the page-level protocol-downgrade check fires.
pub fn protocol_downgraded(old_final: &str, new_final: &str) -> (r: bool)
    ensures
        r == protocol_downgrade_spec(old_final@, new_final@),
{
    let n = match parse_url(new_final) {
        Some(u) => u,
        None => return false,
    };
    let o = match parse_url(old_final) {
        Some(u) => u,
        None => return false,
    };
    str_eq(n.scheme.as_str(), "http") && str_eq(o.scheme.as_str(), "https")
}

// ---------------------------------------------------------------------------
// Canonical mismatch
// ---------------------------------------------------------------------------

/// A URL prepared for comparison: without fragment and, under the `Never`
/// and `Preserve` policies, without the trailing slashes of a non-root path.
pub open spec fn normalize_for_compare_spec(url: Seq<char>, policy: TrailingSlashPolicy) -> Option<
    Seq<char>,
> {
    match url_without_fragment_of(url) {
        None => None,
        Some(nf) => match policy {
            TrailingSlashPolicy::Always => Some(nf),
            _ => match url_parts_of(nf) {
                None => None,
                Some(u) => if u.path != "/"@ && ends_with_slash(u.path) {
                    url_with_path_of(nf, trim_trailing_slashes(u.path))
                } else {
                    Some(nf)
                },
            },
        },
    }
}

/// Normalises a URL for the canonical comparison.
pub fn normalize_url_for_compare(url_str: &str, policy: TrailingSlashPolicy) -> (r: Option<String>)
    ensures
        opt_view(r) == normalize_for_compare_spec(url_str@, policy),
{
    let nf = match url_without_fragment(url_str) {
        Some(s) => s,
        None => return None,
    };
    match policy {
        TrailingSlashPolicy::Always => Some(nf),
        _ => {
            let u = match parse_url(nf.as_str()) {
                Some(u) => u,
                None => return None,
            };
            let cs = chars_of(u.path.as_str());
            if !str_eq(u.path.as_str(), "/") && cs.len() > 0 && cs[cs.len() - 1] == '/' {
                let trimmed = trim_slashes(u.path.as_str());
                url_with_path(nf.as_str(), trimmed.as_str())
            } else {
                Some(nf)
            }
        },
    }
}

/// The canonical check: nothing when the new page has no canonical, when it
/// equals the old page's canonical as written, or when the URLs cannot be
/// read; otherwise the resolved canonical and the final URL, both
/// normalised, when they differ.
pub open spec fn canonical_mismatch_spec(
    old_canonical: Option<Seq<char>>,
    new_canonical: Option<Seq<char>>,
    new_final: Seq<char>,
    policy: TrailingSlashPolicy,
) -> Option<(Seq<char>, Seq<char>)> {
    match new_canonical {
        None => None,
        Some(nc) => if old_canonical == Some(nc) {
            None
        } else {
            match url_parts_of(new_final) {
                None => None,
                Some(_) => match url_join_of(new_final, nc) {
                    None => None,
                    Some(resolved) => match normalize_for_compare_spec(resolved, policy) {
                        None => None,
                        Some(cr) => match normalize_for_compare_spec(new_final, policy) {
                            None => None,
                            Some(fnorm) => if cr == fnorm {
                                None
                            } else {
                                Some((cr, fnorm))
                            },
                        },
                    },
                },
            }
        },
    }
}

/// Decides the canonical-mismatch check; on a mismatch returns the resolved
/// canonical and the final URL it was compared with.
pub fn canonical_mismatch(
    old_canonical: Option<&str>,
    new_canonical: Option<&str>,
    new_final: &str,
    policy: TrailingSlashPolicy,
) -> (r: Option<(String, String)>)
    ensures
        match r {
            Some((a, b)) => canonical_mismatch_spec(
                match old_canonical {
                    Some(s) => Some(s@),
                    None => None,
                },
                match new_canonical {
                    Some(s) => Some(s@),
                    None => None,
                },
                new_final@,
                policy,
            ) == Some((a@, b@)),
            None => canonical_mismatch_spec(
                match old_canonical {
                    Some(s) => Some(s@),
                    None => None,
                },
                match new_canonical {
                    Some(s) => Some(s@),
                    None => None,
                },
                new_final@,
                policy,
            ) is None,
        },
{
    let nc = match new_canonical {
        Some(c) => c,
        None => return None,
    };
    match old_canonical {
        Some(oc) => {
            if str_eq(oc, nc) {
                return None;
            }
        },
        None => {},
    }
    match parse_url(new_final) {
        Some(_) => {},
        None => return None,
    }
    let resolved = match join_url(new_final, nc) {
        Some(j) => j,
        None => return None,
    };
    let cr = match normalize_url_for_compare(resolved.as_str(), policy) {
        Some(c) => c,
        None => return None,
    };
    let fnorm = match normalize_url_for_compare(new_final, policy) {
        Some(f) => f,
        None => return None,
    };
    if str_eq(cr.as_str(), fnorm.as_str()) {
        None
    } else {
        Some((cr, fnorm))
    }
}

// ---------------------------------------------------------------------------
// Per-link checks
// ---------------------------------------------------------------------------

/// A host string, or the empty string.
pub open spec fn host_or_empty(h: Option<Seq<char>>) -> Seq<char> {
    match h {
        Some(s) => s,
        None => seq![],
    }
}

/// A link is same-site: it parses, and its host (ignoring ASCII case) and
/// port are the page's.
pub open spec fn same_site_link(href: Seq<char>, host: Seq<char>, port: Option<u16>) -> bool {
    match url_parts_of(href) {
        Some(u) => lower_seq(host_or_empty(u.host_str)) == lower_seq(host) && u.port == port,
        None => false,
    }
}

fn opt_u16_eq(a: Option<u16>, b: Option<u16>) -> (r: bool)
    ensures
        r == (a == b),
{
    match (a, b) {
        (Some(x), Some(y)) => x == y,
        (None, None) => true,
        _ => false,
    }
}

fn same_site(href: &str, host: &str, port: Option<u16>) -> (r: bool)
    ensures
        r == same_site_link(href@, host@, port),
{
    let u = match parse_url(href) {
        Some(u) => u,
        None => return false,
    };
    let h = match &u.host_str {
        Some(h) => ascii_lowercase(h.as_str()),
        None => {
            assert(lower_seq(seq![]) =~= Seq::<char>::empty());
            String::new()
        },
    };
    let lh = ascii_lowercase(host);
    str_eq(h.as_str(), lh.as_str()) && opt_u16_eq(u.port, port)
}

/// A link with host-stripped form `hs`, served over `https`.
pub open spec fn is_https_link_to(n: SemanticNode, hs: Seq<char>) -> bool {
    match n.href {
        Some(h) => (match url_parts_of(h@) {
            Some(u) => u.scheme == "https"@,
            None => false,
        }) && path_query_spec(h@) == Some(hs),
        None => false,
    }
}

/// A link with host-stripped form `hs`.
pub open spec fn is_link_to(n: SemanticNode, hs: Seq<char>) -> bool {
    match n.href {
        Some(h) => path_query_spec(h@) == Some(hs),
        None => false,
    }
}

/// Some old link has host-stripped form `hs` and the `https` scheme.
pub open spec fn old_has_https(old: Seq<SemanticNode>, hs: Seq<char>) -> bool {
    exists|k: int| 0 <= k < old.len() && #[trigger] is_https_link_to(old[k], hs)
}

/// Some old link has host-stripped form `hs`.
pub open spec fn old_has_link(old: Seq<SemanticNode>, hs: Seq<char>) -> bool {
    exists|k: int| 0 <= k < old.len() && #[trigger] is_link_to(old[k], hs)
}

/// A same-site `http` link on the new page whose host-stripped form an old
/// link served over `https`.
pub open spec fn downgrade_fires(
    old: Seq<SemanticNode>,
    node: SemanticNode,
    host: Seq<char>,
    port: Option<u16>,
) -> bool {
    match node.href {
        Some(h) => {
            &&& same_site_link(h@, host, port)
            &&& url_parts_of(h@) matches Some(u) && u.scheme == "http"@
            &&& path_query_spec(h@) matches Some(hs) && old_has_https(old, hs)
        },
        None => false,
    }
}

/// A same-site link on the new page that breaks the trailing-slash policy,
/// unless an old link has the same host-stripped form.
pub open spec fn slash_fires(
    old: Seq<SemanticNode>,
    node: SemanticNode,
    host: Seq<char>,
    port: Option<u16>,
    policy: TrailingSlashPolicy,
) -> bool {
    match node.href {
        Some(h) => {
            &&& same_site_link(h@, host, port)
            &&& trailing_slash_violation(h@, None, policy)
            &&& !(path_query_spec(h@) matches Some(hs) && old_has_link(old, hs))
        },
        None => false,
    }
}

/// Node `a` is reported before node `b`: lower `(seq_index, id)`, the
/// earlier node on a tie.
pub open spec fn idx_before(nodes: Seq<SemanticNode>, a: int, b: int) -> bool {
    node_key_lt(nodes[a], nodes[b]) || (!node_key_lt(nodes[b], nodes[a]) && a < b)
}

/// `r` lists, in report order, exactly the indices of `nodes` for which
/// `fires` holds.
pub open spec fn report_order(nodes: Seq<SemanticNode>, r: Seq<usize>, fires: spec_fn(int) -> bool) -> bool {
    &&& forall|p: int| 0 <= p < r.len() ==> #[trigger] r[p] < nodes.len() && fires(r[p] as int)
    &&& forall|k: int| 0 <= k < nodes.len() && fires(k) ==> #[trigger] r.contains(k as usize)
    &&& forall|p: int, q: int| 0 <= p < q < r.len() ==> idx_before(nodes, #[trigger] r[p] as int, #[trigger] r[q] as int)
}

/// Inserts index `x` (above every index already listed) at its place in
/// report order.
fn insert_in_report_order(out: &mut Vec<usize>, nodes: &[SemanticNode], x: usize)
    requires
        x < nodes@.len(),
        forall|p: int| 0 <= p < old(out)@.len() ==> #[trigger] old(out)@[p] < x,
        forall|p: int, q: int|
            0 <= p < q < old(out)@.len() ==> idx_before(nodes@, #[trigger] old(out)@[p] as int, #[trigger] old(out)@[q] as int),
    ensures
        exists|pos: int| 0 <= pos <= old(out)@.len() && final(out)@ == old(out)@.insert(pos, x),
        forall|p: int, q: int|
            0 <= p < q < final(out)@.len() ==> idx_before(nodes@, #[trigger] final(out)@[p] as int, #[trigger] final(out)@[q] as int),
{
    let mut p: usize = 0;
    while p < out.len() && !node_key_less(&nodes[x], &nodes[out[p]])
        invariant
            p <= out@.len(),
            x < nodes@.len(),
            forall|k: int| 0 <= k < out@.len() ==> #[trigger] out@[k] < x,
            forall|k: int| 0 <= k < out@.len() ==> out@[k] < nodes@.len(),
            forall|k: int| 0 <= k < p ==> !node_key_lt(nodes@[x as int], nodes@[#[trigger] out@[k] as int]),
        decreases out.len() - p,
    {
        p = p + 1;
    }
    let ghost before = out@;
    proof {
        assert forall|a: int, b: int| 0 <= a < b < before.len() + 1 implies idx_before(
            nodes@,
            #[trigger] before.insert(p as int, x)[a] as int,
            #[trigger] before.insert(p as int, x)[b] as int,
        ) by {
            let t = before.insert(p as int, x);
            if b < p {
                assert(t[a] == before[a] && t[b] == before[b]);
            } else if b == p {
                assert(t[a] == before[a] && t[b] == x);
                assert(!node_key_lt(nodes@[x as int], nodes@[before[a] as int]));
            } else if a < p {
                assert(t[a] == before[a] && t[b] == before[b - 1]);
            } else if a == p {
                assert(t[a] == x && t[b] == before[b - 1]);
                assert(node_key_lt(nodes@[x as int], nodes@[before[p as int] as int]));
                if b - 1 > p {
                    assert(idx_before(nodes@, before[p as int] as int, before[b - 1] as int));
                    lemma_node_key_order(
                        nodes@[x as int],
                        nodes@[before[p as int] as int],
                        nodes@[before[b - 1] as int],
                    );
                }
            } else {
                assert(t[a] == before[a - 1] && t[b] == before[b - 1]);
            }
        }
    }
    out.insert(p, x);
}

fn https_link_with(old: &[SemanticNode], hs: &str) -> (r: bool)
    ensures
        r == old_has_https(old@, hs@),
{
    let mut k: usize = 0;
    while k < old.len()
        invariant
            k <= old@.len(),
            forall|j: int| 0 <= j < k ==> !#[trigger] is_https_link_to(old@[j], hs@),
        decreases old.len() - k,
    {
        match &old[k].href {
            Some(h) => {
                match parse_url(h.as_str()) {
                    Some(u) => {
                        if str_eq(u.scheme.as_str(), "https") {
                            match url_path_query(h.as_str()) {
                                Some(p) => {
                                    if str_eq(p.as_str(), hs) {
                                        assert(is_https_link_to(old@[k as int], hs@));
                                        return true;
                                    }
                                },
                                None => {},
                            }
                        }
                    },
                    None => {},
                }
            },
            None => {},
        }
        k = k + 1;
    }
    false
}

fn link_with(old: &[SemanticNode], hs: &str) -> (r: bool)
    ensures
        r == old_has_link(old@, hs@),
{
    let mut k: usize = 0;
    while k < old.len()
        invariant
            k <= old@.len(),
            forall|j: int| 0 <= j < k ==> !#[trigger] is_link_to(old@[j], hs@),
        decreases old.len() - k,
    {
        match &old[k].href {
            Some(h) => {
                match url_path_query(h.as_str()) {
                    Some(p) => {
                        if str_eq(p.as_str(), hs) {
                            assert(is_link_to(old@[k as int], hs@));
                            return true;
                        }
                    },
                    None => {},
                }
            },
            None => {},
        }
        k = k + 1;
    }
    false
}

fn downgrade_fires_exec(old: &[SemanticNode], node: &SemanticNode, host: &str, port: Option<u16>) -> (r: bool)
    ensures
        r == downgrade_fires(old@, *node, host@, port),
{
    match &node.href {
        Some(h) => {
            if !same_site(h.as_str(), host, port) {
                return false;
            }
            let http = match parse_url(h.as_str()) {
                Some(u) => str_eq(u.scheme.as_str(), "http"),
                None => false,
            };
            if !http {
                return false;
            }
            match url_path_query(h.as_str()) {
                Some(hs) => https_link_with(old, hs.as_str()),
                None => false,
            }
        },
        None => false,
    }
}

fn slash_fires_exec(
    old: &[SemanticNode],
    node: &SemanticNode,
    host: &str,
    port: Option<u16>,
    policy: TrailingSlashPolicy,
) -> (r: bool)
    ensures
        r == slash_fires(old@, *node, host@, port, policy),
{
    match &node.href {
        Some(h) => {
            if !same_site(h.as_str(), host, port) {
                return false;
            }
            if !check_trailing_slash_url(h.as_str(), None, policy) {
                return false;
            }
            match url_path_query(h.as_str()) {
                Some(hs) => !link_with(old, hs.as_str()),
                None => true,
            }
        },
        None => false,
    }
}

/// The host (or the empty string) and port of the new page's final URL.
pub open spec fn page_site(new_final: Seq<char>) -> Option<(Seq<char>, Option<u16>)> {
    match url_parts_of(new_final) {
        Some(u) => Some((host_or_empty(u.host_str), u.port)),
        None => None,
    }
}

fn page_site_exec(new_final: &str) -> (r: Option<(String, Option<u16>)>)
    ensures
        match r {
            Some((h, p)) => page_site(new_final@) == Some((h@, p)),
            None => page_site(new_final@) is None,
        },
{
    match parse_url(new_final) {
        Some(u) => {
            let h = match &u.host_str {
                Some(h) => h.clone(),
                None => String::new(),
            };
            Some((h, u.port))
        },
        None => None,
    }
}

/// The new-page links the per-link protocol-downgrade check reports, in
/// report order (none when the new page's final URL does not parse).
pub fn per_link_downgrades(old: &[SemanticNode], new: &[SemanticNode], new_final: &str) -> (r: Vec<usize>)
    ensures
        match page_site(new_final@) {
            Some((host, port)) => report_order(new@, r@, |k: int| downgrade_fires(old@, new@[k], host, port)),
            None => r@.len() == 0,
        },
{
    let (host, port) = match page_site_exec(new_final) {
        Some(hp) => hp,
        None => return Vec::new(),
    };
    let ghost fires = |k: int| downgrade_fires(old@, new@[k], host@, port);
    let mut out: Vec<usize> = Vec::new();
    let mut i: usize = 0;
    while i < new.len()
        invariant
            i <= new@.len(),
            fires == (|k: int| downgrade_fires(old@, new@[k], host@, port)),
            forall|p: int| 0 <= p < out@.len() ==> #[trigger] out@[p] < i && fires(out@[p] as int),
            forall|k: int| 0 <= k < i && fires(k) ==> #[trigger] out@.contains(k as usize),
            forall|p: int, q: int|
                0 <= p < q < out@.len() ==> idx_before(new@, #[trigger] out@[p] as int, #[trigger] out@[q] as int),
        decreases new.len() - i,
    {
        if downgrade_fires_exec(old, &new[i], host.as_str(), port) {
            let ghost before = out@;
            insert_in_report_order(&mut out, new, i);
            proof {
                let pos = choose|pos: int| 0 <= pos <= before.len() && out@ == before.insert(pos, i);
                assert(out@[pos] == i);
                assert forall|k: int| 0 <= k < i + 1 && fires(k) implies #[trigger] out@.contains(k as usize) by {
                    if k < i {
                        assert(before.contains(k as usize));
                        let w = choose|w: int| 0 <= w < before.len() && before[w] == k as usize;
                        if w < pos {
                            assert(out@[w] == before[w]);
                        } else {
                            assert(out@[w + 1] == before[w]);
                        }
                    }
                }
                assert forall|p: int| 0 <= p < out@.len() implies #[trigger] out@[p] < i + 1 && fires(out@[p] as int) by {
                    if p < pos {
                        assert(out@[p] == before[p]);
                    } else if p > pos {
                        assert(out@[p] == before[p - 1]);
                    }
                }
            }
        }
        i = i + 1;
    }
    out
}

/// The new-page links the per-link trailing-slash check reports, in report
/// order (none when the new page's final URL does not parse).
pub fn per_link_trailing_slashes(
    old: &[SemanticNode],
    new: &[SemanticNode],
    new_final: &str,
    policy: TrailingSlashPolicy,
) -> (r: Vec<usize>)
    ensures
        match page_site(new_final@) {
            Some((host, port)) => report_order(new@, r@, |k: int| slash_fires(old@, new@[k], host, port, policy)),
            None => r@.len() == 0,
        },
{
    let (host, port) = match page_site_exec(new_final) {
        Some(hp) => hp,
        None => return Vec::new(),
    };
    let ghost fires = |k: int| slash_fires(old@, new@[k], host@, port, policy);
    let mut out: Vec<usize> = Vec::new();
    let mut i: usize = 0;
    while i < new.len()
        invariant
            i <= new@.len(),
            fires == (|k: int| slash_fires(old@, new@[k], host@, port, policy)),
            forall|p: int| 0 <= p < out@.len() ==> #[trigger] out@[p] < i && fires(out@[p] as int),
            forall|k: int| 0 <= k < i && fires(k) ==> #[trigger] out@.contains(k as usize),
            forall|p: int, q: int|
                0 <= p < q < out@.len() ==> idx_before(new@, #[trigger] out@[p] as int, #[trigger] out@[q] as int),
        decreases new.len() - i,
    {
        if slash_fires_exec(old, &new[i], host.as_str(), port, policy) {
            let ghost before = out@;
            insert_in_report_order(&mut out, new, i);
            proof {
                let pos = choose|pos: int| 0 <= pos <= before.len() && out@ == before.insert(pos, i);
                assert(out@[pos] == i);
                assert forall|k: int| 0 <= k < i + 1 && fires(k) implies #[trigger] out@.contains(k as usize) by {
                    if k < i {
                        assert(before.contains(k as usize));
                        let w = choose|w: int| 0 <= w < before.len() && before[w] == k as usize;
                        if w < pos {
                            assert(out@[w] == before[w]);
                        } else {
                            assert(out@[w + 1] == before[w]);
                        }
                    }
                }
                assert forall|p: int| 0 <= p < out@.len() implies #[trigger] out@[p] < i + 1 && fires(out@[p] as int) by {
                    if p < pos {
                        assert(out@[p] == before[p]);
                    } else if p > pos {
                        assert(out@[p] == before[p - 1]);
                    }
                }
            }
        }
        i = i + 1;
    }
    out
}

// ---------------------------------------------------------------------------
// Per-link redirect chains
// ---------------------------------------------------------------------------

/// A probe record reports a redirect chain: the probe is allowed by the
/// egress guard, was neither skipped nor failed, and took two or more hops.
pub open spec fn probe_redirect_spec(p: LinkProbe, page_final: Seq<char>) -> bool {
    &&& probe_decision(p.url@, page_final) == EgressDecision::Allow
    &&& p.skipped is None
    &&& p.error is None
    &&& p.redirect_chain@.len() > 1
}

/// Whether a link probe yields a redirect-chain issue.
pub fn probe_redirect_fires(p: &LinkProbe, page_final_url: &str) -> (r: bool)
    ensures
        r == probe_redirect_spec(*p, page_final_url@),
{
    check_probe_url(p.url.as_str(), page_final_url) == EgressDecision::Allow && p.skipped.is_none()
        && p.error.is_none() && p.redirect_chain.len() > 1
}

/// The key a node is found by for a probed URL: its href resolved against
/// the page and stripped of its fragment.
pub open spec fn resolved_link_key(href: Seq<char>, page_final: Seq<char>) -> Seq<char> {
    let abs = match url_join_of(page_final, href) {
        Some(j) => j,
        None => href,
    };
    match url_without_fragment_of(abs) {
        Some(s) => s,
        None => abs,
    }
}

/// The probed URL without its fragment.
pub open spec fn probe_key(url: Seq<char>) -> Seq<char> {
    match url_without_fragment_of(url) {
        Some(s) => s,
        None => url,
    }
}

/// Node `i` links to the probed URL.
pub open spec fn links_to(nodes: Seq<SemanticNode>, i: int, page_final: Seq<char>, url: Seq<char>) -> bool {
    nodes[i].href matches Some(h) && resolved_link_key(h@, page_final) == probe_key(url)
}

/// The node owning a probed URL: among the nodes linking to it, the first in
/// report order.
pub fn redirect_owner(nodes: &[SemanticNode], page_final_url: &str, probe_url: &str) -> (r: Option<usize>)
    ensures
        match r {
            Some(i) => i < nodes@.len() && links_to(nodes@, i as int, page_final_url@, probe_url@)
                && forall|k: int|
                0 <= k < nodes@.len() && k != i && links_to(nodes@, k, page_final_url@, probe_url@)
                    ==> idx_before(nodes@, i as int, k),
            None => forall|k: int| 0 <= k < nodes@.len() ==> !links_to(nodes@, k, page_final_url@, probe_url@),
        },
{
    let target = strip_fragment(probe_url);
    let mut best: Option<usize> = None;
    let mut i: usize = 0;
    while i < nodes.len()
        invariant
            i <= nodes@.len(),
            target@ == probe_key(probe_url@),
            match best {
                Some(b) => b < i && links_to(nodes@, b as int, page_final_url@, probe_url@) && forall|k: int|
                    0 <= k < i && k != b && links_to(nodes@, k, page_final_url@, probe_url@) ==> idx_before(
                        nodes@,
                        b as int,
                        k,
                    ),
                None => forall|k: int| 0 <= k < i ==> !links_to(nodes@, k, page_final_url@, probe_url@),
            },
        decreases nodes.len() - i,
    {
        match &nodes[i].href {
            Some(h) => {
                let abs = resolve_href(h.as_str(), page_final_url);
                let key = strip_fragment(abs.as_str());
                if str_eq(key.as_str(), target.as_str()) {
                    match best {
                        Some(b) => {
                            if node_key_less(&nodes[i], &nodes[b]) {
                                proof {
                                    assert forall|k: int| 0 <= k < i + 1 && k != i && links_to(nodes@, k, page_final_url@, probe_url@)
                                        implies idx_before(nodes@, i as int, k) by {
                                        if k != b {
                                            assert(idx_before(nodes@, b as int, k));
                                            lemma_node_key_order(nodes@[i as int], nodes@[b as int], nodes@[k]);
                                        }
                                    }
                                }
                                best = Some(i);
                            } else {
                                proof {
                                    lemma_node_key_order(nodes@[b as int], nodes@[i as int], nodes@[b as int]);
                                }
                            }
                        },
                        None => {
                            best = Some(i);
                        },
                    }
                }
            },
            None => {},
        }
        i = i + 1;
    }
    best
}

// ---------------------------------------------------------------------------
// Per-link protocol-downgrade issues
// ---------------------------------------------------------------------------

/// `idx` lists, in report order, the new-page links whose protocol was
/// downgraded.
pub open spec fn downgrade_order(
    old: Seq<SemanticNode>,
    new: Seq<SemanticNode>,
    host: Seq<char>,
    port: Option<u16>,
    idx: Seq<usize>,
) -> bool {
    report_order(new, idx, |k: int| downgrade_fires(old, new[k], host, port))
}

/// An `http` link's `https` twin: the first `http://` becomes `https://`.
pub open spec fn https_twin(href: Seq<char>) -> Seq<char> {
    replace_first(href, "http://"@, "https://"@)
}

/// A link without its leading `http://` and then `https://` repetitions.
pub open spec fn without_scheme(href: Seq<char>) -> Seq<char> {
    trim_start_all(trim_start_all(href, "http://"@), "https://"@)
}

/// The remediation of a protocol downgrade.
pub open spec fn downgrade_rewrite(href: Seq<char>) -> Seq<(Seq<char>, LeafModel)> {
    seq![
        text_leaf("action"@, "rewrite_url"@),
        text_leaf("findBy.grep.0"@, without_scheme(href)),
        text_leaf("from"@, href),
        text_leaf("to"@, https_twin(href)),
        text_leaf("note"@, "Link uses HTTP where old page had HTTPS for the same path. Update to HTTPS."@),
    ]
}

/// The protocol-downgrade issue of the new-page link `n`.
pub open spec fn downgrade_draft_ok(
    d: IssueDraft,
    n: SemanticNode,
    viewport: Seq<char>,
    profile: SeverityProfile,
    lang: Option<Seq<char>>,
) -> bool {
    match n.href {
        Some(h) => {
            &&& draft_head(
                d,
                IssueType::UrlProtocolDowngrade,
                IssueCategory::Hygiene,
                profile,
                viewport,
                lang,
                Some("G5"@),
                anchors_of_node(n),
            )
            &&& is_new_node_locator(d.locator, n)
            &&& d.message@ == "Per-link protocol downgrade: "@ + h@ + " should be https"@
            &&& fields_view(d.evidence@) == seq![text_leaf("old.url"@, https_twin(h@)), text_leaf("new.url"@, h@)]
            &&& match d.remediation {
                Some(rm) => fields_view(rm@) == downgrade_rewrite(h@),
                None => false,
            }
        },
        None => false,
    }
}

fn downgrade_draft(
    n: &SemanticNode,
    viewport: &str,
    profile: &SeverityProfile,
    new_lang: &Option<String>,
) -> (d: IssueDraft)
    requires
        n.href is Some,
    ensures
        downgrade_draft_ok(d, *n, viewport@, *profile, opt_view(*new_lang)),
{
    let h = match &n.href {
        Some(h) => h.as_str(),
        None => "",
    };
    let https = replace_first_str(h, "http://", "https://");
    let plain = trim_start_all_str(h, "http://");
    let bare = trim_start_all_str(plain.as_str(), "https://");
    let message = concat3("Per-link protocol downgrade: ", h, " should be https");
    let mut evidence: Vec<JsonField> = Vec::new();
    evidence.push(text_field("old.url", https.as_str()));
    evidence.push(text_field("new.url", h));
    assert(fields_view(evidence@) =~= seq![text_leaf("old.url"@, https_twin(h@)), text_leaf("new.url"@, h@)]);
    let mut rm: Vec<JsonField> = Vec::new();
    rm.push(text_field("action", "rewrite_url"));
    rm.push(text_field("findBy.grep.0", bare.as_str()));
    rm.push(text_field("from", h));
    rm.push(text_field("to", https.as_str()));
    rm.push(text_field("note", "Link uses HTTP where old page had HTTPS for the same path. Update to HTTPS."));
    assert(fields_view(rm@) =~= downgrade_rewrite(h@));
    let locator = single_node_locator(node_to_anchors(n), n);
    make_draft(
        IssueType::UrlProtocolDowngrade,
        IssueCategory::Hygiene,
        profile,
        viewport,
        new_lang,
        Some("G5"),
        message,
        locator,
        evidence,
        Some(rm),
    )
}

/// The per-link protocol-downgrade issues: one for each same-site `http`
/// link of the new page whose host-stripped form an old link served over
/// `https`, in report order (none when the new page's final URL does not
/// parse).
pub fn check_per_link_protocol_downgrade(
    old: &[SemanticNode],
    new: &[SemanticNode],
    new_final: &str,
    viewport: &str,
    profile: &SeverityProfile,
    new_lang: &Option<String>,
) -> (r: Vec<IssueDraft>)
    ensures
        match page_site(new_final@) {
            Some((host, port)) => exists|idx: Seq<usize>|
                {
                    &&& #[trigger] downgrade_order(old@, new@, host, port, idx)
                    &&& r@.len() == idx.len()
                    &&& forall|p: int|
                        0 <= p < idx.len() ==> downgrade_draft_ok(
                            #[trigger] r@[p],
                            new@[idx[p] as int],
                            viewport@,
                            *profile,
                            opt_view(*new_lang),
                        )
                },
            None => r@.len() == 0,
        },
{
    let idx = per_link_downgrades(old, new, new_final);
    proof {
        match page_site(new_final@) {
            Some((host, port)) => {
                assert(downgrade_order(old@, new@, host, port, idx@));
                assert forall|p: int| 0 <= p < idx@.len() implies (#[trigger] idx@[p]) < new@.len() && new@[idx@[p] as int].href is Some by {
                    assert(downgrade_fires(old@, new@[idx@[p] as int], host, port));
                }
            },
            None => {},
        }
    }
    let mut out: Vec<IssueDraft> = Vec::new();
    let mut p: usize = 0;
    while p < idx.len()
        invariant
            p <= idx@.len(),
            out@.len() == p,
            forall|q: int| 0 <= q < idx@.len() ==> (#[trigger] idx@[q]) < new@.len() && new@[idx@[q] as int].href is Some,
            forall|q: int|
                0 <= q < p ==> downgrade_draft_ok(
                    #[trigger] out@[q],
                    new@[idx@[q] as int],
                    viewport@,
                    *profile,
                    opt_view(*new_lang),
                ),
        decreases idx.len() - p,
    {
        let k = idx[p];
        assert(k < new@.len());
        let d = downgrade_draft(&new[k], viewport, profile, new_lang);
        out.push(d);
        p = p + 1;
    }
    out
}

} // verus!

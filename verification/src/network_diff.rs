//! Network and console diff: which failing requests and which console errors
//! are new on the new page.
//!
//! A request fails when it is flagged failed or its status is 400 or more.
//! Requests are compared by a key relative to each page's own directory, so
//! assets served under different mount prefixes correlate.
//! `network_console_issues` turns these selections into issue drafts.
use vstd::prelude::*;

use crate::contract::{
    opt_view, strictly_sorted, views, Anchors, ConsoleEntry, IssueCategory, IssueType, Locator, NetworkRequest,
    SemanticNode,
};
use crate::drafts::{
    draft_head, fields_view, flag_field, is_new_node_locator, make_draft, opt_number_field, text_field, text_leaf,
    IssueDraft, JsonField, JsonLeaf, LeafModel, SeverityProfile,
};
use crate::text::{dec, dec_string};
use crate::text::{chars_of, chars_slice_string, is_prefix, lemma_seq_lt_transitive, lemma_seq_lt_trichotomy, push_str, seq_lt, str_compare, str_eq, str_starts_with, strip_prefix, to_owned_string};
use crate::weburl::{parse_url, url_parts_of, UrlHost};

verus! {

// ---------------------------------------------------------------------------
// Request keys and file names
// ---------------------------------------------------------------------------

/// Index of the last `c` in `s`, or -1 when there is none.
pub open spec fn last_index_of(s: Seq<char>, c: char) -> int
    decreases s.len(),
{
    if s.len() == 0 {
        -1
    } else if s.last() == c {
        s.len() - 1
    } else {
        last_index_of(s.drop_last(), c)
    }
}

/// One past the position of the last `c`, if any.
fn find_last(cs: &[char], c: char) -> (r: Option<usize>)
    ensures
        match r {
            Some(e) => 1 <= e <= cs@.len() && e - 1 == last_index_of(cs@, c),
            None => last_index_of(cs@, c) == -1,
        },
{
    let mut i: usize = cs.len();
    assert(cs@.take(cs@.len() as int) =~= cs@);
    while i > 0
        invariant
            i <= cs@.len(),
            last_index_of(cs@, c) == last_index_of(cs@.take(i as int), c),
        decreases i,
    {
        assert(cs@.take(i as int).drop_last() =~= cs@.take(i - 1));
        assert(cs@.take(i as int).last() == cs@[i - 1]);
        if cs[i - 1] == c {
            return Some(i);
        }
        i = i - 1;
    }
    assert(cs@.take(0).len() == 0);
    None
}

/// The directory of a page path: up to and including its last `/`.
pub open spec fn base_dir_of(path: Seq<char>) -> Seq<char> {
    let i = last_index_of(path, '/');
    if i < 0 {
        "/"@
    } else {
        path.take(i + 1)
    }
}

/// Two parsed URLs share scheme, host and (explicit or default) port.
pub open spec fn same_site(a: crate::weburl::UrlPartsModel, b: crate::weburl::UrlPartsModel) -> bool {
    a.scheme == b.scheme && a.host == b.host && a.port_or_known_default == b.port_or_known_default
}

/// The key a request is compared by: for a same-site request, its path
/// relative to the page's directory (or to the root, or as is) plus `?query`;
/// otherwise, or when either URL does not parse, the URL itself.
pub open spec fn request_key_spec(url: Seq<char>, own_final_url: Seq<char>) -> Seq<char> {
    match (url_parts_of(own_final_url), url_parts_of(url)) {
        (Some(own), Some(req)) => if !same_site(own, req) {
            url
        } else {
            let dir = base_dir_of(own.path);
            let rel = if is_prefix(dir, req.path) {
                req.path.skip(dir.len() as int)
            } else if is_prefix("/"@, req.path) {
                req.path.skip(1)
            } else {
                req.path
            };
            match req.query {
                Some(q) => rel + "?"@ + q,
                None => rel,
            }
        },
        _ => url,
    }
}

fn host_eq(a: &Option<UrlHost>, b: &Option<UrlHost>) -> (r: bool)
    ensures
        r == (match a {
            Some(x) => Some(x@),
            None => None,
        } == match b {
            Some(x) => Some(x@),
            None => None,
        }),
{
    match (a, b) {
        (None, None) => true,
        (Some(UrlHost::Domain(x)), Some(UrlHost::Domain(y))) => str_eq(x.as_str(), y.as_str()),
        (Some(UrlHost::Ipv4(x)), Some(UrlHost::Ipv4(y))) => {
            let r = x[0] == y[0] && x[1] == y[1] && x[2] == y[2] && x[3] == y[3];
            assert(r ==> x@ =~= y@);
            assert(!r ==> x@ != y@) by {
                if !r {
                    if x[0] != y[0] {
                        assert(x@[0] != y@[0]);
                    } else if x[1] != y[1] {
                        assert(x@[1] != y@[1]);
                    } else if x[2] != y[2] {
                        assert(x@[2] != y@[2]);
                    } else {
                        assert(x@[3] != y@[3]);
                    }
                }
            }
            r
        },
        (Some(UrlHost::Ipv6(x)), Some(UrlHost::Ipv6(y))) => {
            let r = x[0] == y[0] && x[1] == y[1] && x[2] == y[2] && x[3] == y[3] && x[4] == y[4]
                && x[5] == y[5] && x[6] == y[6] && x[7] == y[7];
            assert(r ==> x@ =~= y@);
            assert(!r ==> x@ != y@) by {
                if !r {
                    let k: int = if x[0] != y[0] { 0 } else if x[1] != y[1] { 1 } else if x[2] != y[2] { 2 } else if x[3] != y[3] { 3 } else if x[4] != y[4] { 4 } else if x[5] != y[5] { 5 } else if x[6] != y[6] { 6 } else { 7 };
                    assert(x@[k] != y@[k]);
                }
            }
            r
        },
        _ => false,
    }
}

/// The comparison key of a request URL on the page whose final URL is
/// `own_final_url` (see `request_key_spec`).
pub fn request_key(url: &str, own_final_url: &str) -> (r: String)
    ensures
        r@ == request_key_spec(url@, own_final_url@),
{
    let own = match parse_url(own_final_url) {
        Some(u) => u,
        None => return to_owned_string(url),
    };
    let req = match parse_url(url) {
        Some(u) => u,
        None => return to_owned_string(url),
    };
    let same = str_eq(own.scheme.as_str(), req.scheme.as_str()) && host_eq(&own.host, &req.host)
        && own.port_or_known_default == req.port_or_known_default;
    if !same {
        return to_owned_string(url);
    }
    let own_cs = chars_of(own.path.as_str());
    let base_dir = match find_last(own_cs.as_slice(), '/') {
        Some(e) => {
            let d = chars_slice_string(own_cs.as_slice(), 0, e);
            assert(own_cs@.subrange(0, e as int) =~= own.path@.take(e as int));
            d
        },
        None => to_owned_string("/"),
    };
    proof {
        reveal_strlit("/");
    }
    let rel = match strip_prefix(req.path.as_str(), base_dir.as_str()) {
        Some(rest) => rest,
        None => match strip_prefix(req.path.as_str(), "/") {
            Some(rest) => rest,
            None => req.path.clone(),
        },
    };
    match &req.query {
        Some(q) => {
            let mut out = rel;
            push_str(&mut out, "?");
            push_str(&mut out, q.as_str());
            out
        },
        None => rel,
    }
}

/// The text after the last `/` (the whole text when there is none).
pub open spec fn after_last_slash(s: Seq<char>) -> Seq<char> {
    s.skip(last_index_of(s, '/') + 1)
}

/// The file name of an asset URL: the last path segment when it parses
/// (empty for a path not starting with `/`), else the text after the last `/`.
pub open spec fn filename_spec(url: Seq<char>) -> Seq<char> {
    match url_parts_of(url) {
        Some(u) => if is_prefix("/"@, u.path) {
            after_last_slash(u.path)
        } else {
            seq![]
        },
        None => after_last_slash(url),
    }
}

fn after_last_slash_exec(s: &str) -> (r: String)
    ensures
        r@ == after_last_slash(s@),
{
    let cs = chars_of(s);
    match find_last(cs.as_slice(), '/') {
        Some(e) => {
            let t = chars_slice_string(cs.as_slice(), e, cs.len());
            assert(cs@.subrange(e as int, cs@.len() as int) =~= s@.skip(e as int));
            t
        },
        None => {
            assert(s@.skip(0) =~= s@);
            to_owned_string(s)
        },
    }
}

/// The file name of an asset URL (see `filename_spec`).
pub fn filename_from_url(url: &str) -> (r: String)
    ensures
        r@ == filename_spec(url@),
{
    match parse_url(url) {
        Some(u) => {
            if str_starts_with(u.path.as_str(), "/") {
                after_last_slash_exec(u.path.as_str())
            } else {
                String::new()
            }
        },
        None => after_last_slash_exec(url),
    }
}

// ---------------------------------------------------------------------------
// Locators for network issues
// ---------------------------------------------------------------------------

/// The issue anchors of a node: its own anchor facts.
pub open spec fn anchors_of_node(node: SemanticNode) -> Anchors {
    Anchors {
        text: node.anchors.text,
        role: node.anchors.role,
        href: node.anchors.href,
        alt: node.anchors.alt,
        aria_label: node.anchors.aria_label,
        nearest_heading: node.anchors.nearest_heading,
        landmark: node.anchors.landmark,
        ordinal_in_landmark: node.anchors.ordinal_in_landmark,
    }
}

fn clone_opt(o: &Option<String>) -> (r: Option<String>)
    ensures
        r == *o,
{
    match o {
        Some(s) => Some(s.clone()),
        None => None,
    }
}

/// A node's anchor facts as issue anchors.
pub fn node_to_anchors(node: &SemanticNode) -> (r: Anchors)
    ensures
        r == anchors_of_node(*node),
{
    Anchors {
        text: clone_opt(&node.anchors.text),
        role: clone_opt(&node.anchors.role),
        href: clone_opt(&node.anchors.href),
        alt: clone_opt(&node.anchors.alt),
        aria_label: clone_opt(&node.anchors.aria_label),
        nearest_heading: clone_opt(&node.anchors.nearest_heading),
        landmark: clone_opt(&node.anchors.landmark),
        ordinal_in_landmark: node.anchors.ordinal_in_landmark,
    }
}

/// A locator anchored to one node of the new page.
pub fn single_node_locator(anchors: Anchors, node: &SemanticNode) -> (r: Locator)
    ensures
        r.anchors == anchors,
        r.css_selector_old is None,
        r.css_selector_new == node.css_selector,
        r.bbox_old is None,
        r.bbox_new == Some(node.bbox),
        r.seq_index_old is None,
        r.seq_index_new == Some(node.seq_index),
{
    Locator {
        anchors,
        css_selector_old: None,
        css_selector_new: clone_opt(&node.css_selector),
        bbox_old: None,
        bbox_new: Some(node.bbox),
        seq_index_old: None,
        seq_index_new: Some(node.seq_index),
    }
}

/// A page-level locator (no node).
pub fn null_locator(anchors: Anchors) -> (r: Locator)
    ensures
        r.anchors == anchors,
        r.css_selector_old is None,
        r.css_selector_new is None,
        r.bbox_old is None,
        r.bbox_new is None,
        r.seq_index_old is None,
        r.seq_index_new is None,
{
    Locator {
        anchors,
        css_selector_old: None,
        css_selector_new: None,
        bbox_old: None,
        bbox_new: None,
        seq_index_old: None,
        seq_index_new: None,
    }
}

/// The node that shows an asset: its `src` or `href` is the URL.
pub open spec fn shows_asset(node: SemanticNode, url: Seq<char>) -> bool {
    (node.src matches Some(s) && s@ == url) || (node.href matches Some(h) && h@ == url)
}

fn opt_is(o: &Option<String>, url: &str) -> (r: bool)
    ensures
        r == (o matches Some(s) && s@ == url@),
{
    match o {
        Some(s) => str_eq(s.as_str(), url),
        None => false,
    }
}

/// The first node whose `src` or `href` equals the asset URL.
pub fn find_anchor_node(nodes: &[SemanticNode], url: &str) -> (r: Option<usize>)
    ensures
        match r {
            Some(i) => i < nodes@.len() && shows_asset(nodes@[i as int], url@) && forall|j: int|
                0 <= j < i ==> !shows_asset(#[trigger] nodes@[j], url@),
            None => forall|j: int| 0 <= j < nodes@.len() ==> !shows_asset(#[trigger] nodes@[j], url@),
        },
{
    let mut i: usize = 0;
    while i < nodes.len()
        invariant
            i <= nodes@.len(),
            forall|j: int| 0 <= j < i ==> !shows_asset(#[trigger] nodes@[j], url@),
        decreases nodes.len() - i,
    {
        if opt_is(&nodes[i].src, url) || opt_is(&nodes[i].href, url) {
            return Some(i);
        }
        i = i + 1;
    }
    None
}

// ---------------------------------------------------------------------------
// New-only selections
// ---------------------------------------------------------------------------

pub open spec fn is_failing_spec(status: Option<u32>, failed: bool) -> bool {
    failed || match status {
        Some(s) => s >= 400,
        None => false,
    }
}

/// Whether a request outcome counts as failing: flagged failed, or status
/// 400 or more.
pub fn is_failing(status: Option<u32>, failed: bool) -> (r: bool)
    ensures
        r == is_failing_spec(status, failed),
{
    failed || match status {
        Some(s) => s >= 400,
        None => false,
    }
}

pub open spec fn req_failing(r: NetworkRequest) -> bool {
    is_failing_spec(r.status, r.failed)
}

/// Some failing request of `reqs` has key `k` on the page `own`.
pub open spec fn failing_key_in(reqs: Seq<NetworkRequest>, own: Seq<char>, k: Seq<char>) -> bool {
    exists|p: int| 0 <= p < reqs.len() && req_failing(reqs[p]) && #[trigger] request_key_spec(reqs[p].url@, own) == k
}

/// New request `p` is failing and its key is not failing on the old side.
pub open spec fn new_only_failing(
    old: Seq<NetworkRequest>,
    old_own: Seq<char>,
    new: Seq<NetworkRequest>,
    new_own: Seq<char>,
    p: int,
) -> bool {
    req_failing(new[p]) && !failing_key_in(old, old_own, request_key_spec(new[p].url@, new_own))
}

/// The keys of a keyed selection.
pub open spec fn sel_keys(s: Seq<(String, usize)>) -> Seq<Seq<char>> {
    s.map_values(|e: (String, usize)| e.0@)
}

/// `sel` lists, sorted by key and each key once, the keys of the items
/// `keep` accepts, each with the first accepted item of that key.
pub open spec fn is_first_by_key(
    sel: Seq<(String, usize)>,
    n: int,
    key: spec_fn(int) -> Seq<char>,
    keep: spec_fn(int) -> bool,
) -> bool {
    &&& strictly_sorted(sel_keys(sel))
    &&& forall|q: int|
        0 <= q < sel.len() ==> {
            let p = (#[trigger] sel[q]).1 as int;
            &&& 0 <= p < n
            &&& keep(p)
            &&& key(p) == sel[q].0@
            &&& forall|p2: int| 0 <= p2 < p ==> !(#[trigger] keep(p2) && key(p2) == sel[q].0@)
        }
    &&& forall|p: int| 0 <= p < n && #[trigger] keep(p) ==> sel_keys(sel).contains(key(p))
}

/// Inserts `(key, idx)` into a selection sorted by key that lacks `key`.
fn insert_by_key(out: &mut Vec<(String, usize)>, key: String, idx: usize) -> (pos: usize)
    requires
        strictly_sorted(sel_keys(old(out)@)),
        !sel_keys(old(out)@).contains(key@),
    ensures
        pos <= old(out)@.len(),
        final(out)@ == old(out)@.insert(pos as int, (key, idx)),
        strictly_sorted(sel_keys(final(out)@)),
{
    let ghost ks = sel_keys(out@);
    let mut p: usize = 0;
    while p < out.len() && str_compare(out[p].0.as_str(), key.as_str()) == -1
        invariant
            ks == sel_keys(out@),
            p <= out@.len(),
            forall|k: int| 0 <= k < p ==> seq_lt(#[trigger] ks[k], key@),
        decreases out.len() - p,
    {
        assert(ks[p as int] == out@[p as int].0@);
        p = p + 1;
    }
    proof {
        if p < out@.len() {
            assert(ks[p as int] == out@[p as int].0@);
            lemma_seq_lt_trichotomy(ks[p as int], key@);
            assert(ks[p as int] != key@);
        }
        let t = ks.insert(p as int, key@);
        assert forall|a: int, b: int| 0 <= a < b < t.len() implies seq_lt(#[trigger] t[a], #[trigger] t[b]) by {
            if b < p {
                assert(t[a] == ks[a] && t[b] == ks[b]);
            } else if b == p {
                assert(t[a] == ks[a]);
            } else if a < p {
                assert(t[a] == ks[a] && t[b] == ks[b - 1]);
                if b - 1 > p {
                    assert(seq_lt(ks[p as int], ks[b - 1]));
                    lemma_seq_lt_transitive(key@, ks[p as int], ks[b - 1]);
                }
                lemma_seq_lt_transitive(ks[a], key@, ks[b - 1]);
            } else if a == p {
                assert(t[b] == ks[b - 1]);
                if b - 1 > p {
                    lemma_seq_lt_transitive(key@, ks[p as int], ks[b - 1]);
                }
            } else {
                assert(t[a] == ks[a - 1] && t[b] == ks[b - 1]);
            }
        }
    }
    let ghost kv = key@;
    out.insert(p, (key, idx));
    assert(sel_keys(out@) =~= ks.insert(p as int, kv));
    p
}

proof fn lemma_first_by_key_step(
    before: Seq<(String, usize)>,
    after: Seq<(String, usize)>,
    pos: int,
    i: int,
    key: spec_fn(int) -> Seq<char>,
    keep: spec_fn(int) -> bool,
    k: Seq<char>,
)
    requires
        is_first_by_key(before, i, key, keep),
        keep(i),
        key(i) == k,
        !sel_keys(before).contains(k),
        0 <= pos <= before.len(),
        after.len() == before.len() + 1,
        after[pos].0@ == k,
        after[pos].1 == i,
        forall|q: int| 0 <= q < pos ==> after[q] == before[q],
        forall|q: int| pos < q < after.len() ==> after[q] == before[q - 1],
        strictly_sorted(sel_keys(after)),
    ensures
        is_first_by_key(after, i + 1, key, keep),
{
    assert forall|q: int| 0 <= q < after.len() implies {
        let p = (#[trigger] after[q]).1 as int;
        &&& 0 <= p < i + 1
        &&& keep(p)
        &&& key(p) == after[q].0@
        &&& forall|p2: int| 0 <= p2 < p ==> !(#[trigger] keep(p2) && key(p2) == after[q].0@)
    } by {
        if q == pos {
            assert forall|p2: int| 0 <= p2 < i implies !(#[trigger] keep(p2) && key(p2) == k) by {
                if keep(p2) && key(p2) == k {
                    assert(sel_keys(before).contains(key(p2)));
                }
            }
        } else if q < pos {
            assert(after[q] == before[q]);
        } else {
            assert(after[q] == before[q - 1]);
        }
    }
    assert forall|p: int| 0 <= p < i + 1 && #[trigger] keep(p) implies sel_keys(after).contains(key(p)) by {
        if p == i {
            assert(sel_keys(after)[pos] == k);
        } else {
            assert(sel_keys(before).contains(key(p)));
            let q = choose|q: int| 0 <= q < sel_keys(before).len() && sel_keys(before)[q] == key(p);
            if q < pos {
                assert(sel_keys(after)[q] == key(p));
            } else {
                assert(sel_keys(after)[q + 1] == key(p));
            }
        }
    }
}

proof fn lemma_first_by_key_extend(
    sel: Seq<(String, usize)>,
    i: int,
    key: spec_fn(int) -> Seq<char>,
    keep: spec_fn(int) -> bool,
)
    requires
        is_first_by_key(sel, i, key, keep),
        keep(i) ==> sel_keys(sel).contains(key(i)),
    ensures
        is_first_by_key(sel, i + 1, key, keep),
{
}

fn key_in(sel: &Vec<(String, usize)>, k: &str) -> (r: bool)
    ensures
        r == sel_keys(sel@).contains(k@),
{
    let mut i: usize = 0;
    while i < sel.len()
        invariant
            i <= sel@.len(),
            forall|q: int| 0 <= q < i ==> (#[trigger] sel@[q]).0@ != k@,
        decreases sel.len() - i,
    {
        if str_eq(sel[i].0.as_str(), k) {
            assert(sel_keys(sel@)[i as int] == k@);
            return true;
        }
        i = i + 1;
    }
    assert(!sel_keys(sel@).contains(k@)) by {
        if sel_keys(sel@).contains(k@) {
            let q = choose|q: int| 0 <= q < sel_keys(sel@).len() && sel_keys(sel@)[q] == k@;
            assert(sel@[q].0@ == k@);
        }
    }
    false
}

fn contains_string(v: &Vec<String>, k: &str) -> (r: bool)
    ensures
        r == views(v@).contains(k@),
{
    let mut i: usize = 0;
    while i < v.len()
        invariant
            i <= v@.len(),
            forall|q: int| 0 <= q < i ==> (#[trigger] v@[q])@ != k@,
        decreases v.len() - i,
    {
        if str_eq(v[i].as_str(), k) {
            assert(views(v@)[i as int] == k@);
            return true;
        }
        i = i + 1;
    }
    assert(!views(v@).contains(k@)) by {
        if views(v@).contains(k@) {
            let q = choose|q: int| 0 <= q < views(v@).len() && views(v@)[q] == k@;
            assert(v@[q]@ == k@);
        }
    }
    false
}

/// The new-only failing requests: each key of a failing new request whose
/// key is not failing on the old side, sorted by key, with the first such
/// new request.
pub fn new_only_failing_requests(
    old_requests: &[NetworkRequest],
    old_final_url: &str,
    new_requests: &[NetworkRequest],
    new_final_url: &str,
) -> (r: Vec<(String, usize)>)
    ensures
        is_first_by_key(
            r@,
            new_requests@.len() as int,
            |p: int| request_key_spec(new_requests@[p].url@, new_final_url@),
            |p: int| new_only_failing(old_requests@, old_final_url@, new_requests@, new_final_url@, p),
        ),
{
    let ghost old = old_requests@;
    let ghost new = new_requests@;
    let ghost key = |p: int| request_key_spec(new[p].url@, new_final_url@);
    let ghost keep = |p: int| new_only_failing(old, old_final_url@, new, new_final_url@, p);
    // Keys failing on the old side.
    let mut old_failing: Vec<String> = Vec::new();
    let mut j: usize = 0;
    while j < old_requests.len()
        invariant
            old == old_requests@,
            j <= old.len(),
            forall|k: Seq<char>|
                #[trigger] views(old_failing@).contains(k) <==> exists|p: int|
                    0 <= p < j && req_failing(old[p]) && #[trigger] request_key_spec(old[p].url@, old_final_url@) == k,
        decreases old_requests.len() - j,
    {
        if is_failing(old_requests[j].status, old_requests[j].failed) {
            let k = request_key(old_requests[j].url.as_str(), old_final_url);
            let ghost before = views(old_failing@);
            old_failing.push(k);
            proof {
                assert(views(old_failing@) =~= before.push(request_key_spec(old[j as int].url@, old_final_url@)));
                assert forall|kk: Seq<char>|
                    #[trigger] views(old_failing@).contains(kk) <==> exists|p: int|
                        0 <= p < j + 1 && req_failing(old[p]) && #[trigger] request_key_spec(old[p].url@, old_final_url@) == kk by {
                    if views(old_failing@).contains(kk) {
                        let q = choose|q: int| 0 <= q < views(old_failing@).len() && views(old_failing@)[q] == kk;
                        if q < before.len() {
                            assert(before.contains(kk));
                        } else {
                            assert(request_key_spec(old[j as int].url@, old_final_url@) == kk);
                        }
                    }
                    if exists|p: int| 0 <= p < j + 1 && req_failing(old[p]) && #[trigger] request_key_spec(old[p].url@, old_final_url@) == kk {
                        let p = choose|p: int| 0 <= p < j + 1 && req_failing(old[p]) && #[trigger] request_key_spec(old[p].url@, old_final_url@) == kk;
                        if p < j {
                            assert(before.contains(kk));
                            let q = choose|q: int| 0 <= q < before.len() && before[q] == kk;
                            assert(views(old_failing@)[q] == kk);
                        } else {
                            assert(views(old_failing@)[before.len() as int] == kk);
                        }
                    }
                }
            }
        }
        j = j + 1;
    }
    let mut out: Vec<(String, usize)> = Vec::new();
    let mut i: usize = 0;
    while i < new_requests.len()
        invariant
            old == old_requests@,
            new == new_requests@,
            key == (|p: int| request_key_spec(new[p].url@, new_final_url@)),
            keep == (|p: int| new_only_failing(old, old_final_url@, new, new_final_url@, p)),
            i <= new.len(),
            forall|k: Seq<char>| #[trigger] views(old_failing@).contains(k) <==> failing_key_in(old, old_final_url@, k),
            is_first_by_key(out@, i as int, key, keep),
        decreases new_requests.len() - i,
    {
        let failing = is_failing(new_requests[i].status, new_requests[i].failed);
        if failing {
            let k = request_key(new_requests[i].url.as_str(), new_final_url);
            let in_old = contains_string(&old_failing, k.as_str());
            let seen = key_in(&out, k.as_str());
            if !in_old && !seen {
                let ghost before = out@;
                let ghost kv = k@;
                let pos = insert_by_key(&mut out, k, i);
                proof {
                    assert(keep(i as int));
                    lemma_first_by_key_step(before, out@, pos as int, i as int, key, keep, kv);
                }
            } else {
                proof {
                    lemma_first_by_key_extend(out@, i as int, key, keep);
                }
            }
        } else {
            proof {
                lemma_first_by_key_extend(out@, i as int, key, keep);
            }
        }
        i = i + 1;
    }
    out
}

/// A console entry that counts as an error: level `error`, and not the
/// browser's own resource-load report.
pub open spec fn console_error_entry(e: ConsoleEntry) -> bool {
    e.level@ == "error"@ && !is_prefix("Failed to load resource"@, e.text@)
}

/// Some old entry is an error with this text.
pub open spec fn old_error_text(old: Seq<ConsoleEntry>, t: Seq<char>) -> bool {
    exists|p: int| 0 <= p < old.len() && console_error_entry(old[p]) && #[trigger] old[p].text@ == t
}

/// New entry `p` is an error whose text is not an error on the old side.
pub open spec fn new_only_console_error(old: Seq<ConsoleEntry>, new: Seq<ConsoleEntry>, p: int) -> bool {
    console_error_entry(new[p]) && !old_error_text(old, new[p].text@)
}

fn is_console_error(e: &ConsoleEntry) -> (r: bool)
    ensures
        r == console_error_entry(*e),
{
    str_eq(e.level.as_str(), "error") && !str_starts_with(e.text.as_str(), "Failed to load resource")
}

/// The new-only console errors: each error text of the new page that is not
/// an error text of the old page, sorted by text, with its first entry.
pub fn new_only_console_errors(old_console: &[ConsoleEntry], new_console: &[ConsoleEntry]) -> (r: Vec<
    (String, usize),
>)
    ensures
        is_first_by_key(
            r@,
            new_console@.len() as int,
            |p: int| new_console@[p].text@,
            |p: int| new_only_console_error(old_console@, new_console@, p),
        ),
{
    let ghost old = old_console@;
    let ghost new = new_console@;
    let ghost key = |p: int| new[p].text@;
    let ghost keep = |p: int| new_only_console_error(old, new, p);
    let mut old_errors: Vec<String> = Vec::new();
    let mut j: usize = 0;
    while j < old_console.len()
        invariant
            old == old_console@,
            j <= old.len(),
            forall|k: Seq<char>|
                #[trigger] views(old_errors@).contains(k) <==> exists|p: int|
                    0 <= p < j && console_error_entry(old[p]) && #[trigger] old[p].text@ == k,
        decreases old_console.len() - j,
    {
        if is_console_error(&old_console[j]) {
            let ghost before = views(old_errors@);
            old_errors.push(old_console[j].text.clone());
            proof {
                assert(views(old_errors@) =~= before.push(old[j as int].text@));
                assert forall|kk: Seq<char>|
                    #[trigger] views(old_errors@).contains(kk) <==> exists|p: int|
                        0 <= p < j + 1 && console_error_entry(old[p]) && #[trigger] old[p].text@ == kk by {
                    if views(old_errors@).contains(kk) {
                        let q = choose|q: int| 0 <= q < views(old_errors@).len() && views(old_errors@)[q] == kk;
                        if q < before.len() {
                            assert(before.contains(kk));
                        } else {
                            assert(old[j as int].text@ == kk);
                        }
                    }
                    if exists|p: int| 0 <= p < j + 1 && console_error_entry(old[p]) && #[trigger] old[p].text@ == kk {
                        let p = choose|p: int| 0 <= p < j + 1 && console_error_entry(old[p]) && #[trigger] old[p].text@ == kk;
                        if p < j {
                            assert(before.contains(kk));
                            let q = choose|q: int| 0 <= q < before.len() && before[q] == kk;
                            assert(views(old_errors@)[q] == kk);
                        } else {
                            assert(views(old_errors@)[before.len() as int] == kk);
                        }
                    }
                }
            }
        }
        j = j + 1;
    }
    let mut out: Vec<(String, usize)> = Vec::new();
    let mut i: usize = 0;
    while i < new_console.len()
        invariant
            old == old_console@,
            new == new_console@,
            key == (|p: int| new[p].text@),
            keep == (|p: int| new_only_console_error(old, new, p)),
            i <= new.len(),
            forall|k: Seq<char>| #[trigger] views(old_errors@).contains(k) <==> old_error_text(old, k),
            is_first_by_key(out@, i as int, key, keep),
        decreases new_console.len() - i,
    {
        if is_console_error(&new_console[i]) {
            let in_old = contains_string(&old_errors, new_console[i].text.as_str());
            let seen = key_in(&out, new_console[i].text.as_str());
            if !in_old && !seen {
                let ghost before = out@;
                let ghost kv = new[i as int].text@;
                let pos = insert_by_key(&mut out, new_console[i].text.clone(), i);
                proof {
                    assert(keep(i as int));
                    lemma_first_by_key_step(before, out@, pos as int, i as int, key, keep, kv);
                }
            } else {
                proof {
                    lemma_first_by_key_extend(out@, i as int, key, keep);
                }
            }
        } else {
            proof {
                lemma_first_by_key_extend(out@, i as int, key, keep);
            }
        }
        i = i + 1;
    }
    out
}

// ---------------------------------------------------------------------------
// Network and console issues
// ---------------------------------------------------------------------------

/// What the network and console checks read of one capture.
#[derive(Debug, Clone)]
pub struct NetworkPage {
    pub final_url: String,
    pub requests: Vec<NetworkRequest>,
    pub console: Vec<ConsoleEntry>,
    pub nodes: Vec<SemanticNode>,
    pub lang: Option<String>,
}

/// `sel` is the new-only failing selection of the two pages.
pub open spec fn failing_selection(old: NetworkPage, new: NetworkPage, sel: Seq<(String, usize)>) -> bool {
    is_first_by_key(
        sel,
        new.requests@.len() as int,
        |p: int| request_key_spec(new.requests@[p].url@, new.final_url@),
        |p: int| new_only_failing(old.requests@, old.final_url@, new.requests@, new.final_url@, p),
    )
}

/// `sel` is the new-only console-error selection of the two pages.
pub open spec fn console_selection(old: NetworkPage, new: NetworkPage, sel: Seq<(String, usize)>) -> bool {
    is_first_by_key(
        sel,
        new.console@.len() as int,
        |p: int| new.console@[p].text@,
        |p: int| new_only_console_error(old.console@, new.console@, p),
    )
}

/// Old request `j` is the first whose key on the old page is `key`.
pub open spec fn first_with_key(reqs: Seq<NetworkRequest>, own: Seq<char>, key: Seq<char>, j: int) -> bool {
    &&& 0 <= j < reqs.len()
    &&& request_key_spec(reqs[j].url@, own) == key
    &&& forall|i: int| 0 <= i < j ==> request_key_spec((#[trigger] reqs[i]).url@, own) != key
}

/// The `old` part of a network error's evidence: the first old request with
/// the same key (any status), or `null`.
pub open spec fn old_request_leaves(
    reqs: Seq<NetworkRequest>,
    own: Seq<char>,
    key: Seq<char>,
    leaves: Seq<(Seq<char>, LeafModel)>,
) -> bool {
    ||| exists|j: int|
        #[trigger] first_with_key(reqs, own, key, j) && leaves == seq![
            text_leaf("old.url"@, reqs[j].url@),
            status_leaf("old.status"@, reqs[j].status),
        ]
    ||| (forall|j: int| 0 <= j < reqs.len() ==> request_key_spec((#[trigger] reqs[j]).url@, own) != key) && leaves
        == seq![("old"@, LeafModel::Null)]
}

/// A status leaf: the number, or `null`.
pub open spec fn status_leaf(path: Seq<char>, status: Option<u32>) -> (Seq<char>, LeafModel) {
    (path, match status {
        Some(n) => LeafModel::Number(n as i64),
        None => LeafModel::Null,
    })
}

/// An optional text leaf: the text, or `null`.
pub open spec fn opt_text_leaf(path: Seq<char>, v: Option<Seq<char>>) -> (Seq<char>, LeafModel) {
    (path, match v {
        Some(t) => LeafModel::Text(t),
        None => LeafModel::Null,
    })
}

/// The anchors and locator of a network error: those of the first new-page
/// node showing the asset, else page-level null anchors.
pub open spec fn asset_locator_ok(nodes: Seq<SemanticNode>, url: Seq<char>, l: Locator) -> bool {
    ||| exists|j: int|
        0 <= j < nodes.len() && shows_asset(#[trigger] nodes[j], url) && (forall|i: int|
            0 <= i < j ==> !shows_asset(#[trigger] nodes[i], url)) && l.anchors == anchors_of_node(nodes[j])
            && is_new_node_locator(l, nodes[j])
    ||| (forall|i: int| 0 <= i < nodes.len() ==> !shows_asset(#[trigger] nodes[i], url)) && l.anchors
        == null_anchors() && crate::hygiene::is_page_locator(l)
}

/// Anchors with every field absent.
pub open spec fn null_anchors() -> Anchors {
    Anchors {
        text: None,
        role: None,
        href: None,
        alt: None,
        aria_label: None,
        nearest_heading: None,
        landmark: None,
        ordinal_in_landmark: None,
    }
}

/// The status as the message shows it: its number, or `unknown`.
pub open spec fn status_text(status: Option<u32>) -> Seq<char> {
    match status {
        Some(n) => dec(n as nat),
        None => "unknown"@,
    }
}

/// The remediation note of a network error.
pub open spec fn asset_note(status: Option<u32>) -> Seq<char> {
    match status {
        Some(n) => "Asset returned HTTP "@ + dec(n as nat)
            + " on the new page (it loaded on the old page). Restore the asset or fix its path. The grep target may hit repo source or CMS content; the anchors identify the element either way."@,
        None => "Asset failed to load on the new page (it loaded on the old page). Restore the asset or fix its path. The grep target may hit repo source or CMS content; the anchors identify the element either way."@,
    }
}

/// The network-error issue for the new-page request `req` with key `key`.
pub open spec fn network_draft_ok(
    d: IssueDraft,
    req: NetworkRequest,
    key: Seq<char>,
    old: NetworkPage,
    new: NetworkPage,
    viewport: Seq<char>,
    profile: SeverityProfile,
) -> bool {
    let url = req.url@;
    &&& draft_head(
        d,
        IssueType::NetworkError,
        IssueCategory::Technical,
        profile,
        viewport,
        opt_view(new.lang),
        Some("G7"@),
        d.locator.anchors,
    )
    &&& asset_locator_ok(new.nodes@, url, d.locator)
    &&& d.message@ == "Network error: "@ + url + " returned HTTP "@ + status_text(req.status) + " on the new page"@
    &&& d.evidence@.len() >= 4
    &&& old_request_leaves(
        old.requests@,
        old.final_url@,
        key,
        fields_view(d.evidence@).take(d.evidence@.len() - 4),
    )
    &&& fields_view(d.evidence@).skip(d.evidence@.len() - 4) == seq![
        text_leaf("new.url"@, url),
        status_leaf("new.status"@, req.status),
        ("new.failed"@, LeafModel::Flag(req.failed)),
        opt_text_leaf("new.type"@, opt_view(req.request_type)),
    ]
    &&& match d.remediation {
        Some(rm) => fields_view(rm@) == seq![
            text_leaf("action"@, "restore_asset"@),
            text_leaf("findBy.grep.0"@, filename_spec(url)),
            opt_text_leaf("findBy.near"@, opt_view(d.locator.anchors.nearest_heading)),
            text_leaf("from"@, url),
            ("to"@, LeafModel::Null),
            text_leaf("note"@, asset_note(req.status)),
        ],
        None => false,
    }
}

/// The console-error issue for the new-page entry `e`.
pub open spec fn console_draft_ok(
    d: IssueDraft,
    e: ConsoleEntry,
    new: NetworkPage,
    viewport: Seq<char>,
    profile: SeverityProfile,
) -> bool {
    &&& draft_head(
        d,
        IssueType::ConsoleError,
        IssueCategory::Technical,
        profile,
        viewport,
        opt_view(new.lang),
        None,
        null_anchors(),
    )
    &&& crate::hygiene::is_page_locator(d.locator)
    &&& d.message@ == "Console error: "@ + e.text@
    &&& fields_view(d.evidence@) == seq![
        ("old"@, LeafModel::Null),
        text_leaf("new.level"@, e.level@),
        text_leaf("new.text"@, e.text@),
    ]
    &&& match d.remediation {
        Some(rm) => fields_view(rm@) == seq![
            text_leaf("action"@, "investigate_console_error"@),
            text_leaf("findBy.grep.0"@, e.text@),
            text_leaf(
                "note"@,
                "The new page logged a console error not present on the old page. The grep target is the message text; it may live in repo source or a bundled dependency. The tool does not name the component."@,
            ),
        ],
        None => false,
    }
}

fn old_request_evidence(old: &NetworkPage, key: &str) -> (r: Vec<JsonField>)
    ensures
        old_request_leaves(old.requests@, old.final_url@, key@, fields_view(r@)),
{
    let mut j: usize = 0;
    while j < old.requests.len()
        invariant
            j <= old.requests@.len(),
            forall|i: int| 0 <= i < j ==> request_key_spec((#[trigger] old.requests@[i]).url@, old.final_url@) != key@,
        decreases old.requests.len() - j,
    {
        let k = request_key(old.requests[j].url.as_str(), old.final_url.as_str());
        if str_eq(k.as_str(), key) {
            let mut v: Vec<JsonField> = Vec::new();
            v.push(text_field("old.url", old.requests[j].url.as_str()));
            v.push(opt_number_field("old.status", old.requests[j].status));
            proof {
                assert(first_with_key(old.requests@, old.final_url@, key@, j as int));
                assert(fields_view(v@) =~= seq![
                    text_leaf("old.url"@, old.requests@[j as int].url@),
                    status_leaf("old.status"@, old.requests@[j as int].status),
                ]);
            }
            return v;
        }
        j = j + 1;
    }
    let mut v: Vec<JsonField> = Vec::new();
    v.push(JsonField { path: to_owned_string("old"), value: JsonLeaf::Null });
    assert(fields_view(v@) =~= seq![("old"@, LeafModel::Null)]);
    v
}

fn opt_text_field(path: &str, v: &Option<String>) -> (r: JsonField)
    ensures
        r@ == opt_text_leaf(path@, opt_view(*v)),
{
    match v {
        Some(t) => text_field(path, t.as_str()),
        None => JsonField { path: to_owned_string(path), value: JsonLeaf::Null },
    }
}

fn network_draft(
    req: &NetworkRequest,
    key: &str,
    old: &NetworkPage,
    new: &NetworkPage,
    viewport: &str,
    profile: &SeverityProfile,
) -> (d: IssueDraft)
    ensures
        network_draft_ok(d, *req, key@, *old, *new, viewport@, *profile),
{
    let url = req.url.as_str();
    let locator = match find_anchor_node(new.nodes.as_slice(), url) {
        Some(j) => single_node_locator(node_to_anchors(&new.nodes[j]), &new.nodes[j]),
        None => null_locator(Anchors::null()),
    };
    let mut evidence = old_request_evidence(old, key);
    let ghost old_part = fields_view(evidence@);
    evidence.push(text_field("new.url", url));
    evidence.push(opt_number_field("new.status", req.status));
    evidence.push(flag_field("new.failed", req.failed));
    evidence.push(opt_text_field("new.type", &req.request_type));
    proof {
        let n = evidence@.len();
        assert(fields_view(evidence@).take(n - 4) =~= old_part);
        assert(fields_view(evidence@).skip(n - 4) =~= seq![
            text_leaf("new.url"@, url@),
            status_leaf("new.status"@, req.status),
            ("new.failed"@, LeafModel::Flag(req.failed)),
            opt_text_leaf("new.type"@, opt_view(req.request_type)),
        ]);
    }
    let status_shown = match req.status {
        Some(n) => dec_string(n as u64),
        None => to_owned_string("unknown"),
    };
    let mut message = to_owned_string("Network error: ");
    push_str(&mut message, url);
    push_str(&mut message, " returned HTTP ");
    push_str(&mut message, status_shown.as_str());
    push_str(&mut message, " on the new page");
    let note = match req.status {
        Some(n) => {
            let mut t = to_owned_string("Asset returned HTTP ");
            push_str(&mut t, dec_string(n as u64).as_str());
            push_str(
                &mut t,
                " on the new page (it loaded on the old page). Restore the asset or fix its path. The grep target may hit repo source or CMS content; the anchors identify the element either way.",
            );
            t
        },
        None => to_owned_string(
            "Asset failed to load on the new page (it loaded on the old page). Restore the asset or fix its path. The grep target may hit repo source or CMS content; the anchors identify the element either way.",
        ),
    };
    let filename = filename_from_url(url);
    let mut rm: Vec<JsonField> = Vec::new();
    rm.push(text_field("action", "restore_asset"));
    rm.push(text_field("findBy.grep.0", filename.as_str()));
    rm.push(opt_text_field("findBy.near", &locator.anchors.nearest_heading));
    rm.push(text_field("from", url));
    rm.push(JsonField { path: to_owned_string("to"), value: JsonLeaf::Null });
    rm.push(text_field("note", note.as_str()));
    proof {
        assert(fields_view(rm@) =~= seq![
            text_leaf("action"@, "restore_asset"@),
            text_leaf("findBy.grep.0"@, filename_spec(url@)),
            opt_text_leaf("findBy.near"@, opt_view(locator.anchors.nearest_heading)),
            text_leaf("from"@, url@),
            ("to"@, LeafModel::Null),
            text_leaf("note"@, asset_note(req.status)),
        ]);
    }
    make_draft(
        IssueType::NetworkError,
        IssueCategory::Technical,
        profile,
        viewport,
        &new.lang,
        Some("G7"),
        message,
        locator,
        evidence,
        Some(rm),
    )
}

fn console_draft(e: &ConsoleEntry, new: &NetworkPage, viewport: &str, profile: &SeverityProfile) -> (d: IssueDraft)
    ensures
        console_draft_ok(d, *e, *new, viewport@, *profile),
{
    let mut evidence: Vec<JsonField> = Vec::new();
    evidence.push(JsonField { path: to_owned_string("old"), value: JsonLeaf::Null });
    evidence.push(text_field("new.level", e.level.as_str()));
    evidence.push(text_field("new.text", e.text.as_str()));
    assert(fields_view(evidence@) =~= seq![
        ("old"@, LeafModel::Null),
        text_leaf("new.level"@, e.level@),
        text_leaf("new.text"@, e.text@),
    ]);
    let mut rm: Vec<JsonField> = Vec::new();
    rm.push(text_field("action", "investigate_console_error"));
    rm.push(text_field("findBy.grep.0", e.text.as_str()));
    rm.push(
        text_field(
            "note",
            "The new page logged a console error not present on the old page. The grep target is the message text; it may live in repo source or a bundled dependency. The tool does not name the component.",
        ),
    );
    assert(fields_view(rm@) =~= seq![
        text_leaf("action"@, "investigate_console_error"@),
        text_leaf("findBy.grep.0"@, e.text@),
        text_leaf(
            "note"@,
            "The new page logged a console error not present on the old page. The grep target is the message text; it may live in repo source or a bundled dependency. The tool does not name the component."@,
        ),
    ]);
    let mut message = to_owned_string("Console error: ");
    push_str(&mut message, e.text.as_str());
    make_draft(
        IssueType::ConsoleError,
        IssueCategory::Technical,
        profile,
        viewport,
        &new.lang,
        None,
        message,
        null_locator(Anchors::null()),
        evidence,
        Some(rm),
    )
}

/// The network-error and console-error issues of a page pair: one network
/// error per key of the new-only failing requests (sorted by key), then one
/// console error per new-only console-error text (sorted by text).
pub fn network_console_issues(
    old: &NetworkPage,
    new: &NetworkPage,
    viewport: &str,
    profile: &SeverityProfile,
) -> (r: Vec<IssueDraft>)
    ensures
        exists|sel: Seq<(String, usize)>, csel: Seq<(String, usize)>|
            {
                &&& #[trigger] failing_selection(*old, *new, sel)
                &&& #[trigger] console_selection(*old, *new, csel)
                &&& r@.len() == sel.len() + csel.len()
                &&& forall|q: int|
                    0 <= q < sel.len() ==> network_draft_ok(
                        #[trigger] r@[q],
                        new.requests@[sel[q].1 as int],
                        sel[q].0@,
                        *old,
                        *new,
                        viewport@,
                        *profile,
                    )
                &&& forall|q: int|
                    0 <= q < csel.len() ==> console_draft_ok(
                        #[trigger] r@[sel.len() + q],
                        new.console@[csel[q].1 as int],
                        *new,
                        viewport@,
                        *profile,
                    )
            },
{
    let sel = new_only_failing_requests(
        old.requests.as_slice(),
        old.final_url.as_str(),
        new.requests.as_slice(),
        new.final_url.as_str(),
    );
    let csel = new_only_console_errors(old.console.as_slice(), new.console.as_slice());
    assert(failing_selection(*old, *new, sel@));
    assert(console_selection(*old, *new, csel@));
    let mut out: Vec<IssueDraft> = Vec::new();
    let mut q: usize = 0;
    while q < sel.len()
        invariant
            q <= sel@.len(),
            out@.len() == q,
            failing_selection(*old, *new, sel@),
            forall|i: int|
                0 <= i < q ==> network_draft_ok(
                    #[trigger] out@[i],
                    new.requests@[sel@[i].1 as int],
                    sel@[i].0@,
                    *old,
                    *new,
                    viewport@,
                    *profile,
                ),
        decreases sel.len() - q,
    {
        let p = sel[q].1;
        assert(p < new.requests@.len());
        let d = network_draft(&new.requests[p], sel[q].0.as_str(), old, new, viewport, profile);
        out.push(d);
        q = q + 1;
    }
    let mut c: usize = 0;
    while c < csel.len()
        invariant
            c <= csel@.len(),
            out@.len() == sel@.len() + c,
            console_selection(*old, *new, csel@),
            forall|i: int|
                0 <= i < sel@.len() ==> network_draft_ok(
                    #[trigger] out@[i],
                    new.requests@[sel@[i].1 as int],
                    sel@[i].0@,
                    *old,
                    *new,
                    viewport@,
                    *profile,
                ),
            forall|i: int|
                0 <= i < c ==> console_draft_ok(
                    #[trigger] out@[sel@.len() + i],
                    new.console@[csel@[i].1 as int],
                    *new,
                    viewport@,
                    *profile,
                ),
        decreases csel.len() - c,
    {
        let p = csel[c].1;
        assert(p < new.console@.len());
        let d = console_draft(&new.console[p], new, viewport, profile);
        out.push(d);
        c = c + 1;
    }
    out
}

} // verus!

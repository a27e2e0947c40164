//! Deterministic issue clustering: issues of one type that share a style
//! property, then (among the rest) issues of one type that share a landmark.
//!
//! Each issue is seen through [`ClusterInput`]: its id, type, category, the
//! `property` string of its remediation (when it has one) and its landmark.
use vstd::multiset::Multiset;
use vstd::prelude::*;

use crate::contract::{lemma_insert_to_multiset, opt_view, sort_strings, sorted_le, views, wire_name, Cluster, IssueCategory, IssueType};
use crate::digest::{
    hex_encode, hex_lower, is_lower_hex, lemma_hex_digits, lemma_hex_len, sha256_digest, sha256_of,
};
use crate::text::{chars_of, chars_slice_string, dec, dec_string, lemma_seq_lt_transitive, lemma_seq_lt_trichotomy, push_char, push_str, seq_le, str_compare, str_eq, to_owned_string};

verus! {

/// What clustering reads of an issue.
#[derive(Debug, Clone)]
pub struct ClusterInput {
    pub id: String,
    pub issue_type: IssueType,
    pub category: IssueCategory,
    /// The string stored under `property` in the issue's remediation, if any.
    pub remediation_property: Option<String>,
    /// The landmark anchor of the issue's locator, if any.
    pub landmark: Option<String>,
}

/// A grouping key: an issue type and a shared string.
pub type GroupKey = (IssueType, Seq<char>);

// ---------------------------------------------------------------------------
// Specification
// ---------------------------------------------------------------------------

/// The style property an issue is clustered by: only for style issues, and
/// only a non-empty one.
pub open spec fn style_property_spec(it: ClusterInput) -> Option<Seq<char>> {
    if it.category == IssueCategory::Style {
        match it.remediation_property {
            Some(p) => if p@.len() > 0 {
                Some(p@)
            } else {
                None
            },
            None => None,
        }
    } else {
        None
    }
}

/// The property key of an issue (none for a pre-claimed issue).
pub open spec fn prop_key(it: ClusterInput, pre: Seq<Seq<char>>) -> Option<GroupKey> {
    if pre.contains(it.id@) {
        None
    } else {
        match style_property_spec(it) {
            Some(p) => Some((it.issue_type, p)),
            None => None,
        }
    }
}

pub open spec fn prop_keys(items: Seq<ClusterInput>, pre: Seq<Seq<char>>) -> Seq<Option<GroupKey>> {
    Seq::new(items.len(), |i: int| prop_key(items[i], pre))
}

/// The ids, in input order, of the first `n` issues whose key is `k`.
pub open spec fn members(
    items: Seq<ClusterInput>,
    keys: Seq<Option<GroupKey>>,
    k: GroupKey,
    n: int,
) -> Seq<Seq<char>>
    decreases n,
{
    if n <= 0 {
        seq![]
    } else {
        let prev = members(items, keys, k, n - 1);
        if keys[n - 1] == Some(k) {
            prev.push(items[n - 1].id@)
        } else {
            prev
        }
    }
}

/// All ids whose key is `k`.
pub open spec fn group_members(
    items: Seq<ClusterInput>,
    keys: Seq<Option<GroupKey>>,
    k: GroupKey,
) -> Seq<Seq<char>> {
    members(items, keys, k, items.len() as int)
}

/// Issue `j` lands in a property cluster.
pub open spec fn in_prop_cluster(
    items: Seq<ClusterInput>,
    pre: Seq<Seq<char>>,
    min: nat,
    j: int,
) -> bool {
    let pk = prop_keys(items, pre);
    pk[j] is Some && group_members(items, pk, pk[j].unwrap()).len() >= min
}

/// An id claimed before landmark clustering: pre-claimed, or the id of an
/// issue placed in a property cluster.
pub open spec fn claimed_after_props(
    items: Seq<ClusterInput>,
    pre: Seq<Seq<char>>,
    min: nat,
    id: Seq<char>,
) -> bool {
    pre.contains(id) || exists|j: int|
        0 <= j < items.len() && #[trigger] items[j].id@ == id && in_prop_cluster(items, pre, min, j)
}

/// The landmark key of issue `i` (none once its id is claimed, or without a
/// non-empty landmark).
pub open spec fn lm_key(items: Seq<ClusterInput>, pre: Seq<Seq<char>>, min: nat, i: int) -> Option<
    GroupKey,
> {
    let it = items[i];
    if claimed_after_props(items, pre, min, it.id@) {
        None
    } else {
        match it.landmark {
            Some(l) => if l@.len() > 0 {
                Some((it.issue_type, l@))
            } else {
                None
            },
            None => None,
        }
    }
}

pub open spec fn lm_keys(items: Seq<ClusterInput>, pre: Seq<Seq<char>>, min: nat) -> Seq<
    Option<GroupKey>,
> {
    Seq::new(items.len(), |i: int| lm_key(items, pre, min, i))
}

/// Issue `i` is the first with its key.
pub open spec fn is_first(keys: Seq<Option<GroupKey>>, i: int) -> bool {
    keys[i] is Some && forall|j: int| 0 <= j < i ==> keys[j] != keys[i]
}

/// The keys, in order of first occurrence among the first `n` issues, whose
/// groups reach `min` members.
pub open spec fn groups_upto(
    items: Seq<ClusterInput>,
    keys: Seq<Option<GroupKey>>,
    min: nat,
    n: int,
) -> Seq<GroupKey>
    decreases n,
{
    if n <= 0 {
        seq![]
    } else {
        let prev = groups_upto(items, keys, min, n - 1);
        if is_first(keys, n - 1) && group_members(items, keys, keys[n - 1].unwrap()).len() >= min {
            prev.push(keys[n - 1].unwrap())
        } else {
            prev
        }
    }
}

pub open spec fn prop_groups(items: Seq<ClusterInput>, pre: Seq<Seq<char>>, min: nat) -> Seq<
    GroupKey,
> {
    groups_upto(items, prop_keys(items, pre), min, items.len() as int)
}

pub open spec fn lm_groups(items: Seq<ClusterInput>, pre: Seq<Seq<char>>, min: nat) -> Seq<
    GroupKey,
> {
    groups_upto(items, lm_keys(items, pre, min), min, items.len() as int)
}

/// The canonical string a cluster id is hashed from.
pub open spec fn cluster_canonical(t: IssueType, kind: Seq<char>, key: Seq<char>) -> Seq<char> {
    wire_name(t) + seq!['\x1f'] + kind + seq!['\x1f'] + key
}

/// `cluster_` and the first twelve hex digits of the SHA-256 of the UTF-8
/// canonical string.
pub open spec fn cluster_id_spec(canonical: Seq<char>) -> Seq<char> {
    "cluster_"@ + hex_lower(sha256_of(vstd::utf8::encode_utf8(canonical))).take(12)
}

/// `c` is the cluster of key `k` (a property cluster when `by_prop`, else a
/// landmark cluster) with members `ids`: the id, the members sorted
/// ascending, the shared value and the summary.
pub open spec fn cluster_matches(c: Cluster, by_prop: bool, k: GroupKey, ids: Seq<Seq<char>>) -> bool {
    let n = ids.len();
    &&& c.id@.len() == 20
    &&& forall|i: int| 8 <= i < 20 ==> is_lower_hex(#[trigger] c.id@[i])
    &&& sorted_le(views(c.issue_ids@))
    &&& views(c.issue_ids@).to_multiset() == ids.to_multiset()
    &&& if by_prop {
        &&& c.id@ == cluster_id_spec(cluster_canonical(k.0, "prop"@, k.1))
        &&& opt_view(c.shared_property) == Some(k.1)
        &&& c.shared_landmark is None
        &&& opt_view(c.summary) == Some(dec(n) + " "@ + wire_name(k.0) + " issues share "@ + k.1)
    } else {
        &&& c.id@ == cluster_id_spec(cluster_canonical(k.0, "lm"@, k.1))
        &&& c.shared_property is None
        &&& opt_view(c.shared_landmark) == Some(k.1)
        &&& opt_view(c.summary) == Some(dec(n) + " "@ + wire_name(k.0) + " issues in "@ + k.1)
    }
}

/// Property cluster number `j`.
pub open spec fn is_prop_cluster(
    c: Cluster,
    items: Seq<ClusterInput>,
    pre: Seq<Seq<char>>,
    min: nat,
    j: int,
) -> bool {
    let g = prop_groups(items, pre, min);
    0 <= j < g.len() && cluster_matches(c, true, g[j], group_members(items, prop_keys(items, pre), g[j]))
}

/// Landmark cluster number `j`.
pub open spec fn is_lm_cluster(
    c: Cluster,
    items: Seq<ClusterInput>,
    pre: Seq<Seq<char>>,
    min: nat,
    j: int,
) -> bool {
    let g = lm_groups(items, pre, min);
    0 <= j < g.len() && cluster_matches(
        c,
        false,
        g[j],
        group_members(items, lm_keys(items, pre, min), g[j]),
    )
}

/// Ordered by member count (descending), then id (ascending).
pub open spec fn cluster_le(a: Cluster, b: Cluster) -> bool {
    a.issue_ids@.len() > b.issue_ids@.len() || (a.issue_ids@.len() == b.issue_ids@.len() && seq_le(
        a.id@,
        b.id@,
    ))
}

pub open spec fn clusters_ordered(s: Seq<Cluster>) -> bool {
    forall|i: int, j: int| 0 <= i < j < s.len() ==> cluster_le(#[trigger] s[i], #[trigger] s[j])
}

/// Some entry of `r` is property cluster number `j`.
pub open spec fn prop_cluster_present(
    r: Seq<Cluster>,
    items: Seq<ClusterInput>,
    pre: Seq<Seq<char>>,
    min: nat,
    j: int,
) -> bool {
    exists|i: int| 0 <= i < r.len() && #[trigger] is_prop_cluster(r[i], items, pre, min, j)
}

/// Some entry of `r` is landmark cluster number `j`.
pub open spec fn lm_cluster_present(
    r: Seq<Cluster>,
    items: Seq<ClusterInput>,
    pre: Seq<Seq<char>>,
    min: nat,
    j: int,
) -> bool {
    exists|i: int| 0 <= i < r.len() && #[trigger] is_lm_cluster(r[i], items, pre, min, j)
}

/// `c` is one of the property or landmark clusters of `items`.
pub open spec fn is_some_cluster(
    c: Cluster,
    items: Seq<ClusterInput>,
    pre: Seq<Seq<char>>,
    min: nat,
) -> bool {
    (exists|j: int| #[trigger] is_prop_cluster(c, items, pre, min, j)) || (exists|j: int|
        #[trigger] is_lm_cluster(c, items, pre, min, j))
}

/// The clusters of `items`: one per property group and one per landmark
/// group, and nothing else, in order.
pub open spec fn cluster_result(
    items: Seq<ClusterInput>,
    pre: Seq<Seq<char>>,
    min: nat,
    r: Seq<Cluster>,
) -> bool {
    &&& r.len() == prop_groups(items, pre, min).len() + lm_groups(items, pre, min).len()
    &&& forall|j: int|
        0 <= j < prop_groups(items, pre, min).len() ==> #[trigger] prop_cluster_present(
            r,
            items,
            pre,
            min,
            j,
        )
    &&& forall|j: int|
        0 <= j < lm_groups(items, pre, min).len() ==> #[trigger] lm_cluster_present(
            r,
            items,
            pre,
            min,
            j,
        )
    &&& forall|i: int| 0 <= i < r.len() ==> #[trigger] is_some_cluster(r[i], items, pre, min)
    &&& clusters_ordered(r)
}

// ---------------------------------------------------------------------------
// Implementation
// ---------------------------------------------------------------------------

/// The style property of an issue: its remediation `property`, for style
/// issues, when non-empty.
pub fn style_property(issue: &ClusterInput) -> (r: Option<String>)
    ensures
        opt_view(r) == style_property_spec(*issue),
{
    if issue.category != IssueCategory::Style {
        return None;
    }
    match &issue.remediation_property {
        Some(p) => {
            if p.as_str().is_empty() {
                None
            } else {
                Some(p.clone())
            }
        },
        None => None,
    }
}

fn id_in(v: &[String], id: &str) -> (r: bool)
    ensures
        r == views(v@).contains(id@),
{
    let mut i: usize = 0;
    while i < v.len()
        invariant
            i <= v@.len(),
            forall|k: int| 0 <= k < i ==> v@[k]@ != id@,
        decreases v.len() - i,
    {
        if str_eq(v[i].as_str(), id) {
            assert(views(v@)[i as int] == id@);
            return true;
        }
        i = i + 1;
    }
    proof {
        if views(v@).contains(id@) {
            let k = choose|k: int| 0 <= k < views(v@).len() && views(v@)[k] == id@;
            assert(v@[k]@ == id@);
        }
    }
    false
}

pub open spec fn key_view(o: Option<(IssueType, String)>) -> Option<GroupKey> {
    match o {
        Some(p) => Some((p.0, p.1@)),
        None => None,
    }
}

pub open spec fn keys_view(v: Seq<Option<(IssueType, String)>>) -> Seq<Option<GroupKey>> {
    Seq::new(v.len(), |i: int| key_view(v[i]))
}

fn key_is(o: &Option<(IssueType, String)>, t: IssueType, s: &str) -> (r: bool)
    ensures
        r == (key_view(*o) == Some((t, s@))),
{
    match o {
        Some(p) => p.0 == t && str_eq(p.1.as_str(), s),
        None => false,
    }
}

/// `cluster_` and twelve hex digits of the SHA-256 of the canonical string.
fn cluster_id(canonical: &str) -> (r: String)
    ensures
        r@ == cluster_id_spec(canonical@),
        r@.len() == 20,
        forall|i: int| 8 <= i < 20 ==> is_lower_hex(#[trigger] r@[i]),
{
    let bytes = canonical.as_bytes();
    let digest = sha256_digest(bytes);
    let hex = hex_encode(digest.as_slice());
    proof {
        lemma_hex_len(digest@);
        lemma_hex_digits(digest@);
    }
    let hcs = chars_of(hex.as_str());
    let head = chars_slice_string(hcs.as_slice(), 0, 12);
    assert(hcs@.subrange(0, 12) =~= hex@.take(12));
    let mut id = to_owned_string("cluster_");
    push_str(&mut id, head.as_str());
    proof {
        reveal_strlit("cluster_");
        assert forall|i: int| 8 <= i < 20 implies is_lower_hex(#[trigger] id@[i]) by {
            assert(id@[i] == hex@[i - 8]);
        }
    }
    id
}

fn make_cluster(t: IssueType, by_prop: bool, key: &str, ids: &[String]) -> (c: Cluster)
    requires
        ids@.len() <= u64::MAX,
    ensures
        cluster_matches(c, by_prop, (t, key@), views(ids@)),
{
    let sorted = sort_strings(ids);
    let kind = if by_prop {
        "prop"
    } else {
        "lm"
    };
    let mut canonical = to_owned_string(t.as_str());
    push_char(&mut canonical, '\x1f');
    push_str(&mut canonical, kind);
    push_char(&mut canonical, '\x1f');
    push_str(&mut canonical, key);
    assert(canonical@ =~= cluster_canonical(t, kind@, key@));
    let id = cluster_id(canonical.as_str());
    let mut summary = dec_string(ids.len() as u64);
    push_str(&mut summary, " ");
    push_str(&mut summary, t.as_str());
    if by_prop {
        push_str(&mut summary, " issues share ");
    } else {
        push_str(&mut summary, " issues in ");
    }
    push_str(&mut summary, key);
    let shared = to_owned_string(key);
    proof {
        reveal_strlit("prop");
        reveal_strlit("lm");
    }
    if by_prop {
        Cluster {
            id,
            issue_ids: sorted,
            shared_property: Some(shared),
            shared_landmark: None,
            summary: Some(summary),
        }
    } else {
        Cluster {
            id,
            issue_ids: sorted,
            shared_property: None,
            shared_landmark: Some(shared),
            summary: Some(summary),
        }
    }
}

/// The ids of the issues whose key is `(t, s)`, in input order.
fn collect_members(
    items: &[ClusterInput],
    keys: &Vec<Option<(IssueType, String)>>,
    t: IssueType,
    s: &str,
) -> (r: Vec<String>)
    requires
        keys@.len() == items@.len(),
    ensures
        views(r@) == group_members(items@, keys_view(keys@), (t, s@)),
        r@.len() <= items@.len(),
{
    let ghost kv = keys_view(keys@);
    let mut out: Vec<String> = Vec::new();
    let mut j: usize = 0;
    while j < items.len()
        invariant
            j <= items@.len(),
            keys@.len() == items@.len(),
            kv == keys_view(keys@),
            views(out@) == members(items@, kv, (t, s@), j as int),
            out@.len() <= j,
        decreases items.len() - j,
    {
        let hit = key_is(&keys[j], t, s);
        assert(kv[j as int] == key_view(keys@[j as int]));
        if hit {
            out.push(items[j].id.clone());
        }
        j = j + 1;
        assert(views(out@) =~= members(items@, kv, (t, s@), j as int));
    }
    out
}

/// Whether the key at `i` occurs earlier.
fn seen_before(keys: &Vec<Option<(IssueType, String)>>, i: usize, t: IssueType, s: &str) -> (r: bool)
    requires
        i <= keys@.len(),
    ensures
        r == exists|j: int| 0 <= j < i && keys_view(keys@)[j] == Some((t, s@)),
{
    let mut j: usize = 0;
    while j < i
        invariant
            j <= i <= keys@.len(),
            forall|k: int| 0 <= k < j ==> keys_view(keys@)[k] != Some((t, s@)),
        decreases i - j,
    {
        if key_is(&keys[j], t, s) {
            assert(keys_view(keys@)[j as int] == Some((t, s@)));
            return true;
        }
        j = j + 1;
    }
    false
}

/// Appends one cluster per key (in order of first occurrence) whose group
/// reaches `min` members.
fn cluster_pass(
    items: &[ClusterInput],
    keys: &Vec<Option<(IssueType, String)>>,
    min: usize,
    by_prop: bool,
    out: &mut Vec<Cluster>,
)
    requires
        keys@.len() == items@.len(),
        items@.len() <= u64::MAX,
    ensures
        final(out)@.len() == old(out)@.len() + groups_upto(
            items@,
            keys_view(keys@),
            min as nat,
            items@.len() as int,
        ).len(),
        forall|k: int| 0 <= k < old(out)@.len() ==> final(out)@[k] == old(out)@[k],
        forall|j: int|
            0 <= j < groups_upto(items@, keys_view(keys@), min as nat, items@.len() as int).len()
                ==> cluster_matches(
                #[trigger] final(out)@[old(out)@.len() + j],
                by_prop,
                groups_upto(items@, keys_view(keys@), min as nat, items@.len() as int)[j],
                group_members(
                    items@,
                    keys_view(keys@),
                    groups_upto(items@, keys_view(keys@), min as nat, items@.len() as int)[j],
                ),
            ),
{
    let ghost kv = keys_view(keys@);
    let ghost start = out@;
    let mut i: usize = 0;
    while i < items.len()
        invariant
            i <= items@.len() <= u64::MAX,
            keys@.len() == items@.len(),
            kv == keys_view(keys@),
            out@.len() == start.len() + groups_upto(items@, kv, min as nat, i as int).len(),
            forall|k: int| 0 <= k < start.len() ==> out@[k] == start[k],
            forall|j: int|
                0 <= j < groups_upto(items@, kv, min as nat, i as int).len() ==> cluster_matches(
                    #[trigger] out@[start.len() + j],
                    by_prop,
                    groups_upto(items@, kv, min as nat, i as int)[j],
                    group_members(items@, kv, groups_upto(items@, kv, min as nat, i as int)[j]),
                ),
        decreases items.len() - i,
    {
        let ghost before = out@;
        let ghost g0 = groups_upto(items@, kv, min as nat, i as int);
        assert(kv[i as int] == key_view(keys@[i as int]));
        match &keys[i] {
            Some(p) => {
                let t = p.0;
                let s = p.1.as_str();
                let earlier = seen_before(keys, i, t, s);
                if !earlier {
                    let ms = collect_members(items, keys, t, s);
                    if ms.len() >= min {
                        let c = make_cluster(t, by_prop, s, ms.as_slice());
                        out.push(c);
                    }
                }
            },
            None => {},
        }
        i = i + 1;
        proof {
            let g1 = groups_upto(items@, kv, min as nat, i as int);
            assert(forall|j: int| 0 <= j < g0.len() ==> g1[j] == g0[j]);
            assert forall|j: int| 0 <= j < g1.len() implies cluster_matches(
                #[trigger] out@[start.len() + j],
                by_prop,
                g1[j],
                group_members(items@, kv, g1[j]),
            ) by {
                if j < g0.len() {
                    assert(out@[start.len() + j] == before[start.len() + j]);
                }
            }
        }
    }
}

fn key_le(a: &Cluster, b: &Cluster) -> (r: bool)
    ensures
        r == cluster_le(*a, *b),
{
    if a.issue_ids.len() > b.issue_ids.len() {
        true
    } else if a.issue_ids.len() < b.issue_ids.len() {
        false
    } else {
        let c = str_compare(a.id.as_str(), b.id.as_str());
        proof {
            lemma_seq_lt_trichotomy(a.id@, b.id@);
        }
        c != 1
    }
}

proof fn lemma_cluster_le_total(a: Cluster, b: Cluster)
    ensures
        cluster_le(a, b) || cluster_le(b, a),
{
    lemma_seq_lt_trichotomy(a.id@, b.id@);
}

proof fn lemma_cluster_le_transitive(a: Cluster, b: Cluster, c: Cluster)
    requires
        cluster_le(a, b),
        cluster_le(b, c),
    ensures
        cluster_le(a, c),
{
    if a.issue_ids@.len() == b.issue_ids@.len() && b.issue_ids@.len() == c.issue_ids@.len() {
        if a.id@ != b.id@ && b.id@ != c.id@ {
            lemma_seq_lt_transitive(a.id@, b.id@, c.id@);
        }
    }
}

/// A stable sort by member count (descending), then id (ascending).
fn sort_clusters(v: Vec<Cluster>) -> (r: Vec<Cluster>)
    ensures
        clusters_ordered(r@),
        r@.to_multiset() == v@.to_multiset(),
        r@.len() == v@.len(),
{
    let ghost orig = v@;
    let mut rest = v;
    let mut r: Vec<Cluster> = Vec::new();
    proof {
        r@.to_multiset_ensures();
        vstd::multiset::lemma_multiset_empty_len(r@.to_multiset());
        assert(r@.to_multiset().add(rest@.to_multiset()) =~= orig.to_multiset());
    }
    while rest.len() > 0
        invariant
            clusters_ordered(r@),
            r@.to_multiset().add(rest@.to_multiset()) == orig.to_multiset(),
            r@.len() + rest@.len() == orig.len(),
        decreases rest.len(),
    {
        let ghost rest0 = rest@;
        let x = rest.remove(0);
        proof {
            assert(rest0 =~= rest@.insert(0, x));
            lemma_insert_to_multiset(rest@, 0, x);
        }
        let mut p: usize = 0;
        while p < r.len() && key_le(&r[p], &x)
            invariant
                p <= r@.len(),
                forall|k: int| 0 <= k < p ==> cluster_le(#[trigger] r@[k], x),
            decreases r.len() - p,
        {
            p = p + 1;
        }
        let ghost before = r@;
        proof {
            if p < before.len() {
                lemma_cluster_le_total(before[p as int], x);
            }
            assert forall|a: int, b: int| 0 <= a < b < before.len() + 1 implies cluster_le(
                #[trigger] before.insert(p as int, x)[a],
                #[trigger] before.insert(p as int, x)[b],
            ) by {
                let t = before.insert(p as int, x);
                if b < p {
                    assert(t[a] == before[a] && t[b] == before[b]);
                } else if b == p {
                    assert(t[a] == before[a]);
                } else if a < p {
                    assert(t[a] == before[a] && t[b] == before[b - 1]);
                    lemma_cluster_le_transitive(x, before[p as int], before[b - 1]);
                    lemma_cluster_le_transitive(before[a], x, before[b - 1]);
                } else if a == p {
                    assert(t[b] == before[b - 1]);
                    if b - 1 > p {
                        lemma_cluster_le_transitive(x, before[p as int], before[b - 1]);
                    }
                } else {
                    assert(t[a] == before[a - 1] && t[b] == before[b - 1]);
                }
            }
            lemma_insert_to_multiset(before, p as int, x);
        }
        r.insert(p, x);
        proof {
            assert(r@.to_multiset().add(rest@.to_multiset()) =~= orig.to_multiset());
        }
    }
    proof {
        rest@.to_multiset_ensures();
        vstd::multiset::lemma_multiset_empty_len(rest@.to_multiset());
        assert(rest@.to_multiset() =~= Multiset::empty());
        assert(r@.to_multiset() =~= orig.to_multiset());
    }
    r
}

fn prop_key_exec(it: &ClusterInput, pre: &[String]) -> (r: Option<(IssueType, String)>)
    ensures
        key_view(r) == prop_key(*it, views(pre@)),
{
    if id_in(pre, it.id.as_str()) {
        return None;
    }
    match style_property(it) {
        Some(p) => Some((it.issue_type, p)),
        None => None,
    }
}

/// Clusters issues by (type, style property), then the rest by (type,
/// landmark).
///
/// Property clustering takes precedence: an issue placed in a property
/// cluster is kept out of landmark clustering, so each issue belongs to at
/// most one cluster. Ids in `pre_claimed` (claimed elsewhere) enter neither
/// pass. A group becomes a cluster once it has `cluster_min` members; member
/// ids are sorted ascending; the clusters come ordered by member count
/// (descending), then id (ascending).
pub fn cluster_issues(kept: &[ClusterInput], cluster_min: usize, pre_claimed: &[String]) -> (r: Vec<
    Cluster,
>)
    ensures
        cluster_result(kept@, views(pre_claimed@), cluster_min as nat, r@),
{
    let ghost items = kept@;
    let ghost pre = views(pre_claimed@);
    let ghost min = cluster_min as nat;
    let n = kept.len();
    // Pass 1: property keys.
    let mut pkeys: Vec<Option<(IssueType, String)>> = Vec::new();
    let mut i: usize = 0;
    while i < n
        invariant
            n == items.len(),
            items == kept@,
            pre == views(pre_claimed@),
            i <= n,
            pkeys@.len() == i,
            forall|k: int| 0 <= k < i ==> key_view(#[trigger] pkeys@[k]) == prop_key(items[k], pre),
        decreases n - i,
    {
        let k = prop_key_exec(&kept[i], pre_claimed);
        pkeys.push(k);
        i = i + 1;
    }
    assert(keys_view(pkeys@) =~= prop_keys(items, pre));
    let mut out: Vec<Cluster> = Vec::new();
    cluster_pass(kept, &pkeys, cluster_min, true, &mut out);
    let ghost out1 = out@;
    proof {
        let pg = prop_groups(items, pre, min);
        assert(out1.len() == pg.len());
        assert forall|j: int| 0 <= j < pg.len() implies is_prop_cluster(
            #[trigger] out1[j],
            items,
            pre,
            min,
            j,
        ) by {
            assert(out1[0 + j] == out1[j]);
        }
    }
    // Which issues landed in a property cluster.
    let mut inprop: Vec<bool> = Vec::new();
    let mut j: usize = 0;
    while j < n
        invariant
            n == items.len(),
            items == kept@,
            pre == views(pre_claimed@),
            min == cluster_min as nat,
            keys_view(pkeys@) == prop_keys(items, pre),
            pkeys@.len() == n,
            j <= n,
            inprop@.len() == j,
            forall|k: int|
                0 <= k < j ==> #[trigger] inprop@[k] == in_prop_cluster(items, pre, min, k),
        decreases n - j,
    {
        assert(keys_view(pkeys@)[j as int] == key_view(pkeys@[j as int]));
        let b = match &pkeys[j] {
            Some(p) => {
                let ms = collect_members(kept, &pkeys, p.0, p.1.as_str());
                ms.len() >= cluster_min
            },
            None => false,
        };
        inprop.push(b);
        j = j + 1;
    }
    // Pass 2: landmark keys over the unclaimed issues.
    let mut lkeys: Vec<Option<(IssueType, String)>> = Vec::new();
    let mut i: usize = 0;
    while i < n
        invariant
            n == items.len(),
            items == kept@,
            pre == views(pre_claimed@),
            min == cluster_min as nat,
            inprop@.len() == n,
            forall|k: int| 0 <= k < n ==> #[trigger] inprop@[k] == in_prop_cluster(items, pre, min, k),
            i <= n,
            lkeys@.len() == i,
            forall|k: int| 0 <= k < i ==> key_view(#[trigger] lkeys@[k]) == lm_key(items, pre, min, k),
        decreases n - i,
    {
        let it = &kept[i];
        let mut claimed = id_in(pre_claimed, it.id.as_str());
        let mut j: usize = 0;
        while j < n && !claimed
            invariant
                n == items.len(),
                items == kept@,
                pre == views(pre_claimed@),
                min == cluster_min as nat,
                it == kept@[i as int],
                i < n,
                inprop@.len() == n,
                forall|k: int| 0 <= k < n ==> #[trigger] inprop@[k] == in_prop_cluster(items, pre, min, k),
                j <= n,
                claimed ==> claimed_after_props(items, pre, min, items[i as int].id@),
                !claimed ==> !pre.contains(items[i as int].id@),
                !claimed ==> forall|k: int|
                    0 <= k < j ==> !(#[trigger] items[k].id@ == items[i as int].id@ && in_prop_cluster(
                        items,
                        pre,
                        min,
                        k,
                    )),
            decreases n - j,
        {
            if inprop[j] && str_eq(kept[j].id.as_str(), it.id.as_str()) {
                assert(items[j as int].id@ == items[i as int].id@ && in_prop_cluster(items, pre, min, j as int));
                claimed = true;
            }
            j = j + 1;
        }
        let k = if claimed {
            None
        } else {
            match &it.landmark {
                Some(l) => {
                    if l.as_str().is_empty() {
                        None
                    } else {
                        Some((it.issue_type, l.clone()))
                    }
                },
                None => None,
            }
        };
        lkeys.push(k);
        i = i + 1;
    }
    assert(keys_view(lkeys@) =~= lm_keys(items, pre, min));
    cluster_pass(kept, &lkeys, cluster_min, false, &mut out);
    let ghost u = out@;
    let r = sort_clusters(out);
    proof {
        let pg = prop_groups(items, pre, min);
        let lg = lm_groups(items, pre, min);
        assert forall|j: int| 0 <= j < pg.len() implies is_prop_cluster(
            #[trigger] u[j],
            items,
            pre,
            min,
            j,
        ) by {
            assert(u[j] == out1[j]);
        }
        r@.to_multiset_ensures();
        u.to_multiset_ensures();
        assert forall|j: int| 0 <= j < pg.len() implies #[trigger] prop_cluster_present(
            r@,
            items,
            pre,
            min,
            j,
        ) by {
            assert(is_prop_cluster(u[j], items, pre, min, j));
            assert(u.contains(u[j]));
            assert(r@.to_multiset().count(u[j]) > 0);
            assert(r@.contains(u[j]));
            let i = choose|i: int| 0 <= i < r@.len() && r@[i] == u[j];
            assert(is_prop_cluster(r@[i], items, pre, min, j));
        }
        assert forall|j: int| 0 <= j < lg.len() implies #[trigger] lm_cluster_present(
            r@,
            items,
            pre,
            min,
            j,
        ) by {
            assert(is_lm_cluster(u[pg.len() + j], items, pre, min, j));
            assert(u.contains(u[pg.len() + j]));
            assert(r@.to_multiset().count(u[pg.len() + j]) > 0);
            assert(r@.contains(u[pg.len() + j]));
            let i = choose|i: int| 0 <= i < r@.len() && r@[i] == u[pg.len() + j];
            assert(is_lm_cluster(r@[i], items, pre, min, j));
        }
        assert forall|i: int| 0 <= i < r@.len() implies #[trigger] is_some_cluster(
            r@[i],
            items,
            pre,
            min,
        ) by {
            assert(r@.contains(r@[i]));
            assert(u.to_multiset().count(r@[i]) > 0);
            assert(u.contains(r@[i]));
            let k = choose|k: int| 0 <= k < u.len() && u[k] == r@[i];
            if k < pg.len() {
                assert(is_prop_cluster(u[k], items, pre, min, k));
            } else {
                let jj = k - pg.len();
                assert(u[pg.len() + jj] == u[k]);
                assert(is_lm_cluster(u[pg.len() + jj], items, pre, min, jj));
            }
        }
    }
    r
}

// ---------------------------------------------------------------------------
// Laws
// ---------------------------------------------------------------------------

proof fn lemma_member_source(
    items: Seq<ClusterInput>,
    keys: Seq<Option<GroupKey>>,
    k: GroupKey,
    n: int,
    x: Seq<char>,
)
    requires
        0 <= n <= items.len(),
        members(items, keys, k, n).contains(x),
    ensures
        exists|i: int| 0 <= i < n && keys[i] == Some(k) && #[trigger] items[i].id@ == x,
    decreases n,
{
    let prev = members(items, keys, k, n - 1);
    if keys[n - 1] == Some(k) && items[n - 1].id@ == x {
    } else {
        if keys[n - 1] == Some(k) {
            let full = prev.push(items[n - 1].id@);
            let w = choose|w: int| 0 <= w < full.len() && #[trigger] full[w] == x;
            assert(w < prev.len());
            assert(prev[w] == x);
        }
        assert(prev.contains(x));
        lemma_member_source(items, keys, k, n - 1, x);
    }
}

proof fn lemma_groups_facts(items: Seq<ClusterInput>, keys: Seq<Option<GroupKey>>, min: nat, n: int)
    requires
        0 <= n <= keys.len(),
    ensures
        forall|j: int|
            0 <= j < groups_upto(items, keys, min, n).len() ==> exists|i: int|
                0 <= i < n && keys[i] == Some(#[trigger] groups_upto(items, keys, min, n)[j]),
        forall|j: int|
            0 <= j < groups_upto(items, keys, min, n).len() ==> group_members(
                items,
                keys,
                #[trigger] groups_upto(items, keys, min, n)[j],
            ).len() >= min,
        forall|j1: int, j2: int|
            0 <= j1 < j2 < groups_upto(items, keys, min, n).len() ==> #[trigger] groups_upto(
                items,
                keys,
                min,
                n,
            )[j1] != #[trigger] groups_upto(items, keys, min, n)[j2],
    decreases n,
{
    if n > 0 {
        lemma_groups_facts(items, keys, min, n - 1);
        let prev = groups_upto(items, keys, min, n - 1);
        let g = groups_upto(items, keys, min, n);
        if is_first(keys, n - 1) && group_members(items, keys, keys[n - 1].unwrap()).len() >= min {
            assert(g == prev.push(keys[n - 1].unwrap()));
            assert forall|j: int| 0 <= j < g.len() implies exists|i: int|
                0 <= i < n && keys[i] == Some(#[trigger] g[j]) by {
                if j < prev.len() {
                    assert(g[j] == prev[j]);
                    let i = choose|i: int| 0 <= i < n - 1 && keys[i] == Some(prev[j]);
                    assert(keys[i] == Some(g[j]));
                } else {
                    assert(keys[n - 1] == Some(g[j]));
                }
            }
            assert forall|j1: int, j2: int| 0 <= j1 < j2 < g.len() implies #[trigger] g[j1]
                != #[trigger] g[j2] by {
                if j2 < prev.len() {
                    assert(g[j1] == prev[j1] && g[j2] == prev[j2]);
                } else {
                    assert(g[j1] == prev[j1]);
                    let i = choose|i: int| 0 <= i < n - 1 && keys[i] == Some(prev[j1]);
                    assert(keys[i] != keys[n - 1]);
                }
            }
            assert forall|j: int| 0 <= j < g.len() implies group_members(items, keys, #[trigger] g[j]).len()
                >= min by {
                if j < prev.len() {
                    assert(g[j] == prev[j]);
                }
            }
        } else {
            assert(g == prev);
            assert forall|j: int| 0 <= j < g.len() implies exists|i: int|
                0 <= i < n && keys[i] == Some(#[trigger] g[j]) by {
                let i = choose|i: int| 0 <= i < n - 1 && keys[i] == Some(prev[j]);
            }
        }
    }
}

proof fn lemma_groups_reach_min(items: Seq<ClusterInput>, keys: Seq<Option<GroupKey>>, min: nat, n: int)
    ensures
        forall|j: int|
            0 <= j < groups_upto(items, keys, min, n).len() ==> group_members(
                items,
                keys,
                #[trigger] groups_upto(items, keys, min, n)[j],
            ).len() >= min,
    decreases n,
{
    if n > 0 {
        lemma_groups_reach_min(items, keys, min, n - 1);
        let prev = groups_upto(items, keys, min, n - 1);
        let cur = groups_upto(items, keys, min, n);
        assert forall|j: int| 0 <= j < cur.len() implies group_members(items, keys, #[trigger] cur[j]).len() >= min by {
            if j < prev.len() {
                assert(cur[j] == prev[j]);
            }
        }
    }
}

/// Every cluster lists its member ids in ascending order, has at least
/// `min` members, shares exactly one of a property and a landmark, and has
/// an id of 20 characters ending in twelve lowercase hex digits.
pub proof fn lemma_cluster_shape(
    items: Seq<ClusterInput>,
    pre: Seq<Seq<char>>,
    min: nat,
    r: Seq<Cluster>,
    i: int,
)
    requires
        cluster_result(items, pre, min, r),
        0 <= i < r.len(),
    ensures
        sorted_le(views(r[i].issue_ids@)),
        r[i].issue_ids@.len() >= min,
        (r[i].shared_property is Some) != (r[i].shared_landmark is Some),
        r[i].id@.len() == 20,
        forall|k: int| 8 <= k < 20 ==> is_lower_hex(#[trigger] r[i].id@[k]),
{
    let c = r[i];
    assert(is_some_cluster(c, items, pre, min));
    vstd::seq_lib::to_multiset_len(views(c.issue_ids@));
    if exists|j: int| #[trigger] is_prop_cluster(c, items, pre, min, j) {
        let j = choose|j: int| #[trigger] is_prop_cluster(c, items, pre, min, j);
        let g = prop_groups(items, pre, min);
        lemma_groups_reach_min(items, prop_keys(items, pre), min, items.len() as int);
        let ids = group_members(items, prop_keys(items, pre), g[j]);
        vstd::seq_lib::to_multiset_len(ids);
        assert(ids.len() >= min);
    } else {
        let j = choose|j: int| #[trigger] is_lm_cluster(c, items, pre, min, j);
        let g = lm_groups(items, pre, min);
        lemma_groups_reach_min(items, lm_keys(items, pre, min), min, items.len() as int);
        let ids = group_members(items, lm_keys(items, pre, min), g[j]);
        vstd::seq_lib::to_multiset_len(ids);
        assert(ids.len() >= min);
    }
}

/// Each issue lands in at most one cluster, and property clustering takes
/// precedence: when issue ids are distinct, an id is a member of at most one
/// property group, of at most one landmark group, and never of both a
/// property group and a landmark group. Ids claimed in advance are members of
/// no group.
pub proof fn lemma_issue_in_at_most_one_cluster(
    items: Seq<ClusterInput>,
    pre: Seq<Seq<char>>,
    min: nat,
    x: Seq<char>,
)
    requires
        forall|a: int, b: int|
            0 <= a < b < items.len() ==> #[trigger] items[a].id@ != #[trigger] items[b].id@,
    ensures
        forall|j1: int, j2: int|
            0 <= j1 < prop_groups(items, pre, min).len() && 0 <= j2 < prop_groups(items, pre, min).len()
                && group_members(items, prop_keys(items, pre), #[trigger] prop_groups(items, pre, min)[j1]).contains(x)
                && group_members(items, prop_keys(items, pre), #[trigger] prop_groups(items, pre, min)[j2]).contains(x)
                ==> j1 == j2,
        forall|j1: int, j2: int|
            0 <= j1 < lm_groups(items, pre, min).len() && 0 <= j2 < lm_groups(items, pre, min).len()
                && group_members(items, lm_keys(items, pre, min), #[trigger] lm_groups(items, pre, min)[j1]).contains(x)
                && group_members(items, lm_keys(items, pre, min), #[trigger] lm_groups(items, pre, min)[j2]).contains(x)
                ==> j1 == j2,
        forall|j1: int, j2: int|
            0 <= j1 < prop_groups(items, pre, min).len() && 0 <= j2 < lm_groups(items, pre, min).len()
                ==> !(group_members(items, prop_keys(items, pre), #[trigger] prop_groups(items, pre, min)[j1]).contains(x)
                && group_members(items, lm_keys(items, pre, min), #[trigger] lm_groups(items, pre, min)[j2]).contains(x)),
        pre.contains(x) ==> forall|j: int|
            0 <= j < prop_groups(items, pre, min).len() ==> !group_members(
                items,
                prop_keys(items, pre),
                #[trigger] prop_groups(items, pre, min)[j],
            ).contains(x),
        pre.contains(x) ==> forall|j: int|
            0 <= j < lm_groups(items, pre, min).len() ==> !group_members(
                items,
                lm_keys(items, pre, min),
                #[trigger] lm_groups(items, pre, min)[j],
            ).contains(x),
{
    let n = items.len() as int;
    let pk = prop_keys(items, pre);
    let lk = lm_keys(items, pre, min);
    let pg = prop_groups(items, pre, min);
    let lg = lm_groups(items, pre, min);
    lemma_groups_facts(items, pk, min, n);
    lemma_groups_facts(items, lk, min, n);
    assert forall|j1: int, j2: int|
        0 <= j1 < pg.len() && 0 <= j2 < pg.len() && group_members(items, pk, #[trigger] pg[j1]).contains(x)
            && group_members(items, pk, #[trigger] pg[j2]).contains(x) implies j1 == j2 by {
        lemma_member_source(items, pk, pg[j1], n, x);
        lemma_member_source(items, pk, pg[j2], n, x);
        let a = choose|i: int| 0 <= i < n && pk[i] == Some(pg[j1]) && #[trigger] items[i].id@ == x;
        let b = choose|i: int| 0 <= i < n && pk[i] == Some(pg[j2]) && #[trigger] items[i].id@ == x;
        if a != b {
            if a < b {
                assert(items[a].id@ != items[b].id@);
            } else {
                assert(items[b].id@ != items[a].id@);
            }
        }
        if j1 != j2 {
            if j1 < j2 {
                assert(pg[j1] != pg[j2]);
            } else {
                assert(pg[j2] != pg[j1]);
            }
        }
    }
    assert forall|j1: int, j2: int|
        0 <= j1 < lg.len() && 0 <= j2 < lg.len() && group_members(items, lk, #[trigger] lg[j1]).contains(x)
            && group_members(items, lk, #[trigger] lg[j2]).contains(x) implies j1 == j2 by {
        lemma_member_source(items, lk, lg[j1], n, x);
        lemma_member_source(items, lk, lg[j2], n, x);
        let a = choose|i: int| 0 <= i < n && lk[i] == Some(lg[j1]) && #[trigger] items[i].id@ == x;
        let b = choose|i: int| 0 <= i < n && lk[i] == Some(lg[j2]) && #[trigger] items[i].id@ == x;
        if a != b {
            if a < b {
                assert(items[a].id@ != items[b].id@);
            } else {
                assert(items[b].id@ != items[a].id@);
            }
        }
        if j1 != j2 {
            if j1 < j2 {
                assert(lg[j1] != lg[j2]);
            } else {
                assert(lg[j2] != lg[j1]);
            }
        }
    }
    assert forall|j1: int, j2: int| 0 <= j1 < pg.len() && 0 <= j2 < lg.len() implies !(group_members(
        items,
        pk,
        #[trigger] pg[j1],
    ).contains(x) && group_members(items, lk, #[trigger] lg[j2]).contains(x)) by {
        if group_members(items, pk, pg[j1]).contains(x) && group_members(items, lk, lg[j2]).contains(x) {
            lemma_member_source(items, pk, pg[j1], n, x);
            lemma_member_source(items, lk, lg[j2], n, x);
            let a = choose|i: int| 0 <= i < n && pk[i] == Some(pg[j1]) && #[trigger] items[i].id@ == x;
            let b = choose|i: int| 0 <= i < n && lk[i] == Some(lg[j2]) && #[trigger] items[i].id@ == x;
            assert(group_members(items, pk, pg[j1]).len() >= min);
            assert(in_prop_cluster(items, pre, min, a));
            assert(claimed_after_props(items, pre, min, items[b].id@));
            assert(lm_key(items, pre, min, b) is None);
        }
    }
    if pre.contains(x) {
        assert forall|j: int| 0 <= j < pg.len() implies !group_members(items, pk, #[trigger] pg[j]).contains(x) by {
            if group_members(items, pk, pg[j]).contains(x) {
                lemma_member_source(items, pk, pg[j], n, x);
                let a = choose|i: int| 0 <= i < n && pk[i] == Some(pg[j]) && #[trigger] items[i].id@ == x;
                assert(prop_key(items[a], pre) is None);
            }
        }
        assert forall|j: int| 0 <= j < lg.len() implies !group_members(items, lk, #[trigger] lg[j]).contains(x) by {
            if group_members(items, lk, lg[j]).contains(x) {
                lemma_member_source(items, lk, lg[j], n, x);
                let a = choose|i: int| 0 <= i < n && lk[i] == Some(lg[j]) && #[trigger] items[i].id@ == x;
                assert(lm_key(items, pre, min, a) is None);
            }
        }
    }
}

// ---------------------------------------------------------------------------
// Order independence
// ---------------------------------------------------------------------------

/// `items2` lists `items` in another order: `perm` and `inv` are inverse
/// bijections between the positions (`items2[i]` is `items[perm[i]]`).
pub open spec fn is_reordering(
    items: Seq<ClusterInput>,
    items2: Seq<ClusterInput>,
    perm: Seq<int>,
    inv: Seq<int>,
) -> bool {
    &&& items2.len() == items.len()
    &&& perm.len() == items.len()
    &&& inv.len() == items.len()
    &&& forall|i: int|
        0 <= i < items.len() ==> 0 <= #[trigger] perm[i] < items.len() && items2[i] == items[perm[i]]
            && inv[perm[i]] == i
    &&& forall|j: int| 0 <= j < items.len() ==> 0 <= #[trigger] inv[j] < items.len() && perm[inv[j]] == j
}

/// How many positions below `n` satisfy `p`.
pub open spec fn count_where(n: int, p: spec_fn(int) -> bool) -> nat
    decreases n,
{
    if n <= 0 {
        0
    } else {
        count_where(n - 1, p) + if p(n - 1) {
            1nat
        } else {
            0nat
        }
    }
}

proof fn lemma_count_where_ext(n: int, p: spec_fn(int) -> bool, q: spec_fn(int) -> bool)
    requires
        forall|i: int| 0 <= i < n ==> #[trigger] p(i) == q(i),
    ensures
        count_where(n, p) == count_where(n, q),
    decreases n,
{
    if n > 0 {
        lemma_count_where_ext(n - 1, p, q);
    }
}

/// Counting with position `k` taken out.
proof fn lemma_count_where_remove(n: int, p: spec_fn(int) -> bool, k: int)
    requires
        0 <= k < n,
    ensures
        count_where(n, p) == count_where(n - 1, |i: int| if i < k { p(i) } else { p(i + 1) }) + if p(k) {
            1nat
        } else {
            0nat
        },
    decreases n,
{
    let q = |i: int| if i < k { p(i) } else { p(i + 1) };
    if k == n - 1 {
        lemma_count_where_ext(n - 1, p, q);
    } else {
        lemma_count_where_remove(n - 1, p, k);
        let q1 = |i: int| if i < k { p(i) } else { p(i + 1) };
        assert(count_where(n - 1, q) == count_where(n - 2, q) + if q(n - 2) { 1nat } else { 0nat });
        lemma_count_where_ext(n - 2, q, q1);
    }
}

/// Counting is invariant under a bijection of the positions.
proof fn lemma_count_where_perm(n: int, p: spec_fn(int) -> bool, perm: Seq<int>, inv: Seq<int>)
    requires
        n >= 0,
        perm.len() == n,
        inv.len() == n,
        forall|i: int| 0 <= i < n ==> 0 <= #[trigger] perm[i] < n && inv[perm[i]] == i,
        forall|j: int| 0 <= j < n ==> 0 <= #[trigger] inv[j] < n && perm[inv[j]] == j,
    ensures
        count_where(n, |i: int| p(perm[i])) == count_where(n, p),
    decreases n,
{
    if n > 0 {
        let i0 = inv[n - 1];
        let pp = |i: int| p(perm[i]);
        // Take position i0 out of the permuted count and n - 1 out of the plain one.
        lemma_count_where_remove(n, pp, i0);
        let perm2 = Seq::new((n - 1) as nat, |i: int| if i < i0 { perm[i] } else { perm[i + 1] });
        let inv2 = Seq::new((n - 1) as nat, |j: int| if inv[j] < i0 { inv[j] } else { inv[j] - 1 });
        assert forall|i: int| 0 <= i < n - 1 implies 0 <= #[trigger] perm2[i] < n - 1 && inv2[perm2[i]] == i by {
            let src = if i < i0 { i } else { i + 1 };
            assert(perm2[i] == perm[src]);
            assert(src != i0);
            if perm[src] == n - 1 {
                assert(inv[perm[src]] == src);
            }
        }
        assert forall|j: int| 0 <= j < n - 1 implies 0 <= #[trigger] inv2[j] < n - 1 && perm2[inv2[j]] == j by {
            assert(inv[j] != i0) by {
                if inv[j] == i0 {
                    assert(perm[inv[j]] == j);
                    assert(perm[inv[n - 1]] == n - 1);
                }
            }
        }
        lemma_count_where_perm(n - 1, p, perm2, inv2);
        let q = |i: int| if i < i0 { pp(i) } else { pp(i + 1) };
        lemma_count_where_ext(n - 1, q, |i: int| p(perm2[i]));
        assert(pp(i0) == p(n - 1));
    }
}

/// How many of the first `n` issues with key `k` have id `x`.
pub open spec fn key_id_count(
    items: Seq<ClusterInput>,
    keys: Seq<Option<GroupKey>>,
    k: GroupKey,
    x: Seq<char>,
    n: int,
) -> nat {
    count_where(n, |i: int| keys[i] == Some(k) && items[i].id@ == x)
}

proof fn lemma_members_count(
    items: Seq<ClusterInput>,
    keys: Seq<Option<GroupKey>>,
    k: GroupKey,
    x: Seq<char>,
    n: int,
)
    requires
        0 <= n,
    ensures
        members(items, keys, k, n).to_multiset().count(x) == key_id_count(items, keys, k, x, n),
    decreases n,
{
    broadcast use vstd::multiset::group_multiset_axioms;
    if n == 0 {
        members(items, keys, k, n).to_multiset_ensures();
        vstd::multiset::lemma_multiset_empty_len(members(items, keys, k, n).to_multiset());
    } else {
        lemma_members_count(items, keys, k, x, n - 1);
        let prev = members(items, keys, k, n - 1);
        prev.to_multiset_ensures();
    }
}

/// A key is a group exactly when it occurs and its group is large enough.
proof fn lemma_groups_contains(
    items: Seq<ClusterInput>,
    keys: Seq<Option<GroupKey>>,
    min: nat,
    n: int,
    k: GroupKey,
)
    requires
        0 <= n <= keys.len(),
    ensures
        groups_upto(items, keys, min, n).contains(k) <==> ((exists|i: int|
            0 <= i < n && #[trigger] keys[i] == Some(k)) && group_members(items, keys, k).len() >= min),
    decreases n,
{
    if n > 0 {
        lemma_groups_contains(items, keys, min, n - 1, k);
        let prev = groups_upto(items, keys, min, n - 1);
        let g = groups_upto(items, keys, min, n);
        if is_first(keys, n - 1) && group_members(items, keys, keys[n - 1].unwrap()).len() >= min {
            assert(g == prev.push(keys[n - 1].unwrap()));
            if g.contains(k) && !prev.contains(k) {
                let w = choose|w: int| 0 <= w < g.len() && g[w] == k;
                assert(w == prev.len());
                assert(keys[n - 1] == Some(k));
            }
            if prev.contains(k) {
                let w = choose|w: int| 0 <= w < prev.len() && prev[w] == k;
                assert(g[w] == k);
            }
            if keys[n - 1] == Some(k) {
                assert(g[prev.len() as int] == k);
            }
        } else {
            assert(g == prev);
            if keys[n - 1] == Some(k) && group_members(items, keys, k).len() >= min {
                // Not the first occurrence: an earlier one exists.
                assert(!is_first(keys, n - 1));
                let j = choose|j: int| 0 <= j < n - 1 && #[trigger] keys[j] == keys[n - 1];
                assert(keys[j] == Some(k));
            }
        }
    }
}

/// Group membership and group contents of two key sequences that agree
/// through a reordering.
proof fn lemma_groups_reordered(
    items: Seq<ClusterInput>,
    items2: Seq<ClusterInput>,
    perm: Seq<int>,
    inv: Seq<int>,
    keys: Seq<Option<GroupKey>>,
    keys2: Seq<Option<GroupKey>>,
    min: nat,
    k: GroupKey,
)
    requires
        is_reordering(items, items2, perm, inv),
        keys.len() == items.len(),
        keys2.len() == items.len(),
        forall|i: int| 0 <= i < items.len() ==> #[trigger] keys2[i] == keys[perm[i]],
    ensures
        group_members(items2, keys2, k).to_multiset() == group_members(items, keys, k).to_multiset(),
        group_members(items2, keys2, k).len() == group_members(items, keys, k).len(),
        groups_upto(items2, keys2, min, items.len() as int).contains(k) <==> groups_upto(
            items,
            keys,
            min,
            items.len() as int,
        ).contains(k),
{
    let n = items.len() as int;
    let m1 = group_members(items, keys, k);
    let m2 = group_members(items2, keys2, k);
    assert forall|x: Seq<char>| m2.to_multiset().count(x) == m1.to_multiset().count(x) by {
        lemma_members_count(items, keys, k, x, n);
        lemma_members_count(items2, keys2, k, x, n);
        let p = |j: int| keys[j] == Some(k) && items[j].id@ == x;
        lemma_count_where_perm(n, p, perm, inv);
        lemma_count_where_ext(n, |i: int| keys2[i] == Some(k) && items2[i].id@ == x, |i: int| p(perm[i]));
    }
    assert(m2.to_multiset() =~= m1.to_multiset());
    m1.to_multiset_ensures();
    m2.to_multiset_ensures();
    lemma_groups_contains(items, keys, min, n, k);
    lemma_groups_contains(items2, keys2, min, n, k);
    if exists|i: int| 0 <= i < n && #[trigger] keys[i] == Some(k) {
        let i = choose|i: int| 0 <= i < n && #[trigger] keys[i] == Some(k);
        assert(keys2[inv[i]] == Some(k));
    }
    if exists|i: int| 0 <= i < n && #[trigger] keys2[i] == Some(k) {
        let i = choose|i: int| 0 <= i < n && #[trigger] keys2[i] == Some(k);
        assert(keys[perm[i]] == Some(k));
    }
}

/// Clustering does not depend on the order of the issues: for issues given
/// in another order, the same keys form property groups and landmark groups,
/// each with the same member ids.
pub proof fn lemma_clusters_independent_of_order(
    items: Seq<ClusterInput>,
    items2: Seq<ClusterInput>,
    perm: Seq<int>,
    inv: Seq<int>,
    pre: Seq<Seq<char>>,
    min: nat,
    k: GroupKey,
)
    requires
        is_reordering(items, items2, perm, inv),
    ensures
        prop_groups(items2, pre, min).contains(k) <==> prop_groups(items, pre, min).contains(k),
        group_members(items2, prop_keys(items2, pre), k).to_multiset() == group_members(
            items,
            prop_keys(items, pre),
            k,
        ).to_multiset(),
        lm_groups(items2, pre, min).contains(k) <==> lm_groups(items, pre, min).contains(k),
        group_members(items2, lm_keys(items2, pre, min), k).to_multiset() == group_members(
            items,
            lm_keys(items, pre, min),
            k,
        ).to_multiset(),
{
    let n = items.len() as int;
    let pk = prop_keys(items, pre);
    let pk2 = prop_keys(items2, pre);
    assert forall|i: int| 0 <= i < n implies #[trigger] pk2[i] == pk[perm[i]] by {}
    lemma_groups_reordered(items, items2, perm, inv, pk, pk2, min, k);
    // Membership in a property cluster moves with the issue.
    assert forall|i: int| 0 <= i < n implies in_prop_cluster(items2, pre, min, i) == in_prop_cluster(
        items,
        pre,
        min,
        #[trigger] perm[i],
    ) by {
        if pk2[i] is Some {
            lemma_groups_reordered(items, items2, perm, inv, pk, pk2, min, pk2[i].unwrap());
        }
    }
    assert forall|x: Seq<char>| claimed_after_props(items2, pre, min, x) == claimed_after_props(items, pre, min, x) by {
        if exists|j: int| 0 <= j < n && #[trigger] items2[j].id@ == x && in_prop_cluster(items2, pre, min, j) {
            let j = choose|j: int| 0 <= j < n && #[trigger] items2[j].id@ == x && in_prop_cluster(items2, pre, min, j);
            assert(items[perm[j]].id@ == x && in_prop_cluster(items, pre, min, perm[j]));
        }
        if exists|j: int| 0 <= j < n && #[trigger] items[j].id@ == x && in_prop_cluster(items, pre, min, j) {
            let j = choose|j: int| 0 <= j < n && #[trigger] items[j].id@ == x && in_prop_cluster(items, pre, min, j);
            assert(perm[inv[j]] == j);
            assert(items2[inv[j]].id@ == x && in_prop_cluster(items2, pre, min, inv[j]));
        }
    }
    let lk = lm_keys(items, pre, min);
    let lk2 = lm_keys(items2, pre, min);
    assert forall|i: int| 0 <= i < n implies #[trigger] lk2[i] == lk[perm[i]] by {
        assert(claimed_after_props(items2, pre, min, items2[i].id@) == claimed_after_props(items, pre, min, items2[i].id@));
    }
    lemma_groups_reordered(items, items2, perm, inv, lk, lk2, min, k);
}

/// Two ascending sequences with the same elements are the same sequence.
proof fn lemma_sorted_unique(a: Seq<Seq<char>>, b: Seq<Seq<char>>)
    requires
        sorted_le(a),
        sorted_le(b),
        a.to_multiset() == b.to_multiset(),
    ensures
        a == b,
    decreases a.len(),
{
    a.to_multiset_ensures();
    b.to_multiset_ensures();
    if a.len() == 0 {
        assert(b.len() == 0);
        assert(a =~= b);
    } else {
        assert(a.contains(a[0]));
        assert(b.to_multiset().count(a[0]) > 0);
        let w = choose|w: int| 0 <= w < b.len() && b[w] == a[0];
        assert(b.contains(b[0]));
        assert(a.to_multiset().count(b[0]) > 0);
        let v = choose|v: int| 0 <= v < a.len() && a[v] == b[0];
        if v > 0 {
            assert(seq_le(a[0], a[v]));
        }
        if w > 0 {
            assert(seq_le(b[0], b[w]));
        }
        if a[0] != b[0] {
            crate::text::lemma_seq_lt_trichotomy(a[0], b[0]);
        }
        assert(a[0] == b[0]);
        let a1 = a.drop_first();
        let b1 = b.drop_first();
        assert(a.remove(0) =~= a1);
        assert(b.remove(0) =~= b1);
        assert(a1.to_multiset() =~= b1.to_multiset());
        assert forall|i: int, j: int| 0 <= i < j < a1.len() implies seq_le(#[trigger] a1[i], #[trigger] a1[j]) by {
            assert(a1[i] == a[i + 1] && a1[j] == a[j + 1]);
        }
        assert forall|i: int, j: int| 0 <= i < j < b1.len() implies seq_le(#[trigger] b1[i], #[trigger] b1[j]) by {
            assert(b1[i] == b[i + 1] && b1[j] == b[j + 1]);
        }
        lemma_sorted_unique(a1, b1);
        assert(a.len() == b.len());
        assert forall|i: int| 0 <= i < a.len() implies a[i] == b[i] by {
            if i > 0 {
                assert(a[i] == a1[i - 1] && b[i] == b1[i - 1]);
            }
        }
        assert(a =~= b);
    }
}

/// Two clusters with the same id, members, shared value and summary.
pub open spec fn same_cluster_view(a: Cluster, b: Cluster) -> bool {
    &&& a.id@ == b.id@
    &&& views(a.issue_ids@) == views(b.issue_ids@)
    &&& opt_view(a.shared_property) == opt_view(b.shared_property)
    &&& opt_view(a.shared_landmark) == opt_view(b.shared_landmark)
    &&& opt_view(a.summary) == opt_view(b.summary)
}

/// Some cluster of `r` has the id, members, shared value and summary of `c`.
pub open spec fn has_same_cluster(r: Seq<Cluster>, c: Cluster) -> bool {
    exists|i: int| 0 <= i < r.len() && #[trigger] same_cluster_view(c, r[i])
}

proof fn lemma_same_matches(c1: Cluster, c2: Cluster, by_prop: bool, k: GroupKey, m1: Seq<Seq<char>>, m2: Seq<Seq<char>>)
    requires
        cluster_matches(c1, by_prop, k, m1),
        cluster_matches(c2, by_prop, k, m2),
        m1.to_multiset() == m2.to_multiset(),
    ensures
        same_cluster_view(c1, c2),
{
    m1.to_multiset_ensures();
    m2.to_multiset_ensures();
    lemma_sorted_unique(views(c1.issue_ids@), views(c2.issue_ids@));
}

/// Clustering issues given in another order yields the same clusters: as
/// many, and each cluster of one result has a cluster with the same id,
/// members, shared value and summary in the other.
pub proof fn lemma_cluster_results_reordered(
    items: Seq<ClusterInput>,
    items2: Seq<ClusterInput>,
    perm: Seq<int>,
    inv: Seq<int>,
    pre: Seq<Seq<char>>,
    min: nat,
    r1: Seq<Cluster>,
    r2: Seq<Cluster>,
)
    requires
        is_reordering(items, items2, perm, inv),
        cluster_result(items, pre, min, r1),
        cluster_result(items2, pre, min, r2),
    ensures
        r1.len() == r2.len(),
        forall|i: int| 0 <= i < r1.len() ==> #[trigger] has_same_cluster(r2, r1[i]),
{
    let n = items.len() as int;
    let pg1 = prop_groups(items, pre, min);
    let pg2 = prop_groups(items2, pre, min);
    let lg1 = lm_groups(items, pre, min);
    let lg2 = lm_groups(items2, pre, min);
    // Same group keys, hence as many groups.
    lemma_groups_facts(items, prop_keys(items, pre), min, n);
    lemma_groups_facts(items2, prop_keys(items2, pre), min, n);
    lemma_groups_facts(items, lm_keys(items, pre, min), min, n);
    lemma_groups_facts(items2, lm_keys(items2, pre, min), min, n);
    assert forall|k: GroupKey| pg1.contains(k) == pg2.contains(k) && lg1.contains(k) == lg2.contains(k) by {
        lemma_clusters_independent_of_order(items, items2, perm, inv, pre, min, k);
    }
    assert(pg1.no_duplicates()) by {
        assert forall|i: int, j: int| 0 <= i < pg1.len() && 0 <= j < pg1.len() && i != j implies pg1[i] != pg1[j] by {
            if i < j { assert(pg1[i] != pg1[j]); } else { assert(pg1[j] != pg1[i]); }
        }
    }
    assert(pg2.no_duplicates()) by {
        assert forall|i: int, j: int| 0 <= i < pg2.len() && 0 <= j < pg2.len() && i != j implies pg2[i] != pg2[j] by {
            if i < j { assert(pg2[i] != pg2[j]); } else { assert(pg2[j] != pg2[i]); }
        }
    }
    assert(lg1.no_duplicates()) by {
        assert forall|i: int, j: int| 0 <= i < lg1.len() && 0 <= j < lg1.len() && i != j implies lg1[i] != lg1[j] by {
            if i < j { assert(lg1[i] != lg1[j]); } else { assert(lg1[j] != lg1[i]); }
        }
    }
    assert(lg2.no_duplicates()) by {
        assert forall|i: int, j: int| 0 <= i < lg2.len() && 0 <= j < lg2.len() && i != j implies lg2[i] != lg2[j] by {
            if i < j { assert(lg2[i] != lg2[j]); } else { assert(lg2[j] != lg2[i]); }
        }
    }
    assert(pg1.to_set() =~= pg2.to_set());
    assert(lg1.to_set() =~= lg2.to_set());
    pg1.unique_seq_to_set();
    pg2.unique_seq_to_set();
    lg1.unique_seq_to_set();
    lg2.unique_seq_to_set();
    assert forall|i: int| 0 <= i < r1.len() implies #[trigger] has_same_cluster(r2, r1[i]) by {
        assert(is_some_cluster(r1[i], items, pre, min));
        if exists|j: int| #[trigger] is_prop_cluster(r1[i], items, pre, min, j) {
            let j = choose|j: int| #[trigger] is_prop_cluster(r1[i], items, pre, min, j);
            let k = pg1[j];
            lemma_clusters_independent_of_order(items, items2, perm, inv, pre, min, k);
            assert(pg1.contains(k));
            let j2 = choose|j2: int| 0 <= j2 < pg2.len() && pg2[j2] == k;
            assert(prop_cluster_present(r2, items2, pre, min, j2));
            let i2 = choose|i2: int| 0 <= i2 < r2.len() && #[trigger] is_prop_cluster(r2[i2], items2, pre, min, j2);
            lemma_same_matches(
                r1[i],
                r2[i2],
                true,
                k,
                group_members(items, prop_keys(items, pre), k),
                group_members(items2, prop_keys(items2, pre), k),
            );
        } else {
            let j = choose|j: int| #[trigger] is_lm_cluster(r1[i], items, pre, min, j);
            let k = lg1[j];
            lemma_clusters_independent_of_order(items, items2, perm, inv, pre, min, k);
            assert(lg1.contains(k));
            let j2 = choose|j2: int| 0 <= j2 < lg2.len() && lg2[j2] == k;
            assert(lm_cluster_present(r2, items2, pre, min, j2));
            let i2 = choose|i2: int| 0 <= i2 < r2.len() && #[trigger] is_lm_cluster(r2[i2], items2, pre, min, j2);
            lemma_same_matches(
                r1[i],
                r2[i2],
                false,
                k,
                group_members(items, lm_keys(items, pre, min), k),
                group_members(items2, lm_keys(items2, pre, min), k),
            );
        }
    }
}

} // verus!

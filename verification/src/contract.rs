//! Plain data types of the capture-bundle / diff-result contract, and the
//! small rules attached to them (step precedence, status ranks, anchor
//! strength, wire names of issue types).
//!
//! Fields that carry floating-point numbers or free-form JSON in the wire
//! format are not modelled here; the application layer holds those.
use std::collections::BTreeMap;

use vstd::prelude::*;

use crate::text::{
    lemma_seq_lt_transitive, lemma_seq_lt_trichotomy, seq_le, seq_lt, str_compare, to_owned_string,
};

verus! {

// ---------------------------------------------------------------------------
// Capture-side data
// ---------------------------------------------------------------------------

/// Ancestor-chain metadata emitted by the capture layer.
#[derive(Debug, Clone, Default)]
pub struct StyleCandidates {
    /// Ancestor descriptors sorted by id (document order).
    pub ancestors: Vec<AncestorDescriptor>,
    /// Map from node id to ancestor ids, nearest first.
    pub chains: BTreeMap<String, Vec<String>>,
    /// Budget used during capture.
    pub budget: u32,
    /// True when the budget was exceeded and some ancestors were dropped.
    pub truncated: bool,
    /// Number of ancestor entries dropped due to budget overflow.
    pub dropped_count: u32,
}

/// A single ancestor element descriptor.
#[derive(Debug, Clone, Default)]
pub struct AncestorDescriptor {
    pub id: String,
    pub tag: String,
    /// [x, y, w, h] in CSS pixels.
    pub bbox: [i32; 4],
    /// Distance from document root.
    pub depth: u32,
    pub css_selector: Option<String>,
    pub anchors: Anchors,
}

/// Status of a single determinism step.
#[derive(Debug, Clone, Copy, PartialEq, Eq, PartialOrd, Ord, Structural)]
pub enum StepStatus {
    Ran,
    Failed,
    Skipped,
}

/// Worst-case precedence of a step status: failed > skipped > ran.
pub open spec fn step_precedence(s: StepStatus) -> nat {
    match s {
        StepStatus::Failed => 2,
        StepStatus::Skipped => 1,
        StepStatus::Ran => 0,
    }
}

/// The worse of two step statuses (the first one on a tie).
pub open spec fn step_worst(a: StepStatus, b: StepStatus) -> StepStatus {
    if step_precedence(a) >= step_precedence(b) {
        a
    } else {
        b
    }
}

impl StepStatus {
    /// Returns a worst-case precedence value: failed > skipped > ran.
    pub fn precedence(&self) -> (r: u8)
        ensures
            r as nat == step_precedence(*self),
    {
        match self {
            StepStatus::Failed => 2,
            StepStatus::Skipped => 1,
            StepStatus::Ran => 0,
        }
    }

    /// Merge two statuses, returning the worse one.
    pub fn worst(a: &StepStatus, b: &StepStatus) -> (r: StepStatus)
        ensures
            r == step_worst(*a, *b),
    {
        if a.precedence() >= b.precedence() {
            *a
        } else {
            *b
        }
    }
}

/// Per-element-type counts at one point in time.
#[derive(Debug, Clone, Copy, PartialEq, Eq, Structural)]
pub struct IntegrityCounts {
    pub heading_count: u32,
    pub image_count: u32,
    pub landmark_count: u32,
}

/// Pre/post-stabilization element count snapshots.
#[derive(Debug, Clone, Copy, PartialEq, Eq, Structural)]
pub struct IntegrityInventory {
    pub pre: IntegrityCounts,
    pub post: IntegrityCounts,
}

/// The determinism report of one capture.
#[derive(Debug, Clone)]
pub struct CaptureDeterminism {
    pub animations_disabled: StepStatus,
    pub reduced_motion: StepStatus,
    pub time_frozen: StepStatus,
    pub random_stubbed: StepStatus,
    pub fonts_ready: StepStatus,
    pub images_decoded: StepStatus,
    pub lazy_load_pass: StepStatus,
    pub settled: StepStatus,
    pub clicked: Vec<String>,
    pub hidden: Vec<String>,
    pub masked: Vec<String>,
    pub retried_without_time_freeze: bool,
    /// Pre/post stabilization page inventory, when taken.
    pub integrity: Option<IntegrityInventory>,
}

/// The views of a sequence of strings.
pub open spec fn views(v: Seq<String>) -> Seq<Seq<char>> {
    v.map_values(|s: String| s@)
}

/// Strictly increasing in string order (hence free of duplicates).
pub open spec fn strictly_sorted(s: Seq<Seq<char>>) -> bool {
    forall|i: int, j: int| 0 <= i < j < s.len() ==> seq_lt(s[i], s[j])
}

/// `r` is the sorted, duplicate-free list of the strings of `a` and `b`
/// (what sorting the concatenation and removing repeats yields).
pub open spec fn is_sorted_union(r: Seq<Seq<char>>, a: Seq<Seq<char>>, b: Seq<Seq<char>>) -> bool {
    &&& strictly_sorted(r)
    &&& forall|x: Seq<char>| r.contains(x) <==> (a.contains(x) || b.contains(x))
}

/// `after` holds exactly the strings of `before` and `x`.
pub open spec fn adds_one(after: Seq<Seq<char>>, before: Seq<Seq<char>>, x: Seq<char>) -> bool {
    forall|y: Seq<char>| after.contains(y) <==> (before.contains(y) || y == x)
}

/// Inserting `x` at `pos` keeps a strictly sorted sequence sorted when every
/// element before `pos` is smaller and the element at `pos` (if any) larger.
proof fn lemma_insert_sorted_at(before: Seq<Seq<char>>, pos: int, x: Seq<char>)
    requires
        strictly_sorted(before),
        0 <= pos <= before.len(),
        forall|k: int| 0 <= k < pos ==> seq_lt(#[trigger] before[k], x),
        pos < before.len() ==> seq_lt(x, before[pos]),
    ensures
        strictly_sorted(before.insert(pos, x)),
        forall|y: Seq<char>|
            before.insert(pos, x).contains(y) <==> (before.contains(y) || y == x),
{
    let after = before.insert(pos, x);
    assert forall|p: int, q: int| 0 <= p < q < after.len() implies seq_lt(after[p], after[q]) by {
        if q < pos {
        } else if p < pos && q == pos {
        } else if p < pos && q > pos {
            assert(seq_lt(before[p], x));
            assert(after[q] == before[q - 1]);
            if q - 1 == pos {
            } else {
                assert(seq_lt(before[pos], before[q - 1]));
                lemma_seq_lt_transitive(x, before[pos], before[q - 1]);
            }
            lemma_seq_lt_transitive(after[p], x, after[q]);
        } else if p == pos {
            assert(after[q] == before[q - 1]);
            if q - 1 == pos {
            } else {
                assert(seq_lt(before[pos], before[q - 1]));
                lemma_seq_lt_transitive(x, before[pos], before[q - 1]);
            }
        } else {
            assert(after[p] == before[p - 1]);
            assert(after[q] == before[q - 1]);
        }
    }
    assert forall|y: Seq<char>| after.contains(y) <==> (before.contains(y) || y == x) by {
        if after.contains(y) {
            let k = choose|k: int| 0 <= k < after.len() && after[k] == y;
            if k < pos {
                assert(before[k] == y);
            } else if k > pos {
                assert(before[k - 1] == y);
            }
        }
        if before.contains(y) {
            let k = choose|k: int| 0 <= k < before.len() && before[k] == y;
            if k < pos {
                assert(after[k] == y);
            } else {
                assert(after[k + 1] == y);
            }
        }
        if y == x {
            assert(after[pos] == y);
        }
    }
}

/// Inserts `x` into the strictly sorted `v`, unless already present.
pub(crate) fn insert_sorted(v: &mut Vec<String>, x: &String)
    requires
        strictly_sorted(views(old(v)@)),
    ensures
        strictly_sorted(views(final(v)@)),
        adds_one(views(final(v)@), views(old(v)@), x@),
{
    let mut i: usize = 0;
    let mut stop: bool = false;
    let mut dup: bool = false;
    while i < v.len() && !stop
        invariant
            i <= v@.len(),
            v@ == old(v)@,
            strictly_sorted(views(v@)),
            forall|k: int| 0 <= k < i ==> seq_lt(#[trigger] views(v@)[k], x@),
            stop ==> i < v@.len(),
            dup ==> stop,
            stop && dup ==> views(v@)[i as int] == x@,
            stop && !dup ==> seq_lt(x@, views(v@)[i as int]),
        decreases v.len() - i + (if stop { 0int } else { 1int }),
    {
        let c = str_compare(v[i].as_str(), x.as_str());
        if c == 0 {
            assert(v@[i as int]@ == x@);
            assert(views(v@)[i as int] == v@[i as int]@);
            stop = true;
            dup = true;
        } else if c == 1 {
            stop = true;
        } else {
            i = i + 1;
        }
    }
    if dup {
        proof {
            assert forall|y: Seq<char>|
                views(v@).contains(y) <==> (views(v@).contains(y) || y == x@) by {
                if y == x@ {
                    assert(views(v@)[i as int] == y);
                }
            }
            assert(v@ == old(v)@);
            assert(adds_one(views(v@), views(old(v)@), x@));
        }
        return;
    }
    let ghost before = views(v@);
    proof {
        lemma_insert_sorted_at(before, i as int, x@);
    }
    v.insert(i, x.clone());
    assert(views(v@) =~= before.insert(i as int, x@));
    assert(before == views(old(v)@));
    assert(adds_one(views(v@), views(old(v)@), x@));
}

/// Ascending in string order (repeats allowed).
pub open spec fn sorted_le(s: Seq<Seq<char>>) -> bool {
    forall|i: int, j: int| 0 <= i < j < s.len() ==> seq_le(#[trigger] s[i], #[trigger] s[j])
}

pub proof fn lemma_insert_to_multiset<A>(s: Seq<A>, i: int, a: A)
    requires
        0 <= i <= s.len(),
    ensures
        s.insert(i, a).to_multiset() == s.to_multiset().insert(a),
{
    let t = s.insert(i, a);
    assert(t.remove(i) =~= s);
    t.to_multiset_ensures();
    assert(t[i] == a);
    assert(t.contains(a));
    assert(t.to_multiset() =~= s.to_multiset().insert(a));
}

/// A sorted copy of `v` (repeats kept), as `slice::sort` gives.
pub fn sort_strings(v: &[String]) -> (r: Vec<String>)
    ensures
        sorted_le(views(r@)),
        views(r@).to_multiset() == views(v@).to_multiset(),
{
    let mut r: Vec<String> = Vec::new();
    let mut i: usize = 0;
    assert(views(r@) =~= views(v@.take(0)));
    while i < v.len()
        invariant
            i <= v@.len(),
            sorted_le(views(r@)),
            views(r@).to_multiset() == views(v@.take(i as int)).to_multiset(),
        decreases v.len() - i,
    {
        let x = &v[i];
        let mut p: usize = 0;
        while p < r.len() && str_compare(x.as_str(), r[p].as_str()) != -1
            invariant
                p <= r@.len(),
                forall|k: int| 0 <= k < p ==> seq_le(#[trigger] views(r@)[k], x@),
            decreases r.len() - p,
        {
            proof {
                lemma_seq_lt_trichotomy(x@, r@[p as int]@);
            }
            assert(views(r@)[p as int] == r@[p as int]@);
            p = p + 1;
        }
        let ghost before = views(r@);
        proof {
            if p < r@.len() {
                assert(before[p as int] == r@[p as int]@);
            }
            assert forall|a: int, b: int| 0 <= a < b < before.len() + 1 implies seq_le(
                #[trigger] before.insert(p as int, x@)[a],
                #[trigger] before.insert(p as int, x@)[b],
            ) by {
                let t = before.insert(p as int, x@);
                if b < p {
                    assert(t[a] == before[a] && t[b] == before[b]);
                } else if b == p {
                    assert(t[a] == before[a]);
                } else if a < p {
                    assert(t[a] == before[a] && t[b] == before[b - 1]);
                    assert(seq_le(before[a], x@));
                    assert(seq_lt(x@, before[p as int]));
                    if b - 1 > p {
                        assert(seq_le(before[p as int], before[b - 1]));
                    }
                    if before[a] != x@ {
                        lemma_seq_lt_transitive(before[a], x@, before[p as int]);
                    }
                    if before[p as int] != before[b - 1] {
                        lemma_seq_lt_transitive(before[a], before[p as int], before[b - 1]);
                    }
                } else if a == p {
                    assert(t[b] == before[b - 1]);
                    if b - 1 > p {
                        assert(seq_le(before[p as int], before[b - 1]));
                        if before[p as int] != before[b - 1] {
                            lemma_seq_lt_transitive(x@, before[p as int], before[b - 1]);
                        }
                    }
                } else {
                    assert(t[a] == before[a - 1] && t[b] == before[b - 1]);
                }
            }
            lemma_insert_to_multiset(before, p as int, x@);
            assert(views(v@.take(i + 1)) =~= views(v@.take(i as int)).push(x@));
            views(v@.take(i as int)).to_multiset_ensures();
        }
        r.insert(p, x.clone());
        assert(views(r@) =~= before.insert(p as int, x@));
        i = i + 1;
    }
    assert(v@.take(v@.len() as int) =~= v@);
    r
}

/// The sorted, duplicate-free union of two string lists.
pub fn sorted_union(a: &Vec<String>, b: &Vec<String>) -> (r: Vec<String>)
    ensures
        is_sorted_union(views(r@), views(a@), views(b@)),
{
    let mut r: Vec<String> = Vec::new();
    let mut i: usize = 0;
    while i < a.len()
        invariant
            i <= a@.len(),
            strictly_sorted(views(r@)),
            forall|x: Seq<char>|
                views(r@).contains(x) <==> views(a@).take(i as int).contains(x),
        decreases a.len() - i,
    {
        insert_sorted(&mut r, &a[i]);
        proof {
            let t = views(a@).take(i as int);
            assert(views(a@).take(i + 1) =~= t.push(a@[i as int]@));
            assert forall|x: Seq<char>| t.push(a@[i as int]@).contains(x) <==> (t.contains(x)
                || x == a@[i as int]@) by {
                if t.push(a@[i as int]@).contains(x) {
                    let k = choose|k: int| 0 <= k < t.len() + 1 && t.push(a@[i as int]@)[k] == x;
                    if k < t.len() {
                        assert(t[k] == x);
                    }
                }
                if t.contains(x) {
                    let k = choose|k: int| 0 <= k < t.len() && t[k] == x;
                    assert(t.push(a@[i as int]@)[k] == x);
                }
                if x == a@[i as int]@ {
                    assert(t.push(a@[i as int]@)[t.len() as int] == x);
                }
            }
        }
        i = i + 1;
    }
    assert(views(a@).take(a@.len() as int) =~= views(a@));
    let mut j: usize = 0;
    while j < b.len()
        invariant
            j <= b@.len(),
            strictly_sorted(views(r@)),
            forall|x: Seq<char>|
                views(r@).contains(x) <==> (views(a@).contains(x) || views(b@).take(
                    j as int,
                ).contains(x)),
        decreases b.len() - j,
    {
        insert_sorted(&mut r, &b[j]);
        proof {
            let t = views(b@).take(j as int);
            assert(views(b@).take(j + 1) =~= t.push(b@[j as int]@));
            assert forall|x: Seq<char>| t.push(b@[j as int]@).contains(x) <==> (t.contains(x)
                || x == b@[j as int]@) by {
                if t.push(b@[j as int]@).contains(x) {
                    let k = choose|k: int| 0 <= k < t.len() + 1 && t.push(b@[j as int]@)[k] == x;
                    if k < t.len() {
                        assert(t[k] == x);
                    }
                }
                if t.contains(x) {
                    let k = choose|k: int| 0 <= k < t.len() && t[k] == x;
                    assert(t.push(b@[j as int]@)[k] == x);
                }
                if x == b@[j as int]@ {
                    assert(t.push(b@[j as int]@)[t.len() as int] == x);
                }
            }
        }
        j = j + 1;
    }
    assert(views(b@).take(b@.len() as int) =~= views(b@));
    r
}

/// `r` merges the determinism reports `a` and `b`: the worst status per
/// step, the sorted union of the clicked/hidden/masked selector lists, the
/// retry flag of either, and the first integrity inventory present.
pub open spec fn is_merge(r: CaptureDeterminism, a: CaptureDeterminism, b: CaptureDeterminism) -> bool {
    &&& r.animations_disabled == step_worst(a.animations_disabled, b.animations_disabled)
    &&& r.reduced_motion == step_worst(a.reduced_motion, b.reduced_motion)
    &&& r.time_frozen == step_worst(a.time_frozen, b.time_frozen)
    &&& r.random_stubbed == step_worst(a.random_stubbed, b.random_stubbed)
    &&& r.fonts_ready == step_worst(a.fonts_ready, b.fonts_ready)
    &&& r.images_decoded == step_worst(a.images_decoded, b.images_decoded)
    &&& r.lazy_load_pass == step_worst(a.lazy_load_pass, b.lazy_load_pass)
    &&& r.settled == step_worst(a.settled, b.settled)
    &&& is_sorted_union(views(r.clicked@), views(a.clicked@), views(b.clicked@))
    &&& is_sorted_union(views(r.hidden@), views(a.hidden@), views(b.hidden@))
    &&& is_sorted_union(views(r.masked@), views(a.masked@), views(b.masked@))
    &&& r.retried_without_time_freeze == (a.retried_without_time_freeze || b.retried_without_time_freeze)
    &&& r.integrity == (if a.integrity is Some {
        a.integrity
    } else {
        b.integrity
    })
}

/// Taking the worse of two step statuses is commutative, associative and
/// idempotent.
pub proof fn lemma_step_worst_laws(a: StepStatus, b: StepStatus, c: StepStatus)
    ensures
        step_worst(a, b) == step_worst(b, a),
        step_worst(step_worst(a, b), c) == step_worst(a, step_worst(b, c)),
        step_worst(a, a) == a,
{
}

/// Two strictly sorted lists with the same elements are the same list.
pub proof fn lemma_strictly_sorted_unique(x: Seq<Seq<char>>, y: Seq<Seq<char>>)
    requires
        strictly_sorted(x),
        strictly_sorted(y),
        forall|e: Seq<char>| x.contains(e) <==> y.contains(e),
    ensures
        x == y,
    decreases x.len(),
{
    if x.len() == 0 {
        if y.len() > 0 {
            assert(y.contains(y[0]));
        }
        assert(x =~= y);
    } else {
        assert(x.contains(x[0]));
        assert(y.len() > 0);
        assert(y.contains(y[0]));
        let j = choose|j: int| 0 <= j < y.len() && y[j] == x[0];
        let i = choose|i: int| 0 <= i < x.len() && x[i] == y[0];
        if i > 0 && j > 0 {
            assert(seq_lt(x[0], x[i]));
            assert(seq_lt(y[0], y[j]));
            crate::text::lemma_seq_lt_transitive(x[0], y[0], x[0]);
            crate::text::lemma_seq_lt_irreflexive(x[0]);
        } else if i > 0 {
            assert(seq_lt(x[0], x[i]));
            crate::text::lemma_seq_lt_irreflexive(x[0]);
        } else if j > 0 {
            assert(seq_lt(y[0], y[j]));
            crate::text::lemma_seq_lt_irreflexive(y[0]);
        }
        assert(x[0] == y[0]);
        let xt = x.skip(1);
        let yt = y.skip(1);
        assert forall|e: Seq<char>| xt.contains(e) <==> yt.contains(e) by {
            if xt.contains(e) {
                let k = choose|k: int| 0 <= k < xt.len() && xt[k] == e;
                assert(x[k + 1] == e);
                assert(seq_lt(x[0], x[k + 1]));
                crate::text::lemma_seq_lt_irreflexive(e);
                assert(x.contains(e));
                let m = choose|m: int| 0 <= m < y.len() && y[m] == e;
                assert(m != 0);
                assert(yt[m - 1] == e);
            }
            if yt.contains(e) {
                let k = choose|k: int| 0 <= k < yt.len() && yt[k] == e;
                assert(y[k + 1] == e);
                assert(seq_lt(y[0], y[k + 1]));
                crate::text::lemma_seq_lt_irreflexive(e);
                assert(y.contains(e));
                let m = choose|m: int| 0 <= m < x.len() && x[m] == e;
                assert(m != 0);
                assert(xt[m - 1] == e);
            }
        }
        lemma_strictly_sorted_unique(xt, yt);
        assert(x =~= seq![x[0]] + xt);
        assert(y =~= seq![y[0]] + yt);
    }
}

/// Merging determinism reports does not depend on their order, except for
/// the integrity inventory when both reports carry one (the first wins).
pub proof fn lemma_merge_symmetric(
    r1: CaptureDeterminism,
    r2: CaptureDeterminism,
    a: CaptureDeterminism,
    b: CaptureDeterminism,
)
    requires
        is_merge(r1, a, b),
        is_merge(r2, b, a),
    ensures
        r1.animations_disabled == r2.animations_disabled,
        r1.reduced_motion == r2.reduced_motion,
        r1.time_frozen == r2.time_frozen,
        r1.random_stubbed == r2.random_stubbed,
        r1.fonts_ready == r2.fonts_ready,
        r1.images_decoded == r2.images_decoded,
        r1.lazy_load_pass == r2.lazy_load_pass,
        r1.settled == r2.settled,
        views(r1.clicked@) == views(r2.clicked@),
        views(r1.hidden@) == views(r2.hidden@),
        views(r1.masked@) == views(r2.masked@),
        r1.retried_without_time_freeze == r2.retried_without_time_freeze,
        (a.integrity is None || b.integrity is None) ==> r1.integrity == r2.integrity,
{
    lemma_strictly_sorted_unique(views(r1.clicked@), views(r2.clicked@));
    lemma_strictly_sorted_unique(views(r1.hidden@), views(r2.hidden@));
    lemma_strictly_sorted_unique(views(r1.masked@), views(r2.masked@));
}

/// Merging determinism reports is associative: merging `a` with `b` and
/// then `c` gives what merging `a` with the merge of `b` and `c` gives.
pub proof fn lemma_merge_associative(
    ab: CaptureDeterminism,
    ab_c: CaptureDeterminism,
    bc: CaptureDeterminism,
    a_bc: CaptureDeterminism,
    a: CaptureDeterminism,
    b: CaptureDeterminism,
    c: CaptureDeterminism,
)
    requires
        is_merge(ab, a, b),
        is_merge(ab_c, ab, c),
        is_merge(bc, b, c),
        is_merge(a_bc, a, bc),
    ensures
        ab_c.animations_disabled == a_bc.animations_disabled,
        ab_c.reduced_motion == a_bc.reduced_motion,
        ab_c.time_frozen == a_bc.time_frozen,
        ab_c.random_stubbed == a_bc.random_stubbed,
        ab_c.fonts_ready == a_bc.fonts_ready,
        ab_c.images_decoded == a_bc.images_decoded,
        ab_c.lazy_load_pass == a_bc.lazy_load_pass,
        ab_c.settled == a_bc.settled,
        views(ab_c.clicked@) == views(a_bc.clicked@),
        views(ab_c.hidden@) == views(a_bc.hidden@),
        views(ab_c.masked@) == views(a_bc.masked@),
        ab_c.retried_without_time_freeze == a_bc.retried_without_time_freeze,
        ab_c.integrity == a_bc.integrity,
{
    lemma_strictly_sorted_unique(views(ab_c.clicked@), views(a_bc.clicked@));
    lemma_strictly_sorted_unique(views(ab_c.hidden@), views(a_bc.hidden@));
    lemma_strictly_sorted_unique(views(ab_c.masked@), views(a_bc.masked@));
}

/// Merging a report with itself keeps every step status, the retry flag and
/// the integrity inventory; a selector list comes back as the sorted set of
/// its selectors.
pub proof fn lemma_merge_idempotent(r: CaptureDeterminism, a: CaptureDeterminism)
    requires
        is_merge(r, a, a),
    ensures
        r.animations_disabled == a.animations_disabled,
        r.reduced_motion == a.reduced_motion,
        r.time_frozen == a.time_frozen,
        r.random_stubbed == a.random_stubbed,
        r.fonts_ready == a.fonts_ready,
        r.images_decoded == a.images_decoded,
        r.lazy_load_pass == a.lazy_load_pass,
        r.settled == a.settled,
        strictly_sorted(views(a.clicked@)) ==> views(r.clicked@) == views(a.clicked@),
        r.retried_without_time_freeze == a.retried_without_time_freeze,
        r.integrity == a.integrity,
{
    if strictly_sorted(views(a.clicked@)) {
        lemma_strictly_sorted_unique(views(r.clicked@), views(a.clicked@));
    }
}

impl CaptureDeterminism {
    /// Merge two determinism reports, taking the worst status per step, the
    /// sorted union of the clicked/hidden/masked selector lists, and the first
    /// integrity inventory present.
    pub fn merge_worst(a: &CaptureDeterminism, b: &CaptureDeterminism) -> (r: CaptureDeterminism)
        ensures
            is_merge(r, *a, *b),
    {
        CaptureDeterminism {
            animations_disabled: StepStatus::worst(&a.animations_disabled, &b.animations_disabled),
            reduced_motion: StepStatus::worst(&a.reduced_motion, &b.reduced_motion),
            time_frozen: StepStatus::worst(&a.time_frozen, &b.time_frozen),
            random_stubbed: StepStatus::worst(&a.random_stubbed, &b.random_stubbed),
            fonts_ready: StepStatus::worst(&a.fonts_ready, &b.fonts_ready),
            images_decoded: StepStatus::worst(&a.images_decoded, &b.images_decoded),
            lazy_load_pass: StepStatus::worst(&a.lazy_load_pass, &b.lazy_load_pass),
            settled: StepStatus::worst(&a.settled, &b.settled),
            clicked: sorted_union(&a.clicked, &b.clicked),
            hidden: sorted_union(&a.hidden, &b.hidden),
            masked: sorted_union(&a.masked, &b.masked),
            retried_without_time_freeze: a.retried_without_time_freeze
                || b.retried_without_time_freeze,
            integrity: match a.integrity {
                Some(x) => Some(x),
                None => b.integrity,
            },
        }
    }

    /// Returns true if any of the confidence-relevant steps failed or were skipped.
    pub fn has_confidence_penalty(&self) -> (r: bool)
        ensures
            r == (self.time_frozen != StepStatus::Ran || self.lazy_load_pass != StepStatus::Ran
                || self.fonts_ready != StepStatus::Ran),
    {
        self.time_frozen != StepStatus::Ran || self.lazy_load_pass != StepStatus::Ran
            || self.fonts_ready != StepStatus::Ran
    }
}

/// A single link probe result recorded by the capture layer.
#[derive(Debug, Clone)]
pub struct LinkProbe {
    /// Absolute, fragment-stripped, redacted URL that was probed.
    pub url: String,
    /// One entry per hop (pre-redirect URLs); empty when no redirect occurred.
    pub redirect_chain: Vec<String>,
    /// Final response URL after all redirects; None when skipped or errored.
    pub final_url: Option<String>,
    /// Final response status code; None when skipped/errored.
    pub status: Option<i32>,
    /// Why the probe was skipped; None when not skipped.
    pub skipped: Option<String>,
    /// Error message; None when no error.
    pub error: Option<String>,
}

/// Geometry for a single landmark element or a direct section-child of main.
#[derive(Debug, Clone)]
pub struct LandmarkRect {
    /// Role-based path: e.g. "main", "contentinfo", "banner[2]".
    pub path: String,
    /// ARIA landmark role.
    pub role: String,
    /// Text of the first h1-h3 inside, capped at 80 chars.
    pub heading: Option<String>,
    /// [x, y, w, h] in CSS pixels.
    pub bbox: [i32; 4],
}

/// One extracted semantic element of a page.
#[derive(Debug, Clone, Default)]
pub struct SemanticNode {
    pub id: String,
    pub kind: String,
    pub role: Option<String>,
    pub text: Option<String>,
    pub acc_name: Option<String>,
    pub href: Option<String>,
    pub image_alt: Option<String>,
    /// [x, y, w, h] in CSS pixels (page coordinates).
    pub bbox: [i32; 4],
    pub seq_index: u32,
    pub anchors: NodeAnchors,
    pub css_selector: Option<String>,
    /// Links: href attribute exactly as authored.
    pub raw_href: Option<String>,
    /// Images: resolved absolute source URL.
    pub src: Option<String>,
    /// Images: intrinsic pixel width.
    pub natural_width: Option<u32>,
    /// Images: intrinsic pixel height.
    pub natural_height: Option<u32>,
    /// Images: complete && naturalWidth > 0.
    pub loaded: Option<bool>,
    /// Headings: level 1-6.
    pub heading_level: Option<u8>,
}

/// The view of an optional string.
pub open spec fn opt_view(o: Option<String>) -> Option<Seq<char>> {
    match o {
        Some(s) => Some(s@),
        None => None,
    }
}

/// An optional string that is present and non-empty.
pub open spec fn present(o: Option<String>) -> bool {
    o is Some && o->0@.len() > 0
}

/// Distinctive anchor text of a node: text, then href, then alt, then aria-label,
/// the first that is present and non-empty.
pub open spec fn distinctive_anchor_of(n: SemanticNode) -> Option<Seq<char>> {
    if present(n.anchors.text) {
        opt_view(n.anchors.text)
    } else if present(n.href) {
        opt_view(n.href)
    } else if present(n.image_alt) {
        opt_view(n.image_alt)
    } else if present(n.anchors.aria_label) {
        opt_view(n.anchors.aria_label)
    } else {
        None
    }
}

/// Is `o` present and non-empty?
pub fn is_present(o: &Option<String>) -> (r: bool)
    ensures
        r == present(*o),
{
    match o {
        Some(s) => !s.as_str().is_empty(),
        None => false,
    }
}

impl SemanticNode {
    /// Return the node's distinctive anchor text for region linking.
    /// Priority: text > href > alt > aria_label.
    pub fn distinctive_anchor(&self) -> (r: Option<&str>)
        ensures
            match r {
                Some(s) => distinctive_anchor_of(*self) == Some(s@),
                None => distinctive_anchor_of(*self) is None,
            },
    {
        if is_present(&self.anchors.text) {
            return match &self.anchors.text {
                Some(s) => Some(s.as_str()),
                None => None,
            };
        }
        if is_present(&self.href) {
            return match &self.href {
                Some(s) => Some(s.as_str()),
                None => None,
            };
        }
        if is_present(&self.image_alt) {
            return match &self.image_alt {
                Some(s) => Some(s.as_str()),
                None => None,
            };
        }
        if is_present(&self.anchors.aria_label) {
            return match &self.anchors.aria_label {
                Some(s) => Some(s.as_str()),
                None => None,
            };
        }
        None
    }

    /// Returns true if this node has a distinctive anchor for region linking.
    pub fn has_distinctive_anchor(&self) -> (r: bool)
        ensures
            r == (distinctive_anchor_of(*self) is Some),
    {
        self.distinctive_anchor().is_some()
    }
}

/// Semantic anchor facts recorded for a node.
#[derive(Debug, Clone, Default)]
pub struct NodeAnchors {
    pub text: Option<String>,
    pub role: Option<String>,
    pub href: Option<String>,
    pub alt: Option<String>,
    pub aria_label: Option<String>,
    pub nearest_heading: Option<String>,
    pub landmark: Option<String>,
    pub ordinal_in_landmark: Option<u32>,
}

#[derive(Debug, Clone)]
pub struct NetworkInfo {
    pub requests: Vec<NetworkRequest>,
}

#[derive(Debug, Clone)]
pub struct NetworkRequest {
    pub url: String,
    pub status: Option<u32>,
    pub request_type: Option<String>,
    pub failed: bool,
}

#[derive(Debug, Clone)]
pub struct ConsoleEntry {
    pub level: String,
    pub text: String,
}

#[derive(Debug, Clone)]
pub struct Screenshots {
    pub full_page: String,
    pub viewport: String,
}

// ---------------------------------------------------------------------------
// Diff-result data
// ---------------------------------------------------------------------------

/// Out-of-scope issues: those whose landmark was excluded by `--scope`.
#[derive(Debug, Clone)]
pub struct OutOfScope {
    pub count: u32,
    pub ids: Vec<String>,
}

/// Overall verdict of a run.
#[derive(Debug, Clone, Copy, PartialEq, Eq, Structural)]
pub enum Status {
    Pass,
    Warn,
    Fail,
    Error,
}

pub open spec fn status_rank(s: Status) -> nat {
    match s {
        Status::Pass => 0,
        Status::Warn => 1,
        Status::Fail => 2,
        Status::Error => 3,
    }
}

/// The worse of two statuses (the first one on a tie).
pub open spec fn status_worst(a: Status, b: Status) -> Status {
    if status_rank(a) >= status_rank(b) {
        a
    } else {
        b
    }
}

impl Status {
    pub fn is_worse_than(&self, other: &Status) -> (r: bool)
        ensures
            r == (status_rank(*self) > status_rank(*other)),
    {
        self.rank() > other.rank()
    }

    pub fn rank(&self) -> (r: u8)
        ensures
            r as nat == status_rank(*self),
    {
        match self {
            Status::Pass => 0,
            Status::Warn => 1,
            Status::Fail => 2,
            Status::Error => 3,
        }
    }

    pub fn worst(a: Status, b: Status) -> (r: Status)
        ensures
            r == status_worst(a, b),
    {
        if a.rank() >= b.rank() {
            a
        } else {
            b
        }
    }
}

/// Machine-first triage block of a diff result.
#[derive(Debug, Clone)]
pub struct AgentSummary {
    pub fixable_now: u32,
    /// Issue counts keyed by wire type name.
    pub by_type: BTreeMap<String, u32>,
    pub cluster_count: u32,
    pub region_count: u32,
    pub top_fixes: Vec<String>,
}

#[derive(Debug, Clone)]
pub struct ViewportResult {
    pub name: String,
    pub status: Status,
    pub issues: Vec<String>,
    pub artifacts: Artifacts,
}

#[derive(Debug, Clone)]
pub struct Artifacts {
    pub old: String,
    pub new: String,
    pub diff: String,
}

#[derive(Debug, Clone)]
pub struct Suppressed {
    pub count: u32,
    pub ids: Vec<String>,
}

#[derive(Debug, Clone)]
pub struct DeterminismSummary {
    pub old: CaptureDeterminism,
    pub new: CaptureDeterminism,
}

// ---------------------------------------------------------------------------
// Issue vocabulary
// ---------------------------------------------------------------------------

/// Every kind of issue the analyzer can report.
#[derive(Debug, Clone, Copy, PartialEq, Eq, PartialOrd, Ord, Structural)]
pub enum IssueType {
    VisualRegionChanged,
    PageHeightChanged,
    MissingTitle,
    ChangedTitle,
    MissingMetaDescription,
    ChangedMetaDescription,
    MissingH1,
    ChangedH1,
    HeadingStructureChanged,
    MissingText,
    ChangedText,
    DuplicateText,
    MissingLink,
    ChangedLinkTarget,
    BrokenLink,
    ChangedLinkText,
    MissingImage,
    BrokenImage,
    ChangedAltText,
    MissingAltText,
    ChangedImageDimensions,
    MissingForm,
    ChangedForm,
    MissingFormField,
    ChangedRequiredField,
    MissingSubmit,
    ChangedCta,
    MissingButton,
    ComponentReordered,
    ComponentSwapped,
    StyleChanged,
    BackgroundGradientLost,
    BackgroundGradientChanged,
    ClickableAreaRegressed,
    AccessibilityRegression,
    AccessibilityImproved,
    StatusCodeMismatch,
    NetworkError,
    ConsoleError,
    LoadError,
    UrlTrailingSlash,
    UrlRedirectChain,
    UrlProtocolDowngrade,
    CanonicalMismatch,
    LocaleCaseInvalid,
    LocaleSeparatorInvalid,
    LocaleUnknown,
}

/// The wire (snake_case) name of an issue type.
pub open spec fn wire_name(t: IssueType) -> Seq<char> {
    match t {
        IssueType::VisualRegionChanged => "visual_region_changed"@,
        IssueType::PageHeightChanged => "page_height_changed"@,
        IssueType::MissingTitle => "missing_title"@,
        IssueType::ChangedTitle => "changed_title"@,
        IssueType::MissingMetaDescription => "missing_meta_description"@,
        IssueType::ChangedMetaDescription => "changed_meta_description"@,
        IssueType::MissingH1 => "missing_h1"@,
        IssueType::ChangedH1 => "changed_h1"@,
        IssueType::HeadingStructureChanged => "heading_structure_changed"@,
        IssueType::MissingText => "missing_text"@,
        IssueType::ChangedText => "changed_text"@,
        IssueType::DuplicateText => "duplicate_text"@,
        IssueType::MissingLink => "missing_link"@,
        IssueType::ChangedLinkTarget => "changed_link_target"@,
        IssueType::BrokenLink => "broken_link"@,
        IssueType::ChangedLinkText => "changed_link_text"@,
        IssueType::MissingImage => "missing_image"@,
        IssueType::BrokenImage => "broken_image"@,
        IssueType::ChangedAltText => "changed_alt_text"@,
        IssueType::MissingAltText => "missing_alt_text"@,
        IssueType::ChangedImageDimensions => "changed_image_dimensions"@,
        IssueType::MissingForm => "missing_form"@,
        IssueType::ChangedForm => "changed_form"@,
        IssueType::MissingFormField => "missing_form_field"@,
        IssueType::ChangedRequiredField => "changed_required_field"@,
        IssueType::MissingSubmit => "missing_submit"@,
        IssueType::ChangedCta => "changed_cta"@,
        IssueType::MissingButton => "missing_button"@,
        IssueType::ComponentReordered => "component_reordered"@,
        IssueType::ComponentSwapped => "component_swapped"@,
        IssueType::StyleChanged => "style_changed"@,
        IssueType::BackgroundGradientLost => "background_gradient_lost"@,
        IssueType::BackgroundGradientChanged => "background_gradient_changed"@,
        IssueType::ClickableAreaRegressed => "clickable_area_regressed"@,
        IssueType::AccessibilityRegression => "accessibility_regression"@,
        IssueType::AccessibilityImproved => "accessibility_improved"@,
        IssueType::StatusCodeMismatch => "status_code_mismatch"@,
        IssueType::NetworkError => "network_error"@,
        IssueType::ConsoleError => "console_error"@,
        IssueType::LoadError => "load_error"@,
        IssueType::UrlTrailingSlash => "url_trailing_slash"@,
        IssueType::UrlRedirectChain => "url_redirect_chain"@,
        IssueType::UrlProtocolDowngrade => "url_protocol_downgrade"@,
        IssueType::CanonicalMismatch => "canonical_mismatch"@,
        IssueType::LocaleCaseInvalid => "locale_case_invalid"@,
        IssueType::LocaleSeparatorInvalid => "locale_separator_invalid"@,
        IssueType::LocaleUnknown => "locale_unknown"@,
    }
}

impl IssueType {
    /// The wire (snake_case) name of this issue type.
    pub fn as_str(&self) -> (r: &'static str)
        ensures
            r@ == wire_name(*self),
    {
        match self {
            IssueType::VisualRegionChanged => "visual_region_changed",
            IssueType::PageHeightChanged => "page_height_changed",
            IssueType::MissingTitle => "missing_title",
            IssueType::ChangedTitle => "changed_title",
            IssueType::MissingMetaDescription => "missing_meta_description",
            IssueType::ChangedMetaDescription => "changed_meta_description",
            IssueType::MissingH1 => "missing_h1",
            IssueType::ChangedH1 => "changed_h1",
            IssueType::HeadingStructureChanged => "heading_structure_changed",
            IssueType::MissingText => "missing_text",
            IssueType::ChangedText => "changed_text",
            IssueType::DuplicateText => "duplicate_text",
            IssueType::MissingLink => "missing_link",
            IssueType::ChangedLinkTarget => "changed_link_target",
            IssueType::BrokenLink => "broken_link",
            IssueType::ChangedLinkText => "changed_link_text",
            IssueType::MissingImage => "missing_image",
            IssueType::BrokenImage => "broken_image",
            IssueType::ChangedAltText => "changed_alt_text",
            IssueType::MissingAltText => "missing_alt_text",
            IssueType::ChangedImageDimensions => "changed_image_dimensions",
            IssueType::MissingForm => "missing_form",
            IssueType::ChangedForm => "changed_form",
            IssueType::MissingFormField => "missing_form_field",
            IssueType::ChangedRequiredField => "changed_required_field",
            IssueType::MissingSubmit => "missing_submit",
            IssueType::ChangedCta => "changed_cta",
            IssueType::MissingButton => "missing_button",
            IssueType::ComponentReordered => "component_reordered",
            IssueType::ComponentSwapped => "component_swapped",
            IssueType::StyleChanged => "style_changed",
            IssueType::BackgroundGradientLost => "background_gradient_lost",
            IssueType::BackgroundGradientChanged => "background_gradient_changed",
            IssueType::ClickableAreaRegressed => "clickable_area_regressed",
            IssueType::AccessibilityRegression => "accessibility_regression",
            IssueType::AccessibilityImproved => "accessibility_improved",
            IssueType::StatusCodeMismatch => "status_code_mismatch",
            IssueType::NetworkError => "network_error",
            IssueType::ConsoleError => "console_error",
            IssueType::LoadError => "load_error",
            IssueType::UrlTrailingSlash => "url_trailing_slash",
            IssueType::UrlRedirectChain => "url_redirect_chain",
            IssueType::UrlProtocolDowngrade => "url_protocol_downgrade",
            IssueType::CanonicalMismatch => "canonical_mismatch",
            IssueType::LocaleCaseInvalid => "locale_case_invalid",
            IssueType::LocaleSeparatorInvalid => "locale_separator_invalid",
            IssueType::LocaleUnknown => "locale_unknown",
        }
    }
}

/// Score category of an issue.
#[derive(Debug, Clone, Copy, PartialEq, Eq, Structural)]
pub enum IssueCategory {
    Visual,
    Content,
    Structure,
    Style,
    Accessibility,
    Technical,
    Hygiene,
}

/// Severity of an issue.
#[derive(Debug, Clone, Copy, PartialEq, Eq, Structural)]
pub enum IssueSeverity {
    Info,
    Warning,
    Error,
    Critical,
}

pub open spec fn severity_rank(s: IssueSeverity) -> nat {
    match s {
        IssueSeverity::Info => 0,
        IssueSeverity::Warning => 1,
        IssueSeverity::Error => 2,
        IssueSeverity::Critical => 3,
    }
}

impl IssueSeverity {
    pub fn rank(&self) -> (r: u8)
        ensures
            r as nat == severity_rank(*self),
    {
        match self {
            IssueSeverity::Info => 0,
            IssueSeverity::Warning => 1,
            IssueSeverity::Error => 2,
            IssueSeverity::Critical => 3,
        }
    }
}

/// Where an issue sits on the two pages.
#[derive(Debug, Clone)]
pub struct Locator {
    pub anchors: Anchors,
    pub css_selector_old: Option<String>,
    pub css_selector_new: Option<String>,
    pub bbox_old: Option<[i32; 4]>,
    pub bbox_new: Option<[i32; 4]>,
    pub seq_index_old: Option<u32>,
    pub seq_index_new: Option<u32>,
}

/// The anchor set of an issue: a fingerprint of semantic facts.
#[derive(Debug, Clone, Default)]
pub struct Anchors {
    pub text: Option<String>,
    pub role: Option<String>,
    pub href: Option<String>,
    pub alt: Option<String>,
    pub aria_label: Option<String>,
    pub nearest_heading: Option<String>,
    pub landmark: Option<String>,
    pub ordinal_in_landmark: Option<u32>,
}

/// How easy an anchor set is to grep for.
#[derive(Debug, Clone, Copy, PartialEq, Eq, Structural)]
pub enum AnchorStrength {
    High,
    Medium,
    Low,
}

/// Anchor strength: high when text, href, alt or aria-label is present and
/// non-empty; else medium when nearest heading or landmark is; else low.
pub open spec fn anchor_strength(a: Anchors) -> AnchorStrength {
    if present(a.text) || present(a.href) || present(a.alt) || present(a.aria_label) {
        AnchorStrength::High
    } else if present(a.nearest_heading) || present(a.landmark) {
        AnchorStrength::Medium
    } else {
        AnchorStrength::Low
    }
}

impl Anchors {
    /// The anchor set with every field absent.
    pub fn null() -> (r: Self)
        ensures
            r.text is None && r.role is None && r.href is None && r.alt is None
                && r.aria_label is None && r.nearest_heading is None && r.landmark is None
                && r.ordinal_in_landmark is None,
    {
        Anchors {
            text: None,
            role: None,
            href: None,
            alt: None,
            aria_label: None,
            nearest_heading: None,
            landmark: None,
            ordinal_in_landmark: None,
        }
    }

    /// Anchor strength.
    pub fn strength(&self) -> (r: AnchorStrength)
        ensures
            r == anchor_strength(*self),
    {
        let has_high = is_present(&self.text) || is_present(&self.href) || is_present(&self.alt)
            || is_present(&self.aria_label);
        if has_high {
            return AnchorStrength::High;
        }
        let has_medium = is_present(&self.nearest_heading) || is_present(&self.landmark);
        if has_medium {
            return AnchorStrength::Medium;
        }
        AnchorStrength::Low
    }
}

/// A group of issues sharing a root cause.
#[derive(Debug, Clone, PartialEq, Eq)]
pub struct Cluster {
    pub id: String,
    pub issue_ids: Vec<String>,
    pub shared_property: Option<String>,
    pub shared_landmark: Option<String>,
    pub summary: Option<String>,
}

// ---------------------------------------------------------------------------
// Capture-process messages
// ---------------------------------------------------------------------------

/// Response line printed by the capture script.
#[derive(Debug, Clone)]
pub enum CaptureResponse {
    Success { ok: bool, bundle_path: String },
    Failure { ok: bool, error: CaptureError },
}

#[derive(Debug, Clone)]
pub struct CaptureError {
    pub code: String,
    pub message: String,
}

/// Page-stabilization settings sent to the capture script.
#[derive(Debug, Clone)]
pub struct StabilizationConfig {
    pub freeze_time: bool,
    pub fixed_time: String,
    pub stub_random: bool,
    pub random_seed: u64,
    pub network_idle_timeout_ms: u64,
    pub settle_ms: u64,
    pub lazy_scroll_step_px: u32,
}

impl Default for StabilizationConfig {
    fn default() -> (r: Self)
        ensures
            r.freeze_time,
            r.fixed_time@ == "2026-01-01T00:00:00.000Z"@,
            r.stub_random,
            r.random_seed == 1337,
            r.network_idle_timeout_ms == 15000,
            r.settle_ms == 1000,
            r.lazy_scroll_step_px == 800,
    {
        StabilizationConfig {
            freeze_time: true,
            fixed_time: to_owned_string("2026-01-01T00:00:00.000Z"),
            stub_random: true,
            random_seed: 1337,
            network_idle_timeout_ms: 15000,
            settle_ms: 1000,
            lazy_scroll_step_px: 800,
        }
    }
}

} // verus!

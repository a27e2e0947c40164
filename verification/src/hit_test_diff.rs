//! Clickable-area hit-test parity.
//!
//! Each interactive node is probed on a grid of points on both sides. The
//! points are aligned by index; points `clipped` or `offViewport` on either
//! side are excluded, points missed on both sides are dropped, and the rest
//! form the denominator of the old/new hit fractions. A regression is a target
//! that was reliably clickable on the old side and is meaningfully occluded on
//! the new side.
use vstd::prelude::*;

use crate::config::MIN_HIT_DENOMINATOR;
use crate::contract::{opt_view, present, Anchors, StepStatus};
use crate::drafts::{fields_view, text_field, text_leaf, JsonField, JsonLeaf, LeafModel};
use crate::text::to_owned_string;
use crate::keyed::{distinct_keys, entries_map, lemma_entries_map_absent, lemma_entries_map_at, lemma_entries_map_finite_len, KeyedMap};
use crate::text::{dec, lemma_seq_lt_irreflexive, lemma_seq_lt_transitive, lemma_seq_lt_trichotomy, push_dec, push_str, seq_lt, str_compare};

verus! {

/// Outcome of probing one grid point.
#[derive(Debug, Clone, Copy, PartialEq, Eq, Structural)]
pub enum HitTestOutcome {
    /// The topmost element at the point is the target (or inside it).
    Hit,
    /// Another element intercepts the point.
    Miss,
    /// The point lies outside the target's visible (clipped) box.
    Clipped,
    /// The point lies outside the viewport.
    OffViewport,
}

/// One probed grid point: its outcome and, on a miss, the selector of the
/// element that intercepted it.
#[derive(Debug)]
pub struct HitTestPoint {
    pub o: HitTestOutcome,
    pub winner: Option<String>,
}

impl Clone for HitTestPoint {
    fn clone(&self) -> (r: Self)
        ensures
            r == *self,
    {
        HitTestPoint {
            o: self.o,
            winner: match &self.winner {
                Some(w) => Some(w.clone()),
                None => None,
            },
        }
    }
}

/// Whether a node's hit-test grid was sampled.
#[derive(Debug, Clone, Copy, PartialEq, Eq, Structural)]
pub enum HitTestStatus {
    Sampled,
    Skipped,
}

/// One node's hit-test record.
#[derive(Debug)]
pub struct HitTestEntry {
    pub status: HitTestStatus,
    /// Why sampling was skipped, as the capture reported it.
    pub skip_reason: Option<String>,
    /// Points per side of the square grid, when sampled.
    pub grid_size: Option<u32>,
    pub points: Option<Vec<HitTestPoint>>,
}

/// The mathematical value of a [`HitTestEntry`].
pub struct HitTestEntryModel {
    pub status: HitTestStatus,
    pub skip_reason: Option<Seq<char>>,
    pub grid_size: Option<u32>,
    pub points: Option<Seq<HitTestPoint>>,
}

impl View for HitTestEntry {
    type V = HitTestEntryModel;

    open spec fn view(&self) -> HitTestEntryModel {
        HitTestEntryModel {
            status: self.status,
            skip_reason: match self.skip_reason {
                Some(s) => Some(s@),
                None => None,
            },
            grid_size: self.grid_size,
            points: match self.points {
                Some(v) => Some(v@),
                None => None,
            },
        }
    }
}

/// A copy of a point list.
pub fn clone_points(points: &[HitTestPoint]) -> (r: Vec<HitTestPoint>)
    ensures
        r@ == points@,
{
    let mut out: Vec<HitTestPoint> = Vec::new();
    let mut i: usize = 0;
    while i < points.len()
        invariant
            i <= points@.len(),
            out@ == points@.take(i as int),
        decreases points.len() - i,
    {
        out.push(points[i].clone());
        assert(out@ =~= points@.take(i + 1));
        i = i + 1;
    }
    assert(points@.take(points@.len() as int) =~= points@);
    out
}

impl Clone for HitTestEntry {
    fn clone(&self) -> (r: Self)
        ensures
            r@ == self@,
    {
        HitTestEntry {
            status: self.status,
            skip_reason: match &self.skip_reason {
                Some(s) => Some(s.clone()),
                None => None,
            },
            grid_size: self.grid_size,
            points: match &self.points {
                Some(v) => Some(clone_points(v.as_slice())),
                None => None,
            },
        }
    }
}

/// Whether page activity had quiesced when the settle stage ended.
#[derive(Debug, Clone, Copy, PartialEq, Eq, Structural)]
pub enum QuiescenceStatus {
    Reached,
    Timeout,
}

/// The settle-stage signals of one capture (both absent on captures that
/// predate the settle stage).
#[derive(Debug, Clone, Copy, PartialEq, Eq, Structural)]
pub struct SettleSignals {
    pub settle: Option<StepStatus>,
    pub quiescence: Option<QuiescenceStatus>,
}

/// A map from selector to count (the miss winners of one side).
pub type SelectorCounts = KeyedMap<u32>;

// ---------------------------------------------------------------------------
// Ranking of miss winners
// ---------------------------------------------------------------------------

/// Higher count first; equal counts by selector, ascending.
pub open spec fn ranks_before(a: (Seq<char>, u32), b: (Seq<char>, u32)) -> bool {
    a.1 > b.1 || (a.1 == b.1 && seq_lt(a.0, b.0))
}

/// `top` lists the `min(k, |m|)` best entries of `m`, best first.
pub open spec fn is_top_ranked(m: Map<Seq<char>, u32>, top: Seq<(Seq<char>, u32)>, k: nat) -> bool {
    &&& m.dom().finite()
    &&& top.len() == (if k < m.dom().len() {
        k
    } else {
        m.dom().len()
    })
    &&& forall|i: int| 0 <= i < top.len() ==> m.dom().contains(#[trigger] top[i].0) && m[top[i].0] == top[i].1
    &&& forall|i: int, j: int| 0 <= i < j < top.len() ==> ranks_before(#[trigger] top[i], #[trigger] top[j])
    &&& forall|x: Seq<char>, i: int|
        m.dom().contains(x) && 0 <= i < top.len() && (forall|j: int| 0 <= j < top.len() ==> #[trigger] top[j].0 != x)
            ==> ranks_before(#[trigger] top[i], (x, #[trigger] m[x]))
}

/// `sel (xN)`.
pub open spec fn render_winner(e: (Seq<char>, u32)) -> Seq<char> {
    e.0 + " (x"@ + dec(e.1 as nat) + ")"@
}

/// The rendered entries joined with `"; "`.
pub open spec fn render_winners(top: Seq<(Seq<char>, u32)>) -> Seq<char>
    decreases top.len(),
{
    if top.len() == 0 {
        seq![]
    } else if top.len() == 1 {
        render_winner(top[0])
    } else {
        render_winners(top.drop_last()) + "; "@ + render_winner(top.last())
    }
}

proof fn lemma_ranks_before_order(a: (Seq<char>, u32), b: (Seq<char>, u32), c: (Seq<char>, u32))
    ensures
        !ranks_before(a, a),
        ranks_before(a, b) && ranks_before(b, c) ==> ranks_before(a, c),
        a.0 != b.0 ==> (ranks_before(a, b) || ranks_before(b, a)),
        !(ranks_before(a, b) && ranks_before(b, a)),
{
    lemma_seq_lt_irreflexive(a.0);
    lemma_seq_lt_trichotomy(a.0, b.0);
    if ranks_before(a, b) && ranks_before(b, c) && a.1 == b.1 && b.1 == c.1 {
        lemma_seq_lt_transitive(a.0, b.0, c.0);
    }
}

/// Exec form of `ranks_before`.
fn ranks_before_exec(a: &(String, u32), b: &(String, u32)) -> (r: bool)
    ensures
        r == ranks_before((a.0@, a.1), (b.0@, b.1)),
{
    a.1 > b.1 || (a.1 == b.1 && str_compare(a.0.as_str(), b.0.as_str()) == -1)
}

/// The `k` best entries, best first.
fn top_entries(winners: &SelectorCounts, k: usize) -> (r: Vec<(String, u32)>)
        ensures
            is_top_ranked(winners@, r@.map_values(|e: (String, u32)| (e.0@, e.1)), k as nat),
    {
        let entries = winners.entries();
        proof {
            lemma_entries_map_finite_len(entries@);
        }
        let ghost es = entries@;
        let ghost m = winners@;
        let n = entries.len();
        let mut top: Vec<(String, u32)> = Vec::new();
        let mut last: usize = 0;
        let mut round: usize = 0;
        while round < k && round < n
            invariant
                es == entries@,
                m == entries_map(es),
                distinct_keys(es),
                m.dom().finite(),
                m.dom().len() == n,
                n == es.len(),
                round <= k,
                round <= n,
                top@.len() == round,
                round > 0 ==> last < n,
                round > 0 ==> top@[round - 1].0@ == es[last as int].0@ && top@[round - 1].1
                    == es[last as int].1,
                is_top_ranked_prefix(m, top@.map_values(|e: (String, u32)| (e.0@, e.1))),
            decreases n - round,
        {
            // Find the best entry ranking after `last` (any entry in the first round).
            let mut best: usize = n;
            let mut j: usize = 0;
            while j < n
                invariant
                    es == entries@,
                    n == es.len(),
                    j <= n,
                    distinct_keys(es),
                    best == n || best < j,
                    best < n ==> (round == 0 || ranks_before(
                        (es[last as int].0@, es[last as int].1),
                        (es[best as int].0@, es[best as int].1),
                    )),
                    forall|q: int|
                        0 <= q < j && (round == 0 || ranks_before(
                            (es[last as int].0@, es[last as int].1),
                            (#[trigger] es[q].0@, es[q].1),
                        )) ==> best < n && (q == best || ranks_before(
                            (es[best as int].0@, es[best as int].1),
                            (es[q].0@, es[q].1),
                        )),
                    round > 0 ==> last < n,
                decreases n - j,
            {
                let eligible = round == 0 || ranks_before_exec(&entries[last], &entries[j]);
                if eligible {
                    if best == n || ranks_before_exec(&entries[j], &entries[best]) {
                        proof {
                            if best < n {
                                assert forall|q: int|
                                    0 <= q < j && (round == 0 || ranks_before(
                                        (es[last as int].0@, es[last as int].1),
                                        (#[trigger] es[q].0@, es[q].1),
                                    )) implies (q == j || ranks_before(
                                    (es[j as int].0@, es[j as int].1),
                                    (es[q].0@, es[q].1),
                                )) by {
                                    lemma_ranks_before_order(
                                        (es[j as int].0@, es[j as int].1),
                                        (es[best as int].0@, es[best as int].1),
                                        (es[q].0@, es[q].1),
                                    );
                                }
                            }
                        }
                        best = j;
                    } else {
                        proof {
                            lemma_ranks_before_order(
                                (es[j as int].0@, es[j as int].1),
                                (es[best as int].0@, es[best as int].1),
                                (es[j as int].0@, es[j as int].1),
                            );
                            if es[j as int].0@ == es[best as int].0@ {
                                assert(j == best || !distinct_keys(es)) by {
                                    if j != best {
                                        if j < best {
                                            assert(es[j as int].0@ != es[best as int].0@);
                                        } else {
                                            assert(es[best as int].0@ != es[j as int].0@);
                                        }
                                    }
                                }
                            }
                        }
                    }
                }
                j = j + 1;
            }
            proof {
                lemma_next_best(m, es, top@.map_values(|e: (String, u32)| (e.0@, e.1)), last as int, best as int, round as int);
            }
            let ghost before = top@.map_values(|e: (String, u32)| (e.0@, e.1));
            let key = entries[best].0.clone();
            let c = entries[best].1;
            top.push((key, c));
            assert(top@.map_values(|e: (String, u32)| (e.0@, e.1)) =~= before.push(
                (es[best as int].0@, es[best as int].1),
            ));
            last = best;
            round = round + 1;
        }
        proof {
            lemma_prefix_complete(m, top@.map_values(|e: (String, u32)| (e.0@, e.1)), k as nat);
        }
        top
    }

/// `top` lists, best first, the `top.len()` best entries of `m`.
pub open spec fn is_top_ranked_prefix(m: Map<Seq<char>, u32>, top: Seq<(Seq<char>, u32)>) -> bool {
    &&& forall|i: int| 0 <= i < top.len() ==> m.dom().contains(#[trigger] top[i].0) && m[top[i].0] == top[i].1
    &&& forall|i: int, j: int| 0 <= i < j < top.len() ==> ranks_before(#[trigger] top[i], #[trigger] top[j])
    &&& forall|x: Seq<char>, i: int|
        m.dom().contains(x) && 0 <= i < top.len() && (forall|j: int| 0 <= j < top.len() ==> #[trigger] top[j].0 != x)
            ==> ranks_before(#[trigger] top[i], (x, #[trigger] m[x]))
}

/// No listed entry has key `k`.
pub open spec fn unlisted(top: Seq<(Seq<char>, u32)>, k: Seq<char>) -> bool {
    forall|j: int| 0 <= j < top.len() ==> #[trigger] top[j].0 != k
}

proof fn lemma_next_best(
    m: Map<Seq<char>, u32>,
    es: Seq<(String, u32)>,
    top: Seq<(Seq<char>, u32)>,
    last: int,
    best: int,
    round: int,
)
    requires
        m == entries_map(es),
        distinct_keys(es),
        m.dom().finite(),
        m.dom().len() == es.len(),
        top.len() == round,
        round < es.len(),
        round > 0 ==> 0 <= last < es.len() && top[round - 1] == (es[last].0@, es[last].1),
        is_top_ranked_prefix(m, top),
        best == es.len() || 0 <= best < es.len(),
        best < es.len() ==> (round == 0 || ranks_before((es[last].0@, es[last].1), (es[best].0@, es[best].1))),
        forall|q: int|
            0 <= q < es.len() && (round == 0 || ranks_before(
                (es[last].0@, es[last].1),
                (#[trigger] es[q].0@, es[q].1),
            )) ==> best < es.len() && (q == best || ranks_before(
                (es[best].0@, es[best].1),
                (es[q].0@, es[q].1),
            )),
    ensures
        0 <= best < es.len(),
        is_top_ranked_prefix(m, top.push((es[best].0@, es[best].1))),
{
    // Every key of `m` is the key of some entry.
    assert forall|x: Seq<char>| m.dom().contains(x) implies exists|q: int|
        0 <= q < es.len() && (#[trigger] es[q]).0@ == x by {
        if forall|q: int| 0 <= q < es.len() ==> (#[trigger] es[q]).0@ != x {
            lemma_entries_map_absent(es, x);
        }
    }
    // Some entry is not yet listed (there are more keys than listed entries).
    let listed = Set::new(|x: Seq<char>| exists|j: int| 0 <= j < top.len() && top[j].0 == x);
    lemma_listed_len(top);
    if !(exists|q: int| 0 <= q < es.len() && #[trigger] unlisted(top, es[q].0@)) {
        assert(m.dom().subset_of(listed)) by {
            assert forall|x: Seq<char>| m.dom().contains(x) implies listed.contains(x) by {
                let q = choose|q: int| 0 <= q < es.len() && (#[trigger] es[q]).0@ == x;
                assert(!unlisted(top, es[q].0@));
            }
        }
        vstd::set_lib::lemma_len_subset(m.dom(), listed);
    }
    let q0 = choose|q: int| 0 <= q < es.len() && #[trigger] unlisted(top, es[q].0@);
    lemma_entries_map_at(es, q0);
    // An unlisted entry ranks after the last listed one, so it is eligible.
    if round > 0 {
        assert(ranks_before(top[round - 1], (es[q0].0@, m[es[q0].0@])));
    }
    assert(best < es.len());
    lemma_entries_map_at(es, best);
    let e = (es[best].0@, es[best].1);
    let t2 = top.push(e);
    // `best` is not listed yet: listed entries rank no later than the last one.
    assert forall|j: int| 0 <= j < top.len() implies #[trigger] top[j].0 != e.0 by {
        if top[j].0 == e.0 {
            assert(m[top[j].0] == top[j].1);
            assert(top[j] == e);
            if round > 0 {
                if j < round - 1 {
                    assert(ranks_before(top[j], top[round - 1]));
                    lemma_ranks_before_order(top[j], top[round - 1], e);
                    lemma_ranks_before_order(e, top[round - 1], e);
                } else {
                    lemma_ranks_before_order(e, e, e);
                }
            }
        }
    }
    assert forall|i: int| 0 <= i < t2.len() implies m.dom().contains(#[trigger] t2[i].0) && m[t2[i].0] == t2[i].1 by {
        if i < top.len() {
            assert(t2[i] == top[i]);
        }
    }
    assert forall|i: int, j: int| 0 <= i < j < t2.len() implies ranks_before(#[trigger] t2[i], #[trigger] t2[j]) by {
        assert(t2[i] == top[i]);
        if j < top.len() {
            assert(t2[j] == top[j]);
        } else {
            assert(ranks_before(top[i], (e.0, m[e.0])));
        }
    }
    assert forall|x: Seq<char>, i: int|
        m.dom().contains(x) && 0 <= i < t2.len() && (forall|j: int| 0 <= j < t2.len() ==> #[trigger] t2[j].0 != x)
        implies ranks_before(#[trigger] t2[i], (x, #[trigger] m[x])) by {
        let q = choose|q: int| 0 <= q < es.len() && (#[trigger] es[q]).0@ == x;
        lemma_entries_map_at(es, q);
        assert forall|j: int| 0 <= j < top.len() implies #[trigger] top[j].0 != x by {
            assert(t2[j] == top[j]);
        }
        assert(t2[top.len() as int] == e);
        assert(t2[top.len() as int].0 != x);
        if i < top.len() {
            assert(t2[i] == top[i]);
        } else {
            if round > 0 {
                assert(ranks_before(top[round - 1], (x, m[x])));
            }
            assert(q != best);
        }
    }
}

proof fn lemma_listed_len(top: Seq<(Seq<char>, u32)>)
    ensures
        Set::new(|x: Seq<char>| exists|j: int| 0 <= j < top.len() && top[j].0 == x).finite(),
        Set::new(|x: Seq<char>| exists|j: int| 0 <= j < top.len() && top[j].0 == x).len() <= top.len(),
    decreases top.len(),
{
    let s = Set::new(|x: Seq<char>| exists|j: int| 0 <= j < top.len() && top[j].0 == x);
    if top.len() == 0 {
        assert(s =~= Set::empty());
    } else {
        let p = top.drop_last();
        let sp = Set::new(|x: Seq<char>| exists|j: int| 0 <= j < p.len() && p[j].0 == x);
        lemma_listed_len(p);
        assert(s =~= sp.insert(top.last().0)) by {
            assert forall|x: Seq<char>| s.contains(x) implies sp.insert(top.last().0).contains(x) by {
                let j = choose|j: int| 0 <= j < top.len() && top[j].0 == x;
                if j < p.len() {
                    assert(p[j] == top[j]);
                }
            }
            assert forall|x: Seq<char>| sp.contains(x) implies s.contains(x) by {
                let j = choose|j: int| 0 <= j < p.len() && p[j].0 == x;
                assert(p[j] == top[j]);
            }
        }
    }
}

proof fn lemma_prefix_complete(m: Map<Seq<char>, u32>, top: Seq<(Seq<char>, u32)>, k: nat)
    requires
        m.dom().finite(),
        is_top_ranked_prefix(m, top),
        top.len() == k || top.len() == m.dom().len(),
        top.len() <= k,
        top.len() <= m.dom().len(),
    ensures
        is_top_ranked(m, top, k),
{
}

/// The top three miss winners by (count desc, selector asc), rendered as
/// `"sel (xN); sel2 (xM)"`; the empty string when there are none.
pub fn format_miss_winners(winners: &SelectorCounts) -> (r: String)
    ensures
        exists|top: Seq<(Seq<char>, u32)>| is_top_ranked(winners@, top, 3) && r@ == render_winners(top),
{
    let top = top_entries(winners, 3);
    let ghost tv = top@.map_values(|e: (String, u32)| (e.0@, e.1));
    let mut out = String::new();
    let mut i: usize = 0;
    while i < top.len()
        invariant
            tv == top@.map_values(|e: (String, u32)| (e.0@, e.1)),
            i <= top@.len(),
            out@ == render_winners(tv.take(i as int)),
        decreases top.len() - i,
    {
        assert(tv.take(i + 1).drop_last() =~= tv.take(i as int));
        if i > 0 {
            push_str(&mut out, "; ");
        }
        push_str(&mut out, top[i].0.as_str());
        push_str(&mut out, " (x");
        push_dec(&mut out, top[i].1 as u64);
        push_str(&mut out, ")");
        proof {
            if i == 0 {
                assert(tv.take(0) =~= Seq::<(Seq<char>, u32)>::empty());
            }
        }
        assert(out@ =~= render_winners(tv.take(i + 1)));
        i = i + 1;
    }
    assert(tv.take(tv.len() as int) =~= tv);
    out
}

/// The single best miss winner (highest count, then smallest selector).
pub fn top_miss_winner(winners: &SelectorCounts) -> (r: Option<String>)
    ensures
        match r {
            Some(s) => exists|top: Seq<(Seq<char>, u32)>| is_top_ranked(winners@, top, 1) && top.len() == 1 && top[0].0 == s@,
            None => winners@.dom().len() == 0,
        },
{
    let top = top_entries(winners, 1);
    if top.len() == 0 {
        None
    } else {
        let ghost tv = top@.map_values(|e: (String, u32)| (e.0@, e.1));
        assert(tv[0].0 == top@[0].0@);
        Some(top[0].0.clone())
    }
}

// ---------------------------------------------------------------------------
// Tally
// ---------------------------------------------------------------------------

/// Per-pair hit-test tally after alignment, exclusion and the both-miss drop.
#[derive(Debug, Clone)]
pub struct HitTally {
    /// Points excluded because either side was `clipped` or `offViewport`.
    pub excluded: u32,
    /// Surviving denominator.
    pub denominator: u32,
    pub hits_old: u32,
    pub hits_new: u32,
    /// Old-side miss winner selector to count, over the surviving points.
    pub old_miss_winners: SelectorCounts,
    /// New-side miss winner selector to count, over the surviving points.
    pub new_miss_winners: SelectorCounts,
}

pub open spec fn point_excluded(p: HitTestPoint) -> bool {
    p.o == HitTestOutcome::Clipped || p.o == HitTestOutcome::OffViewport
}

pub open spec fn point_miss(p: HitTestPoint) -> bool {
    p.o == HitTestOutcome::Miss
}

/// The aligned pair of points counts toward the denominator.
pub open spec fn pair_survives(op: HitTestPoint, np: HitTestPoint) -> bool {
    !point_excluded(op) && !point_excluded(np) && !(point_miss(op) && point_miss(np))
}

pub open spec fn winner_is(p: HitTestPoint, sel: Seq<char>) -> bool {
    match p.winner {
        Some(w) => w@ == sel,
        None => false,
    }
}

/// Excluded pairs among the first `n`.
pub open spec fn count_excluded(old: Seq<HitTestPoint>, new: Seq<HitTestPoint>, n: int) -> nat
    decreases n,
{
    if n <= 0 {
        0
    } else {
        count_excluded(old, new, n - 1) + (if point_excluded(old[n - 1]) || point_excluded(
            new[n - 1],
        ) {
            1nat
        } else {
            0nat
        })
    }
}

/// Surviving pairs among the first `n`.
pub open spec fn count_surviving(old: Seq<HitTestPoint>, new: Seq<HitTestPoint>, n: int) -> nat
    decreases n,
{
    if n <= 0 {
        0
    } else {
        count_surviving(old, new, n - 1) + (if pair_survives(old[n - 1], new[n - 1]) {
            1nat
        } else {
            0nat
        })
    }
}

/// Surviving pairs among the first `n` that hit on the old side.
pub open spec fn count_hits_old(old: Seq<HitTestPoint>, new: Seq<HitTestPoint>, n: int) -> nat
    decreases n,
{
    if n <= 0 {
        0
    } else {
        count_hits_old(old, new, n - 1) + (if pair_survives(old[n - 1], new[n - 1]) && !point_miss(
            old[n - 1],
        ) {
            1nat
        } else {
            0nat
        })
    }
}

/// Surviving pairs among the first `n` that hit on the new side.
pub open spec fn count_hits_new(old: Seq<HitTestPoint>, new: Seq<HitTestPoint>, n: int) -> nat
    decreases n,
{
    if n <= 0 {
        0
    } else {
        count_hits_new(old, new, n - 1) + (if pair_survives(old[n - 1], new[n - 1]) && !point_miss(
            new[n - 1],
        ) {
            1nat
        } else {
            0nat
        })
    }
}

/// Surviving pairs among the first `n` whose old side was missed in favour of `sel`.
pub open spec fn count_old_winner(
    old: Seq<HitTestPoint>,
    new: Seq<HitTestPoint>,
    n: int,
    sel: Seq<char>,
) -> nat
    decreases n,
{
    if n <= 0 {
        0
    } else {
        count_old_winner(old, new, n - 1, sel) + (if pair_survives(old[n - 1], new[n - 1])
            && point_miss(old[n - 1]) && winner_is(old[n - 1], sel) {
            1nat
        } else {
            0nat
        })
    }
}

/// Surviving pairs among the first `n` whose new side was missed in favour of `sel`.
pub open spec fn count_new_winner(
    old: Seq<HitTestPoint>,
    new: Seq<HitTestPoint>,
    n: int,
    sel: Seq<char>,
) -> nat
    decreases n,
{
    if n <= 0 {
        0
    } else {
        count_new_winner(old, new, n - 1, sel) + (if pair_survives(old[n - 1], new[n - 1])
            && point_miss(new[n - 1]) && winner_is(new[n - 1], sel) {
            1nat
        } else {
            0nat
        })
    }
}

/// `m` maps each selector to its count when the count is positive, and holds
/// no other selector.
pub open spec fn counts_match(m: Map<Seq<char>, u32>, count: spec_fn(Seq<char>) -> nat) -> bool {
    forall|sel: Seq<char>|
        #![trigger m.dom().contains(sel)]
        (m.dom().contains(sel) <==> count(sel) > 0) && (m.dom().contains(sel) ==> m[sel] == count(sel))
}

/// The tally of two aligned point arrays, as the counting functions define it.
pub open spec fn is_tally_of(t: HitTally, old: Seq<HitTestPoint>, new: Seq<HitTestPoint>) -> bool {
    let n = old.len() as int;
    &&& t.excluded == count_excluded(old, new, n)
    &&& t.denominator == count_surviving(old, new, n)
    &&& t.hits_old == count_hits_old(old, new, n)
    &&& t.hits_new == count_hits_new(old, new, n)
    &&& counts_match(t.old_miss_winners@, |sel: Seq<char>| count_old_winner(old, new, n, sel))
    &&& counts_match(t.new_miss_winners@, |sel: Seq<char>| count_new_winner(old, new, n, sel))
}

proof fn lemma_counts_bounded(old: Seq<HitTestPoint>, new: Seq<HitTestPoint>, n: int, sel: Seq<char>)
    requires
        n >= 0,
    ensures
        count_excluded(old, new, n) <= n,
        count_surviving(old, new, n) <= n,
        count_hits_old(old, new, n) <= n,
        count_hits_new(old, new, n) <= n,
        count_old_winner(old, new, n, sel) <= n,
        count_new_winner(old, new, n, sel) <= n,
    decreases n,
{
    if n > 0 {
        lemma_counts_bounded(old, new, n - 1, sel);
    }
}

/// Aligns, excludes and tallies one pair's old/new point arrays; `None` when
/// they cannot be compared (empty, or of different lengths).
pub fn tally_points(old_points: &[HitTestPoint], new_points: &[HitTestPoint]) -> (r: Option<
    HitTally,
>)
    requires
        old_points@.len() <= u32::MAX,
    ensures
        match r {
            Some(t) => old_points@.len() > 0 && old_points@.len() == new_points@.len() && is_tally_of(
                t,
                old_points@,
                new_points@,
            ),
            None => old_points@.len() == 0 || old_points@.len() != new_points@.len(),
        },
{
    if old_points.len() == 0 || old_points.len() != new_points.len() {
        return None;
    }
    let ghost old = old_points@;
    let ghost new = new_points@;
    let mut excluded: u32 = 0;
    let mut denominator: u32 = 0;
    let mut hits_old: u32 = 0;
    let mut hits_new: u32 = 0;
    let mut old_miss_winners = SelectorCounts::new();
    let mut new_miss_winners = SelectorCounts::new();
    let mut i: usize = 0;
    while i < old_points.len()
        invariant
            old == old_points@,
            new == new_points@,
            old.len() == new.len(),
            old.len() <= u32::MAX,
            i <= old.len(),
            excluded == count_excluded(old, new, i as int),
            denominator == count_surviving(old, new, i as int),
            hits_old == count_hits_old(old, new, i as int),
            hits_new == count_hits_new(old, new, i as int),
            counts_match(old_miss_winners@, |sel: Seq<char>| count_old_winner(old, new, i as int, sel)),
            counts_match(new_miss_winners@, |sel: Seq<char>| count_new_winner(old, new, i as int, sel)),
        decreases old.len() - i,
    {
        let ghost ii = i as int;
        proof {
            lemma_counts_bounded(old, new, ii, seq![]);
        }
        let op = &old_points[i];
        let np = &new_points[i];
        let old_excluded = op.o == HitTestOutcome::Clipped || op.o == HitTestOutcome::OffViewport;
        let new_excluded = np.o == HitTestOutcome::Clipped || np.o == HitTestOutcome::OffViewport;
        if old_excluded || new_excluded {
            excluded = excluded + 1;
            proof {
                assert forall|sel: Seq<char>| count_old_winner(old, new, ii + 1, sel) == count_old_winner(old, new, ii, sel)
                    && count_new_winner(old, new, ii + 1, sel) == count_new_winner(old, new, ii, sel) by {}
            }
        } else {
            let old_miss = op.o == HitTestOutcome::Miss;
            let new_miss = np.o == HitTestOutcome::Miss;
            if old_miss && new_miss {
                proof {
                    assert forall|sel: Seq<char>| count_old_winner(old, new, ii + 1, sel) == count_old_winner(old, new, ii, sel)
                        && count_new_winner(old, new, ii + 1, sel) == count_new_winner(old, new, ii, sel) by {}
                }
            } else {
                denominator = denominator + 1;
                if !old_miss {
                    hits_old = hits_old + 1;
                    proof {
                        assert forall|sel: Seq<char>| count_old_winner(old, new, ii + 1, sel) == count_old_winner(old, new, ii, sel) by {}
                    }
                } else {
                    match &op.winner {
                        Some(w) => {
                            proof {
                                lemma_counts_bounded(old, new, ii, w@);
                                assert forall|sel: Seq<char>| count_old_winner(old, new, ii + 1, sel) == count_old_winner(old, new, ii, sel)
                                    + (if sel == w@ { 1nat } else { 0nat }) by {}
                            }
                            old_miss_winners.add_one(w);
                        },
                        None => {
                            proof {
                                assert forall|sel: Seq<char>| count_old_winner(old, new, ii + 1, sel) == count_old_winner(old, new, ii, sel) by {}
                            }
                        },
                    }
                }
                if !new_miss {
                    hits_new = hits_new + 1;
                    proof {
                        assert forall|sel: Seq<char>| count_new_winner(old, new, ii + 1, sel) == count_new_winner(old, new, ii, sel) by {}
                    }
                } else {
                    match &np.winner {
                        Some(w) => {
                            proof {
                                lemma_counts_bounded(old, new, ii, w@);
                                assert forall|sel: Seq<char>| count_new_winner(old, new, ii + 1, sel) == count_new_winner(old, new, ii, sel)
                                    + (if sel == w@ { 1nat } else { 0nat }) by {}
                            }
                            new_miss_winners.add_one(w);
                        },
                        None => {
                            proof {
                                assert forall|sel: Seq<char>| count_new_winner(old, new, ii + 1, sel) == count_new_winner(old, new, ii, sel) by {}
                            }
                        },
                    }
                }
            }
        }
        i = i + 1;
    }
    Some(
        HitTally {
            excluded,
            denominator,
            hits_old,
            hits_new,
            old_miss_winners,
            new_miss_winners,
        },
    )
}

// ---------------------------------------------------------------------------
// Decisions
// ---------------------------------------------------------------------------

/// A clickable-area regression: enough surviving points, an old hit fraction
/// of at least 0.9, and a drop of at least 0.1 (the minimum drop) from old to
/// new, compared exactly, by cross-multiplication.
pub open spec fn regression_fires(denominator: u32, hits_old: u32, hits_new: u32) -> bool {
    &&& denominator >= MIN_HIT_DENOMINATOR
    &&& 10 * hits_old >= 9 * denominator
    &&& 10 * (hits_old - hits_new) >= denominator
}

/// Whether a tally reports a clickable-area regression.
pub fn is_clickable_regression(tally: &HitTally) -> (r: bool)
    ensures
        r == regression_fires(tally.denominator, tally.hits_old, tally.hits_new),
{
    let d = tally.denominator as u64;
    let ho = tally.hits_old as u64;
    let hn = tally.hits_new as u64;
    (tally.denominator as usize) >= MIN_HIT_DENOMINATOR && 10 * ho >= 9 * d && ho >= hn && 10 * (ho
        - hn) >= d
}

/// Whether one capture's settle stage failed to reach quiescence cleanly.
pub open spec fn settle_is_bad(s: SettleSignals) -> bool {
    s.quiescence == Some(QuiescenceStatus::Timeout) || s.settle == Some(StepStatus::Failed)
        || s.settle == Some(StepStatus::Skipped)
}

/// True when either capture's settle stage failed to reach quiescence
/// cleanly; absent settle signals never demote.
pub fn settle_penalty_applies(old_det: &SettleSignals, new_det: &SettleSignals) -> (r: bool)
    ensures
        r == (settle_is_bad(*old_det) || settle_is_bad(*new_det)),
{
    let old_bad = match old_det.quiescence {
        Some(QuiescenceStatus::Timeout) => true,
        _ => false,
    } || match old_det.settle {
        Some(StepStatus::Failed) | Some(StepStatus::Skipped) => true,
        _ => false,
    };
    let new_bad = match new_det.quiescence {
        Some(QuiescenceStatus::Timeout) => true,
        _ => false,
    } || match new_det.settle {
        Some(StepStatus::Failed) | Some(StepStatus::Skipped) => true,
        _ => false,
    };
    old_bad || new_bad
}

// ---------------------------------------------------------------------------
// Laws
// ---------------------------------------------------------------------------

/// The single top miss winner is the first selector of the top-three listing.
pub proof fn lemma_top_winner_leads_listing(
    m: Map<Seq<char>, u32>,
    top1: Seq<(Seq<char>, u32)>,
    top3: Seq<(Seq<char>, u32)>,
)
    requires
        is_top_ranked(m, top1, 1),
        is_top_ranked(m, top3, 3),
        top1.len() == 1,
    ensures
        top3.len() > 0,
        top3[0] == top1[0],
{
    let a = top1[0];
    let b = top3[0];
    assert(m.dom().contains(a.0) && m[a.0] == a.1);
    assert(m.dom().contains(b.0) && m[b.0] == b.1);
    if a.0 != b.0 {
        // `b` is not listed in `top1`, so `a` ranks before it.
        assert(ranks_before(top1[0], (b.0, m[b.0])));
        // `a` is either listed later in `top3` or not listed at all; either
        // way `b` ranks before it.
        if exists|j: int| 0 <= j < top3.len() && #[trigger] top3[j].0 == a.0 {
            let j = choose|j: int| 0 <= j < top3.len() && #[trigger] top3[j].0 == a.0;
            assert(m[top3[j].0] == top3[j].1);
            assert(top3[j] == a);
            if j == 0 {
                assert(false);
            } else {
                assert(ranks_before(top3[0], top3[j]));
            }
        } else {
            assert(ranks_before(top3[0], (a.0, m[a.0])));
        }
        lemma_ranks_before_order(a, b, a);
    }
}

/// Every tally count is bounded by the points it is taken over: hits never
/// exceed the surviving denominator, and excluded plus surviving points never
/// exceed the number of aligned pairs.
pub proof fn lemma_tally_bounds(old: Seq<HitTestPoint>, new: Seq<HitTestPoint>, n: int)
    requires
        n >= 0,
    ensures
        count_hits_old(old, new, n) <= count_surviving(old, new, n),
        count_hits_new(old, new, n) <= count_surviving(old, new, n),
        count_excluded(old, new, n) + count_surviving(old, new, n) <= n,
    decreases n,
{
    if n > 0 {
        lemma_tally_bounds(old, new, n - 1);
    }
}

/// A clickable-area regression needs an old side at or above the 90% floor,
/// enough surviving points, and strictly fewer hits on the new side: equal
/// (or better) new-side occlusion never fires.
pub proof fn lemma_regression_needs_drop(denominator: u32, hits_old: u32, hits_new: u32)
    ensures
        regression_fires(denominator, hits_old, hits_new) ==> hits_new < hits_old && 10 * hits_old >= 9
            * denominator && denominator >= MIN_HIT_DENOMINATOR,
        hits_new >= hits_old ==> !regression_fires(denominator, hits_old, hits_new),
{
}

// ---------------------------------------------------------------------------
// Clickable-area remediation
// ---------------------------------------------------------------------------

/// The grep targets of a clickable-area remediation: the quoted href and the
/// text when present and non-empty, else the nearest heading; then the top
/// miss winner.
pub open spec fn clickable_grep(a: Anchors, top: Option<Seq<char>>) -> Seq<Seq<char>> {
    let own = (if present(a.href) {
        seq!["\""@ + a.href->0@ + "\""@]
    } else {
        seq![]
    }) + (if present(a.text) {
        seq![a.text->0@]
    } else {
        seq![]
    });
    let base = if own.len() == 0 && present(a.nearest_heading) {
        seq![a.nearest_heading->0@]
    } else {
        own
    };
    match top {
        Some(w) => base.push(w),
        None => base,
    }
}

/// The leaves `prefix0`, `prefix1`, ... of a list of texts.
pub open spec fn indexed_leaves(prefix: Seq<char>, xs: Seq<Seq<char>>) -> Seq<(Seq<char>, LeafModel)>
    decreases xs.len(),
{
    if xs.len() == 0 {
        seq![]
    } else {
        indexed_leaves(prefix, xs.drop_last()) + seq![text_leaf(prefix + dec((xs.len() - 1) as nat), xs.last())]
    }
}

/// The note of a clickable-area remediation.
pub open spec fn clickable_note(top: Option<Seq<char>>) -> Seq<char> {
    match top {
        Some(w) => "The element matching \""@ + w
            + "\" overlaps this target and is intercepting clicks. Check its position/size/z-index relative to the target. The tool does not name the source component \u{2014} use the grep targets to locate it in source or CMS."@,
        None => "An overlapping element is intercepting clicks on this target. Check the position/size/z-index of nearby elements. The tool does not name the source component \u{2014} use the grep targets to locate it in source or CMS."@,
    }
}

/// The remediation of a clickable-area regression.
pub open spec fn clickable_remediation_spec(a: Anchors, top: Option<Seq<char>>) -> Seq<(Seq<char>, LeafModel)> {
    seq![text_leaf("action"@, "restore_clickable_area"@)] + indexed_leaves("findBy.grep."@, clickable_grep(a, top))
        + seq![
        ("findBy.near"@, match a.nearest_heading {
            Some(h) => LeafModel::Text(h@),
            None => LeafModel::Null,
        }),
        text_leaf("note"@, clickable_note(top)),
    ]
}

fn nonempty(o: &Option<String>) -> (r: bool)
    ensures
        r == present(*o),
{
    match o {
        Some(s) => !s.as_str().is_empty(),
        None => false,
    }
}

/// The remediation of a clickable-area regression of the node with anchors
/// `anchors`, given the top miss winner.
pub fn clickable_remediation(anchors: &Anchors, top_winner: &Option<String>) -> (r: Vec<JsonField>)
    ensures
        fields_view(r@) == clickable_remediation_spec(*anchors, opt_view(*top_winner)),
{
    let mut grep: Vec<String> = Vec::new();
    if nonempty(&anchors.href) {
        let mut q = to_owned_string("\"");
        match &anchors.href {
            Some(h) => push_str(&mut q, h.as_str()),
            None => {},
        }
        push_str(&mut q, "\"");
        grep.push(q);
    }
    if nonempty(&anchors.text) {
        match &anchors.text {
            Some(t) => grep.push(t.clone()),
            None => {},
        }
    }
    if grep.len() == 0 && nonempty(&anchors.nearest_heading) {
        match &anchors.nearest_heading {
            Some(h) => grep.push(h.clone()),
            None => {},
        }
    }
    match top_winner {
        Some(w) => grep.push(w.clone()),
        None => {},
    }
    let ghost gs = clickable_grep(*anchors, opt_view(*top_winner));
    assert(grep@.map_values(|x: String| x@) =~= gs);
    let mut out: Vec<JsonField> = Vec::new();
    out.push(text_field("action", "restore_clickable_area"));
    let ghost head = fields_view(out@);
    assert(head =~= seq![text_leaf("action"@, "restore_clickable_area"@)]);
    let mut i: usize = 0;
    assert(gs.take(0) =~= Seq::<Seq<char>>::empty());
    while i < grep.len()
        invariant
            i <= grep@.len(),
            gs == grep@.map_values(|x: String| x@),
            fields_view(out@) == head + indexed_leaves("findBy.grep."@, gs.take(i as int)),
        decreases grep.len() - i,
    {
        let mut path = to_owned_string("findBy.grep.");
        push_dec(&mut path, i as u64);
        let ghost before = fields_view(out@);
        out.push(text_field(path.as_str(), grep[i].as_str()));
        assert(gs.take(i + 1).drop_last() =~= gs.take(i as int));
        assert(fields_view(out@) =~= before.push(text_leaf("findBy.grep."@ + dec(i as nat), gs[i as int])));
        i = i + 1;
    }
    assert(gs.take(grep@.len() as int) =~= gs);
    let ghost mid = fields_view(out@);
    let near = match &anchors.nearest_heading {
        Some(h) => text_field("findBy.near", h.as_str()),
        None => JsonField { path: to_owned_string("findBy.near"), value: JsonLeaf::Null },
    };
    let ghost near_leaf = near@;
    out.push(near);
    assert(fields_view(out@) =~= mid.push(near_leaf));
    let ghost mid2 = fields_view(out@);
    let note = match top_winner {
        Some(w) => {
            let mut n = to_owned_string("The element matching \"");
            push_str(&mut n, w.as_str());
            push_str(
                &mut n,
                "\" overlaps this target and is intercepting clicks. Check its position/size/z-index relative to the target. The tool does not name the source component \u{2014} use the grep targets to locate it in source or CMS.",
            );
            n
        },
        None => to_owned_string(
            "An overlapping element is intercepting clicks on this target. Check the position/size/z-index of nearby elements. The tool does not name the source component \u{2014} use the grep targets to locate it in source or CMS.",
        ),
    };
    assert(note@ == clickable_note(opt_view(*top_winner)));
    let nf = text_field("note", note.as_str());
    let ghost note_leaf = nf@;
    out.push(nf);
    assert(fields_view(out@) =~= mid2.push(note_leaf));
    assert(fields_view(out@) =~= clickable_remediation_spec(*anchors, opt_view(*top_winner)));
    out
}

} // verus!

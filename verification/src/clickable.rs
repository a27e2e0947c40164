//! Which matched node pairs report a clickable-area regression: both nodes'
//! hit-test grids were sampled, their point arrays can be tallied together,
//! and the tally crosses the thresholds. Pairs are taken in the order of
//! their old nodes (sequence index, then id).
use vstd::prelude::*;

use crate::contract::SemanticNode;
use crate::explain::{lemma_node_key_order, node_key_less, node_key_lt};
use crate::hit_test_diff::{
    is_clickable_regression, is_tally_of, regression_fires, tally_points, HitTally, HitTestEntry, HitTestPoint,
    HitTestStatus,
};
use crate::keyed::KeyedMap;

verus! {

/// The point arrays of a pair, when both nodes have a sampled hit-test
/// record carrying points.
pub open spec fn pair_points(
    old_nodes: Seq<SemanticNode>,
    new_nodes: Seq<SemanticNode>,
    old_hits: Map<Seq<char>, HitTestEntry>,
    new_hits: Map<Seq<char>, HitTestEntry>,
    pair: (usize, usize),
) -> Option<(Seq<HitTestPoint>, Seq<HitTestPoint>)> {
    let ok = old_nodes[pair.0 as int].id@;
    let nk = new_nodes[pair.1 as int].id@;
    if old_hits.dom().contains(ok) && new_hits.dom().contains(nk) {
        let oe = old_hits[ok];
        let ne = new_hits[nk];
        if oe.status == HitTestStatus::Sampled && ne.status == HitTestStatus::Sampled {
            match (oe.points, ne.points) {
                (Some(op), Some(np)) => Some((op@, np@)),
                _ => None,
            }
        } else {
            None
        }
    } else {
        None
    }
}

/// The pair reports a regression: its point arrays are non-empty, of equal
/// length, and their tally crosses the thresholds.
pub open spec fn pair_fires(
    old_nodes: Seq<SemanticNode>,
    new_nodes: Seq<SemanticNode>,
    old_hits: Map<Seq<char>, HitTestEntry>,
    new_hits: Map<Seq<char>, HitTestEntry>,
    pair: (usize, usize),
) -> bool {
    match pair_points(old_nodes, new_nodes, old_hits, new_hits, pair) {
        Some((op, np)) => op.len() > 0 && op.len() == np.len() && exists|t: HitTally|
            #[trigger] is_tally_of(t, op, np) && regression_fires(t.denominator, t.hits_old, t.hits_new),
        None => false,
    }
}

/// Pair `a` comes before pair `b`: its old node has the lower `(sequence
/// index, id)`, or the same key and `a` is listed first.
pub open spec fn pair_before(old_nodes: Seq<SemanticNode>, pairs: Seq<(usize, usize)>, a: int, b: int) -> bool {
    let na = old_nodes[pairs[a].0 as int];
    let nb = old_nodes[pairs[b].0 as int];
    node_key_lt(na, nb) || (!node_key_lt(nb, na) && a < b)
}

/// `idx` lists, in the order of their old nodes, exactly the pairs that
/// report a regression.
pub open spec fn regression_order(
    old_nodes: Seq<SemanticNode>,
    new_nodes: Seq<SemanticNode>,
    pairs: Seq<(usize, usize)>,
    old_hits: Map<Seq<char>, HitTestEntry>,
    new_hits: Map<Seq<char>, HitTestEntry>,
    idx: Seq<usize>,
) -> bool {
    &&& forall|p: int|
        0 <= p < idx.len() ==> #[trigger] idx[p] < pairs.len() && pair_fires(
            old_nodes,
            new_nodes,
            old_hits,
            new_hits,
            pairs[idx[p] as int],
        )
    &&& forall|k: int|
        0 <= k < pairs.len() && pair_fires(old_nodes, new_nodes, old_hits, new_hits, pairs[k])
            ==> #[trigger] idx.contains(k as usize)
    &&& forall|p: int, q: int|
        0 <= p < q < idx.len() ==> pair_before(old_nodes, pairs, #[trigger] idx[p] as int, #[trigger] idx[q] as int)
}

/// A regression report: the pair's node indices and its tally.
#[derive(Debug, Clone)]
pub struct ClickableRegression {
    pub old_idx: usize,
    pub new_idx: usize,
    pub tally: HitTally,
}

fn insert_pair(out: &mut Vec<usize>, old_nodes: &[SemanticNode], pairs: &[(usize, usize)], x: usize) -> (pos: usize)
    requires
        x < pairs@.len(),
        forall|k: int| 0 <= k < pairs@.len() ==> (#[trigger] pairs@[k]).0 < old_nodes@.len(),
        forall|p: int| 0 <= p < old(out)@.len() ==> #[trigger] old(out)@[p] < x,
        forall|p: int, q: int|
            0 <= p < q < old(out)@.len() ==> pair_before(
                old_nodes@,
                pairs@,
                #[trigger] old(out)@[p] as int,
                #[trigger] old(out)@[q] as int,
            ),
    ensures
        pos <= old(out)@.len(),
        final(out)@ == old(out)@.insert(pos as int, x),
        forall|p: int, q: int|
            0 <= p < q < final(out)@.len() ==> pair_before(
                old_nodes@,
                pairs@,
                #[trigger] final(out)@[p] as int,
                #[trigger] final(out)@[q] as int,
            ),
{
    let ghost key = |k: int| old_nodes@[pairs@[k].0 as int];
    let mut p: usize = 0;
    while p < out.len() && !node_key_less(&old_nodes[pairs[x].0], &old_nodes[pairs[out[p]].0])
        invariant
            p <= out@.len(),
            x < pairs@.len(),
            forall|k: int| 0 <= k < pairs@.len() ==> (#[trigger] pairs@[k]).0 < old_nodes@.len(),
            forall|k: int| 0 <= k < out@.len() ==> #[trigger] out@[k] < x,
            forall|k: int|
                0 <= k < p ==> !node_key_lt(
                    old_nodes@[pairs@[x as int].0 as int],
                    old_nodes@[pairs@[#[trigger] out@[k] as int].0 as int],
                ),
        decreases out.len() - p,
    {
        p = p + 1;
    }
    let ghost before = out@;
    proof {
        assert forall|a: int, b: int| 0 <= a < b < before.len() + 1 implies pair_before(
            old_nodes@,
            pairs@,
            #[trigger] before.insert(p as int, x)[a] as int,
            #[trigger] before.insert(p as int, x)[b] as int,
        ) by {
            let t = before.insert(p as int, x);
            if b < p {
                assert(t[a] == before[a] && t[b] == before[b]);
            } else if b == p {
                assert(t[a] == before[a] && t[b] == x);
                lemma_node_key_order(key(x as int), key(before[a] as int), key(x as int));
            } else if a < p {
                assert(t[a] == before[a] && t[b] == before[b - 1]);
            } else if a == p {
                assert(t[a] == x && t[b] == before[b - 1]);
                assert(node_key_lt(key(x as int), key(before[p as int] as int)));
                if b - 1 > p {
                    assert(pair_before(old_nodes@, pairs@, before[p as int] as int, before[b - 1] as int));
                    lemma_node_key_order(key(x as int), key(before[p as int] as int), key(before[b - 1] as int));
                }
            } else {
                assert(t[a] == before[a - 1] && t[b] == before[b - 1]);
            }
        }
    }
    out.insert(p, x);
    p
}

/// The matched pairs that report a clickable-area regression, in the order
/// of their old nodes, each with its tally.
pub fn clickable_regressions(
    old_nodes: &[SemanticNode],
    new_nodes: &[SemanticNode],
    pairs: &[(usize, usize)],
    old_hits: &KeyedMap<HitTestEntry>,
    new_hits: &KeyedMap<HitTestEntry>,
) -> (r: Vec<ClickableRegression>)
    requires
        forall|k: int|
            0 <= k < pairs@.len() ==> (#[trigger] pairs@[k]).0 < old_nodes@.len() && pairs@[k].1 < new_nodes@.len(),
        forall|key: Seq<char>|
            #[trigger] old_hits@.dom().contains(key) ==> (old_hits@[key].points matches Some(v) ==> v@.len()
                <= u32::MAX),
    ensures
        exists|idx: Seq<usize>|
            {
                &&& #[trigger] regression_order(old_nodes@, new_nodes@, pairs@, old_hits@, new_hits@, idx)
                &&& r@.len() == idx.len()
                &&& forall|p: int|
                    0 <= p < idx.len() ==> {
                        let pr = pairs@[idx[p] as int];
                        &&& (#[trigger] r@[p]).old_idx == pr.0
                        &&& r@[p].new_idx == pr.1
                        &&& pair_points(old_nodes@, new_nodes@, old_hits@, new_hits@, pr) matches Some((op, np))
                            && is_tally_of(r@[p].tally, op, np)
                    }
            },
{
    let mut idx: Vec<usize> = Vec::new();
    let mut out: Vec<ClickableRegression> = Vec::new();
    let mut i: usize = 0;
    while i < pairs.len()
        invariant
            i <= pairs@.len(),
            forall|k: int|
                0 <= k < pairs@.len() ==> (#[trigger] pairs@[k]).0 < old_nodes@.len() && pairs@[k].1 < new_nodes@.len(),
            forall|key: Seq<char>|
                #[trigger] old_hits@.dom().contains(key) ==> (old_hits@[key].points matches Some(v) ==> v@.len()
                    <= u32::MAX),
            out@.len() == idx@.len(),
            forall|p: int| 0 <= p < idx@.len() ==> #[trigger] idx@[p] < i,
            forall|p: int|
                0 <= p < idx@.len() ==> pair_fires(old_nodes@, new_nodes@, old_hits@, new_hits@, pairs@[#[trigger] idx@[p] as int]),
            forall|k: int|
                0 <= k < i && pair_fires(old_nodes@, new_nodes@, old_hits@, new_hits@, pairs@[k]) ==> #[trigger] idx@.contains(k as usize),
            forall|p: int, q: int|
                0 <= p < q < idx@.len() ==> pair_before(old_nodes@, pairs@, #[trigger] idx@[p] as int, #[trigger] idx@[q] as int),
            forall|p: int|
                0 <= p < idx@.len() ==> {
                    let pr = pairs@[idx@[p] as int];
                    &&& (#[trigger] out@[p]).old_idx == pr.0
                    &&& out@[p].new_idx == pr.1
                    &&& pair_points(old_nodes@, new_nodes@, old_hits@, new_hits@, pr) matches Some((op, np))
                        && is_tally_of(out@[p].tally, op, np)
                },
        decreases pairs.len() - i,
    {
        let (o, n) = pairs[i];
        let ghost pts = pair_points(old_nodes@, new_nodes@, old_hits@, new_hits@, pairs@[i as int]);
        let mut tally_here: Option<HitTally> = None;
        match (old_hits.get(old_nodes[o].id.as_str()), new_hits.get(new_nodes[n].id.as_str())) {
            (Some(oe), Some(ne)) => {
                if oe.status == HitTestStatus::Sampled && ne.status == HitTestStatus::Sampled {
                    match (&oe.points, &ne.points) {
                        (Some(op), Some(np)) => {
                            tally_here = tally_points(op.as_slice(), np.as_slice());
                        },
                        _ => {},
                    }
                }
            },
            _ => {},
        }
        proof {
            if tally_here is Some {
                let t = tally_here->0;
                assert(pts matches Some((op, np)) && op.len() > 0 && op.len() == np.len() && is_tally_of(t, op, np));
            } else {
                assert(!pair_fires(old_nodes@, new_nodes@, old_hits@, new_hits@, pairs@[i as int]));
            }
        }
        match tally_here {
            Some(t) => {
                if is_clickable_regression(&t) {
                    proof {
                        assert(pair_fires(old_nodes@, new_nodes@, old_hits@, new_hits@, pairs@[i as int]));
                    }
                    let ghost before = idx@;
                    let ghost out_before = out@;
                    let pos = insert_pair(&mut idx, old_nodes, pairs, i);
                    out.insert(pos, ClickableRegression { old_idx: o, new_idx: n, tally: t });
                    proof {
                        assert(idx@[pos as int] == i);
                        assert forall|k: int| 0 <= k < i + 1 && pair_fires(old_nodes@, new_nodes@, old_hits@, new_hits@, pairs@[k])
                            implies #[trigger] idx@.contains(k as usize) by {
                            if k < i {
                                assert(before.contains(k as usize));
                                let w = choose|w: int| 0 <= w < before.len() && before[w] == k as usize;
                                if w < pos {
                                    assert(idx@[w] == before[w]);
                                } else {
                                    assert(idx@[w + 1] == before[w]);
                                }
                            }
                        }
                        assert forall|p: int| 0 <= p < idx@.len() implies #[trigger] idx@[p] < i + 1 && pair_fires(
                            old_nodes@,
                            new_nodes@,
                            old_hits@,
                            new_hits@,
                            pairs@[idx@[p] as int],
                        ) && ({
                            let pr = pairs@[idx@[p] as int];
                            &&& out@[p].old_idx == pr.0
                            &&& out@[p].new_idx == pr.1
                            &&& pair_points(old_nodes@, new_nodes@, old_hits@, new_hits@, pr) matches Some((op, np))
                                && is_tally_of(out@[p].tally, op, np)
                        }) by {
                            if p < pos {
                                assert(idx@[p] == before[p]);
                                assert(out@[p] == out_before[p]);
                            } else if p > pos {
                                assert(idx@[p] == before[p - 1]);
                                assert(out@[p] == out_before[p - 1]);
                            }
                        }
                    }
                } else {
                    proof {
                        let (op, np) = pts->0;
                        assert forall|t2: HitTally| #[trigger] is_tally_of(t2, op, np) implies !regression_fires(
                            t2.denominator,
                            t2.hits_old,
                            t2.hits_new,
                        ) by {}
                    }
                }
            },
            None => {},
        }
        i = i + 1;
    }
    assert(regression_order(old_nodes@, new_nodes@, pairs@, old_hits@, new_hits@, idx@));
    out
}

} // verus!

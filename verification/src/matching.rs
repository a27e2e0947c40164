//! The exact parts of the semantic-node matcher: href normalisation, the
//! Levenshtein distance, matching blocks and the exact identity keys that the
//! pre-pass groups nodes by.
//!
//! The similarity scores themselves are floating-point and are computed by
//! the application.
use vstd::prelude::*;

use crate::contract::{opt_view, SemanticNode};
use crate::hygiene::{path_query_spec, query_part, url_path_query};
use crate::orchestrate::{trim_string, unicode_trim};
use crate::contract::views;
use crate::text::{
    ascii_lowercase, chars_of, dec, lower_seq, push_char, push_dec, push_str, seq_lt, str_eq,
    to_owned_string,
};
use crate::weburl::{
    join_url, parse_url, url_join_of, url_parts_of, url_without_fragment, url_without_fragment_of,
};

verus! {

/// The stage that produced a match.
#[derive(Debug, Clone, Copy, PartialEq, Eq, Structural)]
pub enum MatchStage {
    Identity,
    Assignment,
}

/// How confident a match is.
#[derive(Debug, Clone, Copy, PartialEq, Eq, Structural)]
pub enum MatchBand {
    Matched,
    Uncertain,
}

/// Each page's final URL, for href normalisation.
#[derive(Debug, Clone)]
pub struct PageCtx {
    pub old_final_url: String,
    pub new_final_url: String,
}

// ---------------------------------------------------------------------------
// Href normalisation
// ---------------------------------------------------------------------------

/// An href normalised against its page's final URL: the trimmed href when it
/// is empty, a fragment, or cannot be resolved; otherwise the resolved URL
/// without its fragment, reduced to path and `?query` when it stays on the
/// page's host.
pub open spec fn norm_href_spec(href: Seq<char>, page_final_url: Seq<char>) -> Seq<char> {
    let t = unicode_trim(href);
    if t.len() == 0 || t[0] == '#' {
        t
    } else {
        match url_parts_of(page_final_url) {
            None => t,
            Some(base) => match url_join_of(page_final_url, t) {
                None => t,
                Some(joined) => match url_without_fragment_of(joined) {
                    None => t,
                    Some(result) => match url_parts_of(result) {
                        None => t,
                        Some(res) => if base.host_str == res.host_str {
                            res.path + query_part(res.query)
                        } else {
                            result
                        },
                    },
                },
            },
        }
    }
}

/// Normalises an href relative to its page's final URL: a same-site link
/// becomes its resolved path and query, an external link its absolute URL,
/// both without fragment; an empty or fragment-only href is returned
/// trimmed.
///
/// The resolved URL is handed on as its serialization and read again; the
/// branches for a serialization that does not read back return the trimmed
/// href.
pub fn norm_href(href: &str, page_final_url: &str) -> (r: String)
    ensures
        r@ == norm_href_spec(href@, page_final_url@),
{
    let trimmed = trim_string(href);
    let tc = chars_of(trimmed.as_str());
    if tc.len() == 0 || tc[0] == '#' {
        return trimmed;
    }
    let base = match parse_url(page_final_url) {
        Some(u) => u,
        None => return trimmed,
    };
    let joined = match join_url(page_final_url, trimmed.as_str()) {
        Some(j) => j,
        None => return trimmed,
    };
    let result = match url_without_fragment(joined.as_str()) {
        Some(s) => s,
        None => return trimmed,
    };
    let res = match parse_url(result.as_str()) {
        Some(u) => u,
        None => return trimmed,
    };
    proof {
        reveal_strlit("?");
    }
    let same_site = match (&base.host_str, &res.host_str) {
        (Some(a), Some(b)) => str_eq(a.as_str(), b.as_str()),
        (None, None) => true,
        _ => false,
    };
    if same_site {
        let mut out = res.path.clone();
        match &res.query {
            Some(q) => {
                push_char(&mut out, '?');
                push_str(&mut out, q.as_str());
            },
            None => {},
        }
        out
    } else {
        result
    }
}

/// Path and query of a normalised href: read as an absolute URL, or (for a
/// root-relative path) against the stand-in host `dummy`.
pub open spec fn extract_path_query_spec(s: Seq<char>) -> Option<(Seq<char>, Option<Seq<char>>)> {
    match url_parts_of(s) {
        Some(u) => Some((u.path, u.query)),
        None => if s.len() > 0 && s[0] == '/' {
            match url_parts_of("http://dummy"@ + s) {
                Some(u) => Some((u.path, u.query)),
                None => None,
            }
        } else {
            None
        },
    }
}

/// Splits a normalised href into path and query.
pub fn extract_path_query(s: &str) -> (r: Option<(String, Option<String>)>)
    ensures
        match r {
            Some(pq) => extract_path_query_spec(s@) == Some((pq.0@, opt_view(pq.1))),
            None => extract_path_query_spec(s@) is None,
        },
{
    match parse_url(s) {
        Some(u) => return Some((u.path, u.query)),
        None => {},
    }
    let cs = chars_of(s);
    if cs.len() > 0 && cs[0] == '/' {
        let mut full = to_owned_string("http://dummy");
        push_str(&mut full, s);
        match parse_url(full.as_str()) {
            Some(u) => Some((u.path, u.query)),
            None => None,
        }
    } else {
        None
    }
}

/// The path and `?query` of a URL; the text itself when it does not parse.
pub fn host_strip_path(url_str: &str) -> (r: String)
    ensures
        r@ == match path_query_spec(url_str@) {
            Some(p) => p,
            None => url_str@,
        },
{
    match url_path_query(url_str) {
        Some(p) => p,
        None => to_owned_string(url_str),
    }
}

// ---------------------------------------------------------------------------
// Levenshtein distance
// ---------------------------------------------------------------------------

pub open spec fn min3(a: nat, b: nat, c: nat) -> nat {
    if a <= b && a <= c {
        a
    } else if b <= c {
        b
    } else {
        c
    }
}

/// The edit distance (insertions, deletions, substitutions) between two
/// character sequences.
pub open spec fn lev(a: Seq<char>, b: Seq<char>) -> nat
    decreases a.len() + b.len(),
{
    if a.len() == 0 {
        b.len()
    } else if b.len() == 0 {
        a.len()
    } else {
        min3(
            lev(a.drop_last(), b) + 1,
            lev(a, b.drop_last()) + 1,
            lev(a.drop_last(), b.drop_last()) + if a.last() == b.last() {
                0nat
            } else {
                1nat
            },
        )
    }
}

/// The edit distance is at most the longer length and at least the
/// difference of the lengths.
pub proof fn lemma_lev_bound(a: Seq<char>, b: Seq<char>)
    ensures
        lev(a, b) <= if a.len() >= b.len() {
            a.len()
        } else {
            b.len()
        },
        lev(a, b) >= if a.len() >= b.len() {
            a.len() - b.len()
        } else {
            b.len() - a.len()
        },
    decreases a.len() + b.len(),
{
    if a.len() > 0 && b.len() > 0 {
        lemma_lev_bound(a.drop_last(), b.drop_last());
        lemma_lev_bound(a.drop_last(), b);
        lemma_lev_bound(a, b.drop_last());
    }
}

/// The edit distance is symmetric.
pub proof fn lemma_lev_symmetric(a: Seq<char>, b: Seq<char>)
    ensures
        lev(a, b) == lev(b, a),
    decreases a.len() + b.len(),
{
    if a.len() > 0 && b.len() > 0 {
        lemma_lev_symmetric(a.drop_last(), b);
        lemma_lev_symmetric(a, b.drop_last());
        lemma_lev_symmetric(a.drop_last(), b.drop_last());
    }
}

/// A sequence is at distance zero from itself.
pub proof fn lemma_lev_self(a: Seq<char>)
    ensures
        lev(a, a) == 0,
    decreases a.len(),
{
    if a.len() > 0 {
        lemma_lev_self(a.drop_last());
    }
}

/// Only equal sequences are at distance zero.
pub proof fn lemma_lev_zero(a: Seq<char>, b: Seq<char>)
    ensures
        lev(a, b) == 0 ==> a == b,
    decreases a.len() + b.len(),
{
    if a.len() > 0 && b.len() > 0 {
        lemma_lev_zero(a.drop_last(), b.drop_last());
        if lev(a, b) == 0 {
            assert(a.drop_last() == b.drop_last());
            assert(a =~= a.drop_last().push(a.last()));
            assert(b =~= b.drop_last().push(b.last()));
        }
    } else if lev(a, b) == 0 {
        assert(a =~= b);
    }
}

/// The character-level Levenshtein distance.
pub fn levenshtein(a: &str, b: &str) -> (r: usize)
    requires
        a@.len() < usize::MAX,
        b@.len() < usize::MAX,
    ensures
        r == lev(a@, b@),
{
    let ac = chars_of(a);
    let bc = chars_of(b);
    let m = ac.len();
    let n = bc.len();
    if m == 0 {
        assert(a@.len() == 0);
        return n;
    }
    if n == 0 {
        return m;
    }
    // prev[j] == lev(a[..i-1], b[..j]); curr is the row being filled.
    let mut prev: Vec<usize> = Vec::new();
    let mut j: usize = 0;
    while j <= n
        invariant
            j <= n + 1,
            n < usize::MAX,
            n == bc@.len(),
            prev@.len() == j,
            forall|k: int| 0 <= k < j ==> prev@[k] == k,
        decreases n + 1 - j,
    {
        prev.push(j);
        j = j + 1;
    }
    proof {
        assert forall|k: int| 0 <= k <= n implies prev@[k] == lev(ac@.take(0), bc@.take(k)) by {
            assert(ac@.take(0).len() == 0);
        }
    }
    let mut i: usize = 1;
    while i <= m
        invariant
            1 <= i <= m + 1,
            m < usize::MAX,
            n < usize::MAX,
            m == ac@.len(),
            n == bc@.len(),
            ac@ == a@,
            bc@ == b@,
            n > 0,
            prev@.len() == n + 1,
            forall|k: int| 0 <= k <= n ==> #[trigger] prev@[k] == lev(ac@.take(i - 1), bc@.take(k)),
        decreases m + 1 - i,
    {
        let ghost ai = ac@.take(i as int);
        assert(ai.drop_last() =~= ac@.take(i - 1));
        let mut curr: Vec<usize> = Vec::new();
        curr.push(i);
        proof {
            assert(bc@.take(0).len() == 0);
        }
        let mut j: usize = 1;
        while j <= n
            invariant
                1 <= i <= m,
                1 <= j <= n + 1,
                m < usize::MAX,
                n < usize::MAX,
                m == ac@.len(),
                n == bc@.len(),
                ai == ac@.take(i as int),
                ai.drop_last() == ac@.take(i - 1),
                prev@.len() == n + 1,
                forall|k: int| 0 <= k <= n ==> #[trigger] prev@[k] == lev(ac@.take(i - 1), bc@.take(k)),
                curr@.len() == j,
                forall|k: int| 0 <= k < j ==> #[trigger] curr@[k] == lev(ai, bc@.take(k)),
            decreases n + 1 - j,
        {
            let ghost bj = bc@.take(j as int);
            assert(bj.drop_last() =~= bc@.take(j - 1));
            proof {
                lemma_lev_bound(ai, bc@.take(j - 1));
                lemma_lev_bound(ac@.take(i - 1), bc@.take(j as int));
                lemma_lev_bound(ac@.take(i - 1), bc@.take(j - 1));
            }
            let cost: usize = if ac[i - 1] == bc[j - 1] {
                0
            } else {
                1
            };
            let del = prev[j] + 1;
            let ins = curr[j - 1] + 1;
            let sub = prev[j - 1] + cost;
            let best = if ins <= del && ins <= sub {
                ins
            } else if del <= sub {
                del
            } else {
                sub
            };
            assert(ai.last() == ac@[i - 1]);
            assert(bj.last() == bc@[j - 1]);
            assert(best == lev(ai, bj));
            curr.push(best);
            j = j + 1;
        }
        prev = curr;
        i = i + 1;
    }
    assert(ac@.take(m as int) =~= ac@);
    assert(bc@.take(n as int) =~= bc@);
    prev[n]
}

// ---------------------------------------------------------------------------
// Blocks and exact identity keys
// ---------------------------------------------------------------------------

/// The block a node is matched within (links and buttons share one).
#[derive(Debug, Clone, Copy, PartialEq, Eq, PartialOrd, Ord, Structural)]
pub enum BlockKind {
    Heading,
    LinkButton,
    Image,
    Field,
    Form,
    Text,
    Generic,
}

pub open spec fn block_kind_spec(kind: Seq<char>) -> BlockKind {
    if kind == "heading"@ {
        BlockKind::Heading
    } else if kind == "link"@ || kind == "button"@ {
        BlockKind::LinkButton
    } else if kind == "image"@ {
        BlockKind::Image
    } else if kind == "field"@ {
        BlockKind::Field
    } else if kind == "form"@ {
        BlockKind::Form
    } else if kind == "text"@ {
        BlockKind::Text
    } else {
        BlockKind::Generic
    }
}

/// The block of a node kind.
pub fn block_kind(kind: &str) -> (r: BlockKind)
    ensures
        r == block_kind_spec(kind@),
{
    if str_eq(kind, "heading") {
        BlockKind::Heading
    } else if str_eq(kind, "link") || str_eq(kind, "button") {
        BlockKind::LinkButton
    } else if str_eq(kind, "image") {
        BlockKind::Image
    } else if str_eq(kind, "field") {
        BlockKind::Field
    } else if str_eq(kind, "form") {
        BlockKind::Form
    } else if str_eq(kind, "text") {
        BlockKind::Text
    } else {
        BlockKind::Generic
    }
}

/// A string field, or the empty string.
pub open spec fn or_empty(o: Option<String>) -> Seq<char> {
    match o {
        Some(s) => s@,
        None => seq![],
    }
}

/// The authored href of a link, else its href, else nothing.
pub open spec fn link_target(node: SemanticNode) -> Seq<char> {
    match node.raw_href {
        Some(h) => h@,
        None => or_empty(node.href),
    }
}

/// The host-stripped source of an image.
pub open spec fn image_path(node: SemanticNode) -> Seq<char> {
    match node.src {
        Some(s) => match path_query_spec(s@) {
            Some(p) => p,
            None => s@,
        },
        None => seq![],
    }
}

/// The exact identity key of a node within its block.
pub open spec fn exact_key_spec(node: SemanticNode, bk: BlockKind) -> Seq<char> {
    match bk {
        BlockKind::Heading => lower_seq(or_empty(node.text)) + "|"@ + dec(
            match node.heading_level {
                Some(l) => l as nat,
                None => 0,
            },
        ),
        BlockKind::LinkButton => link_target(node) + "|"@ + lower_seq(or_empty(node.text)) + "|"@ + lower_seq(or_empty(node.acc_name)),
        BlockKind::Image => image_path(node) + "|"@ + lower_seq(or_empty(node.image_alt)),
        BlockKind::Field | BlockKind::Form => lower_seq(or_empty(node.acc_name)) + "|"@ + lower_seq(
            or_empty(node.role),
        ),
        BlockKind::Text | BlockKind::Generic => lower_seq(or_empty(node.text)),
    }
}

fn lower_or_empty(o: &Option<String>) -> (r: String)
    ensures
        r@ == lower_seq(or_empty(*o)),
{
    match o {
        Some(s) => ascii_lowercase(s.as_str()),
        None => {
            assert(lower_seq(seq![]) =~= Seq::<char>::empty());
            String::new()
        },
    }
}

/// The exact identity key of a node within its block, which the pre-pass
/// groups nodes by.
pub fn exact_key(node: &SemanticNode, bk: &BlockKind) -> (r: String)
    ensures
        r@ == exact_key_spec(*node, *bk),
{
    proof {
        reveal_strlit("|");
    }
    match bk {
        BlockKind::Heading => {
            let mut out = lower_or_empty(&node.text);
            push_char(&mut out, '|');
            let level: u8 = match node.heading_level {
                Some(l) => l,
                None => 0,
            };
            push_dec(&mut out, level as u64);
            out
        },
        BlockKind::LinkButton => {
            let mut out = match &node.raw_href {
                Some(h) => h.clone(),
                None => match &node.href {
                    Some(h) => h.clone(),
                    None => String::new(),
                },
            };
            push_char(&mut out, '|');
            push_str(&mut out, lower_or_empty(&node.text).as_str());
            push_char(&mut out, '|');
            push_str(&mut out, lower_or_empty(&node.acc_name).as_str());
            out
        },
        BlockKind::Image => {
            let mut out = match &node.src {
                Some(s) => host_strip_path(s.as_str()),
                None => String::new(),
            };
            push_char(&mut out, '|');
            push_str(&mut out, lower_or_empty(&node.image_alt).as_str());
            out
        },
        BlockKind::Field | BlockKind::Form => {
            let mut out = lower_or_empty(&node.acc_name);
            push_char(&mut out, '|');
            push_str(&mut out, lower_or_empty(&node.role).as_str());
            out
        },
        BlockKind::Text | BlockKind::Generic => lower_or_empty(&node.text),
    }
}

// ---------------------------------------------------------------------------
// Exact-identity pre-pass
// ---------------------------------------------------------------------------

/// Node `i` belongs to block `bk`.
pub open spec fn in_block(nodes: Seq<SemanticNode>, i: int, bk: BlockKind) -> bool {
    block_kind_spec(nodes[i].kind@) == bk
}

/// How many of the first `n` nodes of block `bk` have exact key `k`.
pub open spec fn key_count(nodes: Seq<SemanticNode>, bk: BlockKind, k: Seq<char>, n: int) -> nat
    decreases n,
{
    if n <= 0 {
        0
    } else {
        key_count(nodes, bk, k, n - 1) + if in_block(nodes, n - 1, bk) && exact_key_spec(
            nodes[n - 1],
            bk,
        ) == k {
            1nat
        } else {
            0nat
        }
    }
}

/// Old node `oi` and new node `ni` of block `bk` share an exact key that no
/// other node of the block has on either side.
pub open spec fn unique_key_pair(
    old: Seq<SemanticNode>,
    new: Seq<SemanticNode>,
    bk: BlockKind,
    oi: int,
    ni: int,
) -> bool {
    let k = exact_key_spec(old[oi], bk);
    &&& 0 <= oi < old.len() && 0 <= ni < new.len()
    &&& in_block(old, oi, bk) && in_block(new, ni, bk)
    &&& exact_key_spec(new[ni], bk) == k
    &&& key_count(old, bk, k, old.len() as int) == 1
    &&& key_count(new, bk, k, new.len() as int) == 1
}

proof fn lemma_key_count_positive(nodes: Seq<SemanticNode>, bk: BlockKind, i: int, n: int)
    requires
        0 <= i < n <= nodes.len(),
        in_block(nodes, i, bk),
    ensures
        key_count(nodes, bk, exact_key_spec(nodes[i], bk), n) >= 1,
    decreases n,
{
    if i < n - 1 {
        lemma_key_count_positive(nodes, bk, i, n - 1);
    }
}

/// Two distinct nodes of the block with the same key count twice.
proof fn lemma_key_count_two(nodes: Seq<SemanticNode>, bk: BlockKind, i: int, j: int, n: int)
    requires
        0 <= i < j < n <= nodes.len(),
        in_block(nodes, i, bk),
        in_block(nodes, j, bk),
        exact_key_spec(nodes[i], bk) == exact_key_spec(nodes[j], bk),
    ensures
        key_count(nodes, bk, exact_key_spec(nodes[i], bk), n) >= 2,
    decreases n,
{
    if j < n - 1 {
        lemma_key_count_two(nodes, bk, i, j, n - 1);
    } else {
        lemma_key_count_positive(nodes, bk, i, n - 1);
    }
}

fn block_keys(nodes: &[SemanticNode], bk: &BlockKind) -> (r: Vec<Option<String>>)
    ensures
        r@.len() == nodes@.len(),
        forall|i: int|
            0 <= i < nodes@.len() ==> match #[trigger] r@[i] {
                Some(k) => in_block(nodes@, i, *bk) && k@ == exact_key_spec(nodes@[i], *bk),
                None => !in_block(nodes@, i, *bk),
            },
{
    let mut out: Vec<Option<String>> = Vec::new();
    let mut i: usize = 0;
    while i < nodes.len()
        invariant
            i <= nodes@.len(),
            out@.len() == i,
            forall|q: int|
                0 <= q < i ==> match #[trigger] out@[q] {
                    Some(k) => in_block(nodes@, q, *bk) && k@ == exact_key_spec(nodes@[q], *bk),
                    None => !in_block(nodes@, q, *bk),
                },
        decreases nodes.len() - i,
    {
        if block_kind(nodes[i].kind.as_str()) == *bk {
            out.push(Some(exact_key(&nodes[i], bk)));
        } else {
            out.push(None);
        }
        i = i + 1;
    }
    out
}

/// How many entries of `keys` are `key`, and the last such position.
fn count_key(keys: &Vec<Option<String>>, nodes: Ghost<Seq<SemanticNode>>, bk: Ghost<BlockKind>, key: &str) -> (r: (
    usize,
    usize,
))
    requires
        keys@.len() == nodes@.len(),
        forall|i: int|
            0 <= i < nodes@.len() ==> match #[trigger] keys@[i] {
                Some(k) => in_block(nodes@, i, bk@) && k@ == exact_key_spec(nodes@[i], bk@),
                None => !in_block(nodes@, i, bk@),
            },
    ensures
        r.0 == key_count(nodes@, bk@, key@, nodes@.len() as int),
        r.0 >= 1 ==> r.1 < nodes@.len() && in_block(nodes@, r.1 as int, bk@) && exact_key_spec(
            nodes@[r.1 as int],
            bk@,
        ) == key@,
{
    let mut c: usize = 0;
    let mut last: usize = 0;
    let mut i: usize = 0;
    while i < keys.len()
        invariant
            keys@.len() == nodes@.len(),
            forall|q: int|
                0 <= q < nodes@.len() ==> match #[trigger] keys@[q] {
                    Some(k) => in_block(nodes@, q, bk@) && k@ == exact_key_spec(nodes@[q], bk@),
                    None => !in_block(nodes@, q, bk@),
                },
            i <= keys@.len(),
            c == key_count(nodes@, bk@, key@, i as int),
            c <= i,
            c >= 1 ==> last < i && in_block(nodes@, last as int, bk@) && exact_key_spec(
                nodes@[last as int],
                bk@,
            ) == key@,
        decreases keys.len() - i,
    {
        let hit = match &keys[i] {
            Some(k) => str_eq(k.as_str(), key),
            None => false,
        };
        if hit {
            c = c + 1;
            last = i;
        }
        i = i + 1;
    }
    (c, last)
}

fn key_lt_at(keys: &Vec<Option<String>>, o: usize, k: &str) -> (r: bool)
    requires
        o < keys@.len(),
    ensures
        r == (keys@[o as int] matches Some(ko) && seq_lt(ko@, k@)),
{
    match &keys[o] {
        Some(ko) => crate::text::str_compare(ko.as_str(), k) == -1,
        None => false,
    }
}

/// Inserts the pair `(i, ni)` where its old node's key belongs in the
/// key-ordered pre-pass result.
#[verifier::rlimit(40)]
fn insert_pair_by_key(
    out: &mut Vec<(usize, usize)>,
    old_nodes: &[SemanticNode],
    new: &[SemanticNode],
    bk: &BlockKind,
    okeys: &Vec<Option<String>>,
    i: usize,
    ni: usize,
    k: &str,
) -> (p: usize)
    requires
        i < old_nodes@.len(),
        okeys@.len() == old_nodes@.len(),
        forall|q: int|
            0 <= q < old_nodes@.len() ==> match #[trigger] okeys@[q] {
                Some(kk) => in_block(old_nodes@, q, *bk) && kk@ == exact_key_spec(old_nodes@[q], *bk),
                None => !in_block(old_nodes@, q, *bk),
            },
        k@ == exact_key_spec(old_nodes@[i as int], *bk),
        unique_key_pair(old_nodes@, new@, *bk, i as int, ni as int),
        forall|q: int| 0 <= q < old(out)@.len() ==> (#[trigger] old(out)@[q]).0 < i && unique_key_pair(old_nodes@, new@, *bk, old(out)@[q].0 as int, old(out)@[q].1 as int),
        forall|a: int, b: int|
            0 <= a < b < old(out)@.len() ==> seq_lt(
                exact_key_spec(old_nodes@[(#[trigger] old(out)@[a]).0 as int], *bk),
                exact_key_spec(old_nodes@[(#[trigger] old(out)@[b]).0 as int], *bk),
            ),
    ensures
        p <= old(out)@.len(),
        final(out)@ == old(out)@.insert(p as int, (i, ni)),
        forall|a: int, b: int|
            0 <= a < b < final(out)@.len() ==> seq_lt(
                exact_key_spec(old_nodes@[(#[trigger] final(out)@[a]).0 as int], *bk),
                exact_key_spec(old_nodes@[(#[trigger] final(out)@[b]).0 as int], *bk),
            ),
{
    let x = (i, ni);
    let ghost kx = k@;
    // Insert by key.
    let mut p: usize = 0;
    while p < out.len() && key_lt_at(okeys, out[p].0, k)
        invariant
            p <= out@.len(),
            okeys@.len() == old_nodes@.len(),
            forall|q: int|
                0 <= q < old_nodes@.len() ==> match #[trigger] okeys@[q] {
                    Some(kk) => in_block(old_nodes@, q, *bk) && kk@ == exact_key_spec(old_nodes@[q], *bk),
                    None => !in_block(old_nodes@, q, *bk),
                },
            forall|q: int| 0 <= q < out@.len() ==> (#[trigger] out@[q]).0 < i && unique_key_pair(old_nodes@, new@, *bk, out@[q].0 as int, out@[q].1 as int),
            kx == exact_key_spec(old_nodes@[i as int], *bk),
            kx == k@,
            i < old_nodes@.len(),
            forall|q: int| 0 <= q < p ==> seq_lt(exact_key_spec(old_nodes@[(#[trigger] out@[q]).0 as int], *bk), kx),
        decreases out.len() - p,
    {
        p = p + 1;
    }
    let ghost before = out@;
    proof {
        let okey = |o: (usize, usize)| exact_key_spec(old_nodes@[o.0 as int], *bk);
        if p < before.len() {
            let kp = okey(before[p as int]);
            crate::text::lemma_seq_lt_trichotomy(kp, kx);
            // The key at p is not the new key: that key is unique to node i.
            if kp == kx {
                let o = before[p as int].0 as int;
                assert(o < i);
                lemma_key_count_two(old_nodes@, *bk, o, i as int, old_nodes@.len() as int);
            }
        }
        assert forall|a: int, b: int| 0 <= a < b < before.len() + 1 implies seq_lt(
            exact_key_spec(old_nodes@[(#[trigger] before.insert(p as int, x)[a]).0 as int], *bk),
            exact_key_spec(old_nodes@[(#[trigger] before.insert(p as int, x)[b]).0 as int], *bk),
        ) by {
            let t = before.insert(p as int, x);
            if b < p {
                assert(t[a] == before[a] && t[b] == before[b]);
            } else if b == p {
                assert(t[a] == before[a] && t[b] == x);
            } else if a < p {
                assert(t[a] == before[a] && t[b] == before[b - 1]);
                crate::text::lemma_seq_lt_transitive(okey(before[a]), kx, okey(before[p as int]));
                if b - 1 > p {
                    crate::text::lemma_seq_lt_transitive(okey(before[a]), okey(before[p as int]), okey(before[b - 1]));
                }
            } else if a == p {
                assert(t[a] == x && t[b] == before[b - 1]);
                if b - 1 > p {
                    crate::text::lemma_seq_lt_transitive(kx, okey(before[p as int]), okey(before[b - 1]));
                }
            } else {
                assert(t[a] == before[a - 1] && t[b] == before[b - 1]);
            }
        }
    }
    out.insert(p, x);
    p
}

/// The exact-identity pre-pass of block `bk`: the pairs of old and new nodes
/// whose exact key is unique to one node on each side, in key order.
pub fn exact_prepass(old: &[SemanticNode], new: &[SemanticNode], bk: &BlockKind) -> (r: Vec<(usize, usize)>)
    ensures
        forall|p: int| 0 <= p < r@.len() ==> unique_key_pair(old@, new@, *bk, (#[trigger] r@[p]).0 as int, r@[p].1 as int),
        forall|oi: int, ni: int| #[trigger] unique_key_pair(old@, new@, *bk, oi, ni) ==> r@.contains((oi as usize, ni as usize)),
        forall|p: int, q: int|
            0 <= p < q < r@.len() ==> seq_lt(
                exact_key_spec(old@[(#[trigger] r@[p]).0 as int], *bk),
                exact_key_spec(old@[(#[trigger] r@[q]).0 as int], *bk),
            ),
{
    let okeys = block_keys(old, bk);
    let nkeys = block_keys(new, bk);
    let mut out: Vec<(usize, usize)> = Vec::new();
    let mut i: usize = 0;
    while i < old.len()
        invariant
            i <= old@.len(),
            okeys@.len() == old@.len(),
            nkeys@.len() == new@.len(),
            forall|q: int|
                0 <= q < old@.len() ==> match #[trigger] okeys@[q] {
                    Some(k) => in_block(old@, q, *bk) && k@ == exact_key_spec(old@[q], *bk),
                    None => !in_block(old@, q, *bk),
                },
            forall|q: int|
                0 <= q < new@.len() ==> match #[trigger] nkeys@[q] {
                    Some(k) => in_block(new@, q, *bk) && k@ == exact_key_spec(new@[q], *bk),
                    None => !in_block(new@, q, *bk),
                },
            forall|p: int| 0 <= p < out@.len() ==> (#[trigger] out@[p]).0 < i && unique_key_pair(old@, new@, *bk, out@[p].0 as int, out@[p].1 as int),
            forall|oi: int, ni: int| 0 <= oi < i && #[trigger] unique_key_pair(old@, new@, *bk, oi, ni) ==> out@.contains((oi as usize, ni as usize)),
            forall|p: int, q: int|
                0 <= p < q < out@.len() ==> seq_lt(
                    exact_key_spec(old@[(#[trigger] out@[p]).0 as int], *bk),
                    exact_key_spec(old@[(#[trigger] out@[q]).0 as int], *bk),
                ),
        decreases old.len() - i,
    {
        match &okeys[i] {
            Some(k) => {
                let (oc, _) = count_key(&okeys, Ghost(old@), Ghost(*bk), k.as_str());
                let (nc, ni) = count_key(&nkeys, Ghost(new@), Ghost(*bk), k.as_str());
                if oc == 1 && nc == 1 {
                    let x = (i, ni);
                    let ghost before = out@;
                    proof {
                        assert(unique_key_pair(old@, new@, *bk, i as int, ni as int));
                    }
                    let p = insert_pair_by_key(&mut out, old, new, bk, &okeys, i, ni, k.as_str());
                    proof {
                        assert(unique_key_pair(old@, new@, *bk, i as int, ni as int));
                        assert forall|oi: int, nj: int| 0 <= oi < i + 1 && #[trigger] unique_key_pair(old@, new@, *bk, oi, nj)
                            implies out@.contains((oi as usize, nj as usize)) by {
                            if oi == i {
                                // The new node with this key is unique.
                                if nj != ni as int {
                                    if nj < ni {
                                        lemma_key_count_two(new@, *bk, nj, ni as int, new@.len() as int);
                                    } else {
                                        lemma_key_count_two(new@, *bk, ni as int, nj, new@.len() as int);
                                    }
                                }
                                assert(out@[p as int] == x);
                            } else {
                                assert(before.contains((oi as usize, nj as usize)));
                                let w = choose|w: int| 0 <= w < before.len() && before[w] == (oi as usize, nj as usize);
                                if w < p {
                                    assert(out@[w] == before[w]);
                                } else {
                                    assert(out@[w + 1] == before[w]);
                                }
                            }
                        }
                        assert forall|q: int| 0 <= q < out@.len() implies (#[trigger] out@[q]).0 < i + 1 && unique_key_pair(old@, new@, *bk, out@[q].0 as int, out@[q].1 as int) by {
                            if q < p {
                                assert(out@[q] == before[q]);
                            } else if q > p {
                                assert(out@[q] == before[q - 1]);
                            }
                        }
                    }
                } else {
                    proof {
                        assert forall|oi: int, nj: int| 0 <= oi < i + 1 && #[trigger] unique_key_pair(old@, new@, *bk, oi, nj)
                            implies out@.contains((oi as usize, nj as usize)) by {
                            if oi == i {
                                if nc == 1 {
                                    assert(oc != 1);
                                } else {
                                    assert(nc != 1);
                                }
                            }
                        }
                    }
                }
            },
            None => {
                proof {
                    assert forall|oi: int, nj: int| 0 <= oi < i + 1 && #[trigger] unique_key_pair(old@, new@, *bk, oi, nj)
                        implies out@.contains((oi as usize, nj as usize)) by {
                        if oi == i {
                            assert(!in_block(old@, i as int, *bk));
                        }
                    }
                }
            },
        }
        i = i + 1;
    }
    out
}

// ---------------------------------------------------------------------------
// Greedy assignment (large blocks)
// ---------------------------------------------------------------------------

/// The score of candidate pair `(i, j)`: the combined score in nanounits,
/// `None` when the pair is below the no-match ceiling.
pub open spec fn cand_score(scores: Seq<Seq<Option<i64>>>, i: int, j: int) -> Option<i64> {
    if 0 <= i < scores.len() && 0 <= j < scores[i].len() {
        scores[i][j]
    } else {
        None
    }
}

/// Candidate `a` comes before candidate `b`: higher score, then lower old
/// id, then lower new id, then lower row, then lower column.
pub open spec fn cand_before(
    scores: Seq<Seq<Option<i64>>>,
    old_ids: Seq<Seq<char>>,
    new_ids: Seq<Seq<char>>,
    a: (usize, usize),
    b: (usize, usize),
) -> bool {
    let sa = cand_score(scores, a.0 as int, a.1 as int).unwrap();
    let sb = cand_score(scores, b.0 as int, b.1 as int).unwrap();
    if sa != sb {
        sa > sb
    } else if old_ids[a.0 as int] != old_ids[b.0 as int] {
        seq_lt(old_ids[a.0 as int], old_ids[b.0 as int])
    } else if new_ids[a.1 as int] != new_ids[b.1 as int] {
        seq_lt(new_ids[a.1 as int], new_ids[b.1 as int])
    } else if a.0 != b.0 {
        a.0 < b.0
    } else {
        a.1 < b.1
    }
}

/// The greedy assignment: an injective choice of candidate pairs in which
/// every candidate left out is blocked (same row or same column) by a chosen
/// pair that comes before it.
pub open spec fn is_greedy_assignment(
    scores: Seq<Seq<Option<i64>>>,
    old_ids: Seq<Seq<char>>,
    new_ids: Seq<Seq<char>>,
    r: Seq<Option<usize>>,
) -> bool {
    &&& r.len() == scores.len()
    &&& forall|i: int| 0 <= i < r.len() && #[trigger] r[i] is Some ==> cand_score(scores, i, r[i].unwrap() as int) is Some
    &&& forall|i1: int, i2: int|
        0 <= i1 < r.len() && 0 <= i2 < r.len() && i1 != i2 && #[trigger] r[i1] is Some && #[trigger] r[i2] is Some
            ==> r[i1] != r[i2]
    &&& forall|i: int, j: int|
        0 <= i < r.len() && #[trigger] cand_score(scores, i, j) is Some && r[i] != Some(j as usize) ==> exists|k: int|
            0 <= k < r.len() && #[trigger] r[k] is Some && (k == i || r[k] == Some(j as usize)) && cand_before(
                scores,
                old_ids,
                new_ids,
                (k as usize, r[k].unwrap()),
                (i as usize, j as usize),
            )
}

proof fn lemma_cand_order(
    scores: Seq<Seq<Option<i64>>>,
    old_ids: Seq<Seq<char>>,
    new_ids: Seq<Seq<char>>,
    a: (usize, usize),
    b: (usize, usize),
    c: (usize, usize),
)
    ensures
        cand_before(scores, old_ids, new_ids, a, b) && cand_before(scores, old_ids, new_ids, b, c)
            ==> cand_before(scores, old_ids, new_ids, a, c),
        a != b ==> cand_before(scores, old_ids, new_ids, a, b) || cand_before(scores, old_ids, new_ids, b, a),
        !(cand_before(scores, old_ids, new_ids, a, b) && cand_before(scores, old_ids, new_ids, b, a)),
        !cand_before(scores, old_ids, new_ids, a, a),
{
    crate::text::lemma_seq_lt_trichotomy(old_ids[a.0 as int], old_ids[b.0 as int]);
    crate::text::lemma_seq_lt_trichotomy(new_ids[a.1 as int], new_ids[b.1 as int]);
    crate::text::lemma_seq_lt_irreflexive(old_ids[a.0 as int]);
    crate::text::lemma_seq_lt_irreflexive(new_ids[a.1 as int]);
    if cand_before(scores, old_ids, new_ids, a, b) && cand_before(scores, old_ids, new_ids, b, c) {
        let sa = cand_score(scores, a.0 as int, a.1 as int).unwrap();
        let sb = cand_score(scores, b.0 as int, b.1 as int).unwrap();
        let sc = cand_score(scores, c.0 as int, c.1 as int).unwrap();
        if sa == sb && sb == sc {
            let (oa, ob, oc) = (old_ids[a.0 as int], old_ids[b.0 as int], old_ids[c.0 as int]);
            if oa != ob && ob != oc {
                crate::text::lemma_seq_lt_transitive(oa, ob, oc);
                crate::text::lemma_seq_lt_trichotomy(oa, oc);
            } else if oa == ob && ob == oc {
                let (na, nb, nc) = (new_ids[a.1 as int], new_ids[b.1 as int], new_ids[c.1 as int]);
                if na != nb && nb != nc {
                    crate::text::lemma_seq_lt_transitive(na, nb, nc);
                    crate::text::lemma_seq_lt_trichotomy(na, nc);
                } else if na != nb {
                    crate::text::lemma_seq_lt_trichotomy(na, nc);
                } else if nb != nc {
                    crate::text::lemma_seq_lt_trichotomy(na, nc);
                }
            } else {
                crate::text::lemma_seq_lt_trichotomy(oa, oc);
            }
        }
    }
}

fn cand_before_exec(
    scores: &Vec<Vec<Option<i64>>>,
    old_ids: &[String],
    new_ids: &[String],
    a: (usize, usize),
    b: (usize, usize),
) -> (r: bool)
    requires
        a.0 < scores@.len() && a.1 < scores@[a.0 as int]@.len(),
        b.0 < scores@.len() && b.1 < scores@[b.0 as int]@.len(),
        scores@[a.0 as int]@[a.1 as int] is Some,
        scores@[b.0 as int]@[b.1 as int] is Some,
        a.0 < old_ids@.len() && b.0 < old_ids@.len(),
        a.1 < new_ids@.len() && b.1 < new_ids@.len(),
    ensures
        r == cand_before(score_rows(scores@), views(old_ids@), views(new_ids@), a, b),
{
    let sa = scores[a.0][a.1].unwrap();
    let sb = scores[b.0][b.1].unwrap();
    if sa != sb {
        return sa > sb;
    }
    let c1 = crate::text::str_compare(old_ids[a.0].as_str(), old_ids[b.0].as_str());
    if c1 != 0 {
        return c1 == -1;
    }
    let c2 = crate::text::str_compare(new_ids[a.1].as_str(), new_ids[b.1].as_str());
    if c2 != 0 {
        return c2 == -1;
    }
    if a.0 != b.0 {
        a.0 < b.0
    } else {
        a.1 < b.1
    }
}

/// The rows of a score matrix as sequences.
pub open spec fn score_rows(m: Seq<Vec<Option<i64>>>) -> Seq<Seq<Option<i64>>> {
    Seq::new(m.len(), |i: int| m[i]@)
}

/// Greedy one-to-one assignment for blocks too large for the exact
/// algorithm: candidate pairs are taken best first (score descending, then
/// old id, new id, row and column ascending) unless their row or column is
/// already taken. `scores[i][j]` is the pair's combined score in nanounits,
/// `None` below the no-match ceiling; the result gives each row's column.
pub fn greedy_assign(scores: &Vec<Vec<Option<i64>>>, old_ids: &[String], new_ids: &[String]) -> (r: Vec<
    Option<usize>,
>)
    requires
        scores@.len() == old_ids@.len(),
        forall|i: int| 0 <= i < scores@.len() ==> (#[trigger] scores@[i])@.len() == new_ids@.len(),
    ensures
        is_greedy_assignment(score_rows(scores@), views(old_ids@), views(new_ids@), r@),
{
    let ghost sc = score_rows(scores@);
    let ghost oi = views(old_ids@);
    let ghost ni = views(new_ids@);
    let n_o = scores.len();
    let n_n = new_ids.len();
    // All candidate pairs, best first.
    let mut cands: Vec<(usize, usize)> = Vec::new();
    let mut i: usize = 0;
    while i < n_o
        invariant
            n_o == scores@.len(),
            n_n == new_ids@.len(),
            sc == score_rows(scores@),
            oi == views(old_ids@),
            ni == views(new_ids@),
            scores@.len() == old_ids@.len(),
            forall|q: int| 0 <= q < scores@.len() ==> (#[trigger] scores@[q])@.len() == new_ids@.len(),
            i <= n_o,
            forall|p: int| 0 <= p < cands@.len() ==> (#[trigger] cands@[p]).0 < i && cands@[p].1 < n_n
                && cand_score(sc, cands@[p].0 as int, cands@[p].1 as int) is Some,
            forall|a: int, b: int| 0 <= a < b < cands@.len() ==> cand_before(sc, oi, ni, #[trigger] cands@[a], #[trigger] cands@[b]),
            forall|x: int, y: int| 0 <= x < i && 0 <= y < n_n && #[trigger] cand_score(sc, x, y) is Some ==> cands@.contains((x as usize, y as usize)),
        decreases n_o - i,
    {
        let mut j: usize = 0;
        while j < n_n
            invariant
                n_o == scores@.len(),
                n_n == new_ids@.len(),
                sc == score_rows(scores@),
                oi == views(old_ids@),
                ni == views(new_ids@),
                scores@.len() == old_ids@.len(),
                forall|q: int| 0 <= q < scores@.len() ==> (#[trigger] scores@[q])@.len() == new_ids@.len(),
                i < n_o,
                j <= n_n,
                forall|p: int| 0 <= p < cands@.len() ==> (#[trigger] cands@[p]).0 <= i && cands@[p].1 < n_n
                    && cand_score(sc, cands@[p].0 as int, cands@[p].1 as int) is Some
                    && (cands@[p].0 == i ==> cands@[p].1 < j),
                forall|a: int, b: int| 0 <= a < b < cands@.len() ==> cand_before(sc, oi, ni, #[trigger] cands@[a], #[trigger] cands@[b]),
                forall|x: int, y: int| (0 <= x < i && 0 <= y < n_n || x == i && 0 <= y < j) && #[trigger] cand_score(sc, x, y) is Some
                    ==> cands@.contains((x as usize, y as usize)),
            decreases n_n - j,
        {
            assert(sc[i as int] == scores@[i as int]@);
            if scores[i][j].is_some() {
                let x = (i, j);
                let mut p: usize = 0;
                while p < cands.len() && cand_before_exec(scores, old_ids, new_ids, cands[p], x)
                    invariant
                        n_o == scores@.len(),
                        sc == score_rows(scores@),
                        oi == views(old_ids@),
                        ni == views(new_ids@),
                        scores@.len() == old_ids@.len(),
                        forall|q: int| 0 <= q < scores@.len() ==> (#[trigger] scores@[q])@.len() == new_ids@.len(),
                        i < n_o, j < n_n, n_n == new_ids@.len(),
                        x == (i, j),
                        scores@[i as int]@[j as int] is Some,
                        p <= cands@.len(),
                        forall|q: int| 0 <= q < cands@.len() ==> (#[trigger] cands@[q]).0 <= i && cands@[q].1 < n_n
                            && cand_score(sc, cands@[q].0 as int, cands@[q].1 as int) is Some,
                        forall|k: int| 0 <= k < p ==> cand_before(sc, oi, ni, #[trigger] cands@[k], x),
                    decreases cands.len() - p,
                {
                    p = p + 1;
                }
                let ghost before = cands@;
                proof {
                    assert(cand_score(sc, i as int, j as int) is Some);
                    if p < before.len() {
                        lemma_cand_order(sc, oi, ni, before[p as int], x, before[p as int]);
                        assert(before[p as int] != x);
                    }
                    assert forall|a: int, b: int| 0 <= a < b < before.len() + 1 implies cand_before(
                        sc,
                        oi,
                        ni,
                        #[trigger] before.insert(p as int, x)[a],
                        #[trigger] before.insert(p as int, x)[b],
                    ) by {
                        let t = before.insert(p as int, x);
                        if b < p {
                            assert(t[a] == before[a] && t[b] == before[b]);
                        } else if b == p {
                            assert(t[a] == before[a] && t[b] == x);
                        } else if a < p {
                            assert(t[a] == before[a] && t[b] == before[b - 1]);
                            lemma_cand_order(sc, oi, ni, x, before[p as int], before[b - 1]);
                            lemma_cand_order(sc, oi, ni, before[a], x, before[b - 1]);
                        } else if a == p {
                            assert(t[a] == x && t[b] == before[b - 1]);
                            if b - 1 > p {
                                lemma_cand_order(sc, oi, ni, x, before[p as int], before[b - 1]);
                            }
                        } else {
                            assert(t[a] == before[a - 1] && t[b] == before[b - 1]);
                        }
                    }
                }
                cands.insert(p, x);
                proof {
                    assert forall|xx: int, yy: int| (0 <= xx < i && 0 <= yy < n_n || xx == i && 0 <= yy < j + 1)
                        && #[trigger] cand_score(sc, xx, yy) is Some implies cands@.contains((xx as usize, yy as usize)) by {
                        if xx == i && yy == j {
                            assert(cands@[p as int] == x);
                        } else {
                            assert(before.contains((xx as usize, yy as usize)));
                            let w = choose|w: int| 0 <= w < before.len() && before[w] == (xx as usize, yy as usize);
                            if w < p {
                                assert(cands@[w] == before[w]);
                            } else {
                                assert(cands@[w + 1] == before[w]);
                            }
                        }
                    }
                }
            }
            j = j + 1;
        }
        i = i + 1;
    }
    // Take candidates best first.
    let mut r: Vec<Option<usize>> = Vec::new();
    let mut k: usize = 0;
    while k < n_o
        invariant
            k <= n_o,
            r@.len() == k,
            forall|q: int| 0 <= q < k ==> r@[q] is None,
        decreases n_o - k,
    {
        r.push(None);
        k = k + 1;
    }
    let mut col_used: Vec<bool> = Vec::new();
    let mut k: usize = 0;
    while k < n_n
        invariant
            k <= n_n,
            col_used@.len() == k,
            forall|q: int| 0 <= q < k ==> !col_used@[q],
        decreases n_n - k,
    {
        col_used.push(false);
        k = k + 1;
    }
    let mut t: usize = 0;
    while t < cands.len()
        invariant
            n_o == scores@.len(),
            n_n == new_ids@.len(),
            sc == score_rows(scores@),
            oi == views(old_ids@),
            ni == views(new_ids@),
            r@.len() == n_o,
            col_used@.len() == n_n,
            t <= cands@.len(),
            forall|p: int| 0 <= p < cands@.len() ==> (#[trigger] cands@[p]).0 < n_o && cands@[p].1 < n_n
                && cand_score(sc, cands@[p].0 as int, cands@[p].1 as int) is Some,
            forall|a: int, b: int| 0 <= a < b < cands@.len() ==> cand_before(sc, oi, ni, #[trigger] cands@[a], #[trigger] cands@[b]),
            forall|x: int, y: int| 0 <= x < n_o && 0 <= y < n_n && #[trigger] cand_score(sc, x, y) is Some ==> cands@.contains((x as usize, y as usize)),
            // Chosen pairs are processed candidates.
            forall|q: int| 0 <= q < n_o && #[trigger] r@[q] is Some ==> r@[q].unwrap() < n_n
                && exists|w: int| 0 <= w < t && cands@[w] == (q as usize, r@[q].unwrap()),
            // A column is used exactly when some row holds it.
            forall|c: int| 0 <= c < n_n ==> (#[trigger] col_used@[c] <==> exists|q: int| 0 <= q < n_o && r@[q] == Some(c as usize)),
            forall|i1: int, i2: int|
                0 <= i1 < n_o && 0 <= i2 < n_o && i1 != i2 && #[trigger] r@[i1] is Some && #[trigger] r@[i2] is Some ==> r@[i1] != r@[i2],
            // Every processed candidate not chosen is blocked by an earlier chosen one.
            forall|w: int| 0 <= w < t && r@[(#[trigger] cands@[w]).0 as int] != Some(cands@[w].1) ==> exists|q: int|
                0 <= q < n_o && r@[q] is Some && (q == cands@[w].0 || r@[q] == Some(cands@[w].1)) && exists|w2: int|
                    0 <= w2 < w && cands@[w2] == (q as usize, r@[q].unwrap()),
        decreases cands.len() - t,
    {
        let (ci, cj) = cands[t];
        if r[ci].is_none() && !col_used[cj] {
            let ghost r0 = r@;
            let ghost u0 = col_used@;
            r.set(ci, Some(cj));
            col_used.set(cj, true);
            proof {
                assert forall|c: int| 0 <= c < n_n implies (#[trigger] col_used@[c] <==> exists|q: int| 0 <= q < n_o && r@[q] == Some(c as usize)) by {
                    if c == cj as int {
                        assert(r@[ci as int] == Some(cj));
                    } else {
                        if u0[c] {
                            let q = choose|q: int| 0 <= q < n_o && r0[q] == Some(c as usize);
                            assert(r@[q] == Some(c as usize));
                        }
                        if exists|q: int| 0 <= q < n_o && r@[q] == Some(c as usize) {
                            let q = choose|q: int| 0 <= q < n_o && r@[q] == Some(c as usize);
                            assert(q != ci);
                            assert(r0[q] == Some(c as usize));
                        }
                    }
                }
                assert forall|i1: int, i2: int|
                    0 <= i1 < n_o && 0 <= i2 < n_o && i1 != i2 && #[trigger] r@[i1] is Some && #[trigger] r@[i2] is Some implies r@[i1] != r@[i2] by {
                    if i1 == ci as int {
                        if r0[i2] == Some(cj) {
                            assert(u0[cj as int]);
                        }
                    } else if i2 == ci as int {
                        if r0[i1] == Some(cj) {
                            assert(u0[cj as int]);
                        }
                    }
                }
                assert forall|q: int| 0 <= q < n_o && #[trigger] r@[q] is Some implies r@[q].unwrap() < n_n
                    && exists|w: int| 0 <= w < t + 1 && cands@[w] == (q as usize, r@[q].unwrap()) by {
                    if q == ci as int {
                        assert(cands@[t as int] == (ci, cj));
                    } else {
                        assert(r0[q] is Some);
                        let w = choose|w: int| 0 <= w < t && cands@[w] == (q as usize, r0[q].unwrap());
                    }
                }
                assert forall|w: int| 0 <= w < t + 1 && r@[(#[trigger] cands@[w]).0 as int] != Some(cands@[w].1) implies exists|q: int|
                    0 <= q < n_o && r@[q] is Some && (q == cands@[w].0 || r@[q] == Some(cands@[w].1)) && exists|w2: int|
                        0 <= w2 < w && cands@[w2] == (q as usize, r@[q].unwrap()) by {
                    if w < t {
                        if r0[cands@[w].0 as int] != Some(cands@[w].1) {
                            let q = choose|q: int| 0 <= q < n_o && r0[q] is Some && (q == cands@[w].0 || r0[q] == Some(cands@[w].1)) && exists|w2: int|
                                0 <= w2 < w && cands@[w2] == (q as usize, r0[q].unwrap());
                            let w2 = choose|w2: int| 0 <= w2 < w && cands@[w2] == (q as usize, r0[q].unwrap());
                            assert(q != ci) by {
                                if q == ci as int {
                                    assert(r0[ci as int] is Some);
                                }
                            }
                            assert(r@[q] == r0[q]);
                        } else {
                            // It was chosen before; still chosen now.
                            assert(cands@[w].0 != ci) by {
                                if cands@[w].0 == ci {
                                    assert(r0[ci as int] is Some);
                                }
                            }
                        }
                    }
                }
            }
        } else {
            proof {
                let w = t as int;
                if r@[ci as int] is Some {
                    let q = ci as int;
                    let w2 = choose|w2: int| 0 <= w2 < t && cands@[w2] == (q as usize, r@[q].unwrap());
                    assert(w2 < w);
                } else {
                    assert(col_used@[cj as int]);
                    let q = choose|q: int| 0 <= q < n_o && r@[q] == Some(cj);
                    let w2 = choose|w2: int| 0 <= w2 < t && cands@[w2] == (q as usize, r@[q].unwrap());
                    assert(w2 < w);
                }
            }
        }
        t = t + 1;
    }
    proof {
        assert forall|i: int, j: int|
            0 <= i < r@.len() && #[trigger] cand_score(sc, i, j) is Some && r@[i] != Some(j as usize) implies exists|k: int|
                0 <= k < r@.len() && #[trigger] r@[k] is Some && (k == i || r@[k] == Some(j as usize)) && cand_before(
                    sc,
                    oi,
                    ni,
                    (k as usize, r@[k].unwrap()),
                    (i as usize, j as usize),
                ) by {
            assert(0 <= j < n_n) by {
                if !(0 <= j < sc[i].len()) {
                    assert(cand_score(sc, i, j) is None);
                }
            }
            assert(cands@.contains((i as usize, j as usize)));
            let w = choose|w: int| 0 <= w < cands@.len() && cands@[w] == (i as usize, j as usize);
            let q = choose|q: int| 0 <= q < n_o && r@[q] is Some && (q == cands@[w].0 || r@[q] == Some(cands@[w].1)) && exists|w2: int|
                0 <= w2 < w && cands@[w2] == (q as usize, r@[q].unwrap());
            let w2 = choose|w2: int| 0 <= w2 < w && cands@[w2] == (q as usize, r@[q].unwrap());
            assert(cand_before(sc, oi, ni, cands@[w2], cands@[w]));
        }
        assert forall|i: int| 0 <= i < r@.len() && #[trigger] r@[i] is Some implies cand_score(sc, i, r@[i].unwrap() as int) is Some by {
            let w = choose|w: int| 0 <= w < cands@.len() && cands@[w] == (i as usize, r@[i].unwrap());
        }
    }
    r
}

} // verus!

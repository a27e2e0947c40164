//! Issue identity: content-addressed ids and their collision suffixes.
//!
//! An id is `issue_` followed by the first twelve hex digits of the SHA-256
//! of a canonical string built from the issue type, the viewport and the
//! issue's anchors. Issues whose ids collide are told apart by document order.
use vstd::prelude::*;

use crate::contract::{present, wire_name, Anchors, IssueType};
use crate::digest::{
    hex_encode, hex_lower, is_lower_hex, lemma_hex_digits, lemma_hex_len, sha256_digest, sha256_of,
};
use crate::explain::or_empty;
use crate::text::{
    char_index, chars_of, chars_slice_string, dec, find_char, push_char, push_dec, push_str,
    to_owned_string,
};
use crate::weburl::{parse_url, url_parts_of};

verus! {

// ---------------------------------------------------------------------------
// Canonical string and id
// ---------------------------------------------------------------------------

/// The port part of a URL rendering: `:N`, or nothing.
pub open spec fn port_part(port: Option<u16>) -> Seq<char> {
    match port {
        Some(p) => ":"@ + dec(p as nat),
        None => seq![],
    }
}

/// An href reduced to what identifies its target: `scheme://host[:port]/path`
/// when it parses as a URL (query and fragment dropped), otherwise the text
/// before the first `?` or `#`.
pub open spec fn id_stable_url_spec(href: Seq<char>) -> Seq<char> {
    match url_parts_of(href) {
        Some(u) => u.scheme + "://"@ + match u.host_str {
            Some(h) => h,
            None => seq![],
        } + port_part(u.port) + u.path,
        None => {
            let q = char_index(href, '?');
            let f = char_index(href, '#');
            href.take(if q < f { q } else { f })
        },
    }
}

/// Reduces an href to scheme, host, port and path (see `id_stable_url_spec`).
pub fn id_stable_url(href: &str) -> (r: String)
    ensures
        r@ == id_stable_url_spec(href@),
{
    match parse_url(href) {
        Some(u) => {
            let mut out = u.scheme.clone();
            push_str(&mut out, "://");
            match &u.host_str {
                Some(h) => push_str(&mut out, h.as_str()),
                None => {},
            }
            match u.port {
                Some(p) => {
                    push_str(&mut out, ":");
                    push_dec(&mut out, p as u64);
                },
                None => {},
            }
            push_str(&mut out, u.path.as_str());
            assert(out@ =~= id_stable_url_spec(href@));
            out
        },
        None => {
            let cs = chars_of(href);
            let q = find_char(cs.as_slice(), '?');
            let f = find_char(cs.as_slice(), '#');
            let cut = if q < f {
                q
            } else {
                f
            };
            let r = chars_slice_string(cs.as_slice(), 0, cut);
            assert(cs@.subrange(0, cut as int) =~= href@.take(cut as int));
            r
        },
    }
}

/// The identity-grade href of an issue's anchors (empty when absent).
pub open spec fn stable_href(a: Anchors) -> Seq<char> {
    match a.href {
        Some(h) => id_stable_url_spec(h@),
        None => seq![],
    }
}

/// The anchors carry a strong or medium identity signal (text, href, alt or
/// aria-label), so the nearest heading does not enter the id.
pub open spec fn has_identity_anchor(a: Anchors) -> bool {
    present(a.text) || stable_href(a).len() > 0 || present(a.alt) || present(a.aria_label)
}

/// The field separator of the canonical string (U+001F).
pub open spec fn unit_sep() -> Seq<char> {
    seq!['\u{1f}']
}

/// The canonical string an issue id hashes: type, viewport, text, role,
/// stable href, alt, aria-label, landmark, nearest heading (only without an
/// identity anchor) and style property, joined by U+001F.
pub open spec fn canonical_spec(
    t: IssueType,
    viewport: Seq<char>,
    a: Anchors,
    style_property: Option<Seq<char>>,
) -> Seq<char> {
    let s = unit_sep();
    wire_name(t) + s + viewport + s + or_empty(a.text) + s + or_empty(a.role) + s + stable_href(a) + s
        + or_empty(a.alt) + s + or_empty(a.aria_label) + s + or_empty(a.landmark) + s + (if has_identity_anchor(a) {
        seq![]
    } else {
        or_empty(a.nearest_heading)
    }) + s + match style_property {
        Some(p) => p,
        None => seq![],
    }
}

/// The id of an issue: `issue_` and the first twelve hex digits of the
/// SHA-256 of the UTF-8 canonical string.
pub open spec fn issue_id_spec(
    t: IssueType,
    viewport: Seq<char>,
    a: Anchors,
    style_property: Option<Seq<char>>,
) -> Seq<char> {
    "issue_"@ + hex_lower(
        sha256_of(vstd::utf8::encode_utf8(canonical_spec(t, viewport, a, style_property))),
    ).take(12)
}

fn is_nonempty(o: &Option<String>) -> (r: bool)
    ensures
        r == present(*o),
{
    match o {
        Some(s) => !s.as_str().is_empty(),
        None => false,
    }
}

fn push_field(out: &mut String, field: &str)
    ensures
        final(out)@ == old(out)@ + unit_sep() + field@,
{
    push_char(out, '\u{1f}');
    push_str(out, field);
    assert(final(out)@ =~= old(out)@ + unit_sep() + field@) by {
        assert(out@ =~= old(out)@ + unit_sep() + field@);
    }
}

fn opt_text(o: &Option<String>) -> (r: &str)
    ensures
        r@ == or_empty(*o),
{
    proof {
        reveal_strlit("");
    }
    match o {
        Some(s) => s.as_str(),
        None => "",
    }
}

/// The canonical string of an issue (see `canonical_spec`).
#[verifier::rlimit(40)]
pub fn canonical_string(
    issue_type: &IssueType,
    viewport: &str,
    anchors: &Anchors,
    style_property: Option<&str>,
) -> (r: String)
    ensures
        r@ == canonical_spec(
            *issue_type,
            viewport@,
            *anchors,
            match style_property {
                Some(p) => Some(p@),
                None => None,
            },
        ),
{
    let href_stable = match &anchors.href {
        Some(h) => id_stable_url(h.as_str()),
        None => String::new(),
    };
    let strong = is_nonempty(&anchors.text) || !href_stable.as_str().is_empty() || is_nonempty(
        &anchors.alt,
    ) || is_nonempty(&anchors.aria_label);
    proof {
        reveal_strlit("");
    }
    let nh: &str = if !strong {
        opt_text(&anchors.nearest_heading)
    } else {
        ""
    };
    let sp: &str = match style_property {
        Some(p) => p,
        None => "",
    };
    let mut out = to_owned_string(issue_type.as_str());
    push_field(&mut out, viewport);
    push_field(&mut out, opt_text(&anchors.text));
    push_field(&mut out, opt_text(&anchors.role));
    push_field(&mut out, href_stable.as_str());
    push_field(&mut out, opt_text(&anchors.alt));
    push_field(&mut out, opt_text(&anchors.aria_label));
    push_field(&mut out, opt_text(&anchors.landmark));
    push_field(&mut out, nh);
    push_field(&mut out, sp);
    assert(out@ =~= canonical_spec(
        *issue_type,
        viewport@,
        *anchors,
        match style_property {
            Some(p) => Some(p@),
            None => None,
        },
    ));
    out
}

/// The content-addressed id of an issue.
///
/// The ordinal within the landmark never contributes; the nearest heading
/// contributes only when text, href, alt and aria-label are all absent or
/// empty; an href contributes only its scheme, host, port and path.
pub fn compute_issue_id(
    issue_type: &IssueType,
    viewport: &str,
    anchors: &Anchors,
    style_property: Option<&str>,
) -> (r: String)
    ensures
        r@ == issue_id_spec(
            *issue_type,
            viewport@,
            *anchors,
            match style_property {
                Some(p) => Some(p@),
                None => None,
            },
        ),
        r@.len() == 18,
        forall|i: int| 6 <= i < 18 ==> is_lower_hex(#[trigger] r@[i]),
{
    let canonical = canonical_string(issue_type, viewport, anchors, style_property);
    let bytes = canonical.as_str().as_bytes();
    let digest = sha256_digest(bytes);
    let hex = hex_encode(digest.as_slice());
    proof {
        lemma_hex_len(digest@);
        lemma_hex_digits(digest@);
    }
    let hcs = chars_of(hex.as_str());
    let head = chars_slice_string(hcs.as_slice(), 0, 12);
    assert(hcs@.subrange(0, 12) =~= hex@.take(12));
    let mut id = to_owned_string("issue_");
    push_str(&mut id, head.as_str());
    proof {
        reveal_strlit("issue_");
        assert forall|i: int| 6 <= i < 18 implies is_lower_hex(#[trigger] id@[i]) by {
            assert(id@[i] == hex@[i - 6]);
        }
    }
    id
}

// ---------------------------------------------------------------------------
// Collision suffixes
// ---------------------------------------------------------------------------

/// Removing a collision suffix: when byte 18 of the id is `-` (as in
/// `issue_HHHHHHHHHHHH-N`), the first 18 bytes; otherwise the id itself.
pub open spec fn is_stripped(id: Seq<char>, r: Seq<char>) -> bool {
    let b = vstd::utf8::encode_utf8(id);
    if b.len() > 18 && b[18] == 45 && vstd::utf8::is_char_boundary(b, 18) {
        vstd::utf8::encode_utf8(r) == b.take(18)
    } else {
        r == id
    }
}

/// The id without its collision suffix (see `is_stripped`).
pub fn strip_collision_suffix(id: &str) -> (r: &str)
    ensures
        is_stripped(id@, r@),
{
    let b = id.as_bytes();
    if b.len() > 18 && b[18] == 45 && id.is_char_boundary(18) {
        let (head, _) = id.split_at(18);
        head
    } else {
        id
    }
}

/// Document-order sort key of an optional sequence index: present values
/// ascending, absent last.
pub open spec fn seq_key(v: Option<u32>) -> (u8, u32) {
    match v {
        Some(n) => (0, n),
        None => (1, 0),
    }
}

/// The sort key of an optional sequence index.
pub fn seq_sort_key(v: Option<u32>) -> (r: (u8, u32))
    ensures
        r == seq_key(v),
{
    match v {
        Some(n) => (0, n),
        None => (1, 0),
    }
}

/// What collision resolution reads of an issue: its id and its document
/// position on each side.
#[derive(Debug, Clone)]
pub struct IdSlot {
    pub id: String,
    pub seq_index_old: Option<u32>,
    pub seq_index_new: Option<u32>,
}

pub open spec fn pair_lt(a: (u8, u32), b: (u8, u32)) -> bool {
    a.0 < b.0 || (a.0 == b.0 && a.1 < b.1)
}

/// Document order between two issues: old position, then new position.
pub open spec fn slot_key_lt(a: IdSlot, b: IdSlot) -> bool {
    pair_lt(seq_key(a.seq_index_old), seq_key(b.seq_index_old)) || (seq_key(a.seq_index_old)
        == seq_key(b.seq_index_old) && pair_lt(seq_key(a.seq_index_new), seq_key(b.seq_index_new)))
}

/// Slot `j` shares slot `i`'s id and comes before it (by document order,
/// then by position in the list).
pub open spec fn precedes(s: Seq<IdSlot>, j: int, i: int) -> bool {
    &&& s[j].id@ == s[i].id@
    &&& (slot_key_lt(s[j], s[i]) || (!slot_key_lt(s[i], s[j]) && j < i))
}

/// How many of the first `n` slots precede slot `i`.
pub open spec fn rank_upto(s: Seq<IdSlot>, i: int, n: int) -> nat
    decreases n,
{
    if n <= 0 {
        0
    } else {
        rank_upto(s, i, n - 1) + (if precedes(s, n - 1, i) {
            1nat
        } else {
            0nat
        })
    }
}

/// The position of slot `i` within its colliding group.
pub open spec fn collision_rank(s: Seq<IdSlot>, i: int) -> nat {
    rank_upto(s, i, s.len() as int)
}

/// The id slot `i` gets: unchanged for the first of its group, otherwise the
/// stripped id with `-k`, `k` its 1-based position in the group.
pub open spec fn resolved_id(s: Seq<IdSlot>, i: int, new_id: Seq<char>) -> bool {
    if collision_rank(s, i) == 0 {
        new_id == s[i].id@
    } else {
        exists|p: Seq<char>|
            #[trigger] is_stripped(s[i].id@, p) && new_id == p + "-"@ + dec(
                collision_rank(s, i) + 1,
            )
    }
}

fn slot_key_less(a: &IdSlot, b: &IdSlot) -> (r: bool)
    ensures
        r == slot_key_lt(*a, *b),
{
    let ao = seq_sort_key(a.seq_index_old);
    let bo = seq_sort_key(b.seq_index_old);
    let an = seq_sort_key(a.seq_index_new);
    let bn = seq_sort_key(b.seq_index_new);
    (ao.0 < bo.0 || (ao.0 == bo.0 && ao.1 < bo.1)) || (ao.0 == bo.0 && ao.1 == bo.1 && (an.0 < bn.0
        || (an.0 == bn.0 && an.1 < bn.1)))
}

proof fn lemma_rank_bounded(s: Seq<IdSlot>, i: int, n: int)
    requires
        n >= 0,
        0 <= i < s.len(),
    ensures
        rank_upto(s, i, n) <= n,
        i < n ==> rank_upto(s, i, n) < n,
    decreases n,
{
    if n > 0 {
        lemma_rank_bounded(s, i, n - 1);
        assert(!precedes(s, i, i));
    }
}

/// Gives colliding ids their suffixes: within each group of equal ids the
/// first by document order (old position, then new position, absent last,
/// then list order) keeps the id, the others get `-2`, `-3`, ...
pub fn resolve_id_collisions(slots: &mut Vec<IdSlot>)
    ensures
        final(slots)@.len() == old(slots)@.len(),
        forall|i: int|
            0 <= i < old(slots)@.len() ==> {
                &&& resolved_id(old(slots)@, i, (#[trigger] final(slots)@[i]).id@)
                &&& final(slots)@[i].seq_index_old == old(slots)@[i].seq_index_old
                &&& final(slots)@[i].seq_index_new == old(slots)@[i].seq_index_new
            },
{
    let ghost s = slots@;
    let n = slots.len();
    let mut new_ids: Vec<String> = Vec::new();
    let mut i: usize = 0;
    while i < n
        invariant
            s == slots@,
            n == s.len(),
            i <= n,
            new_ids@.len() == i,
            forall|k: int| 0 <= k < i ==> resolved_id(s, k, (#[trigger] new_ids@[k])@),
        decreases n - i,
    {
        let mut rank: usize = 0;
        let mut j: usize = 0;
        while j < n
            invariant
                s == slots@,
                n == s.len(),
                i < n,
                j <= n,
                rank == rank_upto(s, i as int, j as int),
            decreases n - j,
        {
            proof {
                lemma_rank_bounded(s, i as int, j as int);
            }
            let same = crate::text::str_eq(slots[j].id.as_str(), slots[i].id.as_str());
            if same && (slot_key_less(&slots[j], &slots[i]) || (!slot_key_less(&slots[i], &slots[j])
                && j < i)) {
                rank = rank + 1;
            }
            j = j + 1;
        }
        proof {
            lemma_rank_bounded(s, i as int, n as int);
        }
        if rank == 0 {
            new_ids.push(slots[i].id.clone());
        } else {
            let base = strip_collision_suffix(slots[i].id.as_str());
            let mut id = to_owned_string(base);
            push_str(&mut id, "-");
            push_dec(&mut id, (rank + 1) as u64);
            assert(is_stripped(s[i as int].id@, base@));
            new_ids.push(id);
        }
        i = i + 1;
    }
    let mut k: usize = 0;
    while k < n
        invariant
            n == s.len(),
            k <= n,
            slots@.len() == n,
            new_ids@.len() == n,
            forall|q: int| 0 <= q < n ==> resolved_id(s, q, (#[trigger] new_ids@[q])@),
            forall|q: int|
                0 <= q < k ==> (#[trigger] slots@[q]).id@ == new_ids@[q]@ && slots@[q].seq_index_old
                    == s[q].seq_index_old && slots@[q].seq_index_new == s[q].seq_index_new,
            forall|q: int| k <= q < n ==> #[trigger] slots@[q] == s[q],
        decreases n - k,
    {
        let slot = IdSlot {
            id: new_ids[k].clone(),
            seq_index_old: slots[k].seq_index_old,
            seq_index_new: slots[k].seq_index_new,
        };
        slots.set(k, slot);
        k = k + 1;
    }
}

// ---------------------------------------------------------------------------
// Laws
// ---------------------------------------------------------------------------

/// The ordinal within the landmark never affects an issue id.
pub proof fn lemma_ordinal_never_affects_id(
    t: IssueType,
    viewport: Seq<char>,
    a: Anchors,
    b: Anchors,
    style_property: Option<Seq<char>>,
)
    requires
        a.text == b.text,
        a.role == b.role,
        a.href == b.href,
        a.alt == b.alt,
        a.aria_label == b.aria_label,
        a.nearest_heading == b.nearest_heading,
        a.landmark == b.landmark,
    ensures
        issue_id_spec(t, viewport, a, style_property) == issue_id_spec(t, viewport, b, style_property),
{
    assert(canonical_spec(t, viewport, a, style_property) == canonical_spec(t, viewport, b, style_property));
}

/// When the anchors carry text, an href, alt text or an aria-label, the
/// nearest heading does not affect the id.
pub proof fn lemma_nearest_heading_ignored_with_identity_anchor(
    t: IssueType,
    viewport: Seq<char>,
    a: Anchors,
    b: Anchors,
    style_property: Option<Seq<char>>,
)
    requires
        a.text == b.text,
        a.role == b.role,
        a.href == b.href,
        a.alt == b.alt,
        a.aria_label == b.aria_label,
        a.landmark == b.landmark,
        has_identity_anchor(a),
    ensures
        issue_id_spec(t, viewport, a, style_property) == issue_id_spec(t, viewport, b, style_property),
{
    assert(stable_href(a) == stable_href(b));
    assert(canonical_spec(t, viewport, a, style_property) == canonical_spec(t, viewport, b, style_property));
}

proof fn lemma_precedes_order(s: Seq<IdSlot>, a: int, b: int, c: int)
    requires
        0 <= a < s.len(),
        0 <= b < s.len(),
        0 <= c < s.len(),
    ensures
        precedes(s, a, b) && precedes(s, b, c) ==> precedes(s, a, c),
        !(precedes(s, a, b) && precedes(s, b, a)),
        a != b && s[a].id@ == s[b].id@ ==> precedes(s, a, b) || precedes(s, b, a),
        !precedes(s, a, a),
{
}

proof fn lemma_rank_monotone(s: Seq<IdSlot>, i: int, j: int, n: int)
    requires
        0 <= i < s.len(),
        0 <= j < s.len(),
        0 <= n <= s.len(),
        precedes(s, i, j),
    ensures
        rank_upto(s, i, n) + (if i < n { 1int } else { 0int }) <= rank_upto(s, j, n),
    decreases n,
{
    if n > 0 {
        lemma_rank_monotone(s, i, j, n - 1);
        lemma_precedes_order(s, n - 1, i, j);
        lemma_precedes_order(s, i, i, i);
    }
}

/// Colliding issues get distinct positions in their group, and the one that
/// comes first in document order keeps the plain id.
pub proof fn lemma_collision_ranks_distinct(s: Seq<IdSlot>, i: int, j: int)
    requires
        0 <= i < s.len(),
        0 <= j < s.len(),
        i != j,
        s[i].id@ == s[j].id@,
    ensures
        collision_rank(s, i) != collision_rank(s, j),
        precedes(s, i, j) ==> collision_rank(s, i) < collision_rank(s, j),
{
    lemma_precedes_order(s, i, j, i);
    if precedes(s, i, j) {
        lemma_rank_monotone(s, i, j, s.len() as int);
    } else {
        lemma_rank_monotone(s, j, i, s.len() as int);
    }
}

proof fn lemma_rank_after_remove(s: Seq<IdSlot>, m: int, i: int, n: int)
    requires
        0 <= m < s.len(),
        0 <= i < s.len(),
        i != m,
        0 <= n <= s.len(),
    ensures
        n <= m ==> rank_upto(s.remove(m), if i < m { i } else { i - 1 }, n) == rank_upto(s, i, n),
        n > m ==> rank_upto(s.remove(m), if i < m { i } else { i - 1 }, n - 1) + (if precedes(s, m, i) {
            1nat
        } else {
            0nat
        }) == rank_upto(s, i, n),
    decreases n,
{
    let t = s.remove(m);
    let i2 = if i < m { i } else { i - 1 };
    assert(t[i2] == s[i]);
    if n > 0 {
        lemma_rank_after_remove(s, m, i, n - 1);
        if n - 1 < m {
            assert(t[n - 1] == s[n - 1]);
            assert(precedes(t, n - 1, i2) == precedes(s, n - 1, i));
        } else if n - 1 > m {
            assert(t[n - 2] == s[n - 1]);
            assert(precedes(t, n - 2, i2) == precedes(s, n - 1, i));
        }
    }
}

/// Removing an issue that does not come before issue `i` among the issues
/// sharing its id (a later twin, or an issue with another id) leaves the
/// collision rank of `i`, and so the id it resolves to, unchanged.
pub proof fn lemma_removing_later_issue_keeps_rank(s: Seq<IdSlot>, m: int, i: int)
    requires
        0 <= m < s.len(),
        0 <= i < s.len(),
        i != m,
        !precedes(s, m, i),
    ensures
        collision_rank(s.remove(m), if i < m { i } else { i - 1 }) == collision_rank(s, i),
{
    lemma_rank_after_remove(s, m, i, s.len() as int);
}

} // verus!

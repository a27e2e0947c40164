//! `explain`: locate one node by anchor, node id or CSS selector in each of
//! two captures, and tabulate its computed styles and box side by side,
//! together with its clickable-area hit-test view.
use vstd::prelude::*;

use crate::contract::{sort_strings, sorted_le, sorted_union, strictly_sorted, views, SemanticNode};
use crate::hit_test_diff::{count_hits_new, count_hits_old, count_new_winner, count_old_winner, count_surviving, counts_match, format_miss_winners, is_top_ranked, render_winners, tally_points, winner_is, HitTestEntry, HitTestEntryModel, HitTestOutcome, HitTestPoint, HitTestStatus, SelectorCounts};
use crate::keyed::{lemma_entries_map_absent, lemma_entries_map_at, KeyedMap};
use crate::text::{char_index, chars_of, chars_slice_string, contains_seq, dec, occurs_at, is_prefix, find_char, fraction4, format_fraction4, i32_string, int_dec, is_suffix, lemma_seq_lt_transitive, lemma_seq_lt_trichotomy, push_dec, push_str, seq_lt, str_compare, str_contains, str_eq, strip_suffix, to_owned_string};

verus! {

/// A map from CSS property to value.
pub type StyleMap = KeyedMap<String>;

/// The views of a string-valued map.
pub open spec fn str_map_view(m: Map<Seq<char>, String>) -> Map<Seq<char>, Seq<char>> {
    m.map_values(|s: String| s@)
}

// ---------------------------------------------------------------------------
// Locators
// ---------------------------------------------------------------------------

/// The three ways to point at a node.
#[derive(Debug, Clone)]
pub enum Locator {
    /// `key=value` with key one of `text`, `role`, `href`, `nearestHeading`:
    /// substring match on the corresponding node field(s).
    Anchor { key: String, value: String },
    /// Exact match on the node id.
    NodeId(String),
    /// Exact match on the node's CSS selector, else substring match.
    Selector(String),
}

/// An anchor key that `parse_anchor` accepts.
pub open spec fn anchor_key_known(k: Seq<char>) -> bool {
    k == "text"@ || k == "role"@ || k == "href"@ || k == "nearestHeading"@
}

/// What `parse_anchor` reads from `s`: the key and value around the first
/// `=`, or the error message.
pub open spec fn anchor_parse(s: Seq<char>) -> Result<(Seq<char>, Seq<char>), Seq<char>> {
    let p = char_index(s, '=');
    if p >= s.len() {
        Err("invalid --anchor syntax '"@ + s + "': expected key=value"@)
    } else if !anchor_key_known(s.take(p)) {
        Err("unknown anchor key '"@ + s.take(p)
            + "': expected text, role, href, or nearestHeading"@)
    } else {
        Ok((s.take(p), s.skip(p + 1)))
    }
}

fn anchor_key_is_known(k: &str) -> (r: bool)
    ensures
        r == anchor_key_known(k@),
{
    str_eq(k, "text") || str_eq(k, "role") || str_eq(k, "href") || str_eq(k, "nearestHeading")
}

impl Locator {
    /// Parses `key=value` (split at the first `=`) into an anchor locator.
    pub fn parse_anchor(s: &str) -> (r: Result<Self, String>)
        ensures
            match r {
                Ok(Locator::Anchor { key, value }) => anchor_parse(s@) == Ok::<
                    (Seq<char>, Seq<char>),
                    Seq<char>,
                >((key@, value@)),
                Ok(_) => false,
                Err(msg) => anchor_parse(s@) == Err::<(Seq<char>, Seq<char>), Seq<char>>(msg@),
            },
    {
        let cs = chars_of(s);
        let p = find_char(cs.as_slice(), '=');
        if p == cs.len() {
            let mut msg = to_owned_string("invalid --anchor syntax '");
            push_str(&mut msg, s);
            push_str(&mut msg, "': expected key=value");
            return Err(msg);
        }
        let key = chars_slice_string(cs.as_slice(), 0, p);
        assert(cs@.subrange(0, p as int) =~= s@.take(p as int));
        if !anchor_key_is_known(key.as_str()) {
            let mut msg = to_owned_string("unknown anchor key '");
            push_str(&mut msg, key.as_str());
            push_str(&mut msg, "': expected text, role, href, or nearestHeading");
            return Err(msg);
        }
        let value = chars_slice_string(cs.as_slice(), p + 1, cs.len());
        assert(cs@.subrange(p + 1, cs@.len() as int) =~= s@.skip(p + 1));
        Ok(Locator::Anchor { key, value })
    }
}

/// A pseudo-element slot.
#[derive(Debug, Clone, Copy, PartialEq, Eq, Structural)]
pub enum PseudoSlot {
    Before,
    After,
}

pub open spec fn pseudo_label(slot: PseudoSlot) -> Seq<char> {
    match slot {
        PseudoSlot::Before => "::before"@,
        PseudoSlot::After => "::after"@,
    }
}

impl PseudoSlot {
    /// `::before` or `::after`.
    pub fn label(self) -> (r: &'static str)
        ensures
            r@ == pseudo_label(self),
    {
        match self {
            PseudoSlot::Before => "::before",
            PseudoSlot::After => "::after",
        }
    }
}

/// Splits a trailing `::before` / `::after` off a selector: the owner part
/// and the slot; `None` when the selector carries neither suffix.
pub fn parse_pseudo_selector(s: &str) -> (r: Option<(String, PseudoSlot)>)
    ensures
        match r {
            Some((owner, slot)) => is_suffix(pseudo_label(slot), s@) && (slot == PseudoSlot::After
                ==> !is_suffix("::before"@, s@)) && owner@ == s@.take(
                s@.len() - pseudo_label(slot).len(),
            ),
            None => !is_suffix("::before"@, s@) && !is_suffix("::after"@, s@),
        },
{
    match strip_suffix(s, "::before") {
        Some(owner) => Some((owner, PseudoSlot::Before)),
        None => match strip_suffix(s, "::after") {
            Some(owner) => Some((owner, PseudoSlot::After)),
            None => None,
        },
    }
}

// ---------------------------------------------------------------------------
// Node matching
// ---------------------------------------------------------------------------

/// An optional string, absent read as empty.
pub open spec fn or_empty(o: Option<String>) -> Seq<char> {
    match o {
        Some(s) => s@,
        None => seq![],
    }
}

/// The node matches the locator.
pub open spec fn node_matches_spec(node: SemanticNode, locator: Locator) -> bool {
    match locator {
        Locator::NodeId(id) => node.id@ == id@,
        Locator::Selector(sel) => match node.css_selector {
            Some(css) => css@ == sel@ || contains_seq(css@, sel@),
            None => false,
        },
        Locator::Anchor { key, value } => if key@ == "text"@ {
            contains_seq(or_empty(node.anchors.text), value@) || contains_seq(
                or_empty(node.text),
                value@,
            )
        } else if key@ == "role"@ {
            contains_seq(or_empty(node.anchors.role), value@) || contains_seq(
                or_empty(node.role),
                value@,
            )
        } else if key@ == "href"@ {
            contains_seq(or_empty(node.anchors.href), value@) || contains_seq(
                or_empty(node.href),
                value@,
            )
        } else if key@ == "nearestHeading"@ {
            contains_seq(or_empty(node.anchors.nearest_heading), value@)
        } else {
            false
        },
    }
}

/// The text of an optional field, or nothing.
pub open spec fn field_text(o: Option<String>) -> Seq<char> {
    match o {
        Some(s) => s@,
        None => seq![],
    }
}

/// What an anchor locator `key=V` matches: `text` matches a node whose text
/// or anchor text contains `V`, `role` one whose role or anchor role does,
/// `href` one whose href or anchor href does, `nearestHeading` one whose
/// anchor nearest heading does; any other key matches nothing.
pub proof fn lemma_anchor_locator_meaning(n: SemanticNode, loc: Locator)
    requires
        loc is Anchor,
    ensures
        loc->key@ == "text"@ ==> (node_matches_spec(n, loc) <==> (contains_seq(field_text(n.text), loc->value@)
            || contains_seq(field_text(n.anchors.text), loc->value@))),
        loc->key@ == "role"@ ==> (node_matches_spec(n, loc) <==> (contains_seq(field_text(n.role), loc->value@)
            || contains_seq(field_text(n.anchors.role), loc->value@))),
        loc->key@ == "href"@ ==> (node_matches_spec(n, loc) <==> (contains_seq(field_text(n.href), loc->value@)
            || contains_seq(field_text(n.anchors.href), loc->value@))),
        loc->key@ == "nearestHeading"@ ==> (node_matches_spec(n, loc) <==> contains_seq(
            field_text(n.anchors.nearest_heading),
            loc->value@,
        )),
        !anchor_key_known(loc->key@) ==> !node_matches_spec(n, loc),
{
    reveal_strlit("text");
    reveal_strlit("role");
    reveal_strlit("href");
    reveal_strlit("nearestHeading");
    assert("text"@ != "role"@) by {
        assert("text"@[0] != "role"@[0]);
    }
    assert("text"@ != "href"@) by {
        assert("text"@[0] != "href"@[0]);
    }
    assert("role"@ != "href"@) by {
        assert("role"@[0] != "href"@[0]);
    }
    assert(or_empty(n.text) == field_text(n.text));
    assert(or_empty(n.anchors.text) == field_text(n.anchors.text));
    assert(or_empty(n.role) == field_text(n.role));
    assert(or_empty(n.anchors.role) == field_text(n.anchors.role));
    assert(or_empty(n.href) == field_text(n.href));
    assert(or_empty(n.anchors.href) == field_text(n.anchors.href));
    assert(or_empty(n.anchors.nearest_heading) == field_text(n.anchors.nearest_heading));
}

/// A node-id locator matches exactly the node with that id; a selector
/// locator matches exactly the nodes whose CSS selector contains it (an
/// equal selector included), and no node without a selector.
pub proof fn lemma_id_and_selector_locators(n: SemanticNode, loc: Locator)
    ensures
        loc is NodeId ==> (node_matches_spec(n, loc) <==> n.id@ == loc->NodeId_0@),
        loc is Selector ==> (node_matches_spec(n, loc) <==> (n.css_selector is Some && contains_seq(
            field_text(n.css_selector),
            loc->Selector_0@,
        ))),
{
    match loc {
        Locator::Selector(sel) => {
            match n.css_selector {
                Some(css) => {
                    if css@ == sel@ {
                        assert(css@.subrange(0, css@.len() as int) =~= css@);
                        assert(crate::text::occurs_at(css@, sel@, 0));
                    }
                },
                None => {},
            }
        },
        _ => {},
    }
}

/// An anchor locator reads only the fields of its key: two nodes that agree
/// on those fields are matched alike, whatever else differs (a `role`
/// locator ignores text, href and heading; a `text` locator ignores role,
/// href and heading; and so on).
pub proof fn lemma_anchor_locator_fields(n1: SemanticNode, n2: SemanticNode, loc: Locator)
    requires
        loc is Anchor,
    ensures
        loc->key@ == "role"@ && field_text(n1.role) == field_text(n2.role) && field_text(n1.anchors.role)
            == field_text(n2.anchors.role) ==> node_matches_spec(n1, loc) == node_matches_spec(n2, loc),
        loc->key@ == "text"@ && field_text(n1.text) == field_text(n2.text) && field_text(n1.anchors.text)
            == field_text(n2.anchors.text) ==> node_matches_spec(n1, loc) == node_matches_spec(n2, loc),
        loc->key@ == "href"@ && field_text(n1.href) == field_text(n2.href) && field_text(n1.anchors.href)
            == field_text(n2.anchors.href) ==> node_matches_spec(n1, loc) == node_matches_spec(n2, loc),
        loc->key@ == "nearestHeading"@ && field_text(n1.anchors.nearest_heading) == field_text(
            n2.anchors.nearest_heading,
        ) ==> node_matches_spec(n1, loc) == node_matches_spec(n2, loc),
{
    lemma_anchor_locator_meaning(n1, loc);
    lemma_anchor_locator_meaning(n2, loc);
}

/// `role=V` parses to the anchor locator with key `role` and value `V`
/// (everything after the first `=`).
pub proof fn lemma_parse_role_anchor(v: Seq<char>)
    ensures
        anchor_parse("role="@ + v) == Ok::<(Seq<char>, Seq<char>), Seq<char>>(("role"@, v)),
{
    reveal_strlit("role=");
    reveal_strlit("role");
    let s = "role="@ + v;
    assert(s[0] == 'r' && s[1] == 'o' && s[2] == 'l' && s[3] == 'e' && s[4] == '=');
    assert(s.drop_first().drop_first().drop_first().drop_first() =~= s.skip(4));
    assert(char_index(s.skip(4), '=') == 0);
    assert(char_index(s.skip(3), '=') == 1) by {
        assert(s.skip(3).drop_first() =~= s.skip(4));
    }
    assert(char_index(s.skip(2), '=') == 2) by {
        assert(s.skip(2).drop_first() =~= s.skip(3));
    }
    assert(char_index(s.skip(1), '=') == 3) by {
        assert(s.skip(1).drop_first() =~= s.skip(2));
    }
    assert(char_index(s, '=') == 4) by {
        assert(s.drop_first() =~= s.skip(1));
    }
    assert(s.take(4) =~= "role"@);
    assert(s.skip(5) =~= v);
}

fn opt_contains(o: &Option<String>, needle: &str) -> (r: bool)
    ensures
        r == contains_seq(or_empty(*o), needle@),
{
    proof {
        reveal_strlit("");
    }
    match o {
        Some(s) => {
            assert(or_empty(*o) == s@);
            str_contains(s.as_str(), needle)
        },
        None => {
            assert(or_empty(*o) == ""@);
            str_contains("", needle)
        },
    }
}

/// Whether `node` matches the locator.
pub fn node_matches(node: &SemanticNode, locator: &Locator) -> (r: bool)
    ensures
        r == node_matches_spec(*node, *locator),
{
    match locator {
        Locator::NodeId(id) => str_eq(node.id.as_str(), id.as_str()),
        Locator::Selector(sel) => match &node.css_selector {
            Some(css) => {
                if str_eq(css.as_str(), sel.as_str()) {
                    return true;
                }
                str_contains(css.as_str(), sel.as_str())
            },
            None => false,
        },
        Locator::Anchor { key, value } => {
            proof {
                reveal_strlit("");
            }
            if str_eq(key.as_str(), "text") {
                opt_contains(&node.anchors.text, value.as_str()) || opt_contains(
                    &node.text,
                    value.as_str(),
                )
            } else if str_eq(key.as_str(), "role") {
                opt_contains(&node.anchors.role, value.as_str()) || opt_contains(
                    &node.role,
                    value.as_str(),
                )
            } else if str_eq(key.as_str(), "href") {
                opt_contains(&node.anchors.href, value.as_str()) || opt_contains(
                    &node.href,
                    value.as_str(),
                )
            } else if str_eq(key.as_str(), "nearestHeading") {
                opt_contains(&node.anchors.nearest_heading, value.as_str())
            } else {
                false
            }
        },
    }
}

/// Node order for tie-breaks: `(seq_index, id)` ascending.
pub open spec fn node_key_lt(a: SemanticNode, b: SemanticNode) -> bool {
    a.seq_index < b.seq_index || (a.seq_index == b.seq_index && seq_lt(a.id@, b.id@))
}

pub proof fn lemma_node_key_order(a: SemanticNode, b: SemanticNode, c: SemanticNode)
    ensures
        node_key_lt(a, b) && node_key_lt(b, c) ==> node_key_lt(a, c),
        node_key_lt(a, b) && !node_key_lt(c, b) ==> node_key_lt(a, c),
        !node_key_lt(a, b) ==> node_key_lt(b, a) || (a.seq_index == b.seq_index && a.id@ == b.id@),
{
    lemma_seq_lt_trichotomy(a.id@, b.id@);
    lemma_seq_lt_trichotomy(b.id@, c.id@);
    lemma_seq_lt_trichotomy(a.id@, c.id@);
    if seq_lt(a.id@, b.id@) && seq_lt(b.id@, c.id@) {
        lemma_seq_lt_transitive(a.id@, b.id@, c.id@);
    }
}

pub(crate) fn node_key_less(a: &SemanticNode, b: &SemanticNode) -> (r: bool)
    ensures
        r == node_key_lt(*a, *b),
{
    a.seq_index < b.seq_index || (a.seq_index == b.seq_index && str_compare(
        a.id.as_str(),
        b.id.as_str(),
    ) == -1)
}

/// The node's CSS selector is exactly the selector locator's.
pub open spec fn exact_selector_match(node: SemanticNode, locator: Locator) -> bool {
    match locator {
        Locator::Selector(sel) => match node.css_selector {
            Some(css) => css@ == sel@,
            None => false,
        },
        _ => false,
    }
}

/// Some node matches the selector locator exactly.
pub open spec fn has_exact_selector(nodes: Seq<SemanticNode>, locator: Locator) -> bool {
    exists|i: int| 0 <= i < nodes.len() && #[trigger] exact_selector_match(nodes[i], locator)
}

/// The nodes the locator chooses among: for a selector with an exact match,
/// the exact matches only; otherwise every matching node.
pub open spec fn is_candidate(nodes: Seq<SemanticNode>, locator: Locator, node: SemanticNode) -> bool {
    if has_exact_selector(nodes, locator) {
        exact_selector_match(node, locator)
    } else {
        node_matches_spec(node, locator)
    }
}

/// `nodes[i]` is the candidate that a stable sort by `(seq_index, id)` puts
/// first.
pub open spec fn is_chosen_match(nodes: Seq<SemanticNode>, locator: Locator, i: int) -> bool {
    &&& 0 <= i < nodes.len()
    &&& node_matches_spec(nodes[i], locator)
    &&& is_candidate(nodes, locator, nodes[i])
    &&& forall|j: int|
        0 <= j < nodes.len() && is_candidate(nodes, locator, #[trigger] nodes[j]) ==> (j < i
            ==> node_key_lt(nodes[i], nodes[j])) && (j > i ==> !node_key_lt(nodes[j], nodes[i]))
}

/// The candidate test a search runs: exact selector equality, or matching.
pub open spec fn search_pred(node: SemanticNode, locator: Locator, exact_only: bool) -> bool {
    if exact_only {
        exact_selector_match(node, locator)
    } else {
        node_matches_spec(node, locator)
    }
}

fn exact_selector(node: &SemanticNode, locator: &Locator) -> (r: bool)
    ensures
        r == exact_selector_match(*node, *locator),
{
    match locator {
        Locator::Selector(sel) => match &node.css_selector {
            Some(css) => str_eq(css.as_str(), sel.as_str()),
            None => false,
        },
        _ => false,
    }
}

/// The first node, by `(seq_index, id)` and then position, passing the
/// search test; `nodes.len()` when none does.
fn pick_first(nodes: &[SemanticNode], locator: &Locator, exact_only: bool) -> (best: usize)
    ensures
        best <= nodes@.len(),
        best == nodes@.len() ==> forall|q: int|
            0 <= q < nodes@.len() ==> !search_pred(#[trigger] nodes@[q], *locator, exact_only),
        best < nodes@.len() ==> search_pred(nodes@[best as int], *locator, exact_only),
        best < nodes@.len() ==> forall|q: int|
            0 <= q < nodes@.len() && search_pred(#[trigger] nodes@[q], *locator, exact_only) ==> (q < best
                ==> node_key_lt(nodes@[best as int], nodes@[q])) && (q > best ==> !node_key_lt(
                nodes@[q],
                nodes@[best as int],
            )),
{
    let mut best: usize = nodes.len();
    let mut j: usize = 0;
    while j < nodes.len()
        invariant
            j <= nodes@.len(),
            best == nodes@.len() || best < j,
            best == nodes@.len() ==> forall|q: int|
                0 <= q < j ==> !search_pred(#[trigger] nodes@[q], *locator, exact_only),
            best < nodes@.len() ==> search_pred(nodes@[best as int], *locator, exact_only),
            best < nodes@.len() ==> forall|q: int|
                0 <= q < j && search_pred(#[trigger] nodes@[q], *locator, exact_only) ==> (q < best
                    ==> node_key_lt(nodes@[best as int], nodes@[q])) && (q > best ==> !node_key_lt(
                    nodes@[q],
                    nodes@[best as int],
                )),
        decreases nodes.len() - j,
    {
        let hit = if exact_only {
            exact_selector(&nodes[j], locator)
        } else {
            node_matches(&nodes[j], locator)
        };
        if hit {
            if best == nodes.len() {
                best = j;
            } else if node_key_less(&nodes[j], &nodes[best]) {
                proof {
                    assert forall|q: int|
                        0 <= q < j + 1 && search_pred(#[trigger] nodes@[q], *locator, exact_only) implies (q
                        < j ==> node_key_lt(nodes@[j as int], nodes@[q])) && (q > j
                        ==> !node_key_lt(nodes@[q], nodes@[j as int])) by {
                        if q < j {
                            lemma_node_key_order(nodes@[j as int], nodes@[best as int], nodes@[q]);
                        }
                    }
                }
                best = j;
            }
        }
        j = j + 1;
    }
    best
}

/// The node the locator picks: for a selector, an exact `css_selector`
/// match when there is one (substring matching only as the fallback); among
/// the candidates the lowest `(seq_index, id)`, the earlier node on a tie.
pub fn find_node<'a>(nodes: &'a [SemanticNode], locator: &Locator) -> (r: Option<&'a SemanticNode>)
    ensures
        match r {
            Some(n) => exists|i: int| is_chosen_match(nodes@, *locator, i) && nodes@[i] == *n,
            None => forall|i: int|
                0 <= i < nodes@.len() ==> !node_matches_spec(#[trigger] nodes@[i], *locator),
        },
{
    let exact = pick_first(nodes, locator, true);
    if exact < nodes.len() {
        let ghost i = exact as int;
        proof {
            assert(has_exact_selector(nodes@, *locator));
            assert(node_matches_spec(nodes@[i], *locator));
            assert(is_chosen_match(nodes@, *locator, i));
        }
        return Some(&nodes[exact]);
    }
    proof {
        assert(!has_exact_selector(nodes@, *locator)) by {
            if has_exact_selector(nodes@, *locator) {
                let q = choose|q: int| 0 <= q < nodes@.len() && #[trigger] exact_selector_match(nodes@[q], *locator);
                assert(search_pred(nodes@[q], *locator, true));
            }
        }
    }
    let best = pick_first(nodes, locator, false);
    if best == nodes.len() {
        None
    } else {
        proof {
            assert forall|j: int| 0 <= j < nodes@.len() && is_candidate(nodes@, *locator, #[trigger] nodes@[j])
                implies search_pred(nodes@[j], *locator, false) by {}
        }
        assert(is_chosen_match(nodes@, *locator, best as int));
        Some(&nodes[best])
    }
}

// ---------------------------------------------------------------------------
// Side resolution
// ---------------------------------------------------------------------------

/// Which pseudo-elements a node paints.
#[derive(Debug, Clone, Copy, PartialEq, Eq, Structural)]
pub struct PseudoSlots {
    pub before: bool,
    pub after: bool,
}

/// What `explain` reads from one capture.
#[derive(Debug)]
pub struct CaptureView {
    pub nodes: Vec<SemanticNode>,
    /// Computed styles by node id.
    pub computed_styles: KeyedMap<StyleMap>,
    /// Hit-test records by node id, when the capture has the channel.
    pub hit_tests: Option<KeyedMap<HitTestEntry>>,
    /// Painted pseudo-elements by owner key, when the capture has the channel.
    pub pseudo_elements: Option<KeyedMap<PseudoSlots>>,
}

/// Resolution status for one side.
#[derive(Debug, Clone, Copy, PartialEq, Eq, Structural)]
pub enum ResolutionStatus {
    Resolved,
    NotFound,
}

/// Per-side resolution result.
#[derive(Debug)]
pub struct SideResult {
    pub status: ResolutionStatus,
    pub node_id: Option<String>,
    /// Computed-style properties of the resolved node (empty when not found).
    pub computed_styles: StyleMap,
    /// `[x, y, w, h]` of the resolved node.
    pub bbox: Option<[i32; 4]>,
    /// The resolved node's hit-test record, when the capture has one.
    pub hit_test: Option<HitTestEntry>,
    /// `::before` / `::after` labels of the pseudo-elements the node owns, in that order.
    pub owned_pseudo_slots: Vec<String>,
}

/// The pseudo-element labels of an owner entry, `::before` first.
pub open spec fn slot_labels(p: PseudoSlots) -> Seq<Seq<char>> {
    (if p.before {
        seq!["::before"@]
    } else {
        seq![]
    }) + (if p.after {
        seq!["::after"@]
    } else {
        seq![]
    })
}

/// The labels owned by a node id in a capture.
pub open spec fn owned_slots_spec(view: CaptureView, id: Seq<char>) -> Seq<Seq<char>> {
    match view.pseudo_elements {
        Some(m) => if m@.dom().contains(id) {
            slot_labels(m@[id])
        } else {
            seq![]
        },
        None => seq![],
    }
}

/// `side` is the resolution of `locator` in `view`.
pub open spec fn resolves_as(view: CaptureView, locator: Locator, side: SideResult) -> bool {
    match side.status {
        ResolutionStatus::NotFound => {
            &&& forall|i: int|
                0 <= i < view.nodes@.len() ==> !node_matches_spec(#[trigger] view.nodes@[i], locator)
            &&& side.node_id is None
            &&& side.computed_styles@ == Map::<Seq<char>, String>::empty()
            &&& side.bbox is None
            &&& side.hit_test is None
            &&& side.owned_pseudo_slots@.len() == 0
        },
        ResolutionStatus::Resolved => exists|i: int|
            {
                &&& #[trigger] is_chosen_match(view.nodes@, locator, i)
                &&& side.node_id == Some(view.nodes@[i].id)
                &&& side.computed_styles@ == (if view.computed_styles@.dom().contains(
                    view.nodes@[i].id@,
                ) {
                    view.computed_styles@[view.nodes@[i].id@]@
                } else {
                    Map::<Seq<char>, String>::empty()
                })
                &&& side.bbox == Some(view.nodes@[i].bbox)
                &&& match side.hit_test {
                    Some(e) => view.hit_tests matches Some(m) && m@.dom().contains(
                        view.nodes@[i].id@,
                    ) && e@ == m@[view.nodes@[i].id@]@,
                    None => !(view.hit_tests matches Some(m) && m@.dom().contains(
                        view.nodes@[i].id@,
                    )),
                }
                &&& views(side.owned_pseudo_slots@) == owned_slots_spec(view, view.nodes@[i].id@)
            },
    }
}

fn owned_pseudo_slots_for_node(view: &CaptureView, node_id: &str) -> (r: Vec<String>)
    ensures
        views(r@) == owned_slots_spec(*view, node_id@),
{
    let mut v: Vec<String> = Vec::new();
    match &view.pseudo_elements {
        Some(m) => match m.get(node_id) {
            Some(entry) => {
                if entry.before {
                    v.push(to_owned_string("::before"));
                }
                if entry.after {
                    v.push(to_owned_string("::after"));
                }
                proof {
                    reveal_strlit("::after");
                    reveal_strlit("::before");
                }
                assert(views(v@) =~= slot_labels(*entry));
            },
            None => {
                assert(views(v@) =~= Seq::<Seq<char>>::empty());
            },
        },
        None => {
            assert(views(v@) =~= Seq::<Seq<char>>::empty());
        },
    }
    v
}

/// Resolves the locator against one capture.
pub fn resolve_side(view: &CaptureView, locator: &Locator) -> (r: SideResult)
    ensures
        resolves_as(*view, *locator, r),
{
    let found = find_node(view.nodes.as_slice(), locator);
    match found {
        None => {
            let side = SideResult {
                status: ResolutionStatus::NotFound,
                node_id: None,
                computed_styles: KeyedMap::new(),
                bbox: None,
                hit_test: None,
                owned_pseudo_slots: Vec::new(),
            };
            side
        },
        Some(n) => {
            let computed_styles = match view.computed_styles.get(n.id.as_str()) {
                Some(m) => m.clone(),
                None => KeyedMap::new(),
            };
            let hit_test = match &view.hit_tests {
                Some(m) => match m.get(n.id.as_str()) {
                    Some(e) => Some(e.clone()),
                    None => None,
                },
                None => None,
            };
            let owned_pseudo_slots = owned_pseudo_slots_for_node(view, n.id.as_str());
            let side = SideResult {
                status: ResolutionStatus::Resolved,
                node_id: Some(n.id.clone()),
                computed_styles,
                bbox: Some(n.bbox),
                hit_test,
                owned_pseudo_slots,
            };
            proof {
                let i = choose|i: int| is_chosen_match(view.nodes@, *locator, i) && view.nodes@[i] == *n;
                assert(is_chosen_match(view.nodes@, *locator, i));
            }
            side
        },
    }
}

// ---------------------------------------------------------------------------
// Property rows
// ---------------------------------------------------------------------------

/// One property row of the report.
#[derive(Debug, Clone)]
pub struct PropRow {
    pub property: String,
    pub old_value: String,
    pub new_value: String,
    pub changed: bool,
}

/// A side's styles plus its box as the pseudo-properties `bbox.x`, `bbox.y`,
/// `bbox.w`, `bbox.h`.
pub open spec fn bbox_styles(m: Map<Seq<char>, Seq<char>>, bbox: Option<[i32; 4]>) -> Map<
    Seq<char>,
    Seq<char>,
> {
    match bbox {
        Some(b) => m.insert("bbox.x"@, int_dec(b[0] as int)).insert("bbox.y"@, int_dec(b[1] as int)).insert(
            "bbox.w"@,
            int_dec(b[2] as int),
        ).insert("bbox.h"@, int_dec(b[3] as int)),
        None => m,
    }
}

/// The value shown for a property: the map's value, or `<absent>`.
pub open spec fn prop_value(m: Map<Seq<char>, Seq<char>>, k: Seq<char>) -> Seq<char> {
    if m.dom().contains(k) {
        m[k]
    } else {
        "<absent>"@
    }
}

/// The row shows property `k` of the two maps.
pub open spec fn row_for(
    row: PropRow,
    k: Seq<char>,
    old: Map<Seq<char>, Seq<char>>,
    new: Map<Seq<char>, Seq<char>>,
) -> bool {
    &&& row.property@ == k
    &&& row.old_value@ == prop_value(old, k)
    &&& row.new_value@ == prop_value(new, k)
    &&& row.changed == (prop_value(old, k) != prop_value(new, k))
}

/// The property names of the rows.
pub open spec fn row_keys(rows: Seq<PropRow>) -> Seq<Seq<char>> {
    rows.map_values(|r: PropRow| r.property@)
}

/// The rows a comparison of two property maps shows: with an explicit
/// property list, exactly those properties in sorted order (repeats kept);
/// otherwise every property of either map or of `extra` whose shown values
/// differ, in sorted order, each once.
pub open spec fn rows_ok(
    rows: Seq<PropRow>,
    old: Map<Seq<char>, Seq<char>>,
    new: Map<Seq<char>, Seq<char>>,
    extra: Seq<Seq<char>>,
    props: Option<Seq<Seq<char>>>,
) -> bool {
    let keys = row_keys(rows);
    &&& forall|i: int| 0 <= i < rows.len() ==> row_for(#[trigger] rows[i], keys[i], old, new)
    &&& match props {
        Some(p) => sorted_le(keys) && keys.to_multiset() == p.to_multiset(),
        None => strictly_sorted(keys) && forall|k: Seq<char>|
            #[trigger] keys.contains(k) <==> ((extra.contains(k) || old.dom().contains(k)
                || new.dom().contains(k)) && prop_value(old, k) != prop_value(new, k)),
    }
}

/// Materialises a side's styles and box into one property map.
pub fn side_style_map(side: &SideResult) -> (r: StyleMap)
    ensures
        str_map_view(r@) == bbox_styles(str_map_view(side.computed_styles@), side.bbox),
{
    let mut m = side.computed_styles.clone();
    match side.bbox {
        Some(b) => {
            let ghost m0 = m@;
            m.insert(to_owned_string("bbox.x"), i32_string(b[0]));
            m.insert(to_owned_string("bbox.y"), i32_string(b[1]));
            m.insert(to_owned_string("bbox.w"), i32_string(b[2]));
            m.insert(to_owned_string("bbox.h"), i32_string(b[3]));
            assert(str_map_view(m@) =~= bbox_styles(str_map_view(m0), side.bbox));
        },
        None => {},
    }
    m
}

fn prop_value_of(m: &StyleMap, k: &str) -> (r: String)
    ensures
        r@ == prop_value(str_map_view(m@), k@),
{
    match m.get(k) {
        Some(v) => v.clone(),
        None => to_owned_string("<absent>"),
    }
}

/// The keys of a map, in entry order.
fn map_keys(m: &StyleMap) -> (r: Vec<String>)
    ensures
        forall|k: Seq<char>| #[trigger] views(r@).contains(k) <==> m@.dom().contains(k),
{
    let es = m.entries();
    let mut out: Vec<String> = Vec::new();
    let mut i: usize = 0;
    while i < es.len()
        invariant
            i <= es@.len(),
            out@.len() == i,
            forall|q: int| 0 <= q < i ==> (#[trigger] out@[q])@ == es@[q].0@,
        decreases es.len() - i,
    {
        out.push(es[i].0.clone());
        i = i + 1;
    }
    proof {
        assert forall|k: Seq<char>| #[trigger] views(out@).contains(k) <==> m@.dom().contains(k) by {
            if views(out@).contains(k) {
                let q = choose|q: int| 0 <= q < views(out@).len() && views(out@)[q] == k;
                lemma_entries_map_at(es@, q);
            }
            if m@.dom().contains(k) {
                if forall|q: int| 0 <= q < es@.len() ==> (#[trigger] es@[q]).0@ != k {
                    lemma_entries_map_absent(es@, k);
                }
                let q = choose|q: int| 0 <= q < es@.len() && (#[trigger] es@[q]).0@ == k;
                assert(views(out@)[q] == k);
            }
        }
    }
    out
}

fn rows_for_keys(keys: &Vec<String>, old_map: &StyleMap, new_map: &StyleMap) -> (r: Vec<PropRow>)
    ensures
        row_keys(r@) == views(keys@),
        forall|i: int|
            0 <= i < r@.len() ==> row_for(
                #[trigger] r@[i],
                views(keys@)[i],
                str_map_view(old_map@),
                str_map_view(new_map@),
            ),
{
    let mut rows: Vec<PropRow> = Vec::new();
    let mut i: usize = 0;
    while i < keys.len()
        invariant
            i <= keys@.len(),
            rows@.len() == i,
            forall|q: int|
                0 <= q < i ==> row_for(
                    #[trigger] rows@[q],
                    views(keys@)[q],
                    str_map_view(old_map@),
                    str_map_view(new_map@),
                ),
        decreases keys.len() - i,
    {
        let old_value = prop_value_of(old_map, keys[i].as_str());
        let new_value = prop_value_of(new_map, keys[i].as_str());
        let changed = !str_eq(old_value.as_str(), new_value.as_str());
        rows.push(PropRow { property: keys[i].clone(), old_value, new_value, changed });
        i = i + 1;
    }
    assert(row_keys(rows@) =~= views(keys@)) by {
        assert forall|q: int| 0 <= q < rows@.len() implies row_keys(rows@)[q] == views(keys@)[q] by {
            assert(row_for(rows@[q], views(keys@)[q], str_map_view(old_map@), str_map_view(new_map@)));
        }
    }
    rows
}

/// Builds the property rows of two property maps (see `rows_ok`).
pub fn diff_prop_rows(
    old_map: &StyleMap,
    new_map: &StyleMap,
    extra_diff_candidates: &[&str],
    props: Option<&[String]>,
) -> (r: Vec<PropRow>)
    ensures
        rows_ok(
            r@,
            str_map_view(old_map@),
            str_map_view(new_map@),
            extra_diff_candidates@.map_values(|s: &str| s@),
            match props {
                Some(p) => Some(views(p@)),
                None => None,
            },
        ),
{
    let ghost ov = str_map_view(old_map@);
    let ghost nv = str_map_view(new_map@);
    let ghost ex = extra_diff_candidates@.map_values(|s: &str| s@);
    match props {
        Some(explicit) => {
            let sorted = sort_strings(explicit);
            let rows = rows_for_keys(&sorted, old_map, new_map);
            rows
        },
        None => {
            let mut extra: Vec<String> = Vec::new();
            let mut i: usize = 0;
            while i < extra_diff_candidates.len()
                invariant
                    i <= extra_diff_candidates@.len(),
                    ex == extra_diff_candidates@.map_values(|s: &str| s@),
                    views(extra@) == ex.take(i as int),
                decreases extra_diff_candidates.len() - i,
            {
                let ghost before = views(extra@);
                extra.push(to_owned_string(extra_diff_candidates[i]));
                assert(views(extra@) =~= before.push(extra_diff_candidates@[i as int]@));
                assert(ex[i as int] == extra_diff_candidates@[i as int]@);
                assert(ex.take(i + 1) =~= ex.take(i as int).push(ex[i as int]));
                i = i + 1;
            }
            assert(ex.take(ex.len() as int) =~= ex);
            let old_keys = map_keys(old_map);
            let new_keys = map_keys(new_map);
            let u1 = sorted_union(&extra, &old_keys);
            let all = sorted_union(&u1, &new_keys);
            let ghost keys = views(all@);
            let mut kept: Vec<String> = Vec::new();
            let mut j: usize = 0;
            while j < all.len()
                invariant
                    keys == views(all@),
                    strictly_sorted(keys),
                    j <= keys.len(),
                    strictly_sorted(views(kept@)),
                    j < keys.len() ==> forall|a: int|
                        0 <= a < kept@.len() ==> seq_lt(#[trigger] views(kept@)[a], keys[j as int]),
                    forall|k: Seq<char>|
                        #[trigger] views(kept@).contains(k) <==> (keys.take(j as int).contains(k)
                            && prop_value(ov, k) != prop_value(nv, k)),
                    ov == str_map_view(old_map@),
                    nv == str_map_view(new_map@),
                decreases all.len() - j,
            {
                let ov_s = prop_value_of(old_map, all[j].as_str());
                let nv_s = prop_value_of(new_map, all[j].as_str());
                let ghost before = views(kept@);
                let ghost kj = keys[j as int];
                assert(kj == all@[j as int]@);
                if !str_eq(ov_s.as_str(), nv_s.as_str()) {
                    kept.push(all[j].clone());
                    assert(views(kept@) =~= before.push(kj));
                }
                proof {
                    assert(keys.take(j + 1) =~= keys.take(j as int).push(kj));
                    let pushed = prop_value(ov, kj) != prop_value(nv, kj);
                    assert(pushed ==> views(kept@) == before.push(kj));
                    assert(!pushed ==> views(kept@) == before);
                    let t1 = keys.take(j + 1);
                    let t0 = keys.take(j as int);
                    assert forall|k: Seq<char>| t1.contains(k) <==> (t0.contains(k) || k == kj) by {
                        if t1.contains(k) {
                            let a = choose|a: int| 0 <= a < t1.len() && t1[a] == k;
                            if a < j {
                                assert(t0[a] == k);
                            }
                        }
                        if t0.contains(k) {
                            let a = choose|a: int| 0 <= a < t0.len() && t0[a] == k;
                            assert(t1[a] == k);
                        }
                        if k == kj {
                            assert(t1[j as int] == k);
                        }
                    }
                    assert forall|k: Seq<char>| before.push(kj).contains(k) <==> (before.contains(k)
                        || k == kj) by {
                        let bp = before.push(kj);
                        if bp.contains(k) {
                            let a = choose|a: int| 0 <= a < bp.len() && bp[a] == k;
                            if a < before.len() {
                                assert(before[a] == k);
                            }
                        }
                        if before.contains(k) {
                            let a = choose|a: int| 0 <= a < before.len() && before[a] == k;
                            assert(before.push(kj)[a] == k);
                        }
                        if k == kj {
                            assert(before.push(kj)[before.len() as int] == k);
                        }
                    }
                    assert(!before.contains(kj)) by {
                        if before.contains(kj) {
                            let a = choose|a: int| 0 <= a < before.len() && before[a] == kj;
                            assert(seq_lt(before[a], kj));
                            crate::text::lemma_seq_lt_irreflexive(kj);
                        }
                    }
                    assert forall|k: Seq<char>| #[trigger] views(kept@).contains(k) <==> (keys.take(
                        j + 1,
                    ).contains(k) && prop_value(ov, k) != prop_value(nv, k)) by {
                        assert(before.contains(k) <==> (keys.take(j as int).contains(k) && prop_value(
                            ov,
                            k,
                        ) != prop_value(nv, k)));
                    }
                    if j + 1 < keys.len() {
                        assert(seq_lt(kj, keys[j + 1]));
                        assert forall|a: int| 0 <= a < kept@.len() implies seq_lt(
                            #[trigger] views(kept@)[a],
                            keys[j + 1],
                        ) by {
                            if a < before.len() {
                                assert(views(kept@)[a] == before[a]);
                                lemma_seq_lt_transitive(before[a], kj, keys[j + 1]);
                            }
                        }
                    }
                    assert forall|a: int, b: int| 0 <= a < b < views(kept@).len() implies seq_lt(
                        views(kept@)[a],
                        views(kept@)[b],
                    ) by {
                        if b < before.len() {
                            assert(views(kept@)[a] == before[a] && views(kept@)[b] == before[b]);
                        } else {
                            assert(views(kept@)[a] == before[a]);
                        }
                    }
                }
                j = j + 1;
            }
            assert(keys.take(keys.len() as int) =~= keys);
            let rows = rows_for_keys(&kept, old_map, new_map);
            rows
        },
    }
}

// ---------------------------------------------------------------------------
// Hit-test section
// ---------------------------------------------------------------------------

/// One side's hit-test view.
#[derive(Debug, Clone)]
pub struct HitTestSideExplain {
    /// Hit fraction rounded half up to four decimals (e.g. `"1.0000"`).
    pub fraction: String,
    /// `"hits/denominator"` over the same denominator as `fraction`.
    pub raw_hits: String,
    /// Top-three miss winners, `"sel (xN); sel2 (xM)"` (empty when none).
    pub miss_winners: String,
}

/// The hit-test section: each side `None` when it has no comparable data.
#[derive(Debug, Clone)]
pub struct HitTestExplain {
    pub old: Option<HitTestSideExplain>,
    pub new: Option<HitTestSideExplain>,
}

/// The sampled, non-empty point list of a hit-test record, if it has one.
pub open spec fn sampled_spec(e: Option<HitTestEntryModel>) -> Option<Seq<HitTestPoint>> {
    match e {
        Some(m) => if m.status == HitTestStatus::Sampled && m.points is Some && m.points->0.len() > 0 {
            m.points
        } else {
            None
        },
        None => None,
    }
}

/// Hits among the first `n` points.
pub open spec fn raw_hits_count(p: Seq<HitTestPoint>, n: int) -> nat
    decreases n,
{
    if n <= 0 {
        0
    } else {
        raw_hits_count(p, n - 1) + (if p[n - 1].o == HitTestOutcome::Hit {
            1nat
        } else {
            0nat
        })
    }
}

/// Hits and misses among the first `n` points.
pub open spec fn raw_denominator(p: Seq<HitTestPoint>, n: int) -> nat
    decreases n,
{
    if n <= 0 {
        0
    } else {
        raw_denominator(p, n - 1) + (if p[n - 1].o == HitTestOutcome::Hit || p[n - 1].o
            == HitTestOutcome::Miss {
            1nat
        } else {
            0nat
        })
    }
}

/// Misses among the first `n` points won by `sel`.
pub open spec fn raw_winner_count(p: Seq<HitTestPoint>, n: int, sel: Seq<char>) -> nat
    decreases n,
{
    if n <= 0 {
        0
    } else {
        raw_winner_count(p, n - 1, sel) + (if p[n - 1].o == HitTestOutcome::Miss && winner_is(
            p[n - 1],
            sel,
        ) {
            1nat
        } else {
            0nat
        })
    }
}

/// `text` renders the top three entries of the count map `count` describes.
pub open spec fn winners_text(count: spec_fn(Seq<char>) -> nat, text: Seq<char>) -> bool {
    exists|m: Map<Seq<char>, u32>, top: Seq<(Seq<char>, u32)>|
        counts_match(m, count) && is_top_ranked(m, top, 3) && text == render_winners(top)
}

/// The hit-test view of counts `hits` over `den` with the given winners.
pub open spec fn side_view_ok(
    v: HitTestSideExplain,
    hits: nat,
    den: nat,
    count: spec_fn(Seq<char>) -> nat,
) -> bool {
    &&& v.fraction@ == fraction4(hits, den)
    &&& v.raw_hits@ == dec(hits) + "/"@ + dec(den)
    &&& winners_text(count, v.miss_winners@)
}

/// The single-sided view of one point list.
pub open spec fn raw_view_ok(v: HitTestSideExplain, p: Seq<HitTestPoint>) -> bool {
    side_view_ok(
        v,
        raw_hits_count(p, p.len() as int),
        raw_denominator(p, p.len() as int),
        |sel: Seq<char>| raw_winner_count(p, p.len() as int, sel),
    )
}

/// A present single-sided view of `p`.
pub open spec fn raw_side_ok(o: Option<HitTestSideExplain>, p: Seq<HitTestPoint>) -> bool {
    match o {
        Some(v) => raw_view_ok(v, p),
        None => false,
    }
}

/// Present joint views of two equally long point lists.
pub open spec fn joint_sides_ok(h: HitTestExplain, op: Seq<HitTestPoint>, np: Seq<HitTestPoint>) -> bool {
    let n = op.len() as int;
    match (h.old, h.new) {
        (Some(vo), Some(vn)) => side_view_ok(
            vo,
            count_hits_old(op, np, n),
            count_surviving(op, np, n),
            |sel: Seq<char>| count_old_winner(op, np, n, sel),
        ) && side_view_ok(
            vn,
            count_hits_new(op, np, n),
            count_surviving(op, np, n),
            |sel: Seq<char>| count_new_winner(op, np, n, sel),
        ),
        _ => false,
    }
}

/// The hit-test section for the two sides' records.
pub open spec fn hit_section_ok(
    r: Option<HitTestExplain>,
    old: Option<HitTestEntryModel>,
    new: Option<HitTestEntryModel>,
) -> bool {
    match (sampled_spec(old), sampled_spec(new)) {
        (None, None) => r is None,
        (Some(op), None) => match r {
            Some(h) => h.new is None && raw_side_ok(h.old, op),
            None => false,
        },
        (None, Some(np)) => match r {
            Some(h) => h.old is None && raw_side_ok(h.new, np),
            None => false,
        },
        (Some(op), Some(np)) => match r {
            Some(h) => if op.len() == np.len() {
                joint_sides_ok(h, op, np)
            } else {
                raw_side_ok(h.old, op) && raw_side_ok(h.new, np)
            },
            None => false,
        },
    }
}

/// The sampled, non-empty point list of a hit-test record.
pub fn sampled_points(entry: Option<&HitTestEntry>) -> (r: Option<&[HitTestPoint]>)
    ensures
        match r {
            Some(p) => sampled_spec(
                match entry {
                    Some(e) => Some(e@),
                    None => None,
                },
            ) == Some(p@),
            None => sampled_spec(
                match entry {
                    Some(e) => Some(e@),
                    None => None,
                },
            ) is None,
        },
{
    match entry {
        Some(e) => {
            if e.status == HitTestStatus::Sampled {
                match &e.points {
                    Some(p) => {
                        if p.len() > 0 {
                            Some(p.as_slice())
                        } else {
                            None
                        }
                    },
                    None => None,
                }
            } else {
                None
            }
        },
        None => None,
    }
}

fn raw_hits_text(hits: u32, den: u32) -> (r: String)
    ensures
        r@ == dec(hits as nat) + "/"@ + dec(den as nat),
{
    let mut out = String::new();
    push_dec(&mut out, hits as u64);
    push_str(&mut out, "/");
    push_dec(&mut out, den as u64);
    out
}

proof fn lemma_raw_counts_bounded(p: Seq<HitTestPoint>, n: int, sel: Seq<char>)
    requires
        n >= 0,
    ensures
        raw_hits_count(p, n) <= n,
        raw_denominator(p, n) <= n,
        raw_winner_count(p, n, sel) <= n,
    decreases n,
{
    if n > 0 {
        lemma_raw_counts_bounded(p, n - 1, sel);
    }
}

/// The single-sided view of one point list: clipped and off-viewport points
/// are left out; there is no partner side to drop common misses against.
pub fn raw_side_explain(points: &[HitTestPoint]) -> (r: HitTestSideExplain)
    requires
        points@.len() <= u32::MAX,
    ensures
        raw_view_ok(r, points@),
{
    let ghost p = points@;
    let mut hits: u32 = 0;
    let mut denom: u32 = 0;
    let mut winners = SelectorCounts::new();
    let mut i: usize = 0;
    while i < points.len()
        invariant
            p == points@,
            p.len() <= u32::MAX,
            i <= p.len(),
            hits == raw_hits_count(p, i as int),
            denom == raw_denominator(p, i as int),
            counts_match(winners@, |sel: Seq<char>| raw_winner_count(p, i as int, sel)),
        decreases p.len() - i,
    {
        let ghost ii = i as int;
        proof {
            lemma_raw_counts_bounded(p, ii, seq![]);
        }
        match points[i].o {
            HitTestOutcome::Hit => {
                hits = hits + 1;
                denom = denom + 1;
                assert forall|sel: Seq<char>| raw_winner_count(p, ii + 1, sel) == raw_winner_count(p, ii, sel) by {}
            },
            HitTestOutcome::Miss => {
                denom = denom + 1;
                match &points[i].winner {
                    Some(w) => {
                        proof {
                            lemma_raw_counts_bounded(p, ii, w@);
                            assert forall|sel: Seq<char>| raw_winner_count(p, ii + 1, sel) == raw_winner_count(p, ii, sel)
                                + (if sel == w@ { 1nat } else { 0nat }) by {}
                        }
                        winners.add_one(w);
                    },
                    None => {
                        assert forall|sel: Seq<char>| raw_winner_count(p, ii + 1, sel) == raw_winner_count(p, ii, sel) by {}
                    },
                }
            },
            _ => {
                assert forall|sel: Seq<char>| raw_winner_count(p, ii + 1, sel) == raw_winner_count(p, ii, sel) by {}
            },
        }
        i = i + 1;
    }
    let miss_winners = format_miss_winners(&winners);
    HitTestSideExplain {
        fraction: format_fraction4(hits, denom),
        raw_hits: raw_hits_text(hits, denom),
        miss_winners,
    }
}

/// The hit-test section: the joint (exclusion- and both-miss-aware) view when
/// both sides have sampled grids of the same size, single-sided views
/// otherwise, and no section when neither side has sampled data.
pub fn build_hit_test_section(
    old_entry: Option<&HitTestEntry>,
    new_entry: Option<&HitTestEntry>,
) -> (r: Option<HitTestExplain>)
    requires
        old_entry matches Some(e) ==> (e.points matches Some(v) ==> v@.len() <= u32::MAX),
        new_entry matches Some(e) ==> (e.points matches Some(v) ==> v@.len() <= u32::MAX),
    ensures
        hit_section_ok(
            r,
            match old_entry {
                Some(e) => Some(e@),
                None => None,
            },
            match new_entry {
                Some(e) => Some(e@),
                None => None,
            },
        ),
{
    let old_points = sampled_points(old_entry);
    let new_points = sampled_points(new_entry);
    match (old_points, new_points) {
        (None, None) => None,
        (Some(op), None) => Some(HitTestExplain { old: Some(raw_side_explain(op)), new: None }),
        (None, Some(np)) => Some(HitTestExplain { old: None, new: Some(raw_side_explain(np)) }),
        (Some(op), Some(np)) => match tally_points(op, np) {
            Some(tally) => {
                let old_view = HitTestSideExplain {
                    fraction: format_fraction4(tally.hits_old, tally.denominator),
                    raw_hits: raw_hits_text(tally.hits_old, tally.denominator),
                    miss_winners: format_miss_winners(&tally.old_miss_winners),
                };
                let new_view = HitTestSideExplain {
                    fraction: format_fraction4(tally.hits_new, tally.denominator),
                    raw_hits: raw_hits_text(tally.hits_new, tally.denominator),
                    miss_winners: format_miss_winners(&tally.new_miss_winners),
                };
                Some(HitTestExplain { old: Some(old_view), new: Some(new_view) })
            },
            None => Some(
                HitTestExplain { old: Some(raw_side_explain(op)), new: Some(raw_side_explain(np)) },
            ),
        },
    }
}

// ---------------------------------------------------------------------------
// The report
// ---------------------------------------------------------------------------

/// The structured result of [`explain`].
#[derive(Debug)]
pub struct ExplainReport {
    pub old: SideResult,
    pub new: SideResult,
    /// Property rows in sorted order.
    pub rows: Vec<PropRow>,
    /// Describes the asymmetry when only one side resolved.
    pub asymmetry_message: Option<String>,
    /// The hit-test section, present when either side has sampled data.
    pub hit_test: Option<HitTestExplain>,
}

/// A node id, or `?` when there is none.
pub open spec fn id_or_unknown(o: Option<String>) -> Seq<char> {
    match o {
        Some(s) => s@,
        None => "?"@,
    }
}

/// The asymmetry message for two resolution outcomes.
pub open spec fn asymmetry_spec(old: SideResult, new: SideResult) -> Option<Seq<char>> {
    if old.status == ResolutionStatus::Resolved && new.status == ResolutionStatus::NotFound {
        Some("node present in OLD only (id: "@ + id_or_unknown(old.node_id)
            + ") — element may have been removed in new"@)
    } else if old.status == ResolutionStatus::NotFound && new.status == ResolutionStatus::Resolved {
        Some("node present in NEW only (id: "@ + id_or_unknown(new.node_id)
            + ") — element may have been added in new"@)
    } else {
        None
    }
}

/// The pseudo-properties that stand for a node's box.
pub open spec fn bbox_prop_names() -> Seq<Seq<char>> {
    seq!["bbox.x"@, "bbox.y"@, "bbox.w"@, "bbox.h"@]
}

/// The rows comparing two resolved sides.
pub open spec fn side_rows_ok(
    rows: Seq<PropRow>,
    old: SideResult,
    new: SideResult,
    props: Option<Seq<Seq<char>>>,
) -> bool {
    rows_ok(
        rows,
        bbox_styles(str_map_view(old.computed_styles@), old.bbox),
        bbox_styles(str_map_view(new.computed_styles@), new.bbox),
        bbox_prop_names(),
        props,
    )
}

fn id_text(o: &Option<String>) -> (r: String)
    ensures
        r@ == id_or_unknown(*o),
{
    match o {
        Some(s) => s.clone(),
        None => to_owned_string("?"),
    }
}

/// The rows comparing two resolved sides (styles plus box pseudo-properties).
pub fn build_rows(old_side: &SideResult, new_side: &SideResult, props: Option<&[String]>) -> (r: Vec<
    PropRow,
>)
    ensures
        side_rows_ok(
            r@,
            *old_side,
            *new_side,
            match props {
                Some(p) => Some(views(p@)),
                None => None,
            },
        ),
{
    let old_map = side_style_map(old_side);
    let new_map = side_style_map(new_side);
    let extra: [&str; 4] = ["bbox.x", "bbox.y", "bbox.w", "bbox.h"];
    let rows = diff_prop_rows(&old_map, &new_map, &extra, props);
    assert(extra@.map_values(|s: &str| s@) =~= bbox_prop_names());
    rows
}

/// Locates the node in each capture independently and compares it: the
/// property rows (differing properties only, unless `props` names them), a
/// note when only one side resolved, and the hit-test section.
pub fn explain(
    old_view: &CaptureView,
    new_view: &CaptureView,
    locator: &Locator,
    props: Option<&[String]>,
) -> (r: ExplainReport)
    requires
        old_view.hit_tests matches Some(m) ==> forall|k: Seq<char>|
            #[trigger] m@.dom().contains(k) ==> (m@[k]@.points matches Some(v) ==> v.len()
                <= u32::MAX),
        new_view.hit_tests matches Some(m) ==> forall|k: Seq<char>|
            #[trigger] m@.dom().contains(k) ==> (m@[k]@.points matches Some(v) ==> v.len()
                <= u32::MAX),
    ensures
        resolves_as(*old_view, *locator, r.old),
        resolves_as(*new_view, *locator, r.new),
        side_rows_ok(
            r.rows@,
            r.old,
            r.new,
            match props {
                Some(p) => Some(views(p@)),
                None => None,
            },
        ),
        match r.asymmetry_message {
            Some(m) => asymmetry_spec(r.old, r.new) == Some(m@),
            None => asymmetry_spec(r.old, r.new) is None,
        },
        hit_section_ok(
            r.hit_test,
            match r.old.hit_test {
                Some(e) => Some(e@),
                None => None,
            },
            match r.new.hit_test {
                Some(e) => Some(e@),
                None => None,
            },
        ),
{
    let old_side = resolve_side(old_view, locator);
    let new_side = resolve_side(new_view, locator);
    let rows = build_rows(&old_side, &new_side, props);
    let asymmetry_message = if old_side.status == ResolutionStatus::Resolved && new_side.status
        == ResolutionStatus::NotFound {
        let mut m = to_owned_string("node present in OLD only (id: ");
        push_str(&mut m, id_text(&old_side.node_id).as_str());
        push_str(&mut m, ") — element may have been removed in new");
        Some(m)
    } else if old_side.status == ResolutionStatus::NotFound && new_side.status
        == ResolutionStatus::Resolved {
        let mut m = to_owned_string("node present in NEW only (id: ");
        push_str(&mut m, id_text(&new_side.node_id).as_str());
        push_str(&mut m, ") — element may have been added in new");
        Some(m)
    } else {
        None
    };
    let hit_test = build_hit_test_section(old_side.hit_test.as_ref(), new_side.hit_test.as_ref());
    ExplainReport { old: old_side, new: new_side, rows, asymmetry_message, hit_test }
}

// ---------------------------------------------------------------------------
// Text rendering
// ---------------------------------------------------------------------------

/// Bytes of the UTF-8 encoding of a string, as `str::len` reports them.
pub open spec fn utf8_len(s: Seq<char>) -> nat {
    (vstd::utf8::encode_utf8(s).len() as usize) as nat
}

/// `n` copies of `c`.
pub open spec fn repeat_char(c: char, n: int) -> Seq<char> {
    Seq::new(if n > 0 { n as nat } else { 0 }, |i: int| c)
}

/// `s` left-aligned in a field `w` characters wide (`{:<w$}`).
pub open spec fn pad_right(s: Seq<char>, w: int) -> Seq<char> {
    s + repeat_char(' ', w - s.len())
}

/// The largest UTF-8 length of the chosen column over the rows, at least `min`.
pub open spec fn column_width(rows: Seq<PropRow>, col: int, min: nat) -> nat
    decreases rows.len(),
{
    if rows.len() == 0 {
        min
    } else {
        let w = utf8_len(
            if col == 0 {
                rows.last().property@
            } else if col == 1 {
                rows.last().old_value@
            } else {
                rows.last().new_value@
            },
        );
        let rest = column_width(rows.drop_last(), col, min);
        if w > rest {
            w
        } else {
            rest
        }
    }
}

/// Labels joined with `", "`.
pub open spec fn join_comma(v: Seq<Seq<char>>) -> Seq<char>
    decreases v.len(),
{
    if v.len() == 0 {
        seq![]
    } else if v.len() == 1 {
        v[0]
    } else {
        join_comma(v.drop_last()) + ", "@ + v.last()
    }
}

/// The owned-pseudo note of a side (empty when it owns none).
pub open spec fn owned_note_text(side: SideResult) -> Seq<char> {
    if side.owned_pseudo_slots@.len() == 0 {
        seq![]
    } else {
        "    pseudo-elements: "@ + join_comma(views(side.owned_pseudo_slots@)) + "\n"@
    }
}

/// The resolution lines of both sides.
pub open spec fn status_text(old: SideResult, new: SideResult) -> Seq<char> {
    let old_part = if old.status == ResolutionStatus::Resolved {
        "old: resolved  node="@ + id_or_unknown(old.node_id) + "\n"@ + owned_note_text(old)
    } else {
        "old: NOT FOUND\n"@
    };
    let new_part = if new.status == ResolutionStatus::Resolved {
        "new: resolved  node="@ + id_or_unknown(new.node_id) + "\n"@ + owned_note_text(new)
    } else {
        "new: NOT FOUND\n"@
    };
    old_part + new_part
}

/// One side's hit-test line.
pub open spec fn hit_side_text(label: Seq<char>, v: Option<HitTestSideExplain>) -> Seq<char> {
    match v {
        None => "  "@ + label + ": <absent>\n"@,
        Some(v) => "  "@ + label + ": fraction="@ + v.fraction@ + " rawHits="@ + v.raw_hits@
            + " missWinners="@ + (if v.miss_winners@.len() == 0 {
            "(none)"@
        } else {
            v.miss_winners@
        }) + "\n"@,
    }
}

/// The hit-test section text (empty when there is no section).
pub open spec fn hit_section_text(h: Option<HitTestExplain>) -> Seq<char> {
    match h {
        None => seq![],
        Some(h) => "hit-test (clickable-area):\n"@ + hit_side_text("old"@, h.old) + hit_side_text(
            "new"@,
            h.new,
        ) + "\n"@,
    }
}

/// One table line.
pub open spec fn table_line(a: Seq<char>, b: Seq<char>, c: Seq<char>, d: Seq<char>, wa: int, wb: int, wc: int) -> Seq<char> {
    pad_right(a, wa) + "  "@ + pad_right(b, wb) + "  "@ + pad_right(c, wc) + "  "@ + d + "\n"@
}

/// The row lines of the table.
pub open spec fn row_lines(rows: Seq<PropRow>, wa: int, wb: int, wc: int) -> Seq<char>
    decreases rows.len(),
{
    if rows.len() == 0 {
        seq![]
    } else {
        let r = rows.last();
        row_lines(rows.drop_last(), wa, wb, wc) + table_line(
            r.property@,
            r.old_value@,
            r.new_value@,
            if r.changed {
                "CHANGED"@
            } else {
                seq![]
            },
            wa,
            wb,
            wc,
        )
    }
}

/// The property table (or the note that there is nothing to show).
pub open spec fn table_text(rows: Seq<PropRow>) -> Seq<char> {
    if rows.len() == 0 {
        "(no properties to display)\n"@
    } else {
        let wa = column_width(rows, 0, 8) as int;
        let wb = column_width(rows, 1, 3) as int;
        let wc = column_width(rows, 2, 3) as int;
        table_line("property"@, "old"@, "new"@, "changed?"@, wa, wb, wc) + repeat_char('-', wa)
            + "  "@ + repeat_char('-', wb) + "  "@ + repeat_char('-', wc) + "  --------\n"@
            + row_lines(rows, wa, wb, wc)
    }
}

/// The whole human-readable report.
pub open spec fn report_text(report: ExplainReport, locator: Seq<char>) -> Seq<char> {
    "matchy explain — locator: "@ + locator + "\n\n"@ + status_text(report.old, report.new)
        + match report.asymmetry_message {
        Some(m) => "\nNOTE: "@ + m@ + "\n"@,
        None => seq![],
    } + "\n"@ + hit_section_text(report.hit_test) + table_text(report.rows@)
}

proof fn lemma_contains_self(t: Seq<char>)
    ensures
        contains_seq(t, t),
{
    assert(t.subrange(0, t.len() as int) =~= t);
    assert(occurs_at(t, t, 0));
}

proof fn lemma_contains_left(x: Seq<char>, s: Seq<char>, t: Seq<char>)
    requires
        contains_seq(s, t),
    ensures
        contains_seq(x + s, t),
{
    let i = choose|i: int| occurs_at(s, t, i);
    assert((x + s).subrange(x.len() + i, x.len() + i + t.len()) =~= s.subrange(i, i + t.len()));
    assert(occurs_at(x + s, t, x.len() + i));
}

proof fn lemma_contains_right(s: Seq<char>, y: Seq<char>, t: Seq<char>)
    requires
        contains_seq(s, t),
    ensures
        contains_seq(s + y, t),
{
    let i = choose|i: int| occurs_at(s, t, i);
    assert((s + y).subrange(i, i + t.len()) =~= s.subrange(i, i + t.len()));
    assert(occurs_at(s + y, t, i));
}

/// What the report shows, section by section: the resolution line of a
/// resolved side followed by its owned pseudo-elements (a line only when it
/// owns some), the asymmetry note, the hit-test section with a line per side
/// (`<absent>` for a side without data), and the property table at the end.
#[verifier::spinoff_prover]
#[verifier::rlimit(40)]
pub proof fn lemma_report_sections(r: ExplainReport, l: Seq<char>)
    ensures
        r.old.status == ResolutionStatus::Resolved ==> contains_seq(
            report_text(r, l),
            "old: resolved  node="@ + id_or_unknown(r.old.node_id) + "\n"@ + owned_note_text(r.old),
        ),
        r.new.status == ResolutionStatus::Resolved ==> contains_seq(
            report_text(r, l),
            "new: resolved  node="@ + id_or_unknown(r.new.node_id) + "\n"@ + owned_note_text(r.new),
        ),
        r.old.owned_pseudo_slots@.len() == 0 ==> owned_note_text(r.old) == Seq::<char>::empty(),
        r.old.owned_pseudo_slots@.len() > 0 ==> owned_note_text(r.old) == "    pseudo-elements: "@ + join_comma(
            views(r.old.owned_pseudo_slots@),
        ) + "\n"@,
        r.asymmetry_message matches Some(m) ==> contains_seq(report_text(r, l), "\nNOTE: "@ + m@ + "\n"@),
        r.hit_test matches Some(h) ==> contains_seq(
            report_text(r, l),
            "hit-test (clickable-area):\n"@ + hit_side_text("old"@, h.old) + hit_side_text("new"@, h.new),
        ),
        hit_side_text("new"@, None) == "  new: <absent>\n"@,
        hit_side_text("old"@, None) == "  old: <absent>\n"@,
        is_suffix(table_text(r.rows@), report_text(r, l)),
{
    let head = "matchy explain \u{2014} locator: "@ + l + "\n\n"@;
    let st = status_text(r.old, r.new);
    let note = match r.asymmetry_message {
        Some(m) => "\nNOTE: "@ + m@ + "\n"@,
        None => seq![],
    };
    let hit = hit_section_text(r.hit_test);
    let table = table_text(r.rows@);
    let s = report_text(r, l);
    let a1 = head + st;
    let a2 = a1 + note;
    let a3 = a2 + "\n"@;
    let a4 = a3 + hit;
    assert(s == a4 + table);
    if r.old.status == ResolutionStatus::Resolved {
        let t = "old: resolved  node="@ + id_or_unknown(r.old.node_id) + "\n"@ + owned_note_text(r.old);
        let newp = if r.new.status == ResolutionStatus::Resolved {
            "new: resolved  node="@ + id_or_unknown(r.new.node_id) + "\n"@ + owned_note_text(r.new)
        } else {
            "new: NOT FOUND\n"@
        };
        assert(st == t + newp);
        lemma_contains_self(t);
        lemma_contains_right(t, newp, t);
        lemma_contains_left(head, st, t);
        lemma_contains_right(a1, note, t);
        lemma_contains_right(a2, "\n"@, t);
        lemma_contains_right(a3, hit, t);
        lemma_contains_right(a4, table, t);
    }
    if r.new.status == ResolutionStatus::Resolved {
        let t = "new: resolved  node="@ + id_or_unknown(r.new.node_id) + "\n"@ + owned_note_text(r.new);
        let oldp = if r.old.status == ResolutionStatus::Resolved {
            "old: resolved  node="@ + id_or_unknown(r.old.node_id) + "\n"@ + owned_note_text(r.old)
        } else {
            "old: NOT FOUND\n"@
        };
        assert(st == oldp + t);
        lemma_contains_self(t);
        lemma_contains_left(oldp, t, t);
        lemma_contains_left(head, st, t);
        lemma_contains_right(a1, note, t);
        lemma_contains_right(a2, "\n"@, t);
        lemma_contains_right(a3, hit, t);
        lemma_contains_right(a4, table, t);
    }
    if r.asymmetry_message is Some {
        lemma_contains_self(note);
        lemma_contains_left(a1, note, note);
        lemma_contains_right(a2, "\n"@, note);
        lemma_contains_right(a3, hit, note);
        lemma_contains_right(a4, table, note);
    }
    match r.hit_test {
        Some(h) => {
            let sec = "hit-test (clickable-area):\n"@ + hit_side_text("old"@, h.old) + hit_side_text("new"@, h.new);
            assert(hit == sec + "\n"@);
            lemma_contains_self(sec);
            lemma_contains_right(sec, "\n"@, sec);
            lemma_contains_left(a3, hit, sec);
            lemma_contains_right(a4, table, sec);
        },
        None => {},
    }
    assert(s.skip(s.len() - table.len()) =~= table);
    reveal_strlit("  ");
    reveal_strlit("new");
    reveal_strlit("old");
    reveal_strlit(": <absent>\n");
    reveal_strlit("  new: <absent>\n");
    reveal_strlit("  old: <absent>\n");
    assert(hit_side_text("new"@, None) =~= "  new: <absent>\n"@);
    assert(hit_side_text("old"@, None) =~= "  old: <absent>\n"@);
}

/// Without hit-test data the report prints no hit-test section: it is the
/// title line, the resolution lines, the asymmetry note when there is one,
/// a blank line and the property table, nothing else.
pub proof fn lemma_report_without_hit_test(r: ExplainReport, l: Seq<char>)
    requires
        r.hit_test is None,
    ensures
        report_text(r, l) == "matchy explain \u{2014} locator: "@ + l + "\n\n"@ + status_text(r.old, r.new)
            + match r.asymmetry_message {
            Some(m) => "\nNOTE: "@ + m@ + "\n"@,
            None => seq![],
        } + "\n"@ + table_text(r.rows@),
{
    let x = "matchy explain \u{2014} locator: "@ + l + "\n\n"@ + status_text(r.old, r.new) + match r.asymmetry_message {
        Some(m) => "\nNOTE: "@ + m@ + "\n"@,
        None => seq![],
    } + "\n"@;
    assert(hit_section_text(r.hit_test) == Seq::<char>::empty());
    assert(x + Seq::<char>::empty() =~= x);
}

/// One line of the property table: the property, old and new values padded
/// to their columns, and `CHANGED` for a changed row.
pub open spec fn row_line(row: PropRow, wa: int, wb: int, wc: int) -> Seq<char> {
    table_line(
        row.property@,
        row.old_value@,
        row.new_value@,
        if row.changed {
            "CHANGED"@
        } else {
            seq![]
        },
        wa,
        wb,
        wc,
    )
}

/// The separator line of the property table: runs of `-` as wide as the
/// columns, two spaces apart.
pub open spec fn separator_line(wa: int, wb: int, wc: int) -> Seq<char> {
    repeat_char('-', wa) + "  "@ + repeat_char('-', wb) + "  "@ + repeat_char('-', wc) + "  --------\n"@
}

proof fn lemma_prefix_of_concat(p: Seq<char>, rest: Seq<char>)
    ensures
        is_prefix(p, p + rest),
{
    assert((p + rest).take(p.len() as int) =~= p);
}

proof fn lemma_suffix_of_concat(front: Seq<char>, q: Seq<char>)
    ensures
        is_suffix(q, front + q),
{
    assert((front + q).skip((front + q).len() - q.len()) =~= q);
}

/// The layout of a non-empty property table: a header line starting with
/// `property` and ending with `changed?`, the separator line, then one line
/// per row in order, each starting with the row's property and ending with
/// two spaces and `CHANGED` for a changed row (nothing after the two spaces
/// otherwise).
pub proof fn lemma_table_layout(rows: Seq<PropRow>)
    requires
        rows.len() > 0,
    ensures
        ({
            let wa = column_width(rows, 0, 8) as int;
            let wb = column_width(rows, 1, 3) as int;
            let wc = column_width(rows, 2, 3) as int;
            let header = table_line("property"@, "old"@, "new"@, "changed?"@, wa, wb, wc);
            &&& table_text(rows) == header + separator_line(wa, wb, wc) + row_lines(rows, wa, wb, wc)
            &&& is_prefix("property"@, header)
            &&& is_suffix("  "@ + "changed?"@ + "\n"@, header)
            &&& row_lines(rows.take(0), wa, wb, wc) == Seq::<char>::empty()
            &&& row_lines(rows.take(rows.len() as int), wa, wb, wc) == row_lines(rows, wa, wb, wc)
            &&& forall|k: int|
                0 <= k < rows.len() ==> row_lines(#[trigger] rows.take(k + 1), wa, wb, wc) == row_lines(
                    rows.take(k),
                    wa,
                    wb,
                    wc,
                ) + row_line(rows[k], wa, wb, wc)
            &&& forall|k: int|
                0 <= k < rows.len() ==> is_prefix(rows[k].property@, #[trigger] row_line(rows[k], wa, wb, wc))
                    && is_suffix(
                    "  "@ + (if rows[k].changed {
                        "CHANGED"@
                    } else {
                        seq![]
                    }) + "\n"@,
                    row_line(rows[k], wa, wb, wc),
                )
        }),
{
    let wa = column_width(rows, 0, 8) as int;
    let wb = column_width(rows, 1, 3) as int;
    let wc = column_width(rows, 2, 3) as int;
    lemma_header_shape(wa, wb, wc);
    assert(rows.take(rows.len() as int) =~= rows);
    assert(rows.take(0) =~= Seq::<PropRow>::empty());
    assert forall|k: int| 0 <= k < rows.len() implies row_lines(#[trigger] rows.take(k + 1), wa, wb, wc)
        == row_lines(rows.take(k), wa, wb, wc) + row_line(rows[k], wa, wb, wc) by {
        assert(rows.take(k + 1).drop_last() =~= rows.take(k));
    }
    assert forall|k: int| 0 <= k < rows.len() implies is_prefix(rows[k].property@, #[trigger] row_line(rows[k], wa, wb, wc))
        && is_suffix(
        "  "@ + (if rows[k].changed {
            "CHANGED"@
        } else {
            seq![]
        }) + "\n"@,
        row_line(rows[k], wa, wb, wc),
    ) by {
        lemma_row_line_shape(rows[k], wa, wb, wc);
    }
}

proof fn lemma_header_shape(wa: int, wb: int, wc: int)
    ensures
        is_prefix("property"@, table_line("property"@, "old"@, "new"@, "changed?"@, wa, wb, wc)),
        is_suffix("  "@ + "changed?"@ + "\n"@, table_line("property"@, "old"@, "new"@, "changed?"@, wa, wb, wc)),
{
    let header = table_line("property"@, "old"@, "new"@, "changed?"@, wa, wb, wc);
    let rest = repeat_char(' ', wa - "property"@.len()) + "  "@ + pad_right("old"@, wb) + "  "@ + pad_right("new"@, wc)
        + "  "@ + "changed?"@ + "\n"@;
    assert(header =~= "property"@ + rest);
    lemma_prefix_of_concat("property"@, rest);
    let front = pad_right("property"@, wa) + "  "@ + pad_right("old"@, wb) + "  "@ + pad_right("new"@, wc);
    assert(header =~= front + ("  "@ + "changed?"@ + "\n"@));
    lemma_suffix_of_concat(front, "  "@ + "changed?"@ + "\n"@);
}

proof fn lemma_row_line_shape(rw: PropRow, wa: int, wb: int, wc: int)
    ensures
        is_prefix(rw.property@, row_line(rw, wa, wb, wc)),
        is_suffix(
            "  "@ + (if rw.changed {
                "CHANGED"@
            } else {
                seq![]
            }) + "\n"@,
            row_line(rw, wa, wb, wc),
        ),
{
    let d = if rw.changed {
        "CHANGED"@
    } else {
        seq![]
    };
    let line = row_line(rw, wa, wb, wc);
    let rest = repeat_char(' ', wa - rw.property@.len()) + "  "@ + pad_right(rw.old_value@, wb) + "  "@ + pad_right(
        rw.new_value@,
        wc,
    ) + "  "@ + d + "\n"@;
    assert(line =~= rw.property@ + rest);
    lemma_prefix_of_concat(rw.property@, rest);
    let front = pad_right(rw.property@, wa) + "  "@ + pad_right(rw.old_value@, wb) + "  "@ + pad_right(rw.new_value@, wc);
    assert(line =~= front + ("  "@ + d + "\n"@));
    lemma_suffix_of_concat(front, "  "@ + d + "\n"@);
}

fn utf8_width(s: &str) -> (r: usize)
    ensures
        r == utf8_len(s@),
{
    s.len()
}

pub fn push_repeat(out: &mut String, c: char, n: usize)
    ensures
        final(out)@ == old(out)@ + repeat_char(c, n as int),
{
    let mut i: usize = 0;
    let ghost start = out@;
    while i < n
        invariant
            i <= n,
            out@ == start + repeat_char(c, i as int),
        decreases n - i,
    {
        crate::text::push_char(out, c);
        i = i + 1;
        assert(out@ =~= start + repeat_char(c, i as int));
    }
}

pub fn push_padded(out: &mut String, s: &str, w: usize)
    ensures
        final(out)@ == old(out)@ + pad_right(s@, w as int),
{
    let cs = chars_of(s);
    push_str(out, s);
    if cs.len() < w {
        push_repeat(out, ' ', w - cs.len());
    } else {
        assert(repeat_char(' ', w - s@.len()) =~= Seq::<char>::empty());
    }
}

fn push_table_line(out: &mut String, a: &str, b: &str, c: &str, d: &str, wa: usize, wb: usize, wc: usize)
    ensures
        final(out)@ == old(out)@ + table_line(a@, b@, c@, d@, wa as int, wb as int, wc as int),
{
    let ghost start = out@;
    push_padded(out, a, wa);
    push_str(out, "  ");
    push_padded(out, b, wb);
    push_str(out, "  ");
    push_padded(out, c, wc);
    push_str(out, "  ");
    push_str(out, d);
    push_str(out, "\n");
    assert(out@ =~= start + table_line(a@, b@, c@, d@, wa as int, wb as int, wc as int));
}

fn column_width_exec(rows: &Vec<PropRow>, col: usize, min: usize) -> (r: usize)
    requires
        col <= 2,
        min <= 8,
    ensures
        r == column_width(rows@, col as int, min as nat),
{
    let mut w: usize = min;
    let mut i: usize = 0;
    while i < rows.len()
        invariant
            col <= 2,
            i <= rows@.len(),
            w == column_width(rows@.take(i as int), col as int, min as nat),
        decreases rows.len() - i,
    {
        assert(rows@.take(i + 1).drop_last() =~= rows@.take(i as int));
        let len = if col == 0 {
            utf8_width(rows[i].property.as_str())
        } else if col == 1 {
            utf8_width(rows[i].old_value.as_str())
        } else {
            utf8_width(rows[i].new_value.as_str())
        };
        if len > w {
            w = len;
        }
        i = i + 1;
    }
    assert(rows@.take(rows@.len() as int) =~= rows@);
    w
}

fn push_table(out: &mut String, rows: &Vec<PropRow>)
    ensures
        final(out)@ == old(out)@ + table_text(rows@),
{
    if rows.len() == 0 {
        push_str(out, "(no properties to display)\n");
        return;
    }
    let ghost start = out@;
    let wa = column_width_exec(rows, 0, 8);
    let wb = column_width_exec(rows, 1, 3);
    let wc = column_width_exec(rows, 2, 3);
    push_table_line(out, "property", "old", "new", "changed?", wa, wb, wc);
    push_repeat(out, '-', wa);
    push_str(out, "  ");
    push_repeat(out, '-', wb);
    push_str(out, "  ");
    push_repeat(out, '-', wc);
    push_str(out, "  --------\n");
    let ghost head = out@;
    let mut i: usize = 0;
    while i < rows.len()
        invariant
            i <= rows@.len(),
            out@ == head + row_lines(rows@.take(i as int), wa as int, wb as int, wc as int),
        decreases rows.len() - i,
    {
        assert(rows@.take(i + 1).drop_last() =~= rows@.take(i as int));
        let changed = if rows[i].changed {
            "CHANGED"
        } else {
            ""
        };
        proof {
            reveal_strlit("");
        }
        push_table_line(
            out,
            rows[i].property.as_str(),
            rows[i].old_value.as_str(),
            rows[i].new_value.as_str(),
            changed,
            wa,
            wb,
            wc,
        );
        i = i + 1;
        assert(out@ =~= head + row_lines(rows@.take(i as int), wa as int, wb as int, wc as int));
    }
    assert(rows@.take(rows@.len() as int) =~= rows@);
    assert(out@ =~= start + table_text(rows@));
}

fn push_owned_pseudo_note(out: &mut String, side: &SideResult)
    ensures
        final(out)@ == old(out)@ + owned_note_text(*side),
{
    if side.owned_pseudo_slots.len() == 0 {
        assert(old(out)@ + owned_note_text(*side) =~= old(out)@);
        return;
    }
    let ghost start = out@;
    let ghost labels = views(side.owned_pseudo_slots@);
    push_str(out, "    pseudo-elements: ");
    let ghost mid = out@;
    let mut i: usize = 0;
    while i < side.owned_pseudo_slots.len()
        invariant
            labels == views(side.owned_pseudo_slots@),
            i <= labels.len(),
            out@ == mid + join_comma(labels.take(i as int)),
        decreases side.owned_pseudo_slots.len() - i,
    {
        assert(labels.take(i + 1).drop_last() =~= labels.take(i as int));
        if i > 0 {
            push_str(out, ", ");
        }
        push_str(out, side.owned_pseudo_slots[i].as_str());
        proof {
            if i == 0 {
                assert(labels.take(0) =~= Seq::<Seq<char>>::empty());
            }
        }
        assert(out@ =~= mid + join_comma(labels.take(i + 1)));
        i = i + 1;
    }
    assert(labels.take(labels.len() as int) =~= labels);
    push_str(out, "\n");
    assert(out@ =~= start + owned_note_text(*side));
}

fn push_hit_test_side(out: &mut String, side: &str, view: &Option<HitTestSideExplain>)
    ensures
        final(out)@ == old(out)@ + hit_side_text(side@, *view),
{
    let ghost start = out@;
    push_str(out, "  ");
    push_str(out, side);
    match view {
        None => {
            push_str(out, ": <absent>\n");
        },
        Some(v) => {
            push_str(out, ": fraction=");
            push_str(out, v.fraction.as_str());
            push_str(out, " rawHits=");
            push_str(out, v.raw_hits.as_str());
            push_str(out, " missWinners=");
            if v.miss_winners.as_str().is_empty() {
                push_str(out, "(none)");
            } else {
                push_str(out, v.miss_winners.as_str());
            }
            push_str(out, "\n");
        },
    }
    assert(out@ =~= start + hit_side_text(side@, *view));
}

fn push_hit_test_section(out: &mut String, hit_test: &Option<HitTestExplain>)
    ensures
        final(out)@ == old(out)@ + hit_section_text(*hit_test),
{
    match hit_test {
        None => {
            assert(old(out)@ + hit_section_text(*hit_test) =~= old(out)@);
        },
        Some(ht) => {
            let ghost start = out@;
            push_str(out, "hit-test (clickable-area):\n");
            push_hit_test_side(out, "old", &ht.old);
            push_hit_test_side(out, "new", &ht.new);
            push_str(out, "\n");
            assert(out@ =~= start + hit_section_text(*hit_test));
        },
    }
}

fn push_resolved_line(out: &mut String, label: &str, side: &SideResult)
    ensures
        final(out)@ == old(out)@ + label@ + ": resolved  node="@ + id_or_unknown(side.node_id) + "\n"@
            + owned_note_text(*side),
{
    let ghost start = out@;
    push_str(out, label);
    push_str(out, ": resolved  node=");
    push_str(out, id_text(&side.node_id).as_str());
    push_str(out, "\n");
    push_owned_pseudo_note(out, side);
    assert(out@ =~= start + label@ + ": resolved  node="@ + id_or_unknown(side.node_id) + "\n"@
        + owned_note_text(*side));
}

fn push_status(out: &mut String, report: &ExplainReport)
    ensures
        final(out)@ == old(out)@ + status_text(report.old, report.new),
{
    let ghost start = out@;
    if report.old.status == ResolutionStatus::Resolved {
        push_resolved_line(out, "old", &report.old);
    } else {
        push_str(out, "old: NOT FOUND\n");
    }
    let ghost mid = out@;
    if report.new.status == ResolutionStatus::Resolved {
        push_resolved_line(out, "new", &report.new);
    } else {
        push_str(out, "new: NOT FOUND\n");
    }
    proof {
        reveal_strlit("old");
        reveal_strlit("new");
        reveal_strlit("old: resolved  node=");
        reveal_strlit(": resolved  node=");
        reveal_strlit("new: resolved  node=");
    }
    assert(out@ =~= start + status_text(report.old, report.new));
}

/// Renders the report as a human-readable table.
pub fn format_report(report: &ExplainReport, locator_str: &str) -> (r: String)
    ensures
        r@ == report_text(*report, locator_str@),
{
    let mut out = to_owned_string("matchy explain — locator: ");
    push_str(&mut out, locator_str);
    push_str(&mut out, "\n\n");
    let ghost after_header = out@;
    push_status(&mut out, report);
    let ghost after_status = out@;
    match &report.asymmetry_message {
        Some(msg) => {
            push_str(&mut out, "\nNOTE: ");
            push_str(&mut out, msg.as_str());
            push_str(&mut out, "\n");
        },
        None => {},
    }
    let ghost after_note = out@;
    push_str(&mut out, "\n");
    push_hit_test_section(&mut out, &report.hit_test);
    push_table(&mut out, &report.rows);
    assert(out@ =~= report_text(*report, locator_str@));
    out
}

} // verus!

//! The rule-set diff behind the accessibility issues: axe rule ids that fail
//! only on the new page are regressions, those that failed only on the old
//! page are improvements; plus the helpers that pick the violation and node
//! an issue is anchored to and cap the HTML snippets of the evidence;
//! `a11y_issues` assembles the issues.
use vstd::prelude::*;

use crate::contract::{insert_sorted, opt_view, strictly_sorted, views, Anchors, IssueCategory, IssueType, SemanticNode};
use crate::drafts::{
    draft_head, fields_view, make_draft, text_field, text_leaf, IssueDraft, JsonField, JsonLeaf, LeafModel,
    SeverityProfile,
};
use crate::hygiene::is_page_locator;
use crate::network_diff::{anchors_of_node, node_to_anchors, null_anchors, null_locator};
use crate::text::{chars_of, dec, push_dec, push_str, seq_lt, str_eq, to_owned_string};

verus! {

/// The rule ids present among the violations' ids.
pub open spec fn rule_present(ids: Seq<Option<String>>, x: Seq<char>) -> bool {
    exists|i: int| 0 <= i < ids.len() && #[trigger] opt_view(ids[i]) == Some(x)
}

/// The sorted set of rule ids of a page's violations (violations without an
/// id are ignored).
pub fn rule_set(ids: &[Option<String>]) -> (r: Vec<String>)
    ensures
        strictly_sorted(views(r@)),
        forall|x: Seq<char>| views(r@).contains(x) <==> rule_present(ids@, x),
{
    let mut r: Vec<String> = Vec::new();
    let mut i: usize = 0;
    while i < ids.len()
        invariant
            i <= ids@.len(),
            strictly_sorted(views(r@)),
            forall|x: Seq<char>| views(r@).contains(x) <==> rule_present(ids@.take(i as int), x),
        decreases ids.len() - i,
    {
        let ghost before = views(r@);
        match &ids[i] {
            Some(id) => insert_sorted(&mut r, id),
            None => {},
        }
        proof {
            let t0 = ids@.take(i as int);
            let t1 = ids@.take(i + 1);
            assert forall|x: Seq<char>| views(r@).contains(x) <==> rule_present(t1, x) by {
                if rule_present(t1, x) {
                    let k = choose|k: int| 0 <= k < t1.len() && #[trigger] opt_view(t1[k]) == Some(x);
                    if k < i {
                        assert(t0[k] == t1[k]);
                        assert(rule_present(t0, x));
                    }
                }
                if rule_present(t0, x) {
                    let k = choose|k: int| 0 <= k < t0.len() && #[trigger] opt_view(t0[k]) == Some(x);
                    assert(t0[k] == t1[k]);
                    assert(rule_present(t1, x));
                }
                if opt_view(ids@[i as int]) == Some(x) {
                    assert(t1[i as int] == ids@[i as int]);
                    assert(rule_present(t1, x));
                }
            }
        }
        i = i + 1;
    }
    assert(ids@.take(ids@.len() as int) =~= ids@);
    r
}

fn contains_rule(v: &Vec<String>, k: &str) -> (r: bool)
    ensures
        r == views(v@).contains(k@),
{
    let mut i: usize = 0;
    while i < v.len()
        invariant
            i <= v@.len(),
            forall|q: int| 0 <= q < i ==> (#[trigger] v@[q])@ != k@,
        decreases v.len() - i,
    {
        if str_eq(v[i].as_str(), k) {
            assert(views(v@)[i as int] == k@);
            return true;
        }
        i = i + 1;
    }
    proof {
        if views(v@).contains(k@) {
            let q = choose|q: int| 0 <= q < views(v@).len() && views(v@)[q] == k@;
            assert(v@[q]@ == k@);
        }
    }
    false
}

proof fn lemma_push_contains(s: Seq<Seq<char>>, v: Seq<char>, x: Seq<char>)
    ensures
        s.push(v).contains(x) <==> (s.contains(x) || x == v),
{
    let t = s.push(v);
    if t.contains(x) {
        let w = choose|w: int| 0 <= w < t.len() && t[w] == x;
        if w < s.len() {
            assert(s[w] == x);
        }
    }
    if s.contains(x) {
        let w = choose|w: int| 0 <= w < s.len() && s[w] == x;
        assert(t[w] == x);
    }
    if x == v {
        assert(t[s.len() as int] == v);
    }
}

/// The rules of `a` that are not in `b`, in the (ascending) order of `a`.
pub fn rule_difference(a: &Vec<String>, b: &Vec<String>) -> (r: Vec<String>)
    requires
        strictly_sorted(views(a@)),
    ensures
        strictly_sorted(views(r@)),
        forall|x: Seq<char>| views(r@).contains(x) <==> (views(a@).contains(x) && !views(b@).contains(x)),
{
    let mut r: Vec<String> = Vec::new();
    let mut i: usize = 0;
    while i < a.len()
        invariant
            i <= a@.len(),
            strictly_sorted(views(a@)),
            strictly_sorted(views(r@)),
            forall|k: int|
                0 <= k < r@.len() ==> exists|q: int| 0 <= q < i && views(a@)[q] == #[trigger] views(r@)[k],
            forall|x: Seq<char>|
                views(r@).contains(x) <==> (views(a@).take(i as int).contains(x) && !views(b@).contains(x)),
        decreases a.len() - i,
    {
        let ghost before = r@;
        let ghost ta = views(a@).take(i as int);
        let ghost tb = views(a@).take(i + 1);
        if !contains_rule(b, a[i].as_str()) {
            r.push(a[i].clone());
            proof {
                assert(views(r@) =~= views(before).push(a@[i as int]@));
                assert forall|p: int, q: int| 0 <= p < q < views(r@).len() implies seq_lt(
                    views(r@)[p],
                    views(r@)[q],
                ) by {
                    if q == views(r@).len() - 1 {
                        let w = choose|w: int| 0 <= w < i && views(a@)[w] == #[trigger] views(before)[p];
                        assert(views(r@)[p] == views(before)[p]);
                        assert(views(a@)[i as int] == a@[i as int]@);
                    } else {
                        assert(views(r@)[p] == views(before)[p] && views(r@)[q] == views(before)[q]);
                    }
                }
                assert forall|k: int| 0 <= k < r@.len() implies exists|q: int|
                    0 <= q < i + 1 && views(a@)[q] == #[trigger] views(r@)[k] by {
                    if k < before.len() {
                        assert(views(r@)[k] == views(before)[k]);
                        let w = choose|w: int| 0 <= w < i && views(a@)[w] == #[trigger] views(before)[k];
                    } else {
                        assert(views(a@)[i as int] == views(r@)[k]);
                    }
                }
            }
        }
        proof {
            assert(tb =~= ta.push(views(a@)[i as int]));
            assert(views(a@)[i as int] == a@[i as int]@);
            let ai = views(a@)[i as int];
            if views(r@).len() > views(before).len() {
                assert(views(r@) =~= views(before).push(ai));
                assert forall|x: Seq<char>| views(r@).contains(x) <==> (tb.contains(x)
                    && !views(b@).contains(x)) by {
                    lemma_push_contains(views(before), ai, x);
                    lemma_push_contains(ta, ai, x);
                }
            } else {
                assert(views(r@) =~= views(before));
                assert forall|x: Seq<char>| views(r@).contains(x) <==> (tb.contains(x)
                    && !views(b@).contains(x)) by {
                    lemma_push_contains(ta, ai, x);
                }
            }
        }
        i = i + 1;
    }
    assert(views(a@).take(a@.len() as int) =~= views(a@));
    r
}

/// The first violation carrying rule id `rule` (the one an issue reports).
pub fn first_violation_for(ids: &[Option<String>], rule: &str) -> (r: Option<usize>)
    ensures
        match r {
            Some(i) => i < ids@.len() && opt_view(ids@[i as int]) == Some(rule@) && forall|k: int|
                0 <= k < i ==> opt_view(#[trigger] ids@[k]) != Some(rule@),
            None => !rule_present(ids@, rule@),
        },
{
    let mut i: usize = 0;
    while i < ids.len()
        invariant
            i <= ids@.len(),
            forall|k: int| 0 <= k < i ==> opt_view(#[trigger] ids@[k]) != Some(rule@),
        decreases ids.len() - i,
    {
        match &ids[i] {
            Some(id) => {
                if str_eq(id.as_str(), rule) {
                    return Some(i);
                }
            },
            None => {},
        }
        i = i + 1;
    }
    None
}

/// The first node whose CSS selector is `sel` (the node an issue is
/// anchored to).
pub fn find_node_by_selector(nodes: &[SemanticNode], sel: &str) -> (r: Option<usize>)
    ensures
        match r {
            Some(i) => i < nodes@.len() && opt_view(nodes@[i as int].css_selector) == Some(sel@)
                && forall|k: int|
                0 <= k < i ==> opt_view(#[trigger] nodes@[k].css_selector) != Some(sel@),
            None => forall|k: int|
                0 <= k < nodes@.len() ==> opt_view(#[trigger] nodes@[k].css_selector) != Some(sel@),
        },
{
    let mut i: usize = 0;
    while i < nodes.len()
        invariant
            i <= nodes@.len(),
            forall|k: int| 0 <= k < i ==> opt_view(#[trigger] nodes@[k].css_selector) != Some(sel@),
        decreases nodes.len() - i,
    {
        match &nodes[i].css_selector {
            Some(s) => {
                if str_eq(s.as_str(), sel) {
                    return Some(i);
                }
            },
            None => {},
        }
        i = i + 1;
    }
    None
}

/// The most characters of HTML an evidence snippet keeps.
pub const HTML_SNIPPET_MAX: usize = 500;

/// An HTML snippet cut to its first 500 characters.
pub fn cap_html(html: &str) -> (r: String)
    ensures
        r@ == if html@.len() <= HTML_SNIPPET_MAX {
            html@
        } else {
            html@.take(HTML_SNIPPET_MAX as int)
        },
{
    let cs = chars_of(html);
    if cs.len() <= HTML_SNIPPET_MAX {
        return crate::text::to_owned_string(html);
    }
    assert(cs@.subrange(0, HTML_SNIPPET_MAX as int) =~= html@.take(HTML_SNIPPET_MAX as int));
    crate::text::chars_slice_string(cs.as_slice(), 0, HTML_SNIPPET_MAX)
}

// ---------------------------------------------------------------------------
// Accessibility issues
// ---------------------------------------------------------------------------

/// One node of an axe violation.
#[derive(Debug, Clone)]
pub struct AxeNode {
    /// The node's `target` selectors (`None` when the field is missing).
    pub target: Option<Vec<String>>,
    /// The node's `html`, when it is a string.
    pub html: Option<String>,
}

/// An axe violation, as the accessibility diff reads it.
#[derive(Debug, Clone)]
pub struct AxeViolation {
    pub id: Option<String>,
    pub impact: Option<String>,
    pub help_url: Option<String>,
    pub nodes: Vec<AxeNode>,
}

/// What the accessibility diff reads of one capture.
#[derive(Debug, Clone)]
pub struct A11yPage {
    pub violations: Vec<AxeViolation>,
    pub nodes: Vec<SemanticNode>,
    pub lang: Option<String>,
}

/// An HTML snippet as the evidence keeps it.
pub open spec fn capped(s: Seq<char>) -> Seq<char> {
    if s.len() <= HTML_SNIPPET_MAX {
        s
    } else {
        s.take(HTML_SNIPPET_MAX as int)
    }
}

/// The text of an optional string, or the empty text.
pub open spec fn text_or_empty(o: Option<String>) -> Seq<char> {
    match o {
        Some(s) => s@,
        None => seq![],
    }
}

/// An optional text leaf: the text, or `null`.
pub open spec fn opt_leaf(path: Seq<char>, o: Option<String>) -> (Seq<char>, LeafModel) {
    (path, match o {
        Some(s) => LeafModel::Text(s@),
        None => LeafModel::Null,
    })
}

/// The leaves `prefix0`, `prefix1`, ... of a list of selectors.
pub open spec fn target_leaves(prefix: Seq<char>, t: Seq<String>) -> Seq<(Seq<char>, LeafModel)>
    decreases t.len(),
{
    if t.len() == 0 {
        seq![]
    } else {
        target_leaves(prefix, t.drop_last()) + seq![text_leaf(prefix + dec((t.len() - 1) as nat), t.last()@)]
    }
}

/// The evidence leaves of node `i` of a violation, under `side`.
pub open spec fn node_leaves(side: Seq<char>, i: nat, n: AxeNode) -> Seq<(Seq<char>, LeafModel)> {
    let p = side + ".nodes."@ + dec(i);
    target_part(p, n) + seq![text_leaf(p + ".htmlSnippet"@, capped(text_or_empty(n.html)))]
}

/// The `target` leaves of a violation node whose path is `p`.
pub open spec fn target_part(p: Seq<char>, n: AxeNode) -> Seq<(Seq<char>, LeafModel)> {
    match n.target {
        Some(t) => target_leaves(p + ".target."@, t@),
        None => seq![(p + ".target"@, LeafModel::Null)],
    }
}

/// The evidence leaves of a list of violation nodes, under `side`.
pub open spec fn nodes_leaves(side: Seq<char>, ns: Seq<AxeNode>) -> Seq<(Seq<char>, LeafModel)>
    decreases ns.len(),
{
    if ns.len() == 0 {
        seq![]
    } else {
        nodes_leaves(side, ns.drop_last()) + node_leaves(side, (ns.len() - 1) as nat, ns.last())
    }
}

/// The nodes the evidence lists: the first five.
pub open spec fn first_five(ns: Seq<AxeNode>) -> Seq<AxeNode> {
    if ns.len() <= 5 {
        ns
    } else {
        ns.take(5)
    }
}

fn push_field(out: &mut Vec<JsonField>, f: JsonField)
    ensures
        fields_view(final(out)@) == fields_view(old(out)@).push(f@),
{
    out.push(f);
    assert(fields_view(out@) =~= fields_view(old(out)@).push(f@));
}

pub(crate) fn target_fields(out: &mut Vec<JsonField>, prefix: &str, t: &Vec<String>)
    ensures
        fields_view(final(out)@) == fields_view(old(out)@) + target_leaves(prefix@, t@),
{
    let ghost base = fields_view(out@);
    let mut j: usize = 0;
    assert(t@.take(0) =~= Seq::<String>::empty());
    while j < t.len()
        invariant
            j <= t@.len(),
            fields_view(out@) == base + target_leaves(prefix@, t@.take(j as int)),
        decreases t.len() - j,
    {
        let mut path = to_owned_string(prefix);
        push_dec(&mut path, j as u64);
        let ghost before = fields_view(out@);
        push_field(out, text_field(path.as_str(), t[j].as_str()));
        assert(t@.take(j + 1).drop_last() =~= t@.take(j as int));
        assert(fields_view(out@) =~= base + target_leaves(prefix@, t@.take(j + 1)));
        j = j + 1;
    }
    assert(t@.take(t@.len() as int) =~= t@);
}

fn node_fields(out: &mut Vec<JsonField>, side: &str, i: usize, n: &AxeNode)
    ensures
        fields_view(final(out)@) == fields_view(old(out)@) + node_leaves(side@, i as nat, *n),
{
    let ghost base = fields_view(out@);
    let mut p = to_owned_string(side);
    push_str(&mut p, ".nodes.");
    push_dec(&mut p, i as u64);
    let ghost pv = side@ + ".nodes."@ + dec(i as nat);
    assert(p@ == pv);
    let ghost tpart = target_part(pv, *n);
    match &n.target {
        Some(t) => {
            let mut tp = p.clone();
            push_str(&mut tp, ".target.");
            target_fields(out, tp.as_str(), t);
        },
        None => {
            let mut tp = p.clone();
            push_str(&mut tp, ".target");
            push_field(out, JsonField { path: tp, value: JsonLeaf::Null });
            assert(base.push((pv + ".target"@, LeafModel::Null)) =~= base + tpart);
        },
    }
    assert(fields_view(out@) == base + tpart);
    let ghost mid = fields_view(out@);
    let mut hp = p.clone();
    push_str(&mut hp, ".htmlSnippet");
    let html = match &n.html {
        Some(h) => cap_html(h.as_str()),
        None => {
            proof {
                reveal_strlit("");
            }
            cap_html("")
        },
    };
    assert(html@ == capped(text_or_empty(n.html)));
    push_field(out, text_field(hp.as_str(), html.as_str()));
    assert(mid.push(text_leaf(pv + ".htmlSnippet"@, html@)) =~= base + node_leaves(side@, i as nat, *n));
}

fn nodes_fields(out: &mut Vec<JsonField>, side: &str, ns: &Vec<AxeNode>)
    ensures
        fields_view(final(out)@) == fields_view(old(out)@) + nodes_leaves(side@, first_five(ns@)),
{
    let ghost base = fields_view(out@);
    let m: usize = if ns.len() <= 5 { ns.len() } else { 5 };
    let ghost f5 = first_five(ns@);
    assert(f5 =~= ns@.take(m as int));
    let mut k: usize = 0;
    assert(f5.take(0) =~= Seq::<AxeNode>::empty());
    while k < m
        invariant
            m <= ns@.len(),
            f5 == ns@.take(m as int),
            k <= m,
            fields_view(out@) == base + nodes_leaves(side@, f5.take(k as int)),
        decreases m - k,
    {
        node_fields(out, side, k, &ns[k]);
        assert(f5.take(k + 1).drop_last() =~= f5.take(k as int));
        assert(f5.take(k + 1).last() == ns@[k as int]);
        assert(fields_view(out@) =~= base + nodes_leaves(side@, f5.take(k + 1)));
        k = k + 1;
    }
    assert(f5.take(m as int) =~= f5);
}

/// The ids of a page's violations.
pub open spec fn violation_ids(vs: Seq<AxeViolation>) -> Seq<Option<String>> {
    vs.map_values(|v: AxeViolation| v.id)
}

/// Violation `i` is the first with rule id `rule`.
pub open spec fn is_first_violation(vs: Seq<AxeViolation>, rule: Seq<char>, i: int) -> bool {
    &&& 0 <= i < vs.len()
    &&& opt_view(vs[i].id) == Some(rule)
    &&& forall|k: int| 0 <= k < i ==> opt_view((#[trigger] vs[k]).id) != Some(rule)
}

/// The violation an issue about rule `rule` reports: the first with that id.
pub open spec fn violation_for(vs: Seq<AxeViolation>, rule: Seq<char>) -> AxeViolation {
    vs[choose|i: int| is_first_violation(vs, rule, i)]
}

proof fn lemma_violation_for(vs: Seq<AxeViolation>, rule: Seq<char>, i: int)
    requires
        is_first_violation(vs, rule, i),
    ensures
        violation_for(vs, rule) == vs[i],
{
    let c = choose|c: int| is_first_violation(vs, rule, c);
    assert(is_first_violation(vs, rule, c));
    if c < i {
        assert(opt_view(vs[c].id) != Some(rule));
    } else if c > i {
        assert(opt_view(vs[i].id) != Some(rule));
    }
}

/// `d` lists, ascending, the rule ids failing in `a` and not in `b`.
pub open spec fn rule_diff(a: Seq<Option<String>>, b: Seq<Option<String>>, d: Seq<Seq<char>>) -> bool {
    &&& strictly_sorted(d)
    &&& forall|x: Seq<char>| d.contains(x) <==> (rule_present(a, x) && !rule_present(b, x))
}

/// The selector of a violation's first node: its first `target`.
pub open spec fn first_target_of(v: AxeViolation) -> Option<Seq<char>> {
    if v.nodes@.len() > 0 {
        match v.nodes@[0].target {
            Some(t) => if t@.len() > 0 {
                Some(t@[0]@)
            } else {
                None
            },
            None => None,
        }
    } else {
        None
    }
}

/// Node `j` is the first whose CSS selector is `sel`.
pub open spec fn first_selector_match(nodes: Seq<SemanticNode>, sel: Seq<char>, j: int) -> bool {
    &&& 0 <= j < nodes.len()
    &&& opt_view(nodes[j].css_selector) == Some(sel)
    &&& forall|k: int| 0 <= k < j ==> opt_view((#[trigger] nodes[k]).css_selector) != Some(sel)
}

/// The anchors of an accessibility issue: those of the first page node with
/// the violation's first selector, else null anchors.
pub open spec fn a11y_anchors_ok(nodes: Seq<SemanticNode>, sel: Option<Seq<char>>, a: Anchors) -> bool {
    match sel {
        None => a == null_anchors(),
        Some(s) => {
            ||| exists|j: int| #[trigger] first_selector_match(nodes, s, j) && a == anchors_of_node(nodes[j])
            ||| (forall|k: int| 0 <= k < nodes.len() ==> opt_view((#[trigger] nodes[k]).css_selector) != Some(s))
                && a == null_anchors()
        },
    }
}

/// The impact as the message shows it.
pub open spec fn impact_text(v: AxeViolation) -> Seq<char> {
    match v.impact {
        Some(s) => s@,
        None => "unknown"@,
    }
}

/// The evidence of a regression of rule `rule` reported by violation `v`.
pub open spec fn regression_leaves(rule: Seq<char>, v: AxeViolation) -> Seq<(Seq<char>, LeafModel)> {
    seq![
        text_leaf("ruleId"@, rule),
        opt_leaf("impact"@, v.impact),
        opt_leaf("helpUrl"@, v.help_url),
        ("old.present"@, LeafModel::Flag(false)),
        text_leaf("new.ruleId"@, rule),
        opt_leaf("new.impact"@, v.impact),
        ("new.nodeCount"@, LeafModel::Number(v.nodes@.len() as i64)),
    ] + nodes_leaves("new"@, first_five(v.nodes@))
}

/// The evidence of an improvement of rule `rule` reported by violation `v`.
pub open spec fn improvement_leaves(rule: Seq<char>, v: AxeViolation) -> Seq<(Seq<char>, LeafModel)> {
    seq![
        text_leaf("ruleId"@, rule),
        opt_leaf("impact"@, v.impact),
        opt_leaf("helpUrl"@, v.help_url),
        text_leaf("old.ruleId"@, rule),
        opt_leaf("old.impact"@, v.impact),
        ("old.nodeCount"@, LeafModel::Number(v.nodes@.len() as i64)),
    ] + nodes_leaves("old"@, first_five(v.nodes@)) + seq![("new.present"@, LeafModel::Flag(false))]
}

/// The text a regression's remediation greps for: the first selector, or
/// the empty text.
pub open spec fn grep_token(v: AxeViolation) -> Seq<char> {
    match first_target_of(v) {
        Some(s) => s,
        None => seq![],
    }
}

/// The accessibility issue about rule `rule`, reported by violation `v`
/// and anchored among `nodes`.
pub open spec fn a11y_draft_ok(
    d: IssueDraft,
    t: IssueType,
    rule: Seq<char>,
    v: AxeViolation,
    nodes: Seq<SemanticNode>,
    viewport: Seq<char>,
    profile: SeverityProfile,
    lang: Option<Seq<char>>,
) -> bool {
    &&& draft_head(d, t, IssueCategory::Accessibility, profile, viewport, lang, Some("G8"@), d.locator.anchors)
    &&& a11y_anchors_ok(nodes, first_target_of(v), d.locator.anchors)
    &&& is_page_locator(d.locator)
    &&& match t {
        IssueType::AccessibilityRegression => {
            &&& d.message@ == "Accessibility regression: axe rule '"@ + rule + "' now fails ("@ + impact_text(v)
                + ")"@
            &&& fields_view(d.evidence@) == regression_leaves(rule, v)
            &&& match d.remediation {
                Some(rm) => fields_view(rm@) == seq![
                    text_leaf("action"@, "fix_accessibility_violation"@),
                    text_leaf("findBy.grep.0"@, grep_token(v)),
                    text_leaf("ruleId"@, rule),
                    opt_leaf("helpUrl"@, v.help_url),
                    text_leaf("note"@, "axe rule "@ + rule + " now fails on the new page (clean on old). See helpUrl."@),
                ],
                None => false,
            }
        },
        IssueType::AccessibilityImproved => {
            &&& d.message@ == "Accessibility improved: axe rule '"@ + rule + "' no longer fails"@
            &&& fields_view(d.evidence@) == improvement_leaves(rule, v)
            &&& d.remediation is None
        },
        _ => false,
    }
}

fn opt_field(path: &str, o: &Option<String>) -> (r: JsonField)
    ensures
        r@ == opt_leaf(path@, *o),
{
    match o {
        Some(t) => text_field(path, t.as_str()),
        None => JsonField { path: to_owned_string(path), value: JsonLeaf::Null },
    }
}

fn first_target(v: &AxeViolation) -> (r: Option<String>)
    ensures
        opt_view(r) == first_target_of(*v),
{
    if v.nodes.len() > 0 {
        match &v.nodes[0].target {
            Some(t) => if t.len() > 0 {
                Some(t[0].clone())
            } else {
                None
            },
            None => None,
        }
    } else {
        None
    }
}

fn a11y_anchors(nodes: &Vec<SemanticNode>, sel: &Option<String>) -> (a: Anchors)
    ensures
        a11y_anchors_ok(nodes@, opt_view(*sel), a),
{
    match sel {
        Some(s) => match find_node_by_selector(nodes.as_slice(), s.as_str()) {
            Some(j) => {
                assert(first_selector_match(nodes@, s@, j as int));
                node_to_anchors(&nodes[j])
            },
            None => Anchors::null(),
        },
        None => Anchors::null(),
    }
}

fn a11y_draft(
    t: IssueType,
    rule: &String,
    v: &AxeViolation,
    nodes: &Vec<SemanticNode>,
    lang: &Option<String>,
    viewport: &str,
    profile: &SeverityProfile,
) -> (d: IssueDraft)
    requires
        t == IssueType::AccessibilityRegression || t == IssueType::AccessibilityImproved,
    ensures
        a11y_draft_ok(d, t, rule@, *v, nodes@, viewport@, *profile, opt_view(*lang)),
{
    let sel = first_target(v);
    let anchors = a11y_anchors(nodes, &sel);
    let locator = null_locator(anchors);
    let count = v.nodes.len() as i64;
    let mut ev: Vec<JsonField> = Vec::new();
    push_field(&mut ev, text_field("ruleId", rule.as_str()));
    push_field(&mut ev, opt_field("impact", &v.impact));
    push_field(&mut ev, opt_field("helpUrl", &v.help_url));
    if t == IssueType::AccessibilityRegression {
        push_field(&mut ev, JsonField { path: to_owned_string("old.present"), value: JsonLeaf::Flag(false) });
        push_field(&mut ev, text_field("new.ruleId", rule.as_str()));
        push_field(&mut ev, opt_field("new.impact", &v.impact));
        push_field(&mut ev, JsonField { path: to_owned_string("new.nodeCount"), value: JsonLeaf::Number(count) });
        let ghost head = fields_view(ev@);
        nodes_fields(&mut ev, "new", &v.nodes);
        assert(fields_view(ev@) =~= regression_leaves(rule@, *v));
        let token = match &sel {
            Some(x) => x.clone(),
            None => String::new(),
        };
        let mut rm: Vec<JsonField> = Vec::new();
        push_field(&mut rm, text_field("action", "fix_accessibility_violation"));
        push_field(&mut rm, text_field("findBy.grep.0", token.as_str()));
        push_field(&mut rm, text_field("ruleId", rule.as_str()));
        push_field(&mut rm, opt_field("helpUrl", &v.help_url));
        let mut note = to_owned_string("axe rule ");
        push_str(&mut note, rule.as_str());
        push_str(&mut note, " now fails on the new page (clean on old). See helpUrl.");
        push_field(&mut rm, text_field("note", note.as_str()));
        assert(fields_view(rm@) =~= seq![
            text_leaf("action"@, "fix_accessibility_violation"@),
            text_leaf("findBy.grep.0"@, grep_token(*v)),
            text_leaf("ruleId"@, rule@),
            opt_leaf("helpUrl"@, v.help_url),
            text_leaf("note"@, "axe rule "@ + rule@ + " now fails on the new page (clean on old). See helpUrl."@),
        ]);
        let impact = match &v.impact {
            Some(x) => x.clone(),
            None => to_owned_string("unknown"),
        };
        let mut message = to_owned_string("Accessibility regression: axe rule '");
        push_str(&mut message, rule.as_str());
        push_str(&mut message, "' now fails (");
        push_str(&mut message, impact.as_str());
        push_str(&mut message, ")");
        make_draft(t, IssueCategory::Accessibility, profile, viewport, lang, Some("G8"), message, locator, ev, Some(rm))
    } else {
        push_field(&mut ev, text_field("old.ruleId", rule.as_str()));
        push_field(&mut ev, opt_field("old.impact", &v.impact));
        push_field(&mut ev, JsonField { path: to_owned_string("old.nodeCount"), value: JsonLeaf::Number(count) });
        nodes_fields(&mut ev, "old", &v.nodes);
        push_field(&mut ev, JsonField { path: to_owned_string("new.present"), value: JsonLeaf::Flag(false) });
        assert(fields_view(ev@) =~= improvement_leaves(rule@, *v));
        let mut message = to_owned_string("Accessibility improved: axe rule '");
        push_str(&mut message, rule.as_str());
        push_str(&mut message, "' no longer fails");
        make_draft(t, IssueCategory::Accessibility, profile, viewport, lang, Some("G8"), message, locator, ev, None)
    }
}

fn ids_of(vs: &Vec<AxeViolation>) -> (r: Vec<Option<String>>)
    ensures
        r@ == violation_ids(vs@),
{
    let mut r: Vec<Option<String>> = Vec::new();
    let mut i: usize = 0;
    while i < vs.len()
        invariant
            i <= vs@.len(),
            r@ == violation_ids(vs@).take(i as int),
        decreases vs.len() - i,
    {
        let id = match &vs[i].id {
            Some(x) => Some(x.clone()),
            None => None,
        };
        r.push(id);
        assert(r@ =~= violation_ids(vs@).take(i + 1));
        i = i + 1;
    }
    assert(violation_ids(vs@).take(vs@.len() as int) =~= violation_ids(vs@));
    r
}

/// The accessibility issues of a page pair: a regression for each axe rule
/// that fails only on the new page, then an improvement for each rule that
/// failed only on the old page, each list ascending by rule id; each issue
/// reports the first violation of its rule.
pub fn a11y_issues(old: &A11yPage, new: &A11yPage, viewport: &str, profile: &SeverityProfile) -> (r: Vec<
    IssueDraft,
>)
    ensures
        exists|reg: Seq<Seq<char>>, imp: Seq<Seq<char>>|
            {
                &&& #[trigger] rule_diff(violation_ids(new.violations@), violation_ids(old.violations@), reg)
                &&& #[trigger] rule_diff(violation_ids(old.violations@), violation_ids(new.violations@), imp)
                &&& r@.len() == reg.len() + imp.len()
                &&& forall|q: int|
                    0 <= q < reg.len() ==> a11y_draft_ok(
                        #[trigger] r@[q],
                        IssueType::AccessibilityRegression,
                        reg[q],
                        violation_for(new.violations@, reg[q]),
                        new.nodes@,
                        viewport@,
                        *profile,
                        opt_view(new.lang),
                    )
                &&& forall|q: int|
                    0 <= q < imp.len() ==> a11y_draft_ok(
                        #[trigger] r@[reg.len() + q],
                        IssueType::AccessibilityImproved,
                        imp[q],
                        violation_for(old.violations@, imp[q]),
                        old.nodes@,
                        viewport@,
                        *profile,
                        opt_view(new.lang),
                    )
            },
{
    let old_ids = ids_of(&old.violations);
    let new_ids = ids_of(&new.violations);
    let old_rules = rule_set(old_ids.as_slice());
    let new_rules = rule_set(new_ids.as_slice());
    let reg = rule_difference(&new_rules, &old_rules);
    let imp = rule_difference(&old_rules, &new_rules);
    assert(rule_diff(new_ids@, old_ids@, views(reg@)));
    assert(rule_diff(old_ids@, new_ids@, views(imp@)));
    let mut out: Vec<IssueDraft> = Vec::new();
    let mut q: usize = 0;
    while q < reg.len()
        invariant
            q <= reg@.len(),
            out@.len() == q,
            new_ids@ == violation_ids(new.violations@),
            rule_diff(new_ids@, old_ids@, views(reg@)),
            forall|i: int|
                0 <= i < q ==> a11y_draft_ok(
                    #[trigger] out@[i],
                    IssueType::AccessibilityRegression,
                    views(reg@)[i],
                    violation_for(new.violations@, views(reg@)[i]),
                    new.nodes@,
                    viewport@,
                    *profile,
                    opt_view(new.lang),
                ),
        decreases reg.len() - q,
    {
        assert(views(reg@)[q as int] == reg@[q as int]@);
        assert(views(reg@).contains(reg@[q as int]@));
        match first_violation_for(new_ids.as_slice(), reg[q].as_str()) {
            Some(i) => {
                proof {
                    let ghost rule = reg@[q as int]@;
                    assert forall|k: int| 0 <= k < i implies opt_view((#[trigger] new.violations@[k]).id) != Some(rule) by {
                        assert(new_ids@[k] == new.violations@[k].id);
                    }
                    assert(new_ids@[i as int] == new.violations@[i as int].id);
                    assert(is_first_violation(new.violations@, rule, i as int));
                    lemma_violation_for(new.violations@, reg@[q as int]@, i as int);
                }
                let d = a11y_draft(
                    IssueType::AccessibilityRegression,
                    &reg[q],
                    &new.violations[i],
                    &new.nodes,
                    &new.lang,
                    viewport,
                    profile,
                );
                out.push(d);
            },
            None => {
                assert(false);
            },
        }
        q = q + 1;
    }
    let mut c: usize = 0;
    while c < imp.len()
        invariant
            c <= imp@.len(),
            out@.len() == reg@.len() + c,
            old_ids@ == violation_ids(old.violations@),
            rule_diff(old_ids@, new_ids@, views(imp@)),
            forall|i: int|
                0 <= i < reg@.len() ==> a11y_draft_ok(
                    #[trigger] out@[i],
                    IssueType::AccessibilityRegression,
                    views(reg@)[i],
                    violation_for(new.violations@, views(reg@)[i]),
                    new.nodes@,
                    viewport@,
                    *profile,
                    opt_view(new.lang),
                ),
            forall|i: int|
                0 <= i < c ==> a11y_draft_ok(
                    #[trigger] out@[reg@.len() + i],
                    IssueType::AccessibilityImproved,
                    views(imp@)[i],
                    violation_for(old.violations@, views(imp@)[i]),
                    old.nodes@,
                    viewport@,
                    *profile,
                    opt_view(new.lang),
                ),
        decreases imp.len() - c,
    {
        assert(views(imp@)[c as int] == imp@[c as int]@);
        assert(views(imp@).contains(imp@[c as int]@));
        match first_violation_for(old_ids.as_slice(), imp[c].as_str()) {
            Some(i) => {
                proof {
                    let ghost rule = imp@[c as int]@;
                    assert forall|k: int| 0 <= k < i implies opt_view((#[trigger] old.violations@[k]).id) != Some(rule) by {
                        assert(old_ids@[k] == old.violations@[k].id);
                    }
                    assert(old_ids@[i as int] == old.violations@[i as int].id);
                    assert(is_first_violation(old.violations@, rule, i as int));
                    lemma_violation_for(old.violations@, imp@[c as int]@, i as int);
                }
                let d = a11y_draft(
                    IssueType::AccessibilityImproved,
                    &imp[c],
                    &old.violations[i],
                    &old.nodes,
                    &new.lang,
                    viewport,
                    profile,
                );
                out.push(d);
            },
            None => {
                assert(false);
            },
        }
        c = c + 1;
    }
    out
}

} // verus!

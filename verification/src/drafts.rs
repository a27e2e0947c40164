//! Issue drafts: the issues the checks report, with every field but the
//! confidence score, which is a floating-point value computed by the caller.
//!
//! Evidence and remediation are open JSON objects; a draft holds them as a
//! list of leaves, each addressed by a dotted path (`new.url`,
//! `findBy.grep.0`), in the order the object lists them.
use vstd::prelude::*;

use crate::contract::{opt_view, Anchors, IssueCategory, IssueSeverity, IssueType, Locator, SemanticNode};
use crate::issue::{compute_issue_id, issue_id_spec};
use crate::text::{push_str, to_owned_string};

verus! {

/// A JSON leaf value.
#[derive(Debug, Clone)]
pub enum JsonLeaf {
    Text(String),
    Number(i64),
    Flag(bool),
    Null,
}

/// The mathematical value of a [`JsonLeaf`].
pub enum LeafModel {
    Text(Seq<char>),
    Number(i64),
    Flag(bool),
    Null,
}

impl View for JsonLeaf {
    type V = LeafModel;

    open spec fn view(&self) -> LeafModel {
        match self {
            JsonLeaf::Text(s) => LeafModel::Text(s@),
            JsonLeaf::Number(n) => LeafModel::Number(*n),
            JsonLeaf::Flag(b) => LeafModel::Flag(*b),
            JsonLeaf::Null => LeafModel::Null,
        }
    }
}

/// One leaf of a JSON object and its dotted path.
#[derive(Debug, Clone)]
pub struct JsonField {
    pub path: String,
    pub value: JsonLeaf,
}

impl View for JsonField {
    type V = (Seq<char>, LeafModel);

    open spec fn view(&self) -> (Seq<char>, LeafModel) {
        (self.path@, self.value@)
    }
}

/// The views of a list of leaves.
pub open spec fn fields_view(fs: Seq<JsonField>) -> Seq<(Seq<char>, LeafModel)> {
    fs.map_values(|f: JsonField| f@)
}

/// A text leaf.
pub open spec fn text_leaf(path: Seq<char>, v: Seq<char>) -> (Seq<char>, LeafModel) {
    (path, LeafModel::Text(v))
}

/// A text leaf at `path`.
pub fn text_field(path: &str, v: &str) -> (r: JsonField)
    ensures
        r@ == text_leaf(path@, v@),
{
    JsonField { path: to_owned_string(path), value: JsonLeaf::Text(to_owned_string(v)) }
}

/// A leaf at `path` with an optional number (`null` when absent).
pub fn opt_number_field(path: &str, v: Option<u32>) -> (r: JsonField)
    ensures
        r@ == (path@, match v {
            Some(n) => LeafModel::Number(n as i64),
            None => LeafModel::Null,
        }),
{
    let value = match v {
        Some(n) => JsonLeaf::Number(n as i64),
        None => JsonLeaf::Null,
    };
    JsonField { path: to_owned_string(path), value }
}

/// A boolean leaf at `path`.
pub fn flag_field(path: &str, b: bool) -> (r: JsonField)
    ensures
        r@ == (path@, LeafModel::Flag(b)),
{
    JsonField { path: to_owned_string(path), value: JsonLeaf::Flag(b) }
}

/// Severity by issue type: the first matching entry of a table, else a
/// fallback.
#[derive(Debug, Clone)]
pub struct SeverityProfile {
    pub by_type: Vec<(IssueType, IssueSeverity)>,
    pub fallback: IssueSeverity,
}

/// The severity a table gives an issue type.
pub open spec fn severity_lookup(
    entries: Seq<(IssueType, IssueSeverity)>,
    fallback: IssueSeverity,
    t: IssueType,
) -> IssueSeverity
    decreases entries.len(),
{
    if entries.len() == 0 {
        fallback
    } else if entries[0].0 == t {
        entries[0].1
    } else {
        severity_lookup(entries.skip(1), fallback, t)
    }
}

/// The severity a profile gives an issue type.
pub open spec fn profile_severity(p: SeverityProfile, t: IssueType) -> IssueSeverity {
    severity_lookup(p.by_type@, p.fallback, t)
}

impl SeverityProfile {
    /// The severity of issues of type `t`.
    pub fn severity_for(&self, t: IssueType) -> (r: IssueSeverity)
        ensures
            r == profile_severity(*self, t),
    {
        let mut i: usize = 0;
        assert(self.by_type@.skip(0) =~= self.by_type@);
        while i < self.by_type.len()
            invariant
                i <= self.by_type@.len(),
                severity_lookup(self.by_type@.skip(i as int), self.fallback, t) == profile_severity(
                    *self,
                    t,
                ),
            decreases self.by_type.len() - i,
        {
            let ghost rest = self.by_type@.skip(i as int);
            assert(rest.skip(1) =~= self.by_type@.skip(i + 1));
            if self.by_type[i].0 == t {
                return self.by_type[i].1;
            }
            i = i + 1;
        }
        self.fallback
    }
}

/// An issue without its confidence score.
#[derive(Debug, Clone)]
pub struct IssueDraft {
    pub id: String,
    pub issue_type: IssueType,
    pub category: IssueCategory,
    pub severity: IssueSeverity,
    pub viewport: String,
    pub locale: Option<String>,
    pub goal: Option<String>,
    pub message: String,
    pub locator: Locator,
    pub evidence: Vec<JsonField>,
    pub remediation: Option<Vec<JsonField>>,
}

/// The fields every draft derives the same way: the id from type, viewport
/// and anchors; the severity from the profile; viewport, locale and goal as
/// given.
pub open spec fn draft_head(
    d: IssueDraft,
    t: IssueType,
    cat: IssueCategory,
    profile: SeverityProfile,
    viewport: Seq<char>,
    locale: Option<Seq<char>>,
    goal: Option<Seq<char>>,
    anchors: Anchors,
) -> bool {
    &&& d.id@ == issue_id_spec(t, viewport, anchors, None)
    &&& d.issue_type == t
    &&& d.category == cat
    &&& d.severity == profile_severity(profile, t)
    &&& d.viewport@ == viewport
    &&& opt_view(d.locale) == locale
    &&& opt_view(d.goal) == goal
    &&& d.locator.anchors == anchors
}

pub(crate) fn clone_opt_string(o: &Option<String>) -> (r: Option<String>)
    ensures
        r == *o,
{
    match o {
        Some(s) => Some(s.clone()),
        None => None,
    }
}

/// Assembles a draft, deriving its id and severity.
pub(crate) fn make_draft(
    t: IssueType,
    cat: IssueCategory,
    profile: &SeverityProfile,
    viewport: &str,
    locale: &Option<String>,
    goal: Option<&str>,
    message: String,
    locator: Locator,
    evidence: Vec<JsonField>,
    remediation: Option<Vec<JsonField>>,
) -> (d: IssueDraft)
    ensures
        draft_head(
            d,
            t,
            cat,
            *profile,
            viewport@,
            opt_view(*locale),
            match goal {
                Some(g) => Some(g@),
                None => None,
            },
            locator.anchors,
        ),
        d.message == message,
        d.locator == locator,
        d.evidence == evidence,
        d.remediation == remediation,
{
    let id = compute_issue_id(&t, viewport, &locator.anchors, None);
    let severity = profile.severity_for(t);
    IssueDraft {
        id,
        issue_type: t,
        category: cat,
        severity,
        viewport: to_owned_string(viewport),
        locale: clone_opt_string(locale),
        goal: match goal {
            Some(g) => Some(to_owned_string(g)),
            None => None,
        },
        message,
        locator,
        evidence,
        remediation,
    }
}

/// `a + b + c` as a fresh string.
pub(crate) fn concat3(a: &str, b: &str, c: &str) -> (r: String)
    ensures
        r@ == a@ + b@ + c@,
{
    let mut s = to_owned_string(a);
    push_str(&mut s, b);
    push_str(&mut s, c);
    s
}

/// A locator on node `n` of the new page.
pub open spec fn is_new_node_locator(l: Locator, n: SemanticNode) -> bool {
    &&& l.css_selector_old is None
    &&& l.css_selector_new == n.css_selector
    &&& l.bbox_old is None
    &&& l.bbox_new == Some(n.bbox)
    &&& l.seq_index_old is None
    &&& l.seq_index_new == Some(n.seq_index)
}

} // verus!

//! Decisions of the command-line runner: the exit code a run ends with, the
//! `name=WxH` viewport arguments, and the message of the warning raised when
//! the self-check probe fails.
use vstd::prelude::*;

use crate::contract::{severity_rank, strictly_sorted, wire_name, IssueSeverity, IssueType};
use crate::doctor::{parse_u32, parse_u32_spec};
use crate::text::{
    char_index, chars_of, dec, find_char, push_dec, push_str, seq_lt, str_eq, string_from_chars,
    to_owned_string,
};

verus! {

// ---------------------------------------------------------------------------
// Exit code
// ---------------------------------------------------------------------------

/// The severity rank a `--fail-on` value stands for (unknown values act as
/// `error`).
pub open spec fn threshold_rank(fail_on: Seq<char>) -> int {
    if fail_on == "info"@ {
        0
    } else if fail_on == "warning"@ {
        1
    } else if fail_on == "error"@ {
        2
    } else if fail_on == "critical"@ {
        3
    } else {
        2
    }
}

/// Some kept issue is at least as severe as the threshold.
pub open spec fn threshold_met(sevs: Seq<IssueSeverity>, t: int) -> bool {
    exists|i: int| 0 <= i < sevs.len() && severity_rank(#[trigger] sevs[i]) >= t
}

/// The exit code of a run: 1 when some kept issue reaches the `--fail-on`
/// threshold, 0 otherwise, and always 0 for `never`.
pub open spec fn exit_code_spec(sevs: Seq<IssueSeverity>, fail_on: Seq<char>) -> i32 {
    if fail_on == "never"@ {
        0
    } else if threshold_met(sevs, threshold_rank(fail_on)) {
        1
    } else {
        0
    }
}

/// The exit code of a run from the severities of the kept issues.
pub fn compute_exit_code(severities: &[IssueSeverity], fail_on: &str) -> (r: i32)
    ensures
        r == exit_code_spec(severities@, fail_on@),
{
    if str_eq(fail_on, "never") {
        return 0;
    }
    let threshold: u8 = if str_eq(fail_on, "info") {
        0
    } else if str_eq(fail_on, "warning") {
        1
    } else if str_eq(fail_on, "error") {
        2
    } else if str_eq(fail_on, "critical") {
        3
    } else {
        2
    };
    assert(threshold == threshold_rank(fail_on@));
    let mut i: usize = 0;
    while i < severities.len()
        invariant
            i <= severities@.len(),
            threshold == threshold_rank(fail_on@),
            fail_on@ != "never"@,
            forall|k: int| 0 <= k < i ==> severity_rank(#[trigger] severities@[k]) < threshold,
        decreases severities.len() - i,
    {
        if severities[i].rank() >= threshold {
            assert(severity_rank(severities@[i as int]) >= threshold);
            return 1;
        }
        i = i + 1;
    }
    0
}

// ---------------------------------------------------------------------------
// Viewport arguments
// ---------------------------------------------------------------------------

/// A `name=WxH` viewport argument: the name before the first `=`, then the
/// width and height (each as `str::parse::<u32>` reads it) around the first
/// `x` after it.
pub open spec fn viewport_arg_spec(s: Seq<char>) -> Option<(Seq<char>, u32, u32)> {
    let e = char_index(s, '=');
    if e >= s.len() {
        None
    } else {
        let name = s.take(e);
        let dims = s.skip(e + 1);
        let x = char_index(dims, 'x');
        if x >= dims.len() {
            None
        } else {
            match (parse_u32_spec(dims.take(x)), parse_u32_spec(dims.skip(x + 1))) {
                (Some(w), Some(h)) => Some((name, w, h)),
                _ => None,
            }
        }
    }
}

fn slice_vec(cs: &[char], from: usize, to: usize) -> (r: Vec<char>)
    requires
        from <= to <= cs@.len(),
    ensures
        r@ == cs@.subrange(from as int, to as int),
{
    let mut out: Vec<char> = Vec::new();
    let mut i: usize = from;
    while i < to
        invariant
            from <= i <= to <= cs@.len(),
            out@ == cs@.subrange(from as int, i as int),
        decreases to - i,
    {
        out.push(cs[i]);
        i = i + 1;
        assert(out@ =~= cs@.subrange(from as int, i as int));
    }
    out
}

/// Reads a `name=WxH` viewport argument; `None` when it is malformed.
pub fn parse_viewport_arg(s: &str) -> (r: Option<(String, u32, u32)>)
    ensures
        match r {
            Some((n, w, h)) => viewport_arg_spec(s@) == Some((n@, w, h)),
            None => viewport_arg_spec(s@) is None,
        },
{
    let cs = chars_of(s);
    let e = find_char(cs.as_slice(), '=');
    if e >= cs.len() {
        return None;
    }
    let name = slice_vec(cs.as_slice(), 0, e);
    let dims = slice_vec(cs.as_slice(), e + 1, cs.len());
    assert(name@ =~= s@.take(e as int));
    assert(dims@ =~= s@.skip(e + 1));
    let x = find_char(dims.as_slice(), 'x');
    if x >= dims.len() {
        return None;
    }
    let wv = slice_vec(dims.as_slice(), 0, x);
    let hv = slice_vec(dims.as_slice(), x + 1, dims.len());
    assert(wv@ =~= dims@.take(x as int));
    assert(hv@ =~= dims@.skip(x + 1));
    let w = parse_u32(wv.as_slice());
    let h = parse_u32(hv.as_slice());
    match (w, h) {
        (Some(w), Some(h)) => Some((string_from_chars(name.as_slice()), w, h)),
        _ => None,
    }
}

// ---------------------------------------------------------------------------
// Self-check failure warning
// ---------------------------------------------------------------------------

/// The code of the warning raised when the self-check probe fails.
pub const SELF_CHECK_FAILED_CODE: &'static str = "self_check_failed";

pub open spec fn failure_names(failed: Seq<(String, String)>) -> Seq<Seq<char>> {
    Seq::new(failed.len(), |i: int| failed[i].0@)
}

/// `name (stage)` for each failed viewport, joined by `, `.
pub open spec fn failure_details(failed: Seq<(String, String)>) -> Seq<char>
    decreases failed.len(),
{
    if failed.len() == 0 {
        seq![]
    } else if failed.len() == 1 {
        failed[0].0@ + " ("@ + failed[0].1@ + ")"@
    } else {
        failure_details(failed.drop_last()) + ", "@ + failed.last().0@ + " ("@ + failed.last().1@ + ")"@
    }
}

/// The warning message: none when nothing failed; the write failure alone;
/// or the failed viewports (by name) out of all, with the write failure
/// appended when it happened too.
pub open spec fn self_check_message_spec(
    failed: Seq<(String, String)>,
    write_failed: bool,
    total: nat,
) -> Option<Seq<char>> {
    if failed.len() == 0 && !write_failed {
        None
    } else if failed.len() == 0 {
        Some("self-check probe ran but self-check.json could not be written"@)
    } else {
        Some(
            "self-check probe failed for "@ + dec(failed.len()) + " of "@ + dec(total) + " viewport(s): "@
                + failure_details(failed) + if write_failed {
                "; failed to write self-check.json"@
            } else {
                seq![]
            },
        )
    }
}

/// The message of the self-check failure warning, from the failed viewports
/// (name and failure stage, in name order as a map keeps them), whether
/// writing `self-check.json` failed, and the number of viewports.
pub fn self_check_failed_message(
    failed: &[(String, String)],
    write_failed: bool,
    total_viewports: usize,
) -> (r: Option<String>)
    requires
        strictly_sorted(failure_names(failed@)),
    ensures
        match r {
            Some(m) => self_check_message_spec(failed@, write_failed, total_viewports as nat) == Some(m@),
            None => self_check_message_spec(failed@, write_failed, total_viewports as nat) is None,
        },
{
    if failed.len() == 0 && !write_failed {
        return None;
    }
    if failed.len() == 0 {
        return Some(to_owned_string("self-check probe ran but self-check.json could not be written"));
    }
    let mut details = String::new();
    let mut i: usize = 0;
    while i < failed.len()
        invariant
            i <= failed@.len(),
            details@ == failure_details(failed@.take(i as int)),
        decreases failed.len() - i,
    {
        proof {
            reveal_strlit(", ");
            reveal_strlit(" (");
            reveal_strlit(")");
        }
        if i > 0 {
            push_str(&mut details, ", ");
        }
        push_str(&mut details, failed[i].0.as_str());
        push_str(&mut details, " (");
        push_str(&mut details, failed[i].1.as_str());
        push_str(&mut details, ")");
        assert(failed@.take(i + 1).drop_last() =~= failed@.take(i as int));
        i = i + 1;
        assert(details@ =~= failure_details(failed@.take(i as int)));
    }
    assert(failed@.take(failed@.len() as int) =~= failed@);
    let mut msg = to_owned_string("self-check probe failed for ");
    push_dec(&mut msg, failed.len() as u64);
    push_str(&mut msg, " of ");
    push_dec(&mut msg, total_viewports as u64);
    push_str(&mut msg, " viewport(s): ");
    push_str(&mut msg, details.as_str());
    if write_failed {
        push_str(&mut msg, "; failed to write self-check.json");
    }
    proof {
        reveal_strlit("");
    }
    assert(msg@ =~= self_check_message_spec(failed@, write_failed, total_viewports as nat).unwrap());
    Some(msg)
}

// ---------------------------------------------------------------------------
// Volatile-capture warning
// ---------------------------------------------------------------------------

/// The code of the warning raised when the self-check found issues.
pub const VOLATILE_CAPTURE_CODE: &'static str = "volatile_capture";

/// The warning message for `n` issues found by diffing two captures of the
/// old page; none when there are none.
pub open spec fn volatile_message_spec(n: nat) -> Option<Seq<char>> {
    if n == 0 {
        None
    } else {
        Some(
            "self-check: "@ + dec(n)
                + " issue(s) appeared when diffing two captures of the old page against each other; treat similar issues in the main result with suspicion (capture volatility, e.g. rotating content)"@,
        )
    }
}

/// The message of the volatile-capture warning.
pub fn volatile_capture_message(issue_count: u32) -> (r: Option<String>)
    ensures
        match r {
            Some(m) => volatile_message_spec(issue_count as nat) == Some(m@),
            None => volatile_message_spec(issue_count as nat) is None,
        },
{
    if issue_count == 0 {
        return None;
    }
    let mut m = to_owned_string("self-check: ");
    push_dec(&mut m, issue_count as u64);
    push_str(
        &mut m,
        " issue(s) appeared when diffing two captures of the old page against each other; treat similar issues in the main result with suspicion (capture volatility, e.g. rotating content)",
    );
    Some(m)
}

/// How many of the first `n` issue types have wire name `name`.
pub open spec fn type_count(types: Seq<IssueType>, name: Seq<char>, n: int) -> nat
    decreases n,
{
    if n <= 0 {
        0
    } else {
        type_count(types, name, n - 1) + if wire_name(types[n - 1]) == name {
            1nat
        } else {
            0nat
        }
    }
}

pub open spec fn count_names(counts: Seq<(String, u32)>) -> Seq<Seq<char>> {
    Seq::new(counts.len(), |i: int| counts[i].0@)
}

/// The per-type breakdown: each wire name that occurs, ascending, with its
/// number of issues.
pub open spec fn is_type_breakdown(types: Seq<IssueType>, counts: Seq<(String, u32)>, n: int) -> bool {
    &&& strictly_sorted(count_names(counts))
    &&& forall|i: int| 0 <= i < counts.len() ==> #[trigger] counts[i].1 == type_count(types, counts[i].0@, n) && counts[i].1 > 0
    &&& forall|k: int| 0 <= k < n ==> #[trigger] count_names(counts).contains(wire_name(types[k]))
}

proof fn lemma_type_count_zero(types: Seq<IssueType>, name: Seq<char>, n: int)
    requires
        0 <= n <= types.len(),
        forall|k: int| 0 <= k < n ==> wire_name(#[trigger] types[k]) != name,
    ensures
        type_count(types, name, n) == 0,
    decreases n,
{
    if n > 0 {
        lemma_type_count_zero(types, name, n - 1);
    }
}

proof fn lemma_type_count_le(types: Seq<IssueType>, name: Seq<char>, n: int)
    requires
        0 <= n,
    ensures
        type_count(types, name, n) <= n,
    decreases n,
{
    if n > 0 {
        lemma_type_count_le(types, name, n - 1);
    }
}

/// The number of issues of each type (by wire name, ascending).
pub fn issue_counts_by_type(types: &[IssueType]) -> (r: Vec<(String, u32)>)
    requires
        types@.len() <= u32::MAX,
    ensures
        is_type_breakdown(types@, r@, types@.len() as int),
{
    let mut out: Vec<(String, u32)> = Vec::new();
    let mut i: usize = 0;
    while i < types.len()
        invariant
            i <= types@.len() <= u32::MAX,
            is_type_breakdown(types@, out@, i as int),
        decreases types.len() - i,
    {
        let name = types[i].as_str();
        let ghost before = out@;
        // Find the name's place.
        let mut p: usize = 0;
        while p < out.len() && crate::text::str_compare(out[p].0.as_str(), name) == -1
            invariant
                p <= out@.len(),
                out@ == before,
                forall|q: int| 0 <= q < p ==> seq_lt(#[trigger] count_names(out@)[q], name@),
            decreases out.len() - p,
        {
            assert(count_names(out@)[p as int] == out@[p as int].0@);
            p = p + 1;
        }
        if p < out.len() && str_eq(out[p].0.as_str(), name) {
            let c = out[p].1;
            proof {
                lemma_type_count_le(types@, name@, i as int);
            }
            let key = out[p].0.clone();
            out.set(p, (key, c + 1));
            proof {
                assert(count_names(out@) =~= count_names(before));
                assert forall|q: int| 0 <= q < out@.len() implies #[trigger] out@[q].1 == type_count(types@, out@[q].0@, i + 1) && out@[q].1 > 0 by {
                    if q != p {
                        assert(out@[q] == before[q]);
                        assert(count_names(before)[q] != count_names(before)[p as int]) by {
                            if q < p {
                                assert(seq_lt(count_names(before)[q], count_names(before)[p as int]));
                                crate::text::lemma_seq_lt_irreflexive(count_names(before)[q]);
                            } else {
                                assert(seq_lt(count_names(before)[p as int], count_names(before)[q]));
                                crate::text::lemma_seq_lt_irreflexive(count_names(before)[q]);
                            }
                        }
                    }
                }
                assert forall|k: int| 0 <= k < i + 1 implies #[trigger] count_names(out@).contains(wire_name(types@[k])) by {
                    if k == i {
                        assert(count_names(out@)[p as int] == name@);
                    } else {
                        assert(count_names(before).contains(wire_name(types@[k])));
                    }
                }
            }
        } else {
            proof {
                if p < before.len() {
                    crate::text::lemma_seq_lt_trichotomy(name@, count_names(before)[p as int]);
                }
                // The name does not occur yet.
                assert forall|k: int| 0 <= k < i implies wire_name(#[trigger] types@[k]) != name@ by {
                    if wire_name(types@[k]) == name@ {
                        assert(count_names(before).contains(name@));
                        let w = choose|w: int| 0 <= w < count_names(before).len() && count_names(before)[w] == name@;
                        if w < p {
                            crate::text::lemma_seq_lt_irreflexive(name@);
                        } else if w > p {
                            crate::text::lemma_seq_lt_transitive(name@, count_names(before)[p as int], count_names(before)[w]);
                            crate::text::lemma_seq_lt_irreflexive(name@);
                        }
                    }
                }
                lemma_type_count_zero(types@, name@, i as int);
            }
            out.insert(p, (to_owned_string(name), 1));
            proof {
                let cn = count_names(out@);
                assert(cn =~= count_names(before).insert(p as int, name@));
                assert forall|a: int, b: int| 0 <= a < b < cn.len() implies seq_lt(cn[a], cn[b]) by {
                    let cb = count_names(before);
                    if b < p {
                        assert(cn[a] == cb[a] && cn[b] == cb[b]);
                    } else if b == p {
                        assert(cn[a] == cb[a]);
                    } else if a < p {
                        assert(cn[a] == cb[a] && cn[b] == cb[b - 1]);
                        crate::text::lemma_seq_lt_transitive(cb[a], name@, cb[p as int]);
                        if b - 1 > p {
                            crate::text::lemma_seq_lt_transitive(cb[a], cb[p as int], cb[b - 1]);
                        }
                    } else if a == p {
                        assert(cn[b] == cb[b - 1]);
                        if b - 1 > p {
                            crate::text::lemma_seq_lt_transitive(name@, cb[p as int], cb[b - 1]);
                        }
                    } else {
                        assert(cn[a] == cb[a - 1] && cn[b] == cb[b - 1]);
                    }
                }
                assert forall|q: int| 0 <= q < out@.len() implies #[trigger] out@[q].1 == type_count(types@, out@[q].0@, i + 1) && out@[q].1 > 0 by {
                    if q < p {
                        assert(out@[q] == before[q]);
                        assert(count_names(before)[q] != name@) by {
                            crate::text::lemma_seq_lt_irreflexive(name@);
                        }
                    } else if q > p {
                        assert(out@[q] == before[q - 1]);
                        assert(count_names(before)[q - 1] != name@) by {
                            crate::text::lemma_seq_lt_irreflexive(name@);
                            if q - 1 > p {
                                crate::text::lemma_seq_lt_transitive(name@, count_names(before)[p as int], count_names(before)[q - 1]);
                            }
                        }
                    }
                }
                assert forall|k: int| 0 <= k < i + 1 implies #[trigger] count_names(out@).contains(wire_name(types@[k])) by {
                    if k == i {
                        assert(count_names(out@)[p as int] == name@);
                    } else {
                        assert(count_names(before).contains(wire_name(types@[k])));
                        let w = choose|w: int| 0 <= w < count_names(before).len() && count_names(before)[w] == wire_name(types@[k]);
                        if w < p {
                            assert(count_names(out@)[w] == count_names(before)[w]);
                        } else {
                            assert(count_names(out@)[w + 1] == count_names(before)[w]);
                        }
                    }
                }
            }
        }
        i = i + 1;
    }
    out
}

} // verus!

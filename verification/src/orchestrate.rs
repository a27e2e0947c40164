//! Capture orchestration logic: the browser-revision remedy text and the
//! filter that condenses the browser driver's advisory boxes on stderr.
//!
//! Spawning the capture process, reading its streams and touching the file
//! system are left to the application; it feeds the filter line by line and
//! prints what the filter hands back.
use vstd::prelude::*;

use crate::locale::{all_digit, path_segments, split_path_segments};
use crate::contract::views;
use crate::text::{char_is_ascii_digit, chars_of, chars_slice_string, contains_seq, is_prefix, push_str, str_contains, strip_prefix, to_owned_string};

verus! {

// ---------------------------------------------------------------------------
// Where the capture script may live
// ---------------------------------------------------------------------------

/// What `std::path::Path::parent` gives for a path: the path without its
/// final component, or `None` at a root or for an empty path.
pub uninterp spec fn path_parent_of(p: Seq<char>) -> Option<Seq<char>>;

/// What `std::path::Path::join` gives for a base path and a relative one.
pub uninterp spec fn path_join_of(base: Seq<char>, rel: Seq<char>) -> Seq<char>;

/// Calls `std::path::Path::parent`. Trusted: the result is `path_parent_of`
/// of the input, and (being the path without its final component) shorter
/// than it.
#[verifier::external_body]
fn path_parent(p: &str) -> (r: Option<String>)
    ensures
        match r {
            Some(q) => path_parent_of(p@) == Some(q@) && q@.len() < p@.len(),
            None => path_parent_of(p@) is None,
        },
{
    std::path::Path::new(p).parent().map(|q| q.to_string_lossy().into_owned())
}

/// Calls `std::path::Path::join`. Trusted: the result is `path_join_of` of
/// the inputs.
#[verifier::external_body]
fn path_join(base: &str, rel: &str) -> (r: String)
    ensures
        r@ == path_join_of(base@, rel@),
{
    std::path::Path::new(base).join(rel).to_string_lossy().into_owned()
}

/// The ancestors of a directory, itself first, up to the root.
pub open spec fn ancestors(p: Seq<char>) -> Seq<Seq<char>>
    decreases p.len(),
{
    match path_parent_of(p) {
        Some(q) => if q != p && q.len() < p.len() {
            seq![p] + ancestors(q)
        } else {
            seq![p]
        },
        None => seq![p],
    }
}

/// The places searched for the capture script, in order: beside the
/// executable, then `packages/capture/dist/capture.cjs` under each ancestor
/// of the executable's directory, then under the working directory.
pub open spec fn capture_candidates_spec(exe: Option<Seq<char>>, cwd: Seq<char>) -> Seq<Seq<char>> {
    let tail = seq![path_join_of(cwd, "packages/capture/dist/capture.cjs"@)];
    match exe {
        Some(e) => match path_parent_of(e) {
            Some(dir) => seq![path_join_of(dir, "capture.cjs"@)] + ancestors(dir).map_values(
                |a: Seq<char>| path_join_of(a, "packages/capture/dist/capture.cjs"@),
            ) + tail,
            None => tail,
        },
        None => tail,
    }
}

/// The candidate paths of the capture script, in search order.
pub fn capture_script_candidates(exe: Option<&str>, cwd: &str) -> (r: Vec<String>)
    ensures
        views(r@) == capture_candidates_spec(
            match exe {
                Some(e) => Some(e@),
                None => None,
            },
            cwd@,
        ),
{
    let mut out: Vec<String> = Vec::new();
    let ghost f = |x: Seq<char>| path_join_of(x, "packages/capture/dist/capture.cjs"@);
    match exe {
        Some(e) => {
            match path_parent(e) {
                Some(dir) => {
                    out.push(path_join(dir.as_str(), "capture.cjs"));
                    let ghost all = ancestors(dir@);
                    let mut a = dir.clone();
                    let mut go = true;
                    let ghost mut done: Seq<Seq<char>> = seq![];
                    assert(views(out@) =~= seq![path_join_of(dir@, "capture.cjs"@)] + done.map_values(f));
                    while go
                        invariant
                            all == ancestors(dir@),
                            f == (|x: Seq<char>| path_join_of(x, "packages/capture/dist/capture.cjs"@)),
                            go ==> all == done + ancestors(a@),
                            !go ==> all == done,
                            views(out@) == seq![path_join_of(dir@, "capture.cjs"@)] + done.map_values(f),
                        decreases (if go { a@.len() + 1 } else { 0 }),
                    {
                        let ghost before = views(out@);
                        let ghost a0 = a@;
                        out.push(path_join(a.as_str(), "packages/capture/dist/capture.cjs"));
                        proof {
                            assert(done.push(a0).map_values(f) =~= done.map_values(f).push(f(a0)));
                            done = done.push(a0);
                            assert(views(out@) =~= before.push(f(a0)));
                        }
                        match path_parent(a.as_str()) {
                            Some(p) => {
                                if !crate::text::str_eq(p.as_str(), a.as_str()) {
                                    proof {
                                        assert(ancestors(a0) == seq![a0] + ancestors(p@));
                                        assert(all =~= done + ancestors(p@));
                                    }
                                    a = p;
                                } else {
                                    proof {
                                        assert(ancestors(a0) == seq![a0]);
                                        assert(all =~= done);
                                    }
                                    go = false;
                                }
                            },
                            None => {
                                proof {
                                    assert(ancestors(a0) == seq![a0]);
                                    assert(all =~= done);
                                }
                                go = false;
                            },
                        }
                    }
                },
                None => {},
            }
        },
        None => {},
    }
    out.push(path_join(cwd, "packages/capture/dist/capture.cjs"));
    out
}

// ---------------------------------------------------------------------------
// Browser-revision remedy
// ---------------------------------------------------------------------------

/// The revision named by one path segment, if it is
/// `chromium_headless_shell-NNNN` or `chromium-NNNN` (digits only).
pub open spec fn segment_rev(seg: Seq<char>) -> Option<Seq<char>> {
    if is_prefix("chromium_headless_shell-"@, seg) {
        let rev = seg.skip("chromium_headless_shell-"@.len() as int);
        if rev.len() > 0 && all_digit(rev) {
            Some(rev)
        } else {
            None
        }
    } else if is_prefix("chromium-"@, seg) {
        let rev = seg.skip("chromium-"@.len() as int);
        if rev.len() > 0 && all_digit(rev) {
            Some(rev)
        } else {
            None
        }
    } else {
        None
    }
}

/// The revision of the first segment (from index `i` on) that names one.
pub open spec fn first_rev_from(segs: Seq<Seq<char>>, i: int) -> Option<Seq<char>>
    decreases segs.len() - i,
{
    if i >= segs.len() {
        None
    } else if segment_rev(segs[i]) is Some {
        segment_rev(segs[i])
    } else {
        first_rev_from(segs, i + 1)
    }
}

/// The Chromium build revision named in a browser executable path.
pub open spec fn chromium_rev_of(path: Seq<char>) -> Option<Seq<char>> {
    first_rev_from(path_segments(path), 0)
}

fn digits_only(s: &str) -> (r: bool)
    ensures
        r == (s@.len() > 0 && all_digit(s@)),
{
    let cs = chars_of(s);
    if cs.len() == 0 {
        return false;
    }
    let mut i: usize = 0;
    while i < cs.len()
        invariant
            cs@ == s@,
            i <= cs@.len(),
            forall|k: int| 0 <= k < i ==> crate::text::is_ascii_digit(#[trigger] cs@[k]),
        decreases cs.len() - i,
    {
        if !char_is_ascii_digit(cs[i]) {
            return false;
        }
        i = i + 1;
    }
    true
}

fn segment_rev_exec(seg: &str) -> (r: Option<String>)
    ensures
        match r {
            Some(rev) => segment_rev(seg@) == Some(rev@),
            None => segment_rev(seg@) is None,
        },
{
    match strip_prefix(seg, "chromium_headless_shell-") {
        Some(rev) => {
            if digits_only(rev.as_str()) {
                Some(rev)
            } else {
                None
            }
        },
        None => match strip_prefix(seg, "chromium-") {
            Some(rev) => {
                if digits_only(rev.as_str()) {
                    Some(rev)
                } else {
                    None
                }
            },
            None => None,
        },
    }
}

/// Extracts the Chromium build revision from a browser executable path:
/// the digits after `chromium_headless_shell-` or `chromium-` in the first
/// path segment that has that form.
pub fn extract_chromium_rev(path: &str) -> (r: Option<String>)
    ensures
        match r {
            Some(rev) => chromium_rev_of(path@) == Some(rev@),
            None => chromium_rev_of(path@) is None,
        },
{
    let segs = split_path_segments(path);
    let ghost sv = views(segs@);
    let mut i: usize = 0;
    while i < segs.len()
        invariant
            sv == views(segs@),
            sv == path_segments(path@),
            i <= segs@.len(),
            first_rev_from(sv, 0) == first_rev_from(sv, i as int),
        decreases segs.len() - i,
    {
        assert(sv[i as int] == segs@[i as int]@);
        match segment_rev_exec(segs[i].as_str()) {
            Some(rev) => {
                return Some(rev);
            },
            None => {},
        }
        i = i + 1;
    }
    None
}

/// The remedy text shown when the capture browser build is missing.
pub open spec fn browser_remedy_text(rev: Seq<char>, missing: Seq<char>, repo: Seq<char>) -> Seq<
    char,
> {
    "Chromium build "@ + rev + " not found at:\n  "@ + missing + "\nInstall it with:\n  cd "@ + repo
        + "/packages/capture && PLAYWRIGHT_BROWSERS_PATH="@ + repo
        + "/.pw-browsers npx playwright install chromium\nThen run matchy with:\n  export PLAYWRIGHT_BROWSERS_PATH="@
        + repo + "/.pw-browsers"@
}

/// Formats the browser-not-found remedy block for the executable path
/// `missing_path`; an unknown revision reads `unknown` and an unknown repo
/// root `<repo-root>`.
pub fn format_browser_remedy(missing_path: &str, repo_root: Option<&str>) -> (r: String)
    ensures
        r@ == browser_remedy_text(
            match chromium_rev_of(missing_path@) {
                Some(rev) => rev,
                None => "unknown"@,
            },
            missing_path@,
            match repo_root {
                Some(root) => root@,
                None => "<repo-root>"@,
            },
        ),
{
    let rev = match extract_chromium_rev(missing_path) {
        Some(r) => r,
        None => to_owned_string("unknown"),
    };
    let repo = match repo_root {
        Some(root) => to_owned_string(root),
        None => to_owned_string("<repo-root>"),
    };
    let mut out = to_owned_string("Chromium build ");
    push_str(&mut out, rev.as_str());
    push_str(&mut out, " not found at:\n  ");
    push_str(&mut out, missing_path);
    push_str(&mut out, "\nInstall it with:\n  cd ");
    push_str(&mut out, repo.as_str());
    push_str(&mut out, "/packages/capture && PLAYWRIGHT_BROWSERS_PATH=");
    push_str(&mut out, repo.as_str());
    push_str(&mut out, "/.pw-browsers npx playwright install chromium\nThen run matchy with:\n  export PLAYWRIGHT_BROWSERS_PATH=");
    push_str(&mut out, repo.as_str());
    push_str(&mut out, "/.pw-browsers");
    out
}

// ---------------------------------------------------------------------------
// Advisory-box filter for the capture process's stderr
// ---------------------------------------------------------------------------

/// The note that stands in for the first advisory box.
pub open spec fn advisory_note() -> Seq<char> {
    "note: Playwright reported missing browsers (advisory suppressed; see remedy below)"@
}

/// The marker that precedes the missing browser executable's path.
pub open spec fn missing_executable_marker() -> Seq<char> {
    "Executable doesn't exist at "@
}

/// A character of the Unicode `White_Space` property.
pub open spec fn is_white_space(c: char) -> bool {
    let v = c as u32;
    (0x9 <= v <= 0xd) || v == 0x20 || v == 0x85 || v == 0xa0 || v == 0x1680 || (0x2000 <= v <= 0x200a)
        || v == 0x2028 || v == 0x2029 || v == 0x202f || v == 0x205f || v == 0x3000
}

/// `s` without its leading white space.
pub open spec fn trim_start_ws(s: Seq<char>) -> Seq<char>
    decreases s.len(),
{
    if s.len() > 0 && is_white_space(s[0]) {
        trim_start_ws(s.skip(1))
    } else {
        s
    }
}

/// `s` without its trailing white space.
pub open spec fn trim_end_ws(s: Seq<char>) -> Seq<char>
    decreases s.len(),
{
    if s.len() > 0 && is_white_space(s.last()) {
        trim_end_ws(s.drop_last())
    } else {
        s
    }
}

/// `str::trim`: `s` without leading and trailing Unicode white space.
pub open spec fn unicode_trim(s: Seq<char>) -> Seq<char> {
    trim_end_ws(trim_start_ws(s))
}

fn char_is_white_space(c: char) -> (r: bool)
    ensures
        r == is_white_space(c),
{
    let v = c as u32;
    (0x9 <= v && v <= 0xd) || v == 0x20 || v == 0x85 || v == 0xa0 || v == 0x1680 || (0x2000 <= v && v <= 0x200a)
        || v == 0x2028 || v == 0x2029 || v == 0x202f || v == 0x205f || v == 0x3000
}

/// `str::trim` (see `unicode_trim`).
pub fn trim_string(s: &str) -> (r: String)
    ensures
        r@ == unicode_trim(s@),
{
    let cs = chars_of(s);
    let n = cs.len();
    let mut i: usize = 0;
    assert(cs@.skip(0) =~= cs@);
    while i < n && char_is_white_space(cs[i])
        invariant
            n == cs@.len(),
            cs@ == s@,
            i <= n,
            trim_start_ws(cs@.skip(i as int)) == trim_start_ws(cs@),
        decreases n - i,
    {
        assert(cs@.skip(i as int).skip(1) =~= cs@.skip(i + 1));
        i = i + 1;
    }
    let mut j: usize = n;
    assert(cs@.subrange(i as int, n as int) =~= cs@.skip(i as int));
    while j > i && char_is_white_space(cs[j - 1])
        invariant
            n == cs@.len(),
            i <= j <= n,
            trim_start_ws(cs@) == cs@.skip(i as int),
            trim_end_ws(cs@.subrange(i as int, j as int)) == trim_end_ws(cs@.skip(i as int)),
        decreases j - i,
    {
        assert(cs@.subrange(i as int, j as int).drop_last() =~= cs@.subrange(i as int, j - 1));
        j = j - 1;
    }
    chars_slice_string(cs.as_slice(), i, j)
}

pub open spec fn is_box_top_spec(line: Seq<char>) -> bool {
    line.len() > 0 && line[0] == '╔'
}

pub open spec fn is_box_bottom_spec(line: Seq<char>) -> bool {
    line.len() > 0 && line[0] == '╚'
}

pub open spec fn is_box_side_spec(line: Seq<char>) -> bool {
    line.len() > 0 && line[0] == '║'
}

/// A line of the browser driver's missing-browser advisory.
pub open spec fn is_advisory_line(line: Seq<char>) -> bool {
    contains_seq(line, "Looks like Playwright"@) || contains_seq(line, "npx playwright install"@)
        || contains_seq(line, "Please run the following command"@)
}

/// Some line of the box is an advisory line.
pub open spec fn box_is_advisory(lines: Seq<Seq<char>>) -> bool {
    exists|i: int| 0 <= i < lines.len() && is_advisory_line(#[trigger] lines[i])
}

fn first_char_is(line: &str, c: char) -> (r: bool)
    ensures
        r == (line@.len() > 0 && line@[0] == c),
{
    let cs = chars_of(line);
    cs.len() > 0 && cs[0] == c
}

/// The line opens a box (`╔`).
pub fn is_box_top(line: &str) -> (r: bool)
    ensures
        r == is_box_top_spec(line@),
{
    first_char_is(line, '╔')
}

/// The line closes a box (`╚`).
pub fn is_box_bottom(line: &str) -> (r: bool)
    ensures
        r == is_box_bottom_spec(line@),
{
    first_char_is(line, '╚')
}

/// The line is a box side (`║`).
pub fn is_box_side(line: &str) -> (r: bool)
    ensures
        r == is_box_side_spec(line@),
{
    first_char_is(line, '║')
}

/// The line belongs to the missing-browser advisory.
pub fn is_advisory_content(line: &str) -> (r: bool)
    ensures
        r == is_advisory_line(line@),
{
    str_contains(line, "Looks like Playwright") || str_contains(line, "npx playwright install")
        || str_contains(line, "Please run the following command")
}

fn any_advisory(lines: &Vec<String>) -> (r: bool)
    ensures
        r == box_is_advisory(views(lines@)),
{
    let mut i: usize = 0;
    while i < lines.len()
        invariant
            i <= lines@.len(),
            forall|k: int| 0 <= k < i ==> !is_advisory_line(#[trigger] views(lines@)[k]),
        decreases lines.len() - i,
    {
        assert(views(lines@)[i as int] == lines@[i as int]@);
        if is_advisory_content(lines[i].as_str()) {
            return true;
        }
        i = i + 1;
    }
    false
}

/// State of the stderr filter between lines.
#[derive(Debug, Clone)]
pub struct AdvisoryFilter {
    /// Inside a box whose closing line has not been seen yet.
    pub in_box: bool,
    /// The lines of the open box.
    pub box_buf: Vec<String>,
    /// The advisory note has been emitted once already.
    pub advisory_emitted: bool,
}

/// What the filter decided for one line.
#[derive(Debug, Clone)]
pub struct FilterStep {
    /// Lines to write to stderr, in order.
    pub emit: Vec<String>,
    /// The missing browser executable path this line reports, if any.
    pub missing_browser: Option<String>,
}

/// The mathematical state of the filter.
pub struct FilterModel {
    pub in_box: bool,
    pub box_buf: Seq<Seq<char>>,
    pub advisory_emitted: bool,
}

impl View for AdvisoryFilter {
    type V = FilterModel;

    open spec fn view(&self) -> FilterModel {
        FilterModel {
            in_box: self.in_box,
            box_buf: views(self.box_buf@),
            advisory_emitted: self.advisory_emitted,
        }
    }
}

/// The state after a line, and the lines emitted for it.
pub open spec fn filter_step(s: FilterModel, line: Seq<char>) -> (FilterModel, Seq<Seq<char>>) {
    if is_box_top_spec(line) {
        (FilterModel { in_box: true, box_buf: seq![line], advisory_emitted: s.advisory_emitted }, seq![])
    } else if s.in_box {
        let buf = s.box_buf.push(line);
        if is_box_bottom_spec(line) {
            if box_is_advisory(buf) {
                (
                    FilterModel { in_box: false, box_buf: seq![], advisory_emitted: true },
                    if s.advisory_emitted {
                        seq![]
                    } else {
                        seq![advisory_note()]
                    },
                )
            } else {
                (FilterModel { in_box: false, box_buf: seq![], advisory_emitted: s.advisory_emitted }, buf)
            }
        } else {
            (FilterModel { in_box: true, box_buf: buf, advisory_emitted: s.advisory_emitted }, seq![])
        }
    } else {
        (s, seq![line])
    }
}

/// The missing browser path that a line reports, if it carries the marker.
pub open spec fn reported_missing_browser(line: Seq<char>) -> Option<Seq<char>> {
    if is_prefix(missing_executable_marker(), line) {
        Some(unicode_trim(line.skip(missing_executable_marker().len() as int)))
    } else {
        None
    }
}

/// The lines emitted when the stream ends.
pub open spec fn filter_finish(s: FilterModel) -> Seq<Seq<char>> {
    if s.in_box && s.box_buf.len() > 0 {
        if !box_is_advisory(s.box_buf) {
            s.box_buf
        } else if !s.advisory_emitted {
            seq![advisory_note()]
        } else {
            seq![]
        }
    } else {
        seq![]
    }
}

impl AdvisoryFilter {
    /// The filter before the first line.
    pub fn new() -> (r: Self)
        ensures
            !r@.in_box,
            r@.box_buf.len() == 0,
            !r@.advisory_emitted,
    {
        AdvisoryFilter { in_box: false, box_buf: Vec::new(), advisory_emitted: false }
    }

    /// Feeds one stderr line: boxes are buffered until they close; the first
    /// advisory box is replaced by a single note and later ones dropped;
    /// other boxes and lines pass through unchanged.
    pub fn feed_line(&mut self, line: String) -> (r: FilterStep)
        ensures
            final(self)@ == filter_step(old(self)@, line@).0,
            views(r.emit@) == filter_step(old(self)@, line@).1,
            match r.missing_browser {
                Some(p) => reported_missing_browser(line@) == Some(p@),
                None => reported_missing_browser(line@) is None,
            },
    {
        let missing_browser = match strip_prefix(line.as_str(), "Executable doesn't exist at ") {
            Some(rest) => Some(trim_string(rest.as_str())),
            None => None,
        };
        let mut emit: Vec<String> = Vec::new();
        if is_box_top(line.as_str()) {
            self.in_box = true;
            self.box_buf = Vec::new();
            self.box_buf.push(line);
            assert(views(self.box_buf@) =~= seq![self.box_buf@[0]@]);
        } else if self.in_box {
            let bottom = is_box_bottom(line.as_str());
            let ghost before = views(self.box_buf@);
            self.box_buf.push(line);
            assert(views(self.box_buf@) =~= before.push(self.box_buf@.last()@));
            if bottom {
                let advisory = any_advisory(&self.box_buf);
                if advisory {
                    if !self.advisory_emitted {
                        emit.push(to_owned_string(
                            "note: Playwright reported missing browsers (advisory suppressed; see remedy below)",
                        ));
                        assert(views(emit@) =~= seq![advisory_note()]);
                    } else {
                        assert(views(emit@) =~= Seq::<Seq<char>>::empty());
                    }
                    self.advisory_emitted = true;
                    self.box_buf = Vec::new();
                } else {
                    emit = Vec::new();
                    std::mem::swap(&mut emit, &mut self.box_buf);
                }
                self.in_box = false;
                assert(views(self.box_buf@) =~= Seq::<Seq<char>>::empty());
            } else {
                assert(views(emit@) =~= Seq::<Seq<char>>::empty());
            }
        } else {
            emit.push(line);
            assert(views(emit@) =~= seq![emit@[0]@]);
        }
        FilterStep { emit, missing_browser }
    }

    /// The lines to emit when the stream ends (an unterminated box).
    pub fn finish(&self) -> (r: Vec<String>)
        ensures
            views(r@) == filter_finish(self@),
    {
        let mut out: Vec<String> = Vec::new();
        if self.in_box && self.box_buf.len() > 0 {
            let advisory = any_advisory(&self.box_buf);
            if !advisory {
                let mut i: usize = 0;
                while i < self.box_buf.len()
                    invariant
                        i <= self.box_buf@.len(),
                        views(out@) == views(self.box_buf@).take(i as int),
                    decreases self.box_buf.len() - i,
                {
                    let ghost before = views(out@);
                    out.push(self.box_buf[i].clone());
                    assert(views(out@) =~= before.push(self.box_buf@[i as int]@));
                    assert(views(self.box_buf@).take(i + 1) =~= views(self.box_buf@).take(
                        i as int,
                    ).push(self.box_buf@[i as int]@));
                    i = i + 1;
                }
                assert(views(self.box_buf@).take(self.box_buf@.len() as int) =~= views(self.box_buf@));
            } else if !self.advisory_emitted {
                out.push(to_owned_string(
                    "note: Playwright reported missing browsers (advisory suppressed; see remedy below)",
                ));
                assert(views(out@) =~= seq![advisory_note()]);
            }
        }
        assert(views(out@) =~= filter_finish(self@));
        out
    }
}

} // verus!

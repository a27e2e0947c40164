//! `doctor`: the verdicts on the runtime environment, from what the checks
//! observed (the Node.js version string and the capture script's doctor-mode
//! JSON reply), and the status table. Running the probes is left to the
//! application.
use vstd::prelude::*;

use crate::explain::pad_right;
use crate::locale::all_digit;
use crate::json::{check_json_text, json_bool_at, json_bool_field, json_str_at, json_value_error, json_str_field, json_text_parses, opt_string_view};
use crate::orchestrate::{browser_remedy_text, chromium_rev_of, extract_chromium_rev, format_browser_remedy};
use crate::text::{chars_of, is_ascii_digit, push_str, to_owned_string};

verus! {

// ---------------------------------------------------------------------------
// Node.js version
// ---------------------------------------------------------------------------

/// The value of a string of decimal digits.
pub open spec fn digits_value(s: Seq<char>) -> nat
    decreases s.len(),
{
    if s.len() == 0 {
        0
    } else {
        digits_value(s.drop_last()) * 10 + ((s.last() as int) - ('0' as int)) as nat
    }
}

/// What `str::parse::<u32>` accepts: an optional `+`, then one or more ASCII
/// digits, with a value that fits in 32 bits.
pub open spec fn parse_u32_spec(s: Seq<char>) -> Option<u32> {
    let d = unsigned_part(s);
    if d.len() > 0 && all_digit(d) && digits_value(d) <= u32::MAX {
        Some(digits_value(d) as u32)
    } else {
        None
    }
}

/// The text after an optional leading `+`.
pub open spec fn unsigned_part(s: Seq<char>) -> Seq<char> {
    if s.len() > 0 && s[0] == '+' {
        s.skip(1)
    } else {
        s
    }
}

/// `s` without all its leading `v`s.
pub open spec fn trim_leading_v(s: Seq<char>) -> Seq<char>
    decreases s.len(),
{
    if s.len() > 0 && s[0] == 'v' {
        trim_leading_v(s.drop_first())
    } else {
        s
    }
}

/// The major version of a `vMAJOR.MINOR.PATCH` string; 0 when unreadable.
pub open spec fn node_major_spec(version: Seq<char>) -> u32 {
    let t = trim_leading_v(version);
    match parse_u32_spec(t.take(crate::text::char_index(t, '.'))) {
        Some(n) => n,
        None => 0,
    }
}

/// Parses a decimal `u32` as `str::parse` does (see `parse_u32_spec`).
pub fn parse_u32(s: &[char]) -> (r: Option<u32>)
    ensures
        r == parse_u32_spec(s@),
{
    let start: usize = if s.len() > 0 && s[0] == '+' {
        1
    } else {
        0
    };
    let ghost d = unsigned_part(s@);
    assert(d =~= s@.skip(start as int));
    if start >= s.len() {
        return None;
    }
    let mut value: u64 = 0;
    let mut i: usize = start;
    while i < s.len()
        invariant
            start <= i <= s@.len(),
            d == unsigned_part(s@),
            d =~= s@.skip(start as int),
            forall|k: int| start <= k < i ==> is_ascii_digit(#[trigger] s@[k]),
            value == digits_value(s@.subrange(start as int, i as int)),
            value <= u32::MAX,
        decreases s.len() - i,
    {
        let c = s[i];
        if !('0' <= c && c <= '9') {
            assert(d[i - start] == s@[i as int]);
            assert(!is_ascii_digit(d[i - start]));
            assert(!all_digit(d));
            return None;
        }
        assert(s@.subrange(start as int, i + 1).drop_last() =~= s@.subrange(start as int, i as int));
        let digit: u64 = ((c as u32) - ('0' as u32)) as u64;
        let next: u64 = value * 10 + digit;
        if next > 4294967295 {
            proof {
                assert(s@.subrange(start as int, s@.len() as int) =~= d);
                assert(d.take((i + 1 - start) as int) =~= s@.subrange(start as int, i + 1));
                if all_digit(d) {
                    lemma_digits_value_grows(d, (i + 1 - start) as int);
                }
            }
            return None;
        }
        value = next;
        i = i + 1;
    }
    assert(s@.subrange(start as int, s@.len() as int) =~= d);
    Some(value as u32)
}

proof fn lemma_digits_value_grows(d: Seq<char>, n: int)
    requires
        0 <= n <= d.len(),
        all_digit(d),
    ensures
        digits_value(d) >= digits_value(d.take(n)),
    decreases d.len() - n,
{
    if n < d.len() {
        lemma_digits_value_grows(d, n + 1);
        assert(d.take(n + 1).drop_last() =~= d.take(n));
    } else {
        assert(d.take(n) =~= d);
    }
}

/// The major version of a Node.js version string (`v20.1.2` or `20.1.2`);
/// 0 when it cannot be read.
pub fn parse_node_major(version: &str) -> (r: u32)
    ensures
        r == node_major_spec(version@),
{
    let cs = chars_of(version);
    let mut start: usize = 0;
    assert(cs@.skip(0) =~= cs@);
    while start < cs.len() && cs[start] == 'v'
        invariant
            cs@ == version@,
            start <= cs@.len(),
            trim_leading_v(version@) == trim_leading_v(cs@.skip(start as int)),
        decreases cs.len() - start,
    {
        assert(cs@.skip(start as int).drop_first() =~= cs@.skip(start + 1));
        start = start + 1;
    }
    let ghost t = cs@.skip(start as int);
    assert(trim_leading_v(t) == t);
    let mut end: usize = start;
    while end < cs.len() && cs[end] != '.'
        invariant
            start <= end <= cs@.len(),
            t == cs@.skip(start as int),
            forall|k: int| 0 <= k < end - start ==> t[k] != '.',
        decreases cs.len() - end,
    {
        end = end + 1;
    }
    proof {
        lemma_char_index_first(t, '.', (end - start) as int);
    }
    let head: Vec<char> = slice_chars(cs.as_slice(), start, end);
    assert(head@ =~= t.take((end - start) as int));
    match parse_u32(head.as_slice()) {
        Some(n) => n,
        None => 0,
    }
}

proof fn lemma_char_index_first(t: Seq<char>, c: char, p: int)
    requires
        0 <= p <= t.len(),
        forall|k: int| 0 <= k < p ==> t[k] != c,
        p == t.len() || t[p] == c,
    ensures
        crate::text::char_index(t, c) == p,
    decreases p,
{
    if p > 0 {
        assert forall|k: int| 0 <= k < p - 1 implies t.drop_first()[k] != c by {
            assert(t.drop_first()[k] == t[k + 1]);
        }
        if p < t.len() {
            assert(t.drop_first()[p - 1] == t[p]);
        }
        lemma_char_index_first(t.drop_first(), c, p - 1);
    }
}

fn slice_chars(cs: &[char], from: usize, to: usize) -> (r: Vec<char>)
    requires
        from <= to <= cs@.len(),
    ensures
        r@ == cs@.subrange(from as int, to as int),
{
    let mut out: Vec<char> = Vec::new();
    let mut i: usize = from;
    while i < to
        invariant
            from <= i <= to <= cs@.len(),
            out@ == cs@.subrange(from as int, i as int),
        decreases to - i,
    {
        out.push(cs[i]);
        i = i + 1;
        assert(out@ =~= cs@.subrange(from as int, i as int));
    }
    out
}

// ---------------------------------------------------------------------------
// Checks
// ---------------------------------------------------------------------------

/// One line of the doctor table.
#[derive(Debug, Clone)]
pub struct Check {
    pub name: &'static str,
    pub ok: bool,
    pub detail: String,
    pub remediation: Option<String>,
}

/// The Node.js check for the version string `node --version` printed.
pub open spec fn node_check_ok(version: Seq<char>, c: Check) -> bool {
    &&& c.name@ == "node.js"@
    &&& if node_major_spec(version) >= 20 {
        c.ok && c.detail@ == version && c.remediation is None
    } else {
        &&& !c.ok
        &&& c.detail@ == version + " (need >= 20)"@
        &&& c.remediation matches Some(r) && r@
            == "Upgrade Node.js to >= 20. Use nvm: `nvm install 20 && nvm use 20`"@
    }
}

/// The Node.js check: at least major version 20 is required.
pub fn node_check(version_str: &str) -> (r: Check)
    ensures
        node_check_ok(version_str@, r),
{
    let major = parse_node_major(version_str);
    if major >= 20 {
        Check { name: "node.js", ok: true, detail: to_owned_string(version_str), remediation: None }
    } else {
        let mut detail = to_owned_string(version_str);
        push_str(&mut detail, " (need >= 20)");
        Check {
            name: "node.js",
            ok: false,
            detail,
            remediation: Some(
                to_owned_string("Upgrade Node.js to >= 20. Use nvm: `nvm install 20 && nvm use 20`"),
            ),
        }
    }
}

/// The fields of the capture script's doctor-mode reply.
#[derive(Debug, Clone)]
pub struct DoctorResponse {
    pub playwright_ok: bool,
    pub playwright_version: String,
    /// `chromium.ok` as reported.
    pub chromium_ok_raw: bool,
    pub chromium_version: String,
    pub chromium_executable_path: Option<String>,
    pub chromium_exists: Option<bool>,
    pub browsers_path: Option<String>,
}

/// A string field, or `unknown`.
pub open spec fn str_or_unknown(o: Option<Seq<char>>) -> Seq<char> {
    match o {
        Some(s) => s,
        None => "unknown"@,
    }
}

/// The reply read from the JSON text (absent fields take their defaults).
pub open spec fn doctor_response_ok(text: Seq<char>, r: DoctorResponse) -> bool {
    &&& r.playwright_ok == (json_bool_at(text, "/ok"@) == Some(true))
    &&& r.playwright_version@ == str_or_unknown(json_str_at(text, "/playwright"@))
    &&& r.chromium_ok_raw == (json_bool_at(text, "/chromium/ok"@) == Some(true))
    &&& r.chromium_version@ == str_or_unknown(json_str_at(text, "/chromium/version"@))
    &&& opt_string_view(r.chromium_executable_path) == json_str_at(text, "/chromium/executablePath"@)
    &&& r.chromium_exists == json_bool_at(text, "/chromium/exists"@)
    &&& opt_string_view(r.browsers_path) == json_str_at(text, "/browsersPath"@)
}

fn or_unknown(o: Option<String>) -> (r: String)
    ensures
        r@ == str_or_unknown(opt_string_view(o)),
{
    match o {
        Some(s) => s,
        None => to_owned_string("unknown"),
    }
}

/// Reads the doctor-mode reply from its JSON text; fields that are absent
/// (older capture builds) read as `false`, `unknown` or absent.
pub fn parse_doctor_response(text: &str) -> (r: DoctorResponse)
    ensures
        doctor_response_ok(text@, r),
{
    DoctorResponse {
        playwright_ok: match json_bool_field(text, "/ok") {
            Some(b) => b,
            None => false,
        },
        playwright_version: or_unknown(json_str_field(text, "/playwright")),
        chromium_ok_raw: match json_bool_field(text, "/chromium/ok") {
            Some(b) => b,
            None => false,
        },
        chromium_version: or_unknown(json_str_field(text, "/chromium/version")),
        chromium_executable_path: json_str_field(text, "/chromium/executablePath"),
        chromium_exists: json_bool_field(text, "/chromium/exists"),
        browsers_path: json_str_field(text, "/browsersPath"),
    }
}

/// Chromium is usable: reported ok, and (when the reply says so) present.
pub open spec fn chromium_ok_spec(r: DoctorResponse) -> bool {
    match r.chromium_exists {
        Some(exists) => r.chromium_ok_raw && exists,
        None => r.chromium_ok_raw,
    }
}

/// The browsers path shown, or the note that the default is in use.
pub open spec fn browsers_path_display(r: DoctorResponse) -> Seq<char> {
    match r.browsers_path {
        Some(p) => p@,
        None => "(not set — Playwright is using ~/.cache/ms-playwright)"@,
    }
}

/// The remedy for a missing Chromium build.
pub open spec fn chromium_remedy_spec(r: DoctorResponse, repo_root: Option<Seq<char>>) -> Seq<char> {
    match repo_root {
        Some(root) => {
            let rev = match r.chromium_executable_path {
                Some(p) => match chromium_rev_of(p@) {
                    Some(v) => v,
                    None => "?"@,
                },
                None => "?"@,
            };
            let exe_line = match r.chromium_executable_path {
                Some(p) => "  Expected executable: "@ + p@,
                None => seq![],
            };
            "Chromium build "@ + rev + " not found.\n  Current browsers path: "@ + browsers_path_display(r)
                + "\n"@ + exe_line + "\n  Install:\n    cd "@ + root
                + "/packages/capture && PLAYWRIGHT_BROWSERS_PATH="@ + root
                + "/.pw-browsers npx playwright install chromium\n  Then run matchy with:\n    export PLAYWRIGHT_BROWSERS_PATH="@
                + root + "/.pw-browsers"@
        },
        None => {
            let missing = match r.chromium_executable_path {
                Some(p) => p@,
                None => "<unknown>"@,
            };
            browser_remedy_text(
                match chromium_rev_of(missing) {
                    Some(v) => v,
                    None => "unknown"@,
                },
                missing,
                "<repo-root>"@,
            )
        },
    }
}

/// The two checks a parsed reply yields.
pub open spec fn reply_checks_ok(r: DoctorResponse, repo_root: Option<Seq<char>>, checks: Seq<Check>) -> bool {
    &&& checks.len() == 2
    &&& checks[0].name@ == "playwright"@
    &&& checks[0].ok == r.playwright_ok
    &&& checks[0].detail@ == "v"@ + r.playwright_version@
    &&& if r.playwright_ok {
        checks[0].remediation is None
    } else {
        checks[0].remediation matches Some(m) && m@ == "Run `cd packages/capture && npm ci`"@
    }
    &&& checks[1].name@ == "chromium"@
    &&& checks[1].ok == chromium_ok_spec(r)
    &&& checks[1].detail@ == if chromium_ok_spec(r) {
        "build "@ + r.chromium_version@ + "  browsers: "@ + browsers_path_display(r)
    } else {
        "build "@ + r.chromium_version@ + "  (FAIL)"@
    }
    &&& if chromium_ok_spec(r) {
        checks[1].remediation is None
    } else {
        checks[1].remediation matches Some(m) && m@ == chromium_remedy_spec(r, repo_root)
    }
}

/// The skipped Chromium check that follows a failed Playwright check.
pub open spec fn skipped_chromium(c: Check) -> bool {
    c.name@ == "chromium"@ && !c.ok && c.detail@ == "skipped"@ && c.remediation is None
}

/// The checks for the first line of the capture script's doctor-mode output.
pub open spec fn capture_checks_ok(line: Seq<char>, repo_root: Option<Seq<char>>, checks: Seq<Check>) -> bool {
    if line.len() == 0 {
        &&& checks.len() == 2
        &&& checks[0].name@ == "playwright"@ && !checks[0].ok
        &&& checks[0].detail@ == "capture doctor returned no output"@
        &&& checks[0].remediation matches Some(m) && m@
            == "Run `cd packages/capture && npm ci && npx playwright install chromium`"@
        &&& skipped_chromium(checks[1])
    } else if !json_text_parses(line) {
        &&& checks.len() == 2
        &&& checks[0].name@ == "playwright"@ && !checks[0].ok && checks[0].remediation is None
        &&& checks[0].detail@ == "capture doctor parse error: "@ + json_value_error(line) + " (raw: "@ + line
            + ")"@
        &&& skipped_chromium(checks[1])
    } else {
        exists|r: DoctorResponse| doctor_response_ok(line, r) && reply_checks_ok(r, repo_root, checks)
    }
}

fn skipped_chromium_check() -> (c: Check)
    ensures
        skipped_chromium(c),
{
    Check { name: "chromium", ok: false, detail: to_owned_string("skipped"), remediation: None }
}

fn chromium_remedy(resp: &DoctorResponse, repo_root: Option<&str>) -> (r: String)
    ensures
        r@ == chromium_remedy_spec(
            *resp,
            match repo_root {
                Some(x) => Some(x@),
                None => None,
            },
        ),
{
    let bp = match &resp.browsers_path {
        Some(p) => p.clone(),
        None => to_owned_string("(not set — Playwright is using ~/.cache/ms-playwright)"),
    };
    match repo_root {
        Some(root) => {
            let rev = match &resp.chromium_executable_path {
                Some(p) => match extract_chromium_rev(p.as_str()) {
                    Some(v) => v,
                    None => to_owned_string("?"),
                },
                None => to_owned_string("?"),
            };
            let mut out = to_owned_string("Chromium build ");
            push_str(&mut out, rev.as_str());
            push_str(&mut out, " not found.\n  Current browsers path: ");
            push_str(&mut out, bp.as_str());
            push_str(&mut out, "\n");
            match &resp.chromium_executable_path {
                Some(p) => {
                    push_str(&mut out, "  Expected executable: ");
                    push_str(&mut out, p.as_str());
                },
                None => {},
            }
            push_str(&mut out, "\n  Install:\n    cd ");
            push_str(&mut out, root);
            push_str(&mut out, "/packages/capture && PLAYWRIGHT_BROWSERS_PATH=");
            push_str(&mut out, root);
            push_str(&mut out, "/.pw-browsers npx playwright install chromium\n  Then run matchy with:\n    export PLAYWRIGHT_BROWSERS_PATH=");
            push_str(&mut out, root);
            push_str(&mut out, "/.pw-browsers");
            out
        },
        None => {
            let missing = match &resp.chromium_executable_path {
                Some(p) => p.clone(),
                None => to_owned_string("<unknown>"),
            };
            format_browser_remedy(missing.as_str(), None)
        },
    }
}

/// The checks the doctor derives from a parsed reply.
pub fn reply_checks(resp: &DoctorResponse, repo_root: Option<&str>) -> (r: Vec<Check>)
    ensures
        reply_checks_ok(
            *resp,
            match repo_root {
                Some(x) => Some(x@),
                None => None,
            },
            r@,
        ),
{
    let chromium_ok = match resp.chromium_exists {
        Some(exists) => resp.chromium_ok_raw && exists,
        None => resp.chromium_ok_raw,
    };
    let mut pw_detail = to_owned_string("v");
    push_str(&mut pw_detail, resp.playwright_version.as_str());
    let pw = Check {
        name: "playwright",
        ok: resp.playwright_ok,
        detail: pw_detail,
        remediation: if resp.playwright_ok {
            None
        } else {
            Some(to_owned_string("Run `cd packages/capture && npm ci`"))
        },
    };
    let mut detail = to_owned_string("build ");
    push_str(&mut detail, resp.chromium_version.as_str());
    if chromium_ok {
        push_str(&mut detail, "  browsers: ");
        match &resp.browsers_path {
            Some(p) => push_str(&mut detail, p.as_str()),
            None => push_str(&mut detail, "(not set — Playwright is using ~/.cache/ms-playwright)"),
        }
    } else {
        push_str(&mut detail, "  (FAIL)");
    }
    let remediation = if chromium_ok {
        None
    } else {
        Some(chromium_remedy(resp, repo_root))
    };
    let chromium = Check { name: "chromium", ok: chromium_ok, detail, remediation };
    let mut out: Vec<Check> = Vec::new();
    out.push(pw);
    out.push(chromium);
    out
}

/// The checks for the first line of the capture script's doctor-mode
/// output: no output, unreadable JSON, or the verdicts on Playwright and
/// Chromium. `repo_root` is the checkout that holds the capture package, when
/// one was found.
pub fn capture_doctor_checks(line: &str, repo_root: Option<&str>) -> (r: Vec<Check>)
    ensures
        capture_checks_ok(
            line@,
            match repo_root {
                Some(x) => Some(x@),
                None => None,
            },
            r@,
        ),
{
    let mut out: Vec<Check> = Vec::new();
    if line.is_empty() {
        out.push(
            Check {
                name: "playwright",
                ok: false,
                detail: to_owned_string("capture doctor returned no output"),
                remediation: Some(
                    to_owned_string(
                        "Run `cd packages/capture && npm ci && npx playwright install chromium`",
                    ),
                ),
            },
        );
        out.push(skipped_chromium_check());
        return out;
    }
    match check_json_text(line) {
        Err(et) => {
            let mut detail = to_owned_string("capture doctor parse error: ");
            push_str(&mut detail, et.as_str());
            push_str(&mut detail, " (raw: ");
            push_str(&mut detail, line);
            push_str(&mut detail, ")");
            out.push(Check { name: "playwright", ok: false, detail, remediation: None });
            out.push(skipped_chromium_check());
            assert(out@[0].detail@ == "capture doctor parse error: "@ + et@ + " (raw: "@ + line@ + ")"@);
            out
        },
        Ok(()) => {
            let resp = parse_doctor_response(line);
            reply_checks(&resp, repo_root)
        },
    }
}

/// Every check passed.
pub fn all_ok(checks: &[Check]) -> (r: bool)
    ensures
        r == (forall|i: int| 0 <= i < checks@.len() ==> (#[trigger] checks@[i]).ok),
{
    let mut i: usize = 0;
    while i < checks.len()
        invariant
            i <= checks@.len(),
            forall|k: int| 0 <= k < i ==> (#[trigger] checks@[k]).ok,
        decreases checks.len() - i,
    {
        if !checks[i].ok {
            return false;
        }
        i = i + 1;
    }
    true
}

// ---------------------------------------------------------------------------
// Status table
// ---------------------------------------------------------------------------

/// The table lines of one check (and its remedy line, if any).
pub open spec fn check_lines(c: Check) -> Seq<char> {
    pad_right(c.name@, 20) + " "@ + pad_right(if c.ok { "OK"@ } else { "FAIL"@ }, 10) + " "@ + c.detail@
        + "\n"@ + match c.remediation {
        Some(m) => pad_right(seq![], 20) + " "@ + pad_right(seq![], 10) + " Remedy: "@ + m@ + "\n"@,
        None => seq![],
    }
}

pub open spec fn checks_lines(cs: Seq<Check>) -> Seq<char>
    decreases cs.len(),
{
    if cs.len() == 0 {
        seq![]
    } else {
        checks_lines(cs.drop_last()) + check_lines(cs.last())
    }
}

/// The whole status table as printed.
pub open spec fn doctor_table_text(cs: Seq<Check>) -> Seq<char> {
    "\n"@ + pad_right("Check"@, 20) + " "@ + pad_right("Status"@, 10) + " Detail\n"@
        + crate::explain::repeat_char('-', 72) + "\n"@ + checks_lines(cs) + "\n"@
}

fn push_check_lines(out: &mut String, c: &Check)
    ensures
        final(out)@ == old(out)@ + check_lines(*c),
{
    let ghost start = out@;
    crate::explain::push_padded(out, c.name, 20);
    push_str(out, " ");
    crate::explain::push_padded(out, if c.ok { "OK" } else { "FAIL" }, 10);
    push_str(out, " ");
    push_str(out, c.detail.as_str());
    push_str(out, "\n");
    match &c.remediation {
        Some(m) => {
            proof {
                reveal_strlit("");
            }
            crate::explain::push_padded(out, "", 20);
            push_str(out, " ");
            crate::explain::push_padded(out, "", 10);
            push_str(out, " Remedy: ");
            push_str(out, m.as_str());
            push_str(out, "\n");
        },
        None => {},
    }
    assert(out@ =~= start + check_lines(*c));
}

/// The doctor's status table.
pub fn doctor_table(checks: &[Check]) -> (r: String)
    ensures
        r@ == doctor_table_text(checks@),
{
    let mut out = to_owned_string("\n");
    crate::explain::push_padded(&mut out, "Check", 20);
    push_str(&mut out, " ");
    crate::explain::push_padded(&mut out, "Status", 10);
    push_str(&mut out, " Detail\n");
    crate::explain::push_repeat(&mut out, '-', 72);
    push_str(&mut out, "\n");
    let ghost head = out@;
    let mut i: usize = 0;
    while i < checks.len()
        invariant
            i <= checks@.len(),
            out@ == head + checks_lines(checks@.take(i as int)),
        decreases checks.len() - i,
    {
        assert(checks@.take(i + 1).drop_last() =~= checks@.take(i as int));
        push_check_lines(&mut out, &checks[i]);
        i = i + 1;
        assert(out@ =~= head + checks_lines(checks@.take(i as int)));
    }
    assert(checks@.take(checks@.len() as int) =~= checks@);
    push_str(&mut out, "\n");
    assert(out@ =~= doctor_table_text(checks@));
    out
}

} // verus!

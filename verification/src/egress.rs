//! Egress guard for link probes: scheme, private-address and host-scope rules.
//!
//! A host is an address literal when the URL parser reads it as an IPv4 or
//! IPv6 address, or when its text (without IPv6 brackets) is a dotted-quad
//! IPv4 address: hosts of other schemes are kept as text by the parser.
use vstd::prelude::*;

use crate::doctor::{parse_u32, parse_u32_spec};
use crate::text::{
    ascii_lowercase, char_index, char_is_ascii_digit, chars_of, chars_slice_string, find_char,
    is_ascii_digit, lower_seq, str_eq,
};
use crate::weburl::{parse_url, url_parts_of, UrlHost, UrlHostModel};

verus! {

/// Decision on one probe URL.
#[derive(Debug, Clone, Copy, PartialEq, Eq, Structural)]
pub enum EgressDecision {
    /// The probe is allowed.
    Allow,
    /// The scheme is not http or https (or the URL does not parse).
    RefusedScheme,
    /// The host is a private address literal and the page's own host is not
    /// private or `localhost`.
    RefusedPrivateAddress,
    /// The host (or port) differs from the page's own.
    RefusedScope,
}

/// 10/8, 172.16/12, 192.168/16, 169.254/16 (link-local and metadata), 127/8.
pub open spec fn private_v4(o: Seq<u8>) -> bool {
    o[0] == 10 || (o[0] == 172 && 16 <= o[1] < 32) || (o[0] == 192 && o[1] == 168) || (o[0] == 169
        && o[1] == 254) || o[0] == 127
}

/// `::1`, fd00::/8, and IPv4-mapped forms of the private IPv4 ranges.
pub open spec fn private_v6(s: Seq<u16>) -> bool {
    (s[0] == 0 && s[1] == 0 && s[2] == 0 && s[3] == 0 && s[4] == 0 && s[5] == 0 && s[6] == 0 && s[7]
        == 1) || s[0] / 256 == 0xfd || (s[0] == 0 && s[1] == 0 && s[2] == 0 && s[3] == 0 && s[4] == 0
        && s[5] == 0xffff && private_v4(
        seq![(s[6] / 256) as u8, (s[6] % 256) as u8, (s[7] / 256) as u8, (s[7] % 256) as u8],
    ))
}

/// Whether an IPv4 address is in a private, loopback or link-local range.
pub fn is_private_ipv4(octets: [u8; 4]) -> (r: bool)
    ensures
        r == private_v4(octets@),
{
    octets[0] == 10 || (octets[0] == 172 && 16 <= octets[1] && octets[1] < 32) || (octets[0] == 192
        && octets[1] == 168) || (octets[0] == 169 && octets[1] == 254) || octets[0] == 127
}

/// Whether an IPv6 address is loopback, unique-local, or maps a private IPv4.
pub fn is_private_ipv6(segments: [u16; 8]) -> (r: bool)
    ensures
        r == private_v6(segments@),
{
    let s = segments;
    if s[0] == 0 && s[1] == 0 && s[2] == 0 && s[3] == 0 && s[4] == 0 && s[5] == 0 && s[6] == 0 && s[7]
        == 1 {
        return true;
    }
    if s[0] / 256 == 0xfd {
        return true;
    }
    if s[0] == 0 && s[1] == 0 && s[2] == 0 && s[3] == 0 && s[4] == 0 && s[5] == 0xffff {
        let mapped: [u8; 4] = [(s[6] / 256) as u8, (s[6] % 256) as u8, (s[7] / 256) as u8, (s[7]
            % 256) as u8];
        assert(mapped@ =~= seq![(s[6] / 256) as u8, (s[6] % 256) as u8, (s[7] / 256) as u8, (s[7] % 256) as u8]);
        return is_private_ipv4(mapped);
    }
    false
}

/// One dotted-quad part as `Ipv4Addr`'s parser reads it: one to three ASCII
/// digits, no leading zero, at most 255.
pub open spec fn octet_spec(p: Seq<char>) -> Option<u8> {
    if 1 <= p.len() <= 3 && is_ascii_digit(p[0]) && !(p.len() > 1 && p[0] == '0') {
        match parse_u32_spec(p) {
            Some(v) => if v <= 255 {
                Some(v as u8)
            } else {
                None
            },
            None => None,
        }
    } else {
        None
    }
}

/// A dotted-quad IPv4 literal (`a.b.c.d`, exactly four parts), as
/// `str::parse::<Ipv4Addr>` reads it.
pub open spec fn ipv4_literal(s: Seq<char>) -> Option<Seq<u8>> {
    let i1 = char_index(s, '.');
    let r1 = s.skip(i1 + 1);
    let i2 = char_index(r1, '.');
    let r2 = r1.skip(i2 + 1);
    let i3 = char_index(r2, '.');
    let r3 = r2.skip(i3 + 1);
    if i1 >= s.len() || i2 >= r1.len() || i3 >= r2.len() || char_index(r3, '.') < r3.len() {
        None
    } else {
        match (octet_spec(s.take(i1)), octet_spec(r1.take(i2)), octet_spec(r2.take(i3)), octet_spec(r3)) {
            (Some(a), Some(b), Some(c), Some(d)) => Some(seq![a, b, c, d]),
            _ => None,
        }
    }
}

/// The host is a private address literal: read as an address by the URL
/// parser, or (for a host kept as text) a private dotted-quad literal.
pub open spec fn host_is_private(h: Option<UrlHostModel>) -> bool {
    match h {
        Some(UrlHostModel::Ipv4(o)) => private_v4(o),
        Some(UrlHostModel::Ipv6(s)) => private_v6(s),
        Some(UrlHostModel::Domain(d)) => match ipv4_literal(d) {
            Some(o) => private_v4(o),
            None => false,
        },
        None => false,
    }
}

fn octet(p: &[char]) -> (r: Option<u8>)
    ensures
        r == octet_spec(p@),
{
    if p.len() < 1 || p.len() > 3 || !char_is_ascii_digit(p[0]) || (p.len() > 1 && p[0] == '0') {
        return None;
    }
    match parse_u32(p) {
        Some(v) => if v <= 255 {
            Some(v as u8)
        } else {
            None
        },
        None => None,
    }
}

fn split_at_dot(cs: &[char]) -> (r: (usize, Vec<char>, Vec<char>))
    ensures
        r.0 as int == char_index(cs@, '.'),
        r.0 <= cs@.len(),
        r.1@ == cs@.take(r.0 as int),
        r.0 < cs@.len() ==> r.2@ == cs@.skip(r.0 + 1),
{
    let i = find_char(cs, '.');
    let head = slice_vec(cs, 0, i);
    let tail = if i < cs.len() {
        slice_vec(cs, i + 1, cs.len())
    } else {
        Vec::new()
    };
    assert(head@ =~= cs@.take(i as int));
    if i < cs.len() {
        assert(tail@ =~= cs@.skip(i + 1));
    }
    (i, head, tail)
}

fn slice_vec(cs: &[char], from: usize, to: usize) -> (r: Vec<char>)
    requires
        from <= to <= cs@.len(),
    ensures
        r@ == cs@.subrange(from as int, to as int),
{
    let mut out: Vec<char> = Vec::new();
    let mut i: usize = from;
    while i < to
        invariant
            from <= i <= to <= cs@.len(),
            out@ == cs@.subrange(from as int, i as int),
        decreases to - i,
    {
        out.push(cs[i]);
        i = i + 1;
        assert(out@ =~= cs@.subrange(from as int, i as int));
    }
    out
}

/// Reads a dotted-quad IPv4 literal.
pub fn parse_ipv4_literal(s: &str) -> (r: Option<[u8; 4]>)
    ensures
        match r {
            Some(o) => ipv4_literal(s@) == Some(o@),
            None => ipv4_literal(s@) is None,
        },
{
    let cs = chars_of(s);
    let (i1, a, r1) = split_at_dot(cs.as_slice());
    if i1 >= cs.len() {
        return None;
    }
    let (i2, b, r2) = split_at_dot(r1.as_slice());
    if i2 >= r1.len() {
        return None;
    }
    let (i3, c, r3) = split_at_dot(r2.as_slice());
    if i3 >= r2.len() {
        return None;
    }
    let (i4, _, _) = split_at_dot(r3.as_slice());
    if i4 < r3.len() {
        return None;
    }
    match (octet(a.as_slice()), octet(b.as_slice()), octet(c.as_slice()), octet(r3.as_slice())) {
        (Some(x), Some(y), Some(z), Some(w)) => {
            let o: [u8; 4] = [x, y, z, w];
            assert(o@ =~= seq![x, y, z, w]);
            Some(o)
        },
        _ => None,
    }
}

/// Whether a host string (without brackets) is a private IPv4 literal.
fn text_host_private(d: &str) -> (r: bool)
    ensures
        r == match ipv4_literal(d@) {
            Some(o) => private_v4(o),
            None => false,
        },
{
    match parse_ipv4_literal(d) {
        Some(o) => is_private_ipv4(o),
        None => false,
    }
}

fn host_private(h: &Option<UrlHost>) -> (r: bool)
    ensures
        r == host_is_private(
            match h {
                Some(x) => Some(x@),
                None => None,
            },
        ),
{
    match h {
        Some(UrlHost::Ipv4(o)) => is_private_ipv4(*o),
        Some(UrlHost::Ipv6(s)) => is_private_ipv6(*s),
        Some(UrlHost::Domain(d)) => text_host_private(d.as_str()),
        None => false,
    }
}

/// `host` is `localhost` in any ASCII case.
pub open spec fn is_localhost_spec(host: Seq<char>) -> bool {
    lower_seq(host) == "localhost"@
}

/// Whether `host` is `localhost` (ASCII case-insensitive).
pub fn is_localhost(host: &str) -> (r: bool)
    ensures
        r == is_localhost_spec(host@),
{
    let l = ascii_lowercase(host);
    str_eq(l.as_str(), "localhost")
}

/// `[h]` without its brackets; anything else unchanged.
pub open spec fn strip_brackets(s: Seq<char>) -> Seq<char> {
    if s.len() >= 2 && s[0] == '[' && s[s.len() - 1] == ']' {
        s.subrange(1, s.len() - 1)
    } else {
        s
    }
}

/// Strips the brackets of an IPv6 host (`[::1]` becomes `::1`).
pub fn strip_ipv6_brackets(s: &str) -> (r: String)
    ensures
        r@ == strip_brackets(s@),
{
    let cs = chars_of(s);
    let n = cs.len();
    if n >= 2 && cs[0] == '[' && cs[n - 1] == ']' {
        chars_slice_string(cs.as_slice(), 1, n - 1)
    } else {
        crate::text::to_owned_string(s)
    }
}

/// The decision on a probe URL for a page whose final URL is `page`.
pub open spec fn probe_decision(probe: Seq<char>, page: Seq<char>) -> EgressDecision {
    match url_parts_of(probe) {
        None => EgressDecision::RefusedScheme,
        Some(p) => if p.scheme != "http"@ && p.scheme != "https"@ {
            EgressDecision::RefusedScheme
        } else {
            match url_parts_of(page) {
                None => EgressDecision::RefusedScope,
                Some(g) => match (p.host_str, g.host_str) {
                    (Some(ph), Some(gh)) => if host_is_private(p.host) && !(host_is_private(g.host)
                        || is_localhost_spec(gh)) {
                        EgressDecision::RefusedPrivateAddress
                    } else if lower_seq(strip_brackets(ph)) != lower_seq(strip_brackets(gh)) {
                        EgressDecision::RefusedScope
                    } else if p.port_or_known_default != g.port_or_known_default {
                        EgressDecision::RefusedScope
                    } else {
                        EgressDecision::Allow
                    },
                    _ => EgressDecision::RefusedScope,
                },
            }
        },
    }
}

/// Checks a probe URL: the scheme must be http(s); a private address literal
/// is refused unless the page itself is private or `localhost`; the host
/// (ASCII case-insensitive, IPv6 brackets ignored) and the port (explicit or
/// scheme default) must equal the page's.
pub fn check_probe_url(probe_url: &str, page_final_url: &str) -> (r: EgressDecision)
    ensures
        r == probe_decision(probe_url@, page_final_url@),
{
    let probe = match parse_url(probe_url) {
        Some(u) => u,
        None => return EgressDecision::RefusedScheme,
    };
    if !str_eq(probe.scheme.as_str(), "http") && !str_eq(probe.scheme.as_str(), "https") {
        return EgressDecision::RefusedScheme;
    }
    let page = match parse_url(page_final_url) {
        Some(u) => u,
        None => return EgressDecision::RefusedScope,
    };
    let probe_host = match &probe.host_str {
        Some(h) => h,
        None => return EgressDecision::RefusedScope,
    };
    let page_host = match &page.host_str {
        Some(h) => h,
        None => return EgressDecision::RefusedScope,
    };
    if host_private(&probe.host) {
        let page_is_private = host_private(&page.host) || is_localhost(page_host.as_str());
        if !page_is_private {
            return EgressDecision::RefusedPrivateAddress;
        }
    }
    let probe_h = ascii_lowercase(strip_ipv6_brackets(probe_host.as_str()).as_str());
    let page_h = ascii_lowercase(strip_ipv6_brackets(page_host.as_str()).as_str());
    if !str_eq(probe_h.as_str(), page_h.as_str()) {
        return EgressDecision::RefusedScope;
    }
    if probe.port_or_known_default != page.port_or_known_default {
        return EgressDecision::RefusedScope;
    }
    EgressDecision::Allow
}

/// A probe is allowed only in scope: an http(s) URL on the page's own host
/// (ignoring ASCII case and IPv6 brackets) and port, and never a private
/// address unless the page itself is private or `localhost`.
pub proof fn lemma_allowed_probe_is_in_scope(probe: Seq<char>, page: Seq<char>)
    requires
        probe_decision(probe, page) == EgressDecision::Allow,
    ensures
        url_parts_of(probe) is Some,
        url_parts_of(page) is Some,
        url_parts_of(probe)->0.scheme == "http"@ || url_parts_of(probe)->0.scheme == "https"@,
        url_parts_of(probe)->0.host_str is Some,
        url_parts_of(page)->0.host_str is Some,
        lower_seq(strip_brackets(url_parts_of(probe)->0.host_str->0)) == lower_seq(
            strip_brackets(url_parts_of(page)->0.host_str->0),
        ),
        url_parts_of(probe)->0.port_or_known_default == url_parts_of(page)->0.port_or_known_default,
        host_is_private(url_parts_of(probe)->0.host) ==> (host_is_private(url_parts_of(page)->0.host)
            || is_localhost_spec(url_parts_of(page)->0.host_str->0)),
{
}

} // verus!

use matchy_core::egress::{
    check_probe_url, is_localhost, is_private_ipv4, is_private_ipv6, parse_ipv4_literal,
    strip_ipv6_brackets,
    EgressDecision,
};

#[test]
fn test_scheme_refusal() {
    assert_eq!(
        check_probe_url("file:///etc/passwd", "http://example.com/"),
        EgressDecision::RefusedScheme
    );
    assert_eq!(
        check_probe_url("ftp://example.com/", "http://example.com/"),
        EgressDecision::RefusedScheme
    );
    assert_eq!(
        check_probe_url("javascript:alert(1)", "http://example.com/"),
        EgressDecision::RefusedScheme
    );
}

#[test]
fn test_http_https_allowed_same_host() {
    assert_eq!(
        check_probe_url("http://example.com/page", "http://example.com/"),
        EgressDecision::Allow
    );
    assert_eq!(
        check_probe_url("https://example.com/page", "https://example.com/"),
        EgressDecision::Allow
    );
}

#[test]
fn test_scope_refusal_different_host() {
    assert_eq!(
        check_probe_url("https://evil.com/page", "https://example.com/"),
        EgressDecision::RefusedScope
    );
}

#[test]
fn test_scope_refusal_subdomain_is_refused() {
    // The defensive guard uses exact hostname equality (no registrable-domain logic)
    // Subdomain of example.com is NOT example.com
    assert_eq!(
        check_probe_url("https://sub.example.com/page", "https://example.com/"),
        EgressDecision::RefusedScope
    );
}

#[test]
fn test_private_ip_literal_refusal() {
    // 10.x.x.x
    assert_eq!(
        check_probe_url("http://10.0.0.1/", "http://example.com/"),
        EgressDecision::RefusedPrivateAddress
    );
    // 172.16.x.x
    assert_eq!(
        check_probe_url("http://172.16.0.1/", "http://example.com/"),
        EgressDecision::RefusedPrivateAddress
    );
    // 192.168.x.x
    assert_eq!(
        check_probe_url("http://192.168.1.1/", "http://example.com/"),
        EgressDecision::RefusedPrivateAddress
    );
    // 169.254.169.254 (metadata service)
    assert_eq!(
        check_probe_url(
            "http://169.254.169.254/latest/meta-data/",
            "http://example.com/"
        ),
        EgressDecision::RefusedPrivateAddress
    );
    // 127.x.x.x loopback
    assert_eq!(
        check_probe_url("http://127.0.0.1/", "http://example.com/"),
        EgressDecision::RefusedPrivateAddress
    );
    // ::1 IPv6 loopback
    assert_eq!(
        check_probe_url("http://[::1]/", "http://example.com/"),
        EgressDecision::RefusedPrivateAddress
    );
    // fd00::/8 ULA
    assert_eq!(
        check_probe_url("http://[fd00::1]/", "http://example.com/"),
        EgressDecision::RefusedPrivateAddress
    );
}

#[test]
fn test_localhost_input_exception() {
    // When page's own host is localhost, private probes are allowed
    assert_eq!(
        check_probe_url("http://localhost:3001/foo", "http://localhost:3000/"),
        EgressDecision::RefusedScope // different host (port is not part of hostname here but localhost != localhost:3001 is actually same hostname)
    );
    // Same host exactly
    assert_eq!(
        check_probe_url("http://localhost/foo", "http://localhost/"),
        EgressDecision::Allow
    );
    // When page is 127.0.0.1, probing 10.x is still allowed (input is private)
    assert_eq!(
        check_probe_url("http://127.0.0.1/foo", "http://127.0.0.1/"),
        EgressDecision::Allow
    );
}

#[test]
fn test_ipv4_private_ranges() {
    assert!(is_private_ipv4([10, 0, 0, 1]));
    assert!(is_private_ipv4([10, 255, 255, 255]));
    assert!(is_private_ipv4([172, 16, 0, 1]));
    assert!(is_private_ipv4([172, 31, 255, 255]));
    assert!(!is_private_ipv4([172, 32, 0, 1]));
    assert!(is_private_ipv4([192, 168, 0, 1]));
    assert!(is_private_ipv4([169, 254, 169, 254]));
    assert!(is_private_ipv4([127, 0, 0, 1]));
    assert!(!is_private_ipv4([8, 8, 8, 8]));
    assert!(!is_private_ipv4([1, 1, 1, 1]));
}

#[test]
fn test_ipv6_private() {
    // ::1 loopback
    assert!(is_private_ipv6([0, 0, 0, 0, 0, 0, 0, 1]));
    // fd00::/8
    // fd00::1
    assert!(is_private_ipv6([0xfd00, 0, 0, 0, 0, 0, 0, 1]));
    // fdff::1
    assert!(is_private_ipv6([0xfdff, 0, 0, 0, 0, 0, 0, 1]));
    // Public
    // 2001:db8::1
    assert!(!is_private_ipv6([0x2001, 0xdb8, 0, 0, 0, 0, 0, 1]));
}

#[test]
fn test_localhost_probe_same_host() {
    // localhost probing localhost is ok (host equality)
    assert_eq!(
        check_probe_url("http://localhost:3001/", "http://localhost:3001/"),
        EgressDecision::Allow
    );
}


#[test]
fn egress_mapped_ipv4_and_helpers() {
    // ::ffff:10.1.2.3 and ::ffff:8.8.8.8
    assert!(is_private_ipv6([0, 0, 0, 0, 0, 0xffff, 0x0a01, 0x0203]));
    assert!(!is_private_ipv6([0, 0, 0, 0, 0, 0xffff, 0x0808, 0x0808]));
    assert!(is_localhost("LocalHost"));
    assert!(!is_localhost("localhost.example"));
    assert_eq!(strip_ipv6_brackets("[::1]"), "::1");
    assert_eq!(strip_ipv6_brackets("example.com"), "example.com");
    // A private probe from a private page is in scope only on the same host and port.
    assert_eq!(
        check_probe_url("http://10.0.0.1:8080/", "http://10.0.0.1/"),
        EgressDecision::RefusedScope
    );
    assert_eq!(
        check_probe_url("HTTP://EXAMPLE.com/x", "http://example.com:80/"),
        EgressDecision::Allow
    );
    assert_eq!(
        check_probe_url("http://example.com/x", "not a url"),
        EgressDecision::RefusedScope
    );
}

#[test]
fn private_page_host_kept_as_text_counts_as_private() {
    // The page URL's scheme keeps its host as text; it is still a private literal.
    assert_eq!(check_probe_url("http://10.0.0.2/", "foo://10.0.0.1/"), EgressDecision::RefusedScope);
    assert_eq!(check_probe_url("http://10.0.0.2/", "foo://example.com/"), EgressDecision::RefusedPrivateAddress);
}

#[test]
fn dotted_quad_literals() {
    assert_eq!(parse_ipv4_literal("10.0.0.1"), Some([10, 0, 0, 1]));
    assert_eq!(parse_ipv4_literal("255.255.255.255"), Some([255, 255, 255, 255]));
    assert_eq!(parse_ipv4_literal("256.0.0.1"), None);
    assert_eq!(parse_ipv4_literal("01.0.0.1"), None);
    assert_eq!(parse_ipv4_literal("1.2.3"), None);
    assert_eq!(parse_ipv4_literal("1.2.3.4.5"), None);
    assert_eq!(parse_ipv4_literal("+1.2.3.4"), None);
    assert_eq!(parse_ipv4_literal("example.com"), None);
}

use matchy_core::contract::SemanticNode;
use matchy_core::matching::{
    block_kind, exact_key, exact_prepass, extract_path_query, greedy_assign, host_strip_path, levenshtein, norm_href,
    BlockKind,
};

#[test]
fn test_norm_href_same_site() {
    let n = norm_href("/pricing", "http://localhost:3000/");
    assert_eq!(n, "/pricing");
}

#[test]
fn test_norm_href_external() {
    let n = norm_href("https://example.com/page", "http://localhost:3000/");
    assert_eq!(n, "https://example.com/page");
}

#[test]
fn test_norm_href_fragment_stripped() {
    let n = norm_href("/pricing#features", "http://localhost:3000/");
    assert_eq!(n, "/pricing");
}

#[test]
fn test_norm_href_relative_with_prefix_page() {
    let n = norm_href("pricing.html", "http://localhost:3014/products/connect/branded-call/");
    assert_eq!(n, "/products/connect/branded-call/pricing.html");
}

#[test]
fn norm_href_edge_cases() {
    assert_eq!(norm_href("  #top ", "http://localhost:3000/"), "#top");
    assert_eq!(norm_href("   ", "http://localhost:3000/"), "");
    assert_eq!(norm_href("/a", "not a url"), "/a");
    assert_eq!(norm_href("/a?x=1#f", "http://localhost:3000/b/"), "/a?x=1");
    assert_eq!(norm_href("https://other.example/x#y", "http://localhost:3000/"), "https://other.example/x");
}

#[test]
fn levenshtein_distances() {
    assert_eq!(levenshtein("", ""), 0);
    assert_eq!(levenshtein("", "abc"), 3);
    assert_eq!(levenshtein("abc", ""), 3);
    assert_eq!(levenshtein("kitten", "sitting"), 3);
    assert_eq!(levenshtein("flaw", "lawn"), 2);
    assert_eq!(levenshtein("héllo", "hello"), 1);
    assert_eq!(levenshtein("same", "same"), 0);
}

#[test]
fn block_kinds() {
    assert_eq!(block_kind("heading"), BlockKind::Heading);
    assert_eq!(block_kind("link"), BlockKind::LinkButton);
    assert_eq!(block_kind("button"), BlockKind::LinkButton);
    assert_eq!(block_kind("image"), BlockKind::Image);
    assert_eq!(block_kind("field"), BlockKind::Field);
    assert_eq!(block_kind("form"), BlockKind::Form);
    assert_eq!(block_kind("text"), BlockKind::Text);
    assert_eq!(block_kind("landmark"), BlockKind::Generic);
}

#[test]
fn exact_keys_per_block() {
    let heading = SemanticNode {
        kind: "heading".to_string(),
        text: Some("Hello World".to_string()),
        heading_level: Some(2),
        ..Default::default()
    };
    assert_eq!(exact_key(&heading, &BlockKind::Heading), "hello world|2");

    let link = SemanticNode {
        kind: "link".to_string(),
        text: Some("Buy NOW".to_string()),
        href: Some("/resolved".to_string()),
        raw_href: Some("/Raw".to_string()),
        acc_name: Some("Purchase".to_string()),
        ..Default::default()
    };
    assert_eq!(exact_key(&link, &BlockKind::LinkButton), "/Raw|buy now|purchase");
    let link_no_raw = SemanticNode { raw_href: None, ..link.clone() };
    assert_eq!(exact_key(&link_no_raw, &BlockKind::LinkButton), "/resolved|buy now|purchase");

    let image = SemanticNode {
        kind: "image".to_string(),
        src: Some("https://cdn.example.com/img/a.png?v=2".to_string()),
        image_alt: Some("Logo".to_string()),
        ..Default::default()
    };
    assert_eq!(exact_key(&image, &BlockKind::Image), "/img/a.png?v=2|logo");

    let field = SemanticNode {
        acc_name: Some("Email".to_string()),
        role: Some("TextBox".to_string()),
        ..Default::default()
    };
    assert_eq!(exact_key(&field, &BlockKind::Field), "email|textbox");
    assert_eq!(exact_key(&field, &BlockKind::Text), "");
}

#[test]
fn path_query_extraction() {
    assert_eq!(
        extract_path_query("https://example.com/foo?bar=1"),
        Some(("/foo".to_string(), Some("bar=1".to_string())))
    );
    assert_eq!(extract_path_query("/foo"), Some(("/foo".to_string(), None)));
    assert_eq!(extract_path_query("relative"), None);
    assert_eq!(host_strip_path("http://h/x?y"), "/x?y");
    assert_eq!(host_strip_path("::"), "::");
}

#[test]
fn greedy_assignment_takes_best_pairs_first() {
    let ids = |v: &[&str]| v.iter().map(|s| s.to_string()).collect::<Vec<_>>();
    // Row 0 prefers column 0 (0.9) but row 1's pair with column 0 is better (0.95).
    let scores = vec![
        vec![Some(900_000_000), Some(800_000_000)],
        vec![Some(950_000_000), None],
    ];
    let r = greedy_assign(&scores, &ids(&["o1", "o2"]), &ids(&["n1", "n2"]));
    assert_eq!(r, vec![Some(1), Some(0)]);

    // Below-ceiling pairs are never taken.
    let scores = vec![vec![None, None], vec![None, Some(700_000_000)]];
    assert_eq!(greedy_assign(&scores, &ids(&["a", "b"]), &ids(&["x", "y"])), vec![None, Some(1)]);

    // Equal scores: the lower old id wins the contested column.
    let scores = vec![vec![Some(5)], vec![Some(5)]];
    assert_eq!(greedy_assign(&scores, &ids(&["z", "a"]), &ids(&["n"])), vec![None, Some(0)]);
    assert!(greedy_assign(&Vec::new(), &[], &ids(&["n"])).is_empty());
}

fn node(id: &str, kind: &str, text: &str) -> SemanticNode {
    SemanticNode { id: id.to_string(), kind: kind.to_string(), text: Some(text.to_string()), ..Default::default() }
}

#[test]
fn prepass_pairs_unique_keys_only() {
    let old = vec![
        node("o0", "text", "Pricing"),
        node("o1", "text", "Dup"),
        node("o2", "text", "Dup"),
        node("o3", "heading", "Pricing"),
        node("o4", "text", "About"),
    ];
    let new = vec![
        node("n0", "text", "about"),
        node("n1", "text", "Dup"),
        node("n2", "text", "pricing"),
        node("n3", "text", "Missing"),
    ];
    // Keys are lowercased text: "about" and "pricing" are unique on both
    // sides; "dup" is repeated on the old side; the heading is another block.
    assert_eq!(exact_prepass(&old, &new, &BlockKind::Text), vec![(4, 0), (0, 2)]);
    assert!(exact_prepass(&old, &new, &BlockKind::Heading).is_empty());
}

#[test]
fn levenshtein_symmetric_and_bounded() {
    for (a, b) in [("kitten", "sitting"), ("", "abc"), ("flaw", "lawn"), ("héllo", "hello"), ("same", "same")] {
        let d = levenshtein(a, b);
        assert_eq!(d, levenshtein(b, a));
        let (la, lb) = (a.chars().count(), b.chars().count());
        assert!(d <= la.max(lb));
        assert!(d >= la.abs_diff(lb));
        assert_eq!(d == 0, a == b);
    }
}

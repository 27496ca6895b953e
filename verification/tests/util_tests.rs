use ts_query_ls::rope::rope_from_str;
use ts_query_ls::strings::{str_eq, string_from_chars};
use ts_query_ls::tstree::parse_document;
use ts_query_ls::types::Point;
use ts_query_ls::util::{
    get_current_capture_node, get_references, handle_predicate, node_is_or_has_ancestor, PredNode,
    PredicateArg,
};

fn node(cap_index: u32, row: usize, col: usize, kind: &str) -> PredNode {
    PredNode { cap_index, row, col, kind: kind.to_string() }
}

#[test]
fn string_round_trip() {
    let v: Vec<char> = "caf\u{e9} \u{10348}".chars().collect();
    let s = string_from_chars(&v);
    assert_eq!(s, "caf\u{e9} \u{10348}");
    assert!(str_eq(s.as_str(), "caf\u{e9} \u{10348}"));
    assert!(!str_eq(s.as_str(), "cafe \u{10348}"));
}

#[test]
fn current_capture_node_found() {
    let source = "(a) @b";
    let tree = parse_document(source, None);
    let n = get_current_capture_node(&tree, Point { row: 0, column: 5 }).unwrap();
    assert_eq!(n.kind, "capture");
    assert_eq!((n.start_byte, n.end_byte), (4, 6));
}

#[test]
fn current_capture_node_absent_on_plain_identifier() {
    let source = "(a) @b";
    let tree = parse_document(source, None);
    assert!(get_current_capture_node(&tree, Point { row: 0, column: 1 }).is_none());
}

#[test]
fn ancestor_kinds() {
    let source = "((a))";
    let tree = parse_document(source, None);
    // the byte range of the inner identifier
    assert!(node_is_or_has_ancestor(&tree, 2, 3, "grouping"));
    assert!(node_is_or_has_ancestor(&tree, 2, 3, "named_node"));
    assert!(!node_is_or_has_ancestor(&tree, 2, 3, "predicate"));
}

#[test]
fn references_find_matching_captures() {
    let source = "((a) @x (#eq? @x \"l\"))";
    let rope = rope_from_str(source);
    let tree = parse_document(source, None);
    let target = get_current_capture_node(&tree, Point { row: 0, column: 6 }).unwrap();
    assert_eq!(target.kind, "capture");
    let refs = get_references(&tree, &rope, &target);
    assert_eq!(refs.len(), 2);
    for r in &refs {
        assert_eq!(&source[r.start_byte..r.end_byte], "@x");
    }
}

#[test]
fn is_start_of_line_predicate() {
    let rope = rope_from_str("  foo\nbar\n");
    let nodes = vec![node(0, 0, 2, "identifier")];
    let args = vec![PredicateArg::Capture(0)];
    assert!(handle_predicate(&nodes, "is-start-of-line?", &args, &rope));
    assert!(!handle_predicate(&nodes, "not-is-start-of-line?", &args, &rope));
    let off = vec![node(0, 0, 3, "identifier")];
    assert!(!handle_predicate(&off, "is-start-of-line?", &args, &rope));
    assert!(handle_predicate(&off, "not-is-start-of-line?", &args, &rope));
}

#[test]
fn not_kind_eq_predicate() {
    let rope = rope_from_str("x");
    let nodes = vec![node(0, 0, 0, "identifier")];
    let hit = vec![
        PredicateArg::Capture(0),
        PredicateArg::Literal("string".to_string()),
        PredicateArg::Literal("identifier".to_string()),
    ];
    assert!(!handle_predicate(&nodes, "not-kind-eq?", &hit, &rope));
    let miss = vec![PredicateArg::Capture(0), PredicateArg::Literal("string".to_string())];
    assert!(handle_predicate(&nodes, "not-kind-eq?", &miss, &rope));
    // a capture that matched nothing passes the check
    let empty: Vec<PredNode> = Vec::new();
    assert!(handle_predicate(&empty, "not-kind-eq?", &hit, &rope));
}

#[test]
fn unknown_predicate_rejects_the_match() {
    let rope = rope_from_str("x");
    let nodes = vec![node(0, 0, 0, "identifier")];
    let args = vec![PredicateArg::Capture(0)];
    assert!(!handle_predicate(&nodes, "lua-match?", &args, &rope));
}

use ts_query_ls::diagnostics::{get_diagnostics, interpret_captures};
use ts_query_ls::rope::rope_from_str;
use ts_query_ls::tstree::{parse_document, CaptureRec};
use ts_query_ls::types::{LanguageInfo, Severity, SupertypeEntry, SymbolInfo};

fn sym(label: &str, named: bool) -> SymbolInfo {
    SymbolInfo { label: label.to_string(), named }
}

fn no_info() -> LanguageInfo {
    LanguageInfo { symbols: Vec::new(), fields: Vec::new(), supertypes: Vec::new() }
}

fn cap(name: &str, start: usize, end: usize) -> CaptureRec {
    CaptureRec {
        name: name.to_string(),
        kind: String::new(),
        parent_kind: String::new(),
        match_id: 0,
        start_byte: start,
        end_byte: end,
        has_sib: false,
        sib_start: 0,
        sib_end: 0,
    }
}

#[test]
fn undeclared_capture() {
    let source = "((identifier) @a (#eq? @b \"x\"))";
    let rope = rope_from_str(source);
    let tree = parse_document(source, None);
    let diags = get_diagnostics(&tree, &rope, &no_info());
    assert_eq!(diags.len(), 1);
    assert_eq!(diags[0].message, "Undeclared capture name!");
    assert_eq!(diags[0].severity, Severity::Error);
    // the @b occurrence inside the predicate parameters
    assert_eq!(diags[0].range.start.character, 23);
    assert_eq!(diags[0].range.end.character, 25);
}

#[test]
fn declared_capture_is_quiet() {
    let source = "((identifier) @a (#eq? @a \"x\"))";
    let rope = rope_from_str(source);
    let tree = parse_document(source, None);
    let diags = get_diagnostics(&tree, &rope, &no_info());
    assert_eq!(diags.len(), 0);
}

#[test]
fn predicate_arity_warning() {
    let source = "((x) @a (#eq? @a \"b\" \"c\"))";
    let rope = rope_from_str(source);
    let tree = parse_document(source, None);
    let diags = get_diagnostics(&tree, &rope, &no_info());
    assert_eq!(diags.len(), 1);
    assert_eq!(
        diags[0].message,
        "\"#eq?\" family predicates cannot accept multiple arguments. Consider using \"#any-of?\"."
    );
    assert_eq!(diags[0].severity, Severity::Warning);
    // the third argument
    assert_eq!(diags[0].range.start.character, 21);
}

#[test]
fn match_arity_warning() {
    let source = "((x) @a (#match? @a \"b\" \"c\"))";
    let rope = rope_from_str(source);
    let tree = parse_document(source, None);
    let diags = get_diagnostics(&tree, &rope, &no_info());
    assert_eq!(diags.len(), 1);
    assert_eq!(
        diags[0].message,
        "\"#match?\" family predicates cannot accept multiple arguments."
    );
    assert_eq!(diags[0].severity, Severity::Warning);
}

#[test]
fn first_argument_must_be_capture() {
    let source = "((x) @a (#eq? \"lit\" @a))";
    let rope = rope_from_str(source);
    let tree = parse_document(source, None);
    let diags = get_diagnostics(&tree, &rope, &no_info());
    assert!(diags
        .iter()
        .any(|d| d.message == "First argument must be a capture" && d.severity == Severity::Warning));
}

#[test]
fn unknown_predicate_gets_no_arity_warning() {
    let source = "((x) @a (#lua-match? @a \"b\" \"c\"))";
    let rope = rope_from_str(source);
    let tree = parse_document(source, None);
    let diags = get_diagnostics(&tree, &rope, &no_info());
    assert!(diags.is_empty());
}

#[test]
fn invalid_node_type() {
    let source = "(unknown_node) @x";
    let rope = rope_from_str(source);
    let tree = parse_document(source, None);
    let info = LanguageInfo {
        symbols: vec![sym("identifier", true)],
        fields: Vec::new(),
        supertypes: Vec::new(),
    };
    let diags = get_diagnostics(&tree, &rope, &info);
    assert_eq!(diags.len(), 1);
    assert_eq!(diags[0].message, "Invalid node type!");
    assert_eq!(diags[0].severity, Severity::Error);
}

#[test]
fn known_node_type_is_quiet() {
    let source = "(identifier) @x";
    let rope = rope_from_str(source);
    let tree = parse_document(source, None);
    let info = LanguageInfo {
        symbols: vec![sym("identifier", true)],
        fields: Vec::new(),
        supertypes: Vec::new(),
    };
    assert!(get_diagnostics(&tree, &rope, &info).is_empty());
}

#[test]
fn anonymous_node_checked_without_quotes() {
    let source = "\"if\" @kw";
    let rope = rope_from_str(source);
    let tree = parse_document(source, None);
    let with = LanguageInfo {
        symbols: vec![sym("if", false)],
        fields: Vec::new(),
        supertypes: Vec::new(),
    };
    assert!(get_diagnostics(&tree, &rope, &with).is_empty());
    let without = LanguageInfo {
        symbols: vec![sym("else", false)],
        fields: Vec::new(),
        supertypes: Vec::new(),
    };
    let diags = get_diagnostics(&tree, &rope, &without);
    assert_eq!(diags.len(), 1);
    assert_eq!(diags[0].message, "Invalid node type!");
}

#[test]
fn invalid_field_type() {
    let source = "(x name: (identifier) @n)";
    let rope = rope_from_str(source);
    let tree = parse_document(source, None);
    let info = LanguageInfo {
        symbols: vec![sym("x", true), sym("identifier", true)],
        fields: vec!["body".to_string()],
        supertypes: Vec::new(),
    };
    let diags = get_diagnostics(&tree, &rope, &info);
    assert!(diags.iter().any(|d| d.message == "Invalid field type!"));
    let info2 = LanguageInfo {
        symbols: vec![sym("x", true), sym("identifier", true)],
        fields: vec!["name".to_string()],
        supertypes: Vec::new(),
    };
    assert!(get_diagnostics(&tree, &rope, &info2).is_empty());
}

#[test]
fn invalid_syntax() {
    let source = "(((";
    let rope = rope_from_str(source);
    let tree = parse_document(source, None);
    let diags = get_diagnostics(&tree, &rope, &no_info());
    assert!(diags.iter().any(|d| d.message == "Invalid syntax!"));
}

#[test]
fn language_checks_suppressed_without_info() {
    let source = "(unknown_node) @x";
    let rope = rope_from_str(source);
    let tree = parse_document(source, None);
    assert!(get_diagnostics(&tree, &rope, &no_info()).is_empty());
}

#[test]
fn diagnostics_are_deterministic() {
    let source = "((identifier) @a (#eq? @b \"x\")) (unknown) @y";
    let rope = rope_from_str(source);
    let tree = parse_document(source, None);
    let info = LanguageInfo {
        symbols: vec![sym("identifier", true)],
        fields: Vec::new(),
        supertypes: Vec::new(),
    };
    let d1 = get_diagnostics(&tree, &rope, &info);
    let d2 = get_diagnostics(&tree, &rope, &info);
    assert_eq!(d1, d2);
}

// The supertype checks run on capture records; the grammar built here
// has no supertype syntax of its own, so the records are given directly.

#[test]
fn supertype_subtype_mismatch() {
    let source = "(expr/x) @c";
    let rope = rope_from_str(source);
    let info = LanguageInfo {
        symbols: vec![sym("expr", true), sym("call_expr", true), sym("x", true)],
        fields: Vec::new(),
        supertypes: vec![SupertypeEntry {
            supertype: sym("expr", true),
            subtypes: vec![sym("call_expr", true)],
        }],
    };
    // the supertype identifier spans bytes 1..5, its subtype sibling 6..7
    let mut c = cap("supertype", 1, 5);
    c.has_sib = true;
    c.sib_start = 6;
    c.sib_end = 7;
    let diags = interpret_captures(&vec![c], &Vec::new(), &Vec::new(), &rope, &info);
    assert_eq!(diags.len(), 1);
    assert_eq!(diags[0].message, "Not a subtype of \"expr\"!");
    assert_eq!(diags[0].severity, Severity::Error);
    assert_eq!(diags[0].range.start.character, 6);
    assert_eq!(diags[0].range.end.character, 7);
}

#[test]
fn supertype_with_matching_subtype_is_quiet() {
    let source = "(expr/x) @c";
    let rope = rope_from_str(source);
    let info = LanguageInfo {
        symbols: vec![sym("expr", true), sym("x", true)],
        fields: Vec::new(),
        supertypes: vec![SupertypeEntry {
            supertype: sym("expr", true),
            subtypes: vec![sym("x", true)],
        }],
    };
    let mut c = cap("supertype", 1, 5);
    c.has_sib = true;
    c.sib_start = 6;
    c.sib_end = 7;
    let diags = interpret_captures(&vec![c], &Vec::new(), &Vec::new(), &rope, &info);
    assert!(diags.is_empty());
}

#[test]
fn not_a_supertype() {
    let source = "(expr/x) @c";
    let rope = rope_from_str(source);
    let info = LanguageInfo {
        symbols: vec![sym("expr", true)],
        fields: Vec::new(),
        supertypes: Vec::new(),
    };
    let c = cap("supertype", 1, 5);
    let diags = interpret_captures(&vec![c], &Vec::new(), &Vec::new(), &rope, &info);
    assert_eq!(diags.len(), 1);
    assert_eq!(diags[0].message, "Not a supertype!");
}

#[test]
fn empty_subtype_set_falls_back_to_symbols() {
    // a supertype of an older grammar: acknowledged, membership unknown
    let source = "(expr/x) @c";
    let rope = rope_from_str(source);
    let info = LanguageInfo {
        symbols: vec![sym("expr", true)],
        fields: Vec::new(),
        supertypes: vec![SupertypeEntry { supertype: sym("expr", true), subtypes: Vec::new() }],
    };
    let mut c = cap("supertype", 1, 5);
    c.has_sib = true;
    c.sib_start = 6;
    c.sib_end = 7;
    let diags = interpret_captures(&vec![c], &Vec::new(), &Vec::new(), &rope, &info);
    assert_eq!(diags.len(), 1);
    assert_eq!(diags[0].message, "Invalid node type!");
}

#[test]
fn missing_node_message_carries_kind() {
    let source = "(a) @x";
    let rope = rope_from_str(source);
    let mut c = cap("m", 0, 3);
    c.kind = "identifier".to_string();
    let diags = interpret_captures(&vec![c], &Vec::new(), &Vec::new(), &rope, &no_info());
    assert_eq!(diags.len(), 1);
    assert_eq!(diags[0].message, "Missing \"identifier\"!");
}

use ts_query_ls::rope::rope_from_str;
use ts_query_ls::semantic_tokens;
use ts_query_ls::tstree::parse_document;
use ts_query_ls::types::{LanguageInfo, SupertypeEntry, SymbolInfo};

fn info_with_supertype(name: &str) -> LanguageInfo {
    LanguageInfo {
        symbols: Vec::new(),
        fields: Vec::new(),
        supertypes: vec![SupertypeEntry {
            supertype: SymbolInfo {
                label: name.to_string(),
                named: true,
            },
            subtypes: Vec::new(),
        }],
    }
}

#[test]
fn semantic_tokens_full() {
    let source = "(ERROR) @error (supertype) @node (supertype) @node\n\n(supertype) @node\n        ";
    let rope = rope_from_str(source);
    let tree = parse_document(source, None);
    let info = info_with_supertype("supertype");
    let tokens = semantic_tokens::semantic_tokens_full(&tree, &rope, &info);
    let expected = vec![(0, 1, 5, 1, 1), (0, 15, 9, 0, 0), (0, 18, 9, 0, 0), (2, 1, 9, 0, 0)];
    let actual: Vec<(usize, usize, usize, usize, usize)> = tokens
        .iter()
        .map(|t| (t.delta_line, t.delta_start, t.length, t.token_type, t.token_modifiers))
        .collect();
    assert_eq!(actual, expected);
}

#[test]
fn semantic_tokens_skip_plain_identifiers() {
    let source = "(identifier) @x";
    let rope = rope_from_str(source);
    let tree = parse_document(source, None);
    let info = info_with_supertype("supertype");
    let tokens = semantic_tokens::semantic_tokens_full(&tree, &rope, &info);
    assert!(tokens.is_empty());
}

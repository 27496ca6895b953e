use ts_query_ls::document::{lsp_textdocchange_to_ts_inputedit, DocChange, DocumentStore};
use ts_query_ls::rope::rope_from_str;
use ts_query_ls::rope::rope_to_string;
use ts_query_ls::tstree::{tree_has_error, tree_root_kind};
use ts_query_ls::types::{Position, Range};

fn range(sl: usize, sc: usize, el: usize, ec: usize) -> Range {
    Range {
        start: Position { line: sl, character: sc },
        end: Position { line: el, character: ec },
    }
}

#[test]
fn incremental_edit_round_trip() {
    let mut store = DocumentStore::new();
    store.open("file:///q.scm", "(a) @b");
    let changes = vec![DocChange {
        range: Some(range(0, 1, 0, 2)),
        text: "foo".to_string(),
    }];
    store.change("file:///q.scm", &changes);
    let doc = store.snapshot("file:///q.scm").unwrap();
    assert_eq!(rope_to_string(&doc.rope), "(foo) @b");
    assert_eq!(tree_root_kind(&doc.tree), "program");
    assert!(!tree_has_error(&doc.tree));
}

#[test]
fn sequential_changes_apply_in_order() {
    let mut store = DocumentStore::new();
    store.open("u", "(aaa) @x\n(bbb) @y\n");
    let changes = vec![
        DocChange {
            range: Some(range(0, 1, 0, 4)),
            text: "ccc".to_string(),
        },
        DocChange {
            range: Some(range(1, 1, 1, 4)),
            text: "d".to_string(),
        },
    ];
    store.change("u", &changes);
    let doc = store.snapshot("u").unwrap();
    assert_eq!(rope_to_string(&doc.rope), "(ccc) @x\n(d) @y\n");
    assert!(!tree_has_error(&doc.tree));
}

#[test]
fn full_document_change_resets() {
    let mut store = DocumentStore::new();
    store.open("u", "(a) @x");
    let changes = vec![DocChange { range: None, text: "(b) @y".to_string() }];
    store.change("u", &changes);
    let doc = store.snapshot("u").unwrap();
    assert_eq!(rope_to_string(&doc.rope), "(b) @y");
    assert_eq!(tree_root_kind(&doc.tree), "program");
}

#[test]
fn close_removes_document() {
    let mut store = DocumentStore::new();
    store.open("u", "(a) @x");
    store.close("u");
    assert!(store.snapshot("u").is_none());
}

#[test]
fn change_on_unknown_uri_does_nothing() {
    let mut store = DocumentStore::new();
    store.change("nope", &vec![DocChange { range: None, text: "x".to_string() }]);
    assert!(store.snapshot("nope").is_none());
}

#[test]
fn multibyte_edit_keeps_rope_and_tree_in_step() {
    let mut store = DocumentStore::new();
    // the identifier holds a two-byte character, so UTF-16 columns matter
    store.open("u", "(caf\u{e9}) @x");
    let changes = vec![DocChange {
        range: Some(range(0, 1, 0, 5)),
        text: "tea".to_string(),
    }];
    store.change("u", &changes);
    let doc = store.snapshot("u").unwrap();
    assert_eq!(rope_to_string(&doc.rope), "(tea) @x");
    assert!(!tree_has_error(&doc.tree));
}

#[test]
fn input_edit_inside_text() {
    let rope = rope_from_str("ab\ncd");
    let change = DocChange {
        range: Some(range(0, 1, 1, 1)),
        text: "XY".to_string(),
    };
    let e = lsp_textdocchange_to_ts_inputedit(&rope, &change).unwrap();
    assert_eq!(e.start_byte, 1);
    assert_eq!(e.old_end_byte, 4);
    assert_eq!(e.new_end_byte, 3);
    assert_eq!((e.start_row, e.start_col), (0, 1));
    assert_eq!((e.old_end_row, e.old_end_col), (1, 1));
    assert_eq!((e.new_end_row, e.new_end_col), (1, 0));
}

#[test]
fn input_edit_synthesizes_past_end_in_bytes() {
    let rope = rope_from_str("ab");
    let change = DocChange {
        range: Some(range(0, 0, 0, 2)),
        // the insert ends with a two-byte character: the column counts bytes
        text: "w\u{e9}\nq\u{e9}".to_string(),
    };
    let e = lsp_textdocchange_to_ts_inputedit(&rope, &change).unwrap();
    assert_eq!(e.start_byte, 0);
    assert_eq!(e.old_end_byte, 2);
    assert_eq!(e.new_end_byte, 7);
    // one line in the old text plus one line feed in the insert
    assert_eq!(e.new_end_row, 2);
    // "q\u{e9}" is three bytes
    assert_eq!(e.new_end_col, 3);
}

#[test]
fn input_edit_rejects_positions_past_the_text() {
    let rope = rope_from_str("ab");
    let change = DocChange {
        range: Some(range(7, 0, 7, 1)),
        text: "x".to_string(),
    };
    assert!(lsp_textdocchange_to_ts_inputedit(&rope, &change).is_err());
}

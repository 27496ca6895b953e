use ts_query_ls::differ::{diff, diff_splices, SpliceEdit};
use ts_query_ls::rope::rope_from_str;

/// Applies a splice script to the original string, ranges addressed on the
/// original in character offsets.
fn apply(original: &str, edits: &[SpliceEdit]) -> String {
    let chars: Vec<char> = original.chars().collect();
    let mut out = String::new();
    let mut pos = 0usize;
    for e in edits {
        out.extend(&chars[pos..e.start_char]);
        out.push_str(&e.new_text);
        pos = e.end_char;
    }
    out.extend(&chars[pos..]);
    out
}

#[test]
fn diff_round_trip_simple() {
    let left = "hello world";
    let right = "hullo brave world";
    let edits = diff_splices(left, right);
    assert_eq!(apply(left, &edits), right);
}

#[test]
fn diff_round_trip_multibyte() {
    let left = "caf\u{e9} one\ntwo";
    let right = "cafe two\nthree \u{10348}";
    let edits = diff_splices(left, right);
    assert_eq!(apply(left, &edits), right);
}

#[test]
fn diff_equal_texts_yield_no_edits() {
    let edits = diff_splices("same text", "same text");
    assert!(edits.is_empty());
}

#[test]
fn diff_byte_offsets_follow_utf8() {
    let left = "\u{e9}x";
    let right = "\u{e9}y";
    let edits = diff_splices(left, right);
    assert_eq!(edits.len(), 1);
    assert_eq!(edits[0].start_char, 1);
    assert_eq!(edits[0].start_byte, 2);
    assert_eq!(edits[0].new_text, "y");
}

#[test]
fn diff_lsp_edits_carry_positions() {
    let left = "ab\ncd";
    let right = "ab\ncx";
    let rope = rope_from_str(left);
    let edits = diff(left, right, &rope);
    assert_eq!(edits.len(), 1);
    assert_eq!(edits[0].range.start.line, 1);
    assert_eq!(edits[0].range.start.character, 1);
    assert_eq!(edits[0].range.end.character, 2);
    assert_eq!(edits[0].new_text, "x");
}

#[test]
fn diff_insert_only() {
    let left = "abc";
    let right = "abxyc";
    let edits = diff_splices(left, right);
    assert_eq!(apply(left, &edits), right);
}

#[test]
fn diff_delete_only() {
    let left = "abxyc";
    let right = "abc";
    let edits = diff_splices(left, right);
    assert_eq!(apply(left, &edits), right);
    assert!(edits.iter().all(|e| e.new_text.is_empty()));
}

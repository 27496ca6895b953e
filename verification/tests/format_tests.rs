use ts_query_ls::format::{
    append_lines, comment_piece, crlf_to_lf, format_document, format_iter, split_nl, trim_nl,
    FmtNode, FmtTree, RuleFlags,
};
use ts_query_ls::tstree::{build_fmt_tree, parse_document, run_query};

fn leaf(text: &str, start: usize, end: usize) -> FmtNode {
    FmtNode {
        text: text.to_string(),
        start_byte: start,
        end_byte: end,
        named_child_count: 0,
        is_string: false,
        children: Vec::new(),
        flags: RuleFlags::default(),
    }
}

fn chars(s: &str) -> Vec<char> {
    s.chars().collect()
}

fn to_string(v: &[char]) -> String {
    v.iter().collect()
}

#[test]
fn append_lines_continues_then_opens() {
    let mut lines = vec![chars("a")];
    let app = vec![chars("b"), chars("cd"), chars("e")];
    append_lines(&mut lines, &app);
    let got: Vec<String> = lines.iter().map(|l| to_string(l)).collect();
    assert_eq!(got, vec!["ab".to_string(), "cd".to_string(), "e".to_string()]);
}

#[test]
fn crlf_and_trim_and_split() {
    assert_eq!(to_string(&crlf_to_lf(&chars("a\r\nb\rc"))), "a\nb\nc");
    assert_eq!(to_string(&trim_nl(&chars("\n\nab\n"))), "ab");
    let parts = split_nl(&chars("a\n\nb"), false);
    let got: Vec<String> = parts.iter().map(|l| to_string(l)).collect();
    assert_eq!(got, vec!["a".to_string(), "".to_string(), "b".to_string()]);
    let parts = split_nl(&chars("a\n\nb"), true);
    let got: Vec<String> = parts.iter().map(|l| to_string(l)).collect();
    assert_eq!(got, vec!["a".to_string(), "b".to_string()]);
}

#[test]
fn comment_piece_normalizes() {
    assert_eq!(to_string(&comment_piece(&";;  hello  ".to_string())), ";  hello");
    assert_eq!(to_string(&comment_piece(&"not a comment".to_string())), "");
    assert_eq!(to_string(&comment_piece(&";; x \n".to_string())), "; x");
    // a body still holding a line break contributes nothing
    assert_eq!(to_string(&comment_piece(&";a\nb".to_string())), "");
}

#[test]
fn conditional_break_fires_past_the_width_target() {
    // a first token of 90 columns, then a 12-byte node that would overflow
    let long = format!("({})", "a".repeat(88));
    let mut wide = leaf("(bbbbbbbbbb)", 91, 103);
    wide.flags.prepend_space = true;
    wide.flags.conditional_newline = true;
    let root = FmtNode {
        text: String::new(),
        start_byte: 0,
        end_byte: 103,
        named_child_count: 2,
        is_string: false,
        children: vec![1, 2],
        flags: RuleFlags::default(),
    };
    let tree = FmtTree { nodes: vec![root, leaf(&long, 0, 90), wide] };
    let out = format_document(&tree).unwrap();
    let lines: Vec<&str> = out.lines().collect();
    assert_eq!(lines.len(), 2);
    assert_eq!(lines[0], long);
    assert_eq!(lines[1], "(bbbbbbbbbb)");
    assert!(lines.iter().all(|l| l.len() <= 100));
}

#[test]
fn conditional_break_stays_put_under_the_width_target() {
    let first = leaf("(aaa)", 0, 5);
    let mut second = leaf("(bbb)", 6, 11);
    second.flags.prepend_space = true;
    second.flags.conditional_newline = true;
    let root = FmtNode {
        text: String::new(),
        start_byte: 0,
        end_byte: 11,
        named_child_count: 2,
        is_string: false,
        children: vec![1, 2],
        flags: RuleFlags::default(),
    };
    let tree = FmtTree { nodes: vec![root, first, second] };
    let out = format_document(&tree).unwrap();
    assert_eq!(out, "(aaa) (bbb)\n");
}

#[test]
fn lookahead_break_counts_the_enclosing_pattern() {
    // the node itself is short, but the rest of the pattern is long
    let first = leaf(&"a".repeat(60), 0, 60);
    let mut second = leaf("(b)", 61, 64);
    second.flags.prepend_space = true;
    second.flags.conditional_newline = true;
    second.flags.lookahead_newline = true;
    let root = FmtNode {
        text: String::new(),
        start_byte: 0,
        // the pattern runs on for another hundred bytes past the second node
        end_byte: 170,
        named_child_count: 2,
        is_string: false,
        children: vec![1, 2],
        flags: RuleFlags::default(),
    };
    let tree = FmtTree { nodes: vec![root, first, second] };
    let out = format_document(&tree).unwrap();
    let lines: Vec<&str> = out.lines().collect();
    assert_eq!(lines.len(), 2);
}

#[test]
fn indent_rules_indent_following_siblings() {
    let mut opener = leaf("(x", 0, 2);
    opener.flags.indent_begin = true;
    let body = leaf("(y)", 3, 6);
    let root = FmtNode {
        text: String::new(),
        start_byte: 0,
        end_byte: 7,
        named_child_count: 2,
        is_string: false,
        children: vec![1, 2],
        flags: RuleFlags::default(),
    };
    let tree = FmtTree { nodes: vec![root, opener, body] };
    let out = format_document(&tree).unwrap();
    assert_eq!(out, "(x\n  (y)\n");
}

#[test]
fn remove_and_ignore_rules() {
    let mut gone = leaf("zap", 0, 3);
    gone.flags.remove = true;
    let mut verbatim = leaf("\nkeep\nme\n", 4, 13);
    verbatim.flags.ignore = true;
    let root = FmtNode {
        text: String::new(),
        start_byte: 0,
        end_byte: 13,
        named_child_count: 2,
        is_string: false,
        children: vec![1, 2],
        flags: RuleFlags::default(),
    };
    let tree = FmtTree { nodes: vec![root, gone, verbatim] };
    let out = format_document(&tree).unwrap();
    assert_eq!(out, "keep\nme\n");
}

#[test]
fn format_is_idempotent_on_parsed_input() {
    let source = "(a) @b\n\n(c (d)) @e\n";
    let tree = parse_document(source, None);
    let ft = build_fmt_tree(&tree, source);
    let once = format_document(&ft).unwrap();
    let tree2 = parse_document(&once, None);
    let ft2 = build_fmt_tree(&tree2, &once);
    let twice = format_document(&ft2).unwrap();
    assert_eq!(once, twice);
}

#[test]
fn format_preserves_captures_and_identifiers() {
    let source = "(a) @b (c (d)) @e";
    let tree = parse_document(source, None);
    let ft = build_fmt_tree(&tree, source);
    let formatted = format_document(&ft).unwrap();
    let tree2 = parse_document(&formatted, None);
    let caps1: Vec<String> = run_query(&tree, source, "(capture) @c")
        .iter()
        .map(|c| source[c.start_byte..c.end_byte].to_string())
        .collect();
    let caps2: Vec<String> = run_query(&tree2, &formatted, "(capture) @c")
        .iter()
        .map(|c| formatted[c.start_byte..c.end_byte].to_string())
        .collect();
    assert_eq!(caps1, caps2);
    let ids1 = run_query(&tree, source, "(named_node (identifier) @i)").len();
    let ids2 = run_query(&tree2, &formatted, "(named_node (identifier) @i)").len();
    assert_eq!(ids1, ids2);
}

#[test]
fn format_iter_emits_into_existing_buffer() {
    let child = leaf("abc", 0, 3);
    let root = FmtNode {
        text: String::new(),
        start_byte: 0,
        end_byte: 3,
        named_child_count: 1,
        is_string: false,
        children: vec![1],
        flags: RuleFlags::default(),
    };
    let tree = FmtTree { nodes: vec![root, child] };
    let mut lines = vec![Vec::new()];
    format_iter(&tree, 0, &mut lines, 0);
    assert_eq!(lines.len(), 1);
    assert_eq!(to_string(&lines[0]), "abc");
}

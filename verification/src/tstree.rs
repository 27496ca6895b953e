//! Trusted boundary to `tree-sitter` with the query-language grammar.
//!
//! A parse tree is an opaque outside value; `tree_source` names the text it
//! was parsed from.  What a query or a node lookup yields is named as a
//! function of the tree value itself (an incremental reparse is not
//! documented to coincide structurally with a fresh parse of the same
//! text, so nothing stronger is assumed), and the wrappers hand the
//! results over as plain records.

use vstd::prelude::*;

verus! {

#[verifier::external_type_specification]
#[verifier::external_body]
pub struct ExTree(tree_sitter::Tree);

/// The text a tree was parsed from.
pub uninterp spec fn tree_source(t: tree_sitter::Tree) -> Seq<char>;

/// Mathematical image of one query capture.
pub struct CaptureView {
    /// Name of the capture in the query.
    pub name: Seq<char>,
    /// Kind of the captured node.
    pub kind: Seq<char>,
    /// Kind of the captured node's parent; empty at the root.
    pub parent_kind: Seq<char>,
    /// Index of the match this capture belongs to.
    pub match_id: int,
    /// Byte range of the captured node.
    pub start_byte: int,
    pub end_byte: int,
    /// Byte range of the node's next named sibling, when there is one.
    pub has_sib: bool,
    pub sib_start: int,
    pub sib_end: int,
}

/// One capture a query yielded, as plain values.
#[derive(Clone, Debug)]
pub struct CaptureRec {
    pub name: String,
    pub kind: String,
    pub parent_kind: String,
    pub match_id: usize,
    pub start_byte: usize,
    pub end_byte: usize,
    pub has_sib: bool,
    pub sib_start: usize,
    pub sib_end: usize,
}

impl View for CaptureRec {
    type V = CaptureView;

    open spec fn view(&self) -> CaptureView {
        CaptureView {
            name: self.name@,
            kind: self.kind@,
            parent_kind: self.parent_kind@,
            match_id: self.match_id as int,
            start_byte: self.start_byte as int,
            end_byte: self.end_byte as int,
            has_sib: self.has_sib,
            sib_start: self.sib_start as int,
            sib_end: self.sib_end as int,
        }
    }
}

/// The captures that the given query yields on this tree, over the text
/// it was parsed from, in match order.
pub uninterp spec fn captures_of(t: tree_sitter::Tree, query: Seq<char>) -> Seq<CaptureView>;

/// The byte ranges of this tree's root-node children, in order.
pub uninterp spec fn top_ranges_of(t: tree_sitter::Tree) -> Seq<(usize, usize)>;

/// The kind of this tree's root node.
pub uninterp spec fn root_kind_of(t: tree_sitter::Tree) -> Seq<char>;

/// Whether this tree holds a parse error anywhere.
pub uninterp spec fn has_error_of(t: tree_sitter::Tree) -> bool;

/// Mathematical image of a located node.
pub struct NodeView {
    pub kind: Seq<char>,
    pub start_byte: int,
    pub end_byte: int,
    pub has_parent: bool,
    pub parent_kind: Seq<char>,
    pub parent_start: int,
    pub parent_end: int,
}

/// A located node, as plain values.
#[derive(Clone, Debug)]
pub struct NodeRec {
    pub kind: String,
    pub start_byte: usize,
    pub end_byte: usize,
    pub has_parent: bool,
    pub parent_kind: String,
    pub parent_start: usize,
    pub parent_end: usize,
}

impl View for NodeRec {
    type V = NodeView;

    open spec fn view(&self) -> NodeView {
        NodeView {
            kind: self.kind@,
            start_byte: self.start_byte as int,
            end_byte: self.end_byte as int,
            has_parent: self.has_parent,
            parent_kind: self.parent_kind@,
            parent_start: self.parent_start as int,
            parent_end: self.parent_end as int,
        }
    }
}

/// The named node this tree holds at a grammar point, if any.
pub uninterp spec fn descendant_at_of(t: tree_sitter::Tree, row: int, col: int) -> Option<
    NodeView,
>;

/// The kinds on this tree's path from the node spanning the byte range up
/// to (and excluding) the root.
pub uninterp spec fn ancestor_kinds_of(t: tree_sitter::Tree, start_byte: int, end_byte: int) -> Seq<
    Seq<char>,
>;

/// Relies on `tree_sitter::Parser::parse` with the query-language grammar:
/// the tree returned parses the given text; with a previous tree it is an
/// incremental reparse of the same text.  With a language set and no
/// cancellation or timeout configured, `parse` always returns a tree.
#[verifier::external_body]
pub fn parse_document(text: &str, old: Option<&tree_sitter::Tree>) -> (t: tree_sitter::Tree)
    ensures
        tree_source(t) == text@,
{
    let mut parser = tree_sitter::Parser::new();
    parser.set_language(tree_sitter_query::language()).expect("loading the query grammar");
    parser.parse(text, old).expect("parsing with a language set")
}

/// A textual edit in the form tree-sitter expects, over the library's
/// plain points.
#[derive(Clone, Copy, Debug, PartialEq, Eq, Structural)]
pub struct InputEditRec {
    pub start_byte: usize,
    pub old_end_byte: usize,
    pub new_end_byte: usize,
    pub start_row: usize,
    pub start_col: usize,
    pub old_end_row: usize,
    pub old_end_col: usize,
    pub new_end_row: usize,
    pub new_end_col: usize,
}

/// Relies on `tree_sitter::Tree::edit`: marks the tree for the next
/// incremental reparse.  The tree's contract is carried by the parse that
/// follows, so nothing is claimed here.
#[verifier::external_body]
pub(crate) fn tree_edit(tree: &mut tree_sitter::Tree, e: &InputEditRec) {
    tree.edit(
        &tree_sitter::InputEdit {
            start_byte: e.start_byte,
            old_end_byte: e.old_end_byte,
            new_end_byte: e.new_end_byte,
            start_position: tree_sitter::Point { row: e.start_row, column: e.start_col },
            old_end_position: tree_sitter::Point { row: e.old_end_row, column: e.old_end_col },
            new_end_position: tree_sitter::Point { row: e.new_end_row, column: e.new_end_col },
        },
    );
}

#[verifier::external_type_specification]
#[verifier::external_body]
pub struct ExQuery(tree_sitter::Query);

#[verifier::external_type_specification]
#[verifier::external_body]
pub struct ExQueryCapture<'a>(tree_sitter::QueryCapture<'a>);

/// Relies on the `tree_sitter::Node` accessors and
/// `tree_sitter::Query::capture_names`: converts one capture of a match
/// into the plain record the library works on.
#[verifier::external_body]
fn capture_rec(query: &tree_sitter::Query, c: &tree_sitter::QueryCapture, mid: usize) -> (r:
    CaptureRec) {
    let (node, sib) = (c.node, c.node.next_named_sibling());
    CaptureRec {
        name: query.capture_names()[c.index as usize].clone(),
        kind: node.kind().to_string(),
        parent_kind: node.parent().map_or(String::new(), |p| p.kind().to_string()),
        match_id: mid,
        start_byte: node.start_byte(), end_byte: node.end_byte(),
        has_sib: sib.is_some(),
        sib_start: sib.map_or(0, |s| s.start_byte()),
        sib_end: sib.map_or(0, |s| s.end_byte()),
    }
}

/// Relies on `tree_sitter::QueryCursor::matches` over the query grammar:
/// yields every capture of every match, in order, with its capture name,
/// node kind, parent kind, byte range and next named sibling.  The text
/// handed in must be the tree's own source: the cursor filters matches
/// through the query's text predicates against it.
#[verifier::external_body]
pub fn run_query(tree: &tree_sitter::Tree, text: &str, query_src: &str) -> (r: Vec<CaptureRec>)
    requires
        text@ == tree_source(*tree),
    ensures
        r@.map_values(|c: CaptureRec| c@) == captures_of(*tree, query_src@),
{
    let query = match tree_sitter::Query::new(tree_sitter_query::language(), query_src) {
        Ok(q) => q,
        Err(_) => return Vec::new(),
    };
    let mut cursor = tree_sitter::QueryCursor::new();
    let mut out = Vec::new();
    for (mid, m) in cursor.matches(&query, tree.root_node(), text.as_bytes()).enumerate() {
        for c in m.captures { out.push(capture_rec(&query, c, mid)); }
    }
    out
}

/// Relies on `tree_sitter::Node::child` over the root: the byte ranges of
/// the top-level patterns, in order.
#[verifier::external_body]
pub(crate) fn top_ranges(tree: &tree_sitter::Tree) -> (r: Vec<(usize, usize)>)
    ensures
        r@ == top_ranges_of(*tree),
{
    let root = tree.root_node();
    let mut out = Vec::new();
    for i in 0..root.child_count() {
        let c = root.child(i).unwrap();
        out.push((c.start_byte(), c.end_byte()));
    }
    out
}

/// Relies on `tree_sitter::Node::kind` of the root node.
#[verifier::external_body]
pub fn tree_root_kind(tree: &tree_sitter::Tree) -> (r: String)
    ensures
        r@ == root_kind_of(*tree),
{
    tree.root_node().kind().to_string()
}

/// Relies on `tree_sitter::Node::has_error` of the root node.
#[verifier::external_body]
pub fn tree_has_error(tree: &tree_sitter::Tree) -> (r: bool)
    ensures
        r == has_error_of(*tree),
{
    tree.root_node().has_error()
}

/// Relies on `tree_sitter::Node::named_descendant_for_point_range` and the
/// node accessors: the named node at the point, with its parent.
#[verifier::external_body]
pub(crate) fn named_descendant_at(tree: &tree_sitter::Tree, row: usize, col: usize) -> (r: Option<
    NodeRec,
>)
    ensures
        match r {
            Some(n) => descendant_at_of(*tree, row as int, col as int) == Some(n@),
            None => descendant_at_of(*tree, row as int, col as int) is None,
        },
{
    let p = tree_sitter::Point { row, column: col };
    tree.root_node().named_descendant_for_point_range(p, p).map(|n| {
        let parent = n.parent();
        NodeRec {
            kind: n.kind().to_string(),
            start_byte: n.start_byte(), end_byte: n.end_byte(),
            has_parent: parent.is_some(),
            parent_kind: parent.map_or(String::new(), |q| q.kind().to_string()),
            parent_start: parent.map_or(0, |q| q.start_byte()),
            parent_end: parent.map_or(0, |q| q.end_byte()),
        }
    })
}

/// Relies on `tree_sitter::Node::descendant_for_byte_range` and
/// `tree_sitter::Node::parent`: the kinds from the node spanning the byte
/// range up to, and excluding, the root.
#[verifier::external_body]
pub(crate) fn ancestor_kinds_spanning(tree: &tree_sitter::Tree, start_byte: usize, end_byte: usize) -> (r:
    Vec<String>)
    ensures
        r@.map_values(|k: String| k@) == ancestor_kinds_of(*tree, start_byte as int, end_byte as int),
{
    let root = tree.root_node();
    let mut out = Vec::new();
    let mut cur = root.descendant_for_byte_range(start_byte, end_byte);
    while let Some(n) = cur {
        if n != root {
            out.push(n.kind().to_string());
        }
        cur = n.parent();
    }
    out
}


#[verifier::external_type_specification]
#[verifier::external_body]
pub struct ExNode<'a>(tree_sitter::Node<'a>);

/// Relies on the `tree_sitter::Node` accessors: appends the node and its
/// whole subtree to the arena in pre-order, children indices in order.
#[verifier::external_body]
fn push_fmt_node(node: tree_sitter::Node, text: &str, out: &mut Vec<crate::format::FmtNode>) {
    let idx = out.len();
    out.push(crate::format::FmtNode {
        text: text.get(node.byte_range()).unwrap_or("").to_string(),
        start_byte: node.start_byte(), end_byte: node.end_byte(),
        named_child_count: node.named_child_count(),
        is_string: node.kind() == "string",
        children: Vec::new(), flags: Default::default(),
    });
    let mut kids = Vec::new();
    for i in 0..node.child_count() {
        kids.push(out.len());
        push_fmt_node(node.child(i).unwrap(), text, out);
    }
    out[idx].children = kids;
}

/// Relies on the pre-order walk above: the arena it builds is well formed
/// (children point forward in index order and lie inside their parents),
/// with the root at index zero and no rules assigned yet.
#[verifier::external_body]
pub fn build_fmt_tree(tree: &tree_sitter::Tree, text: &str) -> (r: crate::format::FmtTree)
    ensures
        r.wf(),
        r.nodes@.len() > 0,
{
    let mut nodes = Vec::new();
    push_fmt_node(tree.root_node(), text, &mut nodes);
    crate::format::FmtTree { nodes }
}
} // verus!

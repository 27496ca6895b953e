//! Navigation helpers over parse trees, and the user predicates the query
//! engine supports beyond the standard set.

use vstd::prelude::*;

use crate::diagnostics::{enclosing_top, exec_enclosing_top, range_ok, ALL_CAPTURES_QUERY};
use crate::format::{exec_is_ws, is_ws};
use crate::position::{byte_range_text, text_slice};
use crate::rope::{rope_chars, rope_len_lines, rope_line_string, rope_to_string};
use crate::strings::{chars_vec, str_eq, string_eq};
use crate::text::{line_start_char, newline_count};
use crate::tstree::{
    ancestor_kinds_of, ancestor_kinds_spanning, captures_of, descendant_at_of, named_descendant_at,
    run_query, top_ranges, top_ranges_of, tree_source, CaptureRec, CaptureView, NodeRec, NodeView,
};
use crate::types::Point;

verus! {

/// The capture node a point addresses: the named node there when it is a
/// capture, or its parent when that is one.
pub open spec fn current_capture_spec(found: Option<NodeView>) -> Option<NodeView> {
    match found {
        None => None,
        Some(nv) => {
            if nv.kind == "capture"@ {
                Some(nv)
            } else if nv.has_parent && nv.parent_kind == "capture"@ {
                Some(
                    NodeView {
                        kind: nv.parent_kind,
                        start_byte: nv.parent_start,
                        end_byte: nv.parent_end,
                        has_parent: false,
                        parent_kind: Seq::empty(),
                        parent_start: 0,
                        parent_end: 0,
                    },
                )
            } else {
                None
            }
        },
    }
}

/// The capture node under the given point, if any.
pub fn get_current_capture_node(tree: &tree_sitter::Tree, point: Point) -> (r: Option<NodeRec>)
    ensures
        match r {
            Some(n) => current_capture_spec(
                descendant_at_of(*tree, point.row as int, point.column as int),
            ) == Some(n@),
            None => current_capture_spec(
                descendant_at_of(*tree, point.row as int, point.column as int),
            ) is None,
        },
{
    let found = match named_descendant_at(tree, point.row, point.column) {
        Some(n) => n,
        None => {
            return None;
        },
    };
    if str_eq(found.kind.as_str(), "capture") {
        Some(found)
    } else if found.has_parent && str_eq(found.parent_kind.as_str(), "capture") {
        let r = NodeRec {
            kind: found.parent_kind.clone(),
            start_byte: found.parent_start,
            end_byte: found.parent_end,
            has_parent: false,
            parent_kind: String::new(),
            parent_start: 0,
            parent_end: 0,
        };
        proof {
            assert(r@ == current_capture_spec(
                descendant_at_of(*tree, point.row as int, point.column as int),
            )->0);
        }
        Some(r)
    } else {
        None
    }
}

/// Some kind in the list is the given one.
pub open spec fn has_kind(ks: Seq<Seq<char>>, kind: Seq<char>) -> bool {
    exists|i: int| 0 <= i < ks.len() && ks[i] == kind
}

/// Whether the node spanning the byte range, or one of its ancestors
/// below the root, has the given kind.
pub fn node_is_or_has_ancestor(
    tree: &tree_sitter::Tree,
    start_byte: usize,
    end_byte: usize,
    kind: &str,
) -> (r: bool)
    ensures
        r == has_kind(ancestor_kinds_of(*tree, start_byte as int, end_byte as int), kind@),
{
    let ghost ks = ancestor_kinds_of(*tree, start_byte as int, end_byte as int);
    let kinds = ancestor_kinds_spanning(tree, start_byte, end_byte);
    let mut i: usize = 0;
    while i < kinds.len()
        invariant
            i <= kinds@.len(),
            ks == ancestor_kinds_of(*tree, start_byte as int, end_byte as int),
            ks == kinds@.map_values(|k: String| k@),
            forall|j: int| 0 <= j < i ==> ks[j] != kind@,
        decreases kinds@.len() - i,
    {
        proof {
            assert(ks[i as int] == kinds@[i as int]@);
        }
        if str_eq(kinds[i].as_str(), kind) {
            proof {
                assert(0 <= i < ks.len() && ks[i as int] == kind@);
                assert(has_kind(ks, kind@));
            }
            return true;
        }
        i += 1;
    }
    proof {
        assert(!has_kind(ks, kind@)) by {
            assert(forall|j: int| 0 <= j < ks.len() ==> ks[j] != kind@);
        }
    }
    false
}

/// The capture nodes of the enclosing top-level pattern that share the
/// given node's kind and text, from index `i` of the capture list on.
pub open spec fn refs_from(
    all: Seq<CaptureView>,
    ts: int,
    te: int,
    kind: Seq<char>,
    ntext: Seq<char>,
    s: Seq<char>,
    i: int,
) -> Seq<CaptureView>
    decreases all.len() - i,
{
    if i < 0 || i >= all.len() {
        Seq::empty()
    } else {
        let keep = range_ok(s, all[i].start_byte, all[i].end_byte) && ts <= all[i].start_byte
            && all[i].end_byte <= te && all[i].kind == kind && text_slice(
            s,
            all[i].start_byte,
            all[i].end_byte,
        ) == ntext;
        if keep {
            seq![all[i]] + refs_from(all, ts, te, kind, ntext, s, i + 1)
        } else {
            refs_from(all, ts, te, kind, ntext, s, i + 1)
        }
    }
}

/// Every reference to the capture the given node names: the captures of
/// its top-level pattern with the same kind and text.
pub fn get_references(tree: &tree_sitter::Tree, rope: &ropey::Rope, node: &NodeRec) -> (r: Vec<
    CaptureRec,
>)
    requires
        rope_chars(*rope) == tree_source(*tree),
    ensures
        ({
            let s = tree_source(*tree);
            let all = captures_of(*tree, ALL_CAPTURES_QUERY@);
            match enclosing_top(top_ranges_of(*tree), node.start_byte as int, node.end_byte as int) {
                None => r@.len() == 0,
                Some(t) => {
                    if range_ok(s, node.start_byte as int, node.end_byte as int) {
                        r@.map_values(|c: CaptureRec| c@) == refs_from(
                            all,
                            t.0 as int,
                            t.1 as int,
                            node@.kind,
                            text_slice(s, node.start_byte as int, node.end_byte as int),
                            s,
                            0,
                        )
                    } else {
                        r@.len() == 0
                    }
                },
            }
        }),
{
    let ghost s = tree_source(*tree);
    let text = rope_to_string(rope);
    let all = run_query(tree, text.as_str(), ALL_CAPTURES_QUERY);
    let ghost av = all@.map_values(|c: CaptureRec| c@);
    let tops = top_ranges(tree);
    let tr = match exec_enclosing_top(&tops, node.start_byte, node.end_byte)
        {
        Some(t) => t,
        None => {
            return Vec::new();
        },
    };
    let ntext = match byte_range_text(rope, node.start_byte, node.end_byte) {
        Some(t) => t,
        None => {
            return Vec::new();
        },
    };
    proof {
        assert(enclosing_top(top_ranges_of(*tree), node.start_byte as int, node.end_byte as int)
            is Some);
    }
    let mut out: Vec<CaptureRec> = Vec::new();
    let mut i: usize = 0;
    while i < all.len()
        invariant
            i <= all@.len(),
            av == all@.map_values(|c: CaptureRec| c@),
            s == tree_source(*tree),
            rope_chars(*rope) == s,
            ntext@ == text_slice(s, node.start_byte as int, node.end_byte as int),
            out@.map_values(|c: CaptureRec| c@) + refs_from(
                av,
                tr.0 as int,
                tr.1 as int,
                node@.kind,
                ntext@,
                s,
                i as int,
            ) == refs_from(av, tr.0 as int, tr.1 as int, node@.kind, ntext@, s, 0),
        decreases all@.len() - i,
    {
        proof {
            assert(av[i as int] == all@[i as int]@);
        }
        let c = &all[i];
        let mut keep = tr.0 <= c.start_byte && c.end_byte <= tr.1 && str_eq(
            c.kind.as_str(),
            node.kind.as_str(),
        );
        if keep {
            match byte_range_text(rope, c.start_byte, c.end_byte) {
                Some(t) => {
                    keep = string_eq(&t, &ntext);
                },
                None => {
                    keep = false;
                },
            }
        }
        if keep {
            let c2 = CaptureRec {
                name: c.name.clone(),
                kind: c.kind.clone(),
                parent_kind: c.parent_kind.clone(),
                match_id: c.match_id,
                start_byte: c.start_byte,
                end_byte: c.end_byte,
                has_sib: c.has_sib,
                sib_start: c.sib_start,
                sib_end: c.sib_end,
            };
            proof {
                assert(c2@ == av[i as int]);
            }
            out.push(c2);
        }
        i += 1;
        proof {
            assert(out@.map_values(|x: CaptureRec| x@) + refs_from(
                av,
                tr.0 as int,
                tr.1 as int,
                node@.kind,
                ntext@,
                s,
                i as int,
            ) =~= refs_from(av, tr.0 as int, tr.1 as int, node@.kind, ntext@, s, 0));
        }
    }
    proof {
        assert(refs_from(av, tr.0 as int, tr.1 as int, node@.kind, ntext@, s, all@.len() as int)
            =~= Seq::<CaptureView>::empty());
        assert(out@.map_values(|x: CaptureRec| x@) =~= refs_from(
            av,
            tr.0 as int,
            tr.1 as int,
            node@.kind,
            ntext@,
            s,
            0,
        ));
    }
    out
}

// ------------------------------------------------------------------
// User predicates.
// ------------------------------------------------------------------

/// One argument of a query predicate: a capture index, or a literal.
#[derive(Clone, Debug)]
pub enum PredicateArg {
    Capture(u32),
    Literal(String),
}

/// One node a match captured, for predicate evaluation.
#[derive(Clone, Debug)]
pub struct PredNode {
    pub cap_index: u32,
    pub row: usize,
    pub col: usize,
    pub kind: String,
}

/// The first captured node with the given capture index.
pub open spec fn find_node(nodes: Seq<PredNode>, idx: u32) -> Option<PredNode>
    decreases nodes.len(),
{
    if nodes.len() == 0 {
        None
    } else if nodes[0].cap_index == idx {
        Some(nodes[0])
    } else {
        find_node(nodes.drop_first(), idx)
    }
}

/// Count of leading whitespace on a line, line breaks excluded.
pub open spec fn lead_ws(s: Seq<char>) -> int
    decreases s.len(),
{
    if s.len() > 0 && is_ws(s[0]) && s[0] != '\r' && s[0] != '\n' {
        1 + lead_ws(s.drop_first())
    } else {
        0
    }
}

/// The text of line `row`, its line feed included.
pub open spec fn line_text(s: Seq<char>, row: int) -> Seq<char> {
    s.subrange(line_start_char(s, row), line_start_char(s, row + 1))
}

/// What a user predicate decides, over the captured nodes of one match.
/// `is-start-of-line?` holds when the node's column equals the leading
/// whitespace of its row; `not-kind-eq?` fails only when the node's kind
/// equals one of the literals; an unknown predicate rejects the match.
pub open spec fn handle_predicate_spec(
    nodes: Seq<PredNode>,
    directive: Seq<char>,
    args: Seq<PredicateArg>,
    s: Seq<char>,
) -> bool {
    if directive == "is-start-of-line?"@ || directive == "not-is-start-of-line?"@ {
        let neg = directive == "not-is-start-of-line?"@;
        if args.len() > 0 && args[0] is Capture {
            match find_node(nodes, args[0]->Capture_0) {
                Some(n) => {
                    if n.row <= newline_count(s) {
                        let start = lead_ws(line_text(s, n.row as int)) == n.col;
                        if neg {
                            !start
                        } else {
                            start
                        }
                    } else {
                        true
                    }
                },
                None => true,
            }
        } else {
            true
        }
    } else if directive == "not-kind-eq?"@ {
        if args.len() > 0 && args[0] is Capture {
            match find_node(nodes, args[0]->Capture_0) {
                Some(n) => !kind_listed(args, n.kind@),
                None => true,
            }
        } else {
            true
        }
    } else {
        false
    }
}

/// Some literal argument past the first names the kind.
pub open spec fn kind_listed(args: Seq<PredicateArg>, kind: Seq<char>) -> bool {
    exists|i: int|
        1 <= i < args.len() && (#[trigger] args[i]) is Literal && args[i]->Literal_0@ == kind
}

/// Evaluates a user predicate on the captured nodes of one match.
#[verifier::loop_isolation(false)]
pub fn handle_predicate(
    nodes: &Vec<PredNode>,
    directive: &str,
    args: &Vec<PredicateArg>,
    rope: &ropey::Rope,
) -> (r: bool)
    ensures
        r == handle_predicate_spec(nodes@, directive@, args@, rope_chars(*rope)),
{
    let ghost s = rope_chars(*rope);
    let sol = str_eq(directive, "is-start-of-line?");
    let nsol = str_eq(directive, "not-is-start-of-line?");
    if sol || nsol {
        if args.len() > 0 {
            match &args[0] {
                PredicateArg::Capture(ci) => {
                    match exec_find_node(nodes, *ci) {
                        Some(ni) => {
                            let n = &nodes[ni];
                            let lines = rope_len_lines(rope);
                            if n.row < lines {
                                let line = rope_line_string(rope, n.row);
                                let lv = chars_vec(line.as_str());
                                let mut w: usize = 0;
                                proof {
                                    assert(lv@.skip(0) =~= lv@);
                                }
                                while w < lv.len() && exec_is_ws(lv[w]) && lv[w] != '\r' && lv[w]
                                    != '\n'
                                    invariant
                                        w <= lv@.len(),
                                        lead_ws(lv@) == w + lead_ws(lv@.skip(w as int)),
                                    decreases lv@.len() - w,
                                {
                                    proof {
                                        assert(lv@.skip(w as int)[0] == lv@[w as int]);
                                        assert(lv@.skip(w as int).drop_first() =~= lv@.skip(
                                            w as int + 1,
                                        ));
                                    }
                                    w += 1;
                                }
                                proof {
                                    if w < lv@.len() {
                                        assert(lv@.skip(w as int)[0] == lv@[w as int]);
                                    }
                                    assert(lead_ws(lv@.skip(w as int)) == 0);
                                }
                                let start = w == n.col;
                                if nsol {
                                    !start
                                } else {
                                    start
                                }
                            } else {
                                true
                            }
                        },
                        None => true,
                    }
                },
                PredicateArg::Literal(_) => true,
            }
        } else {
            true
        }
    } else if str_eq(directive, "not-kind-eq?") {
        if args.len() > 0 {
            match &args[0] {
                PredicateArg::Capture(ci) => {
                    match exec_find_node(nodes, *ci) {
                        Some(ni) => {
                            let n = &nodes[ni];
                            let mut i: usize = 1;
                            while i < args.len()
                                invariant
                                    ni < nodes@.len(),
                                    n == &nodes@[ni as int],
                                    find_node(nodes@, *ci) == Some(nodes@[ni as int]),
                                    forall|j: int|
                                        1 <= j < i ==> !((#[trigger] args@[j]) is Literal
                                            && args@[j]->Literal_0@ == n.kind@),
                                    args@[0] is Capture && args@[0]->Capture_0 == *ci,
                                decreases args@.len() - i,
                            {
                                match &args[i] {
                                    PredicateArg::Literal(k) => {
                                        if string_eq(k, &n.kind) {
                                            proof {
                                                assert(kind_listed(args@, n.kind@)) by {
                                                    assert(1 <= i < args@.len() && args@[
                                                    i as int] is Literal && args@[
                                                    i as int]->Literal_0@ == n.kind@);
                                                }
                                            }
                                            return false;
                                        }
                                    },
                                    PredicateArg::Capture(_) => {},
                                }
                                i += 1;
                            }
                            proof {
                                assert(!kind_listed(args@, nodes@[ni as int].kind@)) by {
                                    assert(forall|j: int|
                                        1 <= j < args@.len() ==> !((#[trigger] args@[j]) is Literal
                                            && args@[j]->Literal_0@ == nodes@[ni as int].kind@));
                                }
                            }
                            true
                        },
                        None => true,
                    }
                },
                PredicateArg::Literal(_) => true,
            }
        } else {
            true
        }
    } else {
        false
    }
}

/// Index of the first captured node with the given capture index.
fn exec_find_node(nodes: &Vec<PredNode>, idx: u32) -> (r: Option<usize>)
    ensures
        match r {
            Some(i) => i < nodes@.len() && find_node(nodes@, idx) == Some(nodes@[i as int]),
            None => find_node(nodes@, idx) is None,
        },
{
    let mut i: usize = 0;
    proof {
        assert(nodes@.skip(0) =~= nodes@);
    }
    while i < nodes.len()
        invariant
            i <= nodes@.len(),
            find_node(nodes@, idx) == find_node(nodes@.skip(i as int), idx),
        decreases nodes@.len() - i,
    {
        proof {
            assert(nodes@.skip(i as int)[0] == nodes@[i as int]);
            assert(nodes@.skip(i as int).drop_first() =~= nodes@.skip(i as int + 1));
        }
        if nodes[i].cap_index == idx {
            return Some(i);
        }
        i += 1;
    }
    proof {
        assert(nodes@.skip(nodes@.len() as int) =~= Seq::<PredNode>::empty());
    }
    None
}

} // verus!

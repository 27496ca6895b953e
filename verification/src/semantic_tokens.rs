//! Semantic tokens: the identifiers of named nodes, classified against the
//! supertype table and delta-encoded in document order.

use vstd::prelude::*;

use crate::diagnostics::range_ok;
use crate::position::{byte_offset_to_ts_point, byte_to_column_spec, byte_to_line_spec, text_slice};
use crate::rope::{rope_chars, rope_len_bytes, rope_to_string};
use crate::tstree::{captures_of, run_query, tree_source, CaptureRec, CaptureView};
use crate::types::LanguageInfo;

verus! {

/// The query that finds the identifier of every named node.
pub const SEMANTIC_TOKENS_QUERY: &'static str = "(named_node (identifier) @cap)";

/// One semantic token, delta-encoded as the protocol asks.
#[derive(Clone, Copy, Debug, PartialEq, Eq, Structural)]
pub struct SemanticToken {
    pub delta_line: usize,
    pub delta_start: usize,
    pub length: usize,
    pub token_type: usize,
    pub token_modifiers: usize,
}

/// One semantic token at the mathematical level.
pub struct TokSpec {
    pub delta_line: int,
    pub delta_start: int,
    pub length: int,
    pub token_type: int,
    pub token_modifiers: int,
}

/// The classification of a node text: the `ERROR` keyword, or a known
/// supertype; anything else carries no token.
pub open spec fn sem_kind(text: Seq<char>, info: LanguageInfo) -> Option<(int, int)> {
    if text == "ERROR"@ {
        Some((1int, 1int))
    } else if info.super_index(text) is Some {
        Some((0int, 0int))
    } else {
        None
    }
}

/// The tokens from record `i` onward, with the previous token's start at
/// `(prev_line, prev_col)`.  A record out of document order or out of
/// range yields nothing and leaves the anchor unchanged.
pub open spec fn tokens_from(
    recs: Seq<CaptureView>,
    s: Seq<char>,
    info: LanguageInfo,
    prev_line: int,
    prev_col: int,
    i: int,
) -> Seq<TokSpec>
    decreases recs.len() - i,
{
    if i < 0 || i >= recs.len() {
        Seq::empty()
    } else {
        let c = recs[i];
        let row = byte_to_line_spec(s, c.start_byte);
        let col = byte_to_column_spec(s, c.start_byte);
        if range_ok(s, c.start_byte, c.end_byte) && (row > prev_line || (row == prev_line && col
            >= prev_col)) && sem_kind(text_slice(s, c.start_byte, c.end_byte), info) is Some {
            let kind = sem_kind(text_slice(s, c.start_byte, c.end_byte), info)->0;
            seq![
                TokSpec {
                    delta_line: row - prev_line,
                    delta_start: if row == prev_line {
                        col - prev_col
                    } else {
                        col
                    },
                    length: c.end_byte - c.start_byte,
                    token_type: kind.0,
                    token_modifiers: kind.1,
                },
            ] + tokens_from(recs, s, info, row, col, i + 1)
        } else {
            tokens_from(recs, s, info, prev_line, prev_col, i + 1)
        }
    }
}

/// The emitted tokens equal the mathematical list field by field.
pub open spec fn tokens_match(ts: Seq<SemanticToken>, specs: Seq<TokSpec>) -> bool {
    &&& ts.len() == specs.len()
    &&& forall|i: int|
        0 <= i < specs.len() ==> {
            &&& (#[trigger] ts[i]).delta_line == specs[i].delta_line
            &&& ts[i].delta_start == specs[i].delta_start
            &&& ts[i].length == specs[i].length
            &&& ts[i].token_type == specs[i].token_type
            &&& ts[i].token_modifiers == specs[i].token_modifiers
        }
}

/// The semantic tokens of a document: every named-node identifier that is
/// the `ERROR` keyword or a known supertype, delta-encoded in order.
pub fn semantic_tokens_full(
    tree: &tree_sitter::Tree,
    rope: &ropey::Rope,
    info: &LanguageInfo,
) -> (r: Vec<SemanticToken>)
    requires
        rope_chars(*rope) == tree_source(*tree),
    ensures
        tokens_match(
            r@,
            tokens_from(
                captures_of(*tree, SEMANTIC_TOKENS_QUERY@),
                tree_source(*tree),
                *info,
                0,
                0,
                0,
            ),
        ),
{
    let ghost s = rope_chars(*rope);
    let text = rope_to_string(rope);
    let recs = run_query(tree, text.as_str(), SEMANTIC_TOKENS_QUERY);
    let ghost rv = recs@.map_values(|c: CaptureRec| c@);
    let total = rope_len_bytes(rope);
    let mut out: Vec<SemanticToken> = Vec::new();
    let mut prev_line: usize = 0;
    let mut prev_col: usize = 0;
    let mut i: usize = 0;
    let ghost mut emitted: Seq<TokSpec> = Seq::empty();
    while i < recs.len()
        invariant
            i <= recs@.len(),
            rv == recs@.map_values(|c: CaptureRec| c@),
            s == rope_chars(*rope),
            total == crate::text::total_bytes(s),
            tokens_match(out@, emitted),
            emitted + tokens_from(rv, s, *info, prev_line as int, prev_col as int, i as int)
                == tokens_from(rv, s, *info, 0, 0, 0),
        decreases recs@.len() - i,
    {
        proof {
            assert(rv[i as int] == recs@[i as int]@);
        }
        let c = &recs[i];
        let ghost these = tokens_from(rv, s, *info, prev_line as int, prev_col as int, i as int);
        if c.start_byte <= c.end_byte && c.end_byte <= total {
            let p = match byte_offset_to_ts_point(c.start_byte, rope) {
                Ok(p) => p,
                Err(_) => {
                    proof {
                        assert(false);
                    }
                    crate::types::Point { row: 0, column: 0 }
                },
            };
            let in_order: bool = p.row > prev_line || (p.row == prev_line && p.column >= prev_col);
            if in_order {
                let t = match crate::position::byte_range_text(rope, c.start_byte, c.end_byte) {
                    Some(t) => t,
                    None => {
                        proof {
                            assert(false);
                        }
                        String::new()
                    },
                };
                let kind: Option<(usize, usize)> = if crate::strings::str_eq(t.as_str(), "ERROR") {
                    Some((1, 1))
                } else if crate::types::exec_super_index(info, t.as_str()).is_some() {
                    Some((0, 0))
                } else {
                    None
                };
                match kind {
                    Some(k) => {
                        out.push(
                            SemanticToken {
                                delta_line: p.row - prev_line,
                                delta_start: if p.row == prev_line {
                                    p.column - prev_col
                                } else {
                                    p.column
                                },
                                length: c.end_byte - c.start_byte,
                                token_type: k.0,
                                token_modifiers: k.1,
                            },
                        );
                        prev_line = p.row;
                        prev_col = p.column;
                        proof {
                            emitted = emitted + these.take(1);
                            assert(these.take(1) =~= seq![these[0]]);
                        }
                    },
                    None => {},
                }
            }
        }
        i += 1;
        proof {
            assert(emitted + tokens_from(rv, s, *info, prev_line as int, prev_col as int, i as int)
                =~= tokens_from(rv, s, *info, 0, 0, 0));
            assert(tokens_match(out@, emitted));
        }
    }
    proof {
        assert(tokens_from(rv, s, *info, prev_line as int, prev_col as int, recs@.len() as int)
            =~= Seq::<TokSpec>::empty());
        assert(emitted =~= tokens_from(rv, s, *info, 0, 0, 0));
    }
    out
}

} // verus!

//! Conversions among the three coordinate systems over a rope-backed
//! document, with the round-trip laws.

use vstd::prelude::*;

use crate::rope::{
    rope_len_utf16, rope_try_byte_to_char, rope_try_byte_to_line, rope_try_char_to_byte,
    rope_try_char_to_utf16, rope_try_line_to_byte, rope_try_line_to_char, rope_try_utf16_to_char,
    rope_chars,
};
use crate::rope::rope_char_slice_string;
use crate::text::{
    byte_of_char, char_of_byte, char_of_cu, cu_of_char, cum, idx_at, is_char_boundary,
    lemma_cum_bounds, lemma_cum_mono, lemma_idx_at_bounds, lemma_idx_at_cum, lemma_idx_at_mono,
    lemma_line_of_char_mono, lemma_line_start_char_le_len, lemma_line_start_le_char,
    lemma_weights_positive, line_of_char, line_start_byte, line_start_char, newline_count,
    total_bytes, total_cus, w16, w8,
};
use crate::types::{Point, Position, PositionError};

verus! {

/// An LSP position addresses the document when its line exists (the
/// synthetic line one past the last counts) and the UTF-16 offset it names
/// stays within the text.
pub open spec fn lsp_in_range(s: Seq<char>, line: int, character: int) -> bool {
    &&& line <= newline_count(s) + 1
    &&& cu_of_char(s, line_start_char(s, line)) + character <= total_cus(s)
}

/// The byte offset an LSP position names: the start of the character that
/// holds UTF-16 offset `line start + character`.
pub open spec fn lsp_to_byte_spec(s: Seq<char>, line: int, character: int) -> int {
    byte_of_char(s, char_of_cu(s, cu_of_char(s, line_start_char(s, line)) + character))
}

/// The line of a byte offset.
pub open spec fn byte_to_line_spec(s: Seq<char>, b: int) -> int {
    line_of_char(s, char_of_byte(s, b))
}

/// The UTF-16 column of a byte offset, counted from its line start.
pub open spec fn byte_to_character_spec(s: Seq<char>, b: int) -> int {
    cu_of_char(s, char_of_byte(s, b)) - cu_of_char(
        s,
        line_start_char(s, byte_to_line_spec(s, b)),
    )
}

/// The byte column of a byte offset, counted from its line start.
pub open spec fn byte_to_column_spec(s: Seq<char>, b: int) -> int {
    b - line_start_byte(s, byte_to_line_spec(s, b))
}

/// Locate the byte offset of an LSP position; the position of the
/// "one past end" form maps to the byte length.  A position inside a
/// character yields that character's first byte.
pub fn lsp_position_to_byte_offset(position: Position, rope: &ropey::Rope) -> (res: Result<
    usize,
    PositionError,
>)
    ensures
        res is Ok <==> lsp_in_range(
            rope_chars(*rope),
            position.line as int,
            position.character as int,
        ),
        res matches Ok(b) ==> b == lsp_to_byte_spec(
            rope_chars(*rope),
            position.line as int,
            position.character as int,
        ),
{
    let ghost s = rope_chars(*rope);
    let total_cu = rope_len_utf16(rope);
    let line_char = match rope_try_line_to_char(rope, position.line) {
        Some(ci) => ci,
        None => {
            return Err(PositionError::OutOfRange);
        },
    };
    proof {
        lemma_weights_positive();
        lemma_line_start_char_le_len(s, position.line as int);
        lemma_cum_mono(w16(), s, line_char as int, s.len() as int);
        lemma_cum_bounds(w16(), s, line_char as int);
    }
    let line_cu = match rope_try_char_to_utf16(rope, line_char) {
        Some(cu) => cu,
        None => {
            return Err(PositionError::OutOfRange);
        },
    };
    let target_cu = match line_cu.checked_add(position.character) {
        Some(v) => v,
        None => {
            // the sum exceeds every representable offset, so certainly the text
            return Err(PositionError::OutOfRange);
        },
    };
    let char_idx = match rope_try_utf16_to_char(rope, target_cu) {
        Some(ci) => ci,
        None => {
            return Err(PositionError::OutOfRange);
        },
    };
    proof {
        lemma_idx_at_bounds(w16(), s, target_cu as int);
    }
    match rope_try_char_to_byte(rope, char_idx) {
        Some(b) => Ok(b),
        None => {
            proof {
                assert(false);
            }
            Err(PositionError::OutOfRange)
        },
    }
}

/// The LSP position of a byte offset: its line, and the UTF-16 distance
/// from the line start.  Defined for every offset up to the byte length; an
/// offset inside a character addresses that character.
pub fn byte_offset_to_lsp_position(offset: usize, rope: &ropey::Rope) -> (res: Result<
    Position,
    PositionError,
>)
    ensures
        res is Ok <==> offset <= total_bytes(rope_chars(*rope)),
        res matches Ok(p) ==> p.line == byte_to_line_spec(rope_chars(*rope), offset as int)
            && p.character == byte_to_character_spec(rope_chars(*rope), offset as int),
{
    let ghost s = rope_chars(*rope);
    let line_idx = match rope_try_byte_to_line(rope, offset) {
        Some(l) => l,
        None => {
            return Err(PositionError::OutOfRange);
        },
    };
    let ghost ci = char_of_byte(s, offset as int);
    proof {
        lemma_weights_positive();
        lemma_idx_at_bounds(w8(), s, offset as int);
        lemma_line_of_char_mono(s, ci, s.len() as int);
        lemma_line_start_le_char(s, ci);
        lemma_line_start_char_le_len(s, line_idx as int);
    }
    let line_char = match rope_try_line_to_char(rope, line_idx) {
        Some(c) => c,
        None => {
            proof {
                assert(false);
            }
            return Err(PositionError::OutOfRange);
        },
    };
    let line_cu = match rope_try_char_to_utf16(rope, line_char) {
        Some(cu) => cu,
        None => {
            proof {
                assert(false);
            }
            return Err(PositionError::OutOfRange);
        },
    };
    let char_idx = match rope_try_byte_to_char(rope, offset) {
        Some(c) => c,
        None => {
            proof {
                assert(false);
            }
            return Err(PositionError::OutOfRange);
        },
    };
    let cu_idx = match rope_try_char_to_utf16(rope, char_idx) {
        Some(cu) => cu,
        None => {
            proof {
                assert(false);
            }
            return Err(PositionError::OutOfRange);
        },
    };
    proof {
        lemma_cum_mono(w16(), s, line_char as int, char_idx as int);
    }
    Ok(Position { line: line_idx, character: cu_idx - line_cu })
}

/// The grammar point of a byte offset: its row, and the byte distance from
/// the row start.
pub fn byte_offset_to_ts_point(index: usize, rope: &ropey::Rope) -> (res: Result<
    Point,
    PositionError,
>)
    ensures
        res is Ok <==> index <= total_bytes(rope_chars(*rope)),
        res matches Ok(p) ==> p.row == byte_to_line_spec(rope_chars(*rope), index as int)
            && p.column == byte_to_column_spec(rope_chars(*rope), index as int),
{
    let ghost s = rope_chars(*rope);
    let line = match rope_try_byte_to_line(rope, index) {
        Some(l) => l,
        None => {
            return Err(PositionError::OutOfRange);
        },
    };
    let ghost ci = char_of_byte(s, index as int);
    proof {
        lemma_weights_positive();
        lemma_idx_at_bounds(w8(), s, index as int);
        lemma_line_of_char_mono(s, ci, s.len() as int);
        lemma_line_start_le_char(s, ci);
        lemma_cum_mono(w8(), s, line_start_char(s, line as int), ci);
        lemma_cum_bounds(w8(), s, line_start_char(s, line as int));
    }
    let line_byte = match rope_try_line_to_byte(rope, line) {
        Some(b) => b,
        None => {
            proof {
                assert(false);
            }
            return Err(PositionError::OutOfRange);
        },
    };
    Ok(Point { row: line, column: index - line_byte })
}

/// The byte offset a grammar point names, when the point lies within the
/// document.
pub fn ts_point_to_byte_offset(point: Point, rope: &ropey::Rope) -> (res: Result<
    usize,
    PositionError,
>)
    ensures
        res is Ok <==> point.row <= newline_count(rope_chars(*rope)) + 1 && line_start_byte(
            rope_chars(*rope),
            point.row as int,
        ) + point.column <= total_bytes(rope_chars(*rope)),
        res matches Ok(b) ==> b == line_start_byte(rope_chars(*rope), point.row as int)
            + point.column,
{
    let ghost s = rope_chars(*rope);
    let total = crate::rope::rope_len_bytes(rope);
    let line_byte = match rope_try_line_to_byte(rope, point.row) {
        Some(b) => b,
        None => {
            return Err(PositionError::OutOfRange);
        },
    };
    let offset = match line_byte.checked_add(point.column) {
        Some(v) => v,
        None => {
            return Err(PositionError::OutOfRange);
        },
    };
    if offset > total {
        return Err(PositionError::OutOfRange);
    }
    Ok(offset)
}

/// The LSP position of a grammar point: through the byte offset it names.
pub fn ts_point_to_lsp_position(point: Point, rope: &ropey::Rope) -> (res: Result<
    Position,
    PositionError,
>)
    ensures
        res matches Ok(p) ==> {
            let b = line_start_byte(rope_chars(*rope), point.row as int) + point.column;
            p.line == byte_to_line_spec(rope_chars(*rope), b) && p.character
                == byte_to_character_spec(rope_chars(*rope), b)
        },
        res is Ok <==> point.row <= newline_count(rope_chars(*rope)) + 1 && line_start_byte(
            rope_chars(*rope),
            point.row as int,
        ) + point.column <= total_bytes(rope_chars(*rope)),
{
    let offset = match ts_point_to_byte_offset(point, rope) {
        Ok(b) => b,
        Err(e) => {
            return Err(e);
        },
    };
    match byte_offset_to_lsp_position(offset, rope) {
        Ok(p) => Ok(p),
        Err(e) => {
            proof {
                assert(false);
            }
            Err(e)
        },
    }
}

/// Positions convertible to grammar points against a document.
pub trait ToTsPoint {
    /// The grammar point of this position, when it addresses the document.
    fn to_ts_point(&self, rope: &ropey::Rope) -> (res: Result<Point, PositionError>);
}

impl ToTsPoint for Position {
    /// Conversion through the byte offset the position names.
    fn to_ts_point(&self, rope: &ropey::Rope) -> (res: Result<Point, PositionError>) {
        let offset = match lsp_position_to_byte_offset(*self, rope) {
            Ok(b) => b,
            Err(e) => {
                return Err(e);
            },
        };
        proof {
            lemma_weights_positive();
            lemma_line_start_char_le_len(rope_chars(*rope), self.line as int);
            lemma_cum_bounds(
                w16(),
                rope_chars(*rope),
                line_start_char(rope_chars(*rope), self.line as int),
            );
            lemma_idx_at_bounds(
                w16(),
                rope_chars(*rope),
                cu_of_char(
                    rope_chars(*rope),
                    line_start_char(rope_chars(*rope), self.line as int),
                ) + self.character,
            );
            lemma_cum_bounds(
                w8(),
                rope_chars(*rope),
                char_of_cu(
                    rope_chars(*rope),
                    cu_of_char(
                        rope_chars(*rope),
                        line_start_char(rope_chars(*rope), self.line as int),
                    ) + self.character,
                ),
            );
        }
        byte_offset_to_ts_point(offset, rope)
    }
}

/// The characters lying between two byte offsets.
pub open spec fn text_slice(s: Seq<char>, sb: int, eb: int) -> Seq<char> {
    s.subrange(char_of_byte(s, sb), char_of_byte(s, eb))
}

/// The text of a byte range of the document, when the range lies within
/// it.
pub fn byte_range_text(rope: &ropey::Rope, start_byte: usize, end_byte: usize) -> (res: Option<
    String,
>)
    ensures
        res is Some <==> start_byte <= end_byte <= total_bytes(rope_chars(*rope)),
        res matches Some(t) ==> t@ == text_slice(
            rope_chars(*rope),
            start_byte as int,
            end_byte as int,
        ),
{
    let ghost s = rope_chars(*rope);
    if start_byte > end_byte {
        return None;
    }
    let cs = match rope_try_byte_to_char(rope, start_byte) {
        Some(c) => c,
        None => {
            return None;
        },
    };
    let ce = match rope_try_byte_to_char(rope, end_byte) {
        Some(c) => c,
        None => {
            return None;
        },
    };
    proof {
        lemma_weights_positive();
        lemma_idx_at_mono(w8(), s, start_byte as int, end_byte as int);
        lemma_idx_at_bounds(w8(), s, end_byte as int);
    }
    Some(rope_char_slice_string(rope, cs, ce))
}

/// The byte offset an in-range LSP position names lies within the text.
pub proof fn lemma_lsp_byte_in_range(s: Seq<char>, line: int, character: int)
    requires
        lsp_in_range(s, line, character),
        0 <= character,
    ensures
        0 <= lsp_to_byte_spec(s, line, character) <= total_bytes(s),
        char_of_byte(s, lsp_to_byte_spec(s, line, character)) == char_of_cu(
            s,
            cu_of_char(s, line_start_char(s, line)) + character,
        ),
{
    lemma_weights_positive();
    lemma_line_start_char_le_len(s, line);
    lemma_cum_bounds(w16(), s, line_start_char(s, line));
    lemma_idx_at_bounds(w16(), s, cu_of_char(s, line_start_char(s, line)) + character);
    let ci = char_of_cu(s, cu_of_char(s, line_start_char(s, line)) + character);
    lemma_cum_bounds(w8(), s, ci);
    lemma_idx_at_cum(w8(), s, ci);
}

// ------------------------------------------------------------------
// The round-trip laws.
// ------------------------------------------------------------------

/// Converting a byte offset to an LSP position and back yields the start of
/// the character the offset addresses; on a character boundary it yields
/// the offset itself.
pub proof fn lemma_lsp_byte_round_trip(s: Seq<char>, b: int)
    requires
        0 <= b <= total_bytes(s),
    ensures
        lsp_in_range(s, byte_to_line_spec(s, b), byte_to_character_spec(s, b)),
        lsp_to_byte_spec(s, byte_to_line_spec(s, b), byte_to_character_spec(s, b)) == byte_of_char(
            s,
            char_of_byte(s, b),
        ),
        is_char_boundary(s, b) ==> lsp_to_byte_spec(
            s,
            byte_to_line_spec(s, b),
            byte_to_character_spec(s, b),
        ) == b,
{
    lemma_weights_positive();
    let ci = char_of_byte(s, b);
    lemma_idx_at_bounds(w8(), s, b);
    let l = line_of_char(s, ci);
    lemma_line_of_char_mono(s, ci, s.len() as int);
    let lsc = line_start_char(s, l);
    lemma_line_start_le_char(s, ci);
    lemma_cum_mono(w16(), s, lsc, ci);
    lemma_cum_mono(w16(), s, ci, s.len() as int);
    let character = cu_of_char(s, ci) - cu_of_char(s, lsc);
    assert(cu_of_char(s, lsc) + character == cu_of_char(s, ci));
    lemma_idx_at_cum(w16(), s, ci);
    assert(char_of_cu(s, cu_of_char(s, ci)) == ci);
    if is_char_boundary(s, b) {
        let ci0 = choose|ci0: int| 0 <= ci0 <= s.len() && b == byte_of_char(s, ci0);
        lemma_idx_at_cum(w8(), s, ci0);
        assert(ci == ci0);
    }
}

/// Converting a byte offset to a grammar point and back yields the offset
/// itself.
pub proof fn lemma_point_byte_round_trip(s: Seq<char>, b: int)
    requires
        0 <= b <= total_bytes(s),
    ensures
        byte_to_line_spec(s, b) <= newline_count(s) + 1,
        line_start_byte(s, byte_to_line_spec(s, b)) <= b,
        line_start_byte(s, byte_to_line_spec(s, b)) + byte_to_column_spec(s, b) == b,
{
    lemma_weights_positive();
    let ci = char_of_byte(s, b);
    lemma_idx_at_bounds(w8(), s, b);
    let l = line_of_char(s, ci);
    lemma_line_of_char_mono(s, ci, s.len() as int);
    lemma_line_start_le_char(s, ci);
    lemma_cum_mono(w8(), s, line_start_char(s, l), ci);
    assert(byte_of_char(s, ci) <= b);
}

} // verus!

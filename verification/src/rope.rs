//! Trusted boundary to `ropey`.
//!
//! The rope is declared as an opaque outside type; `rope_chars` names the
//! characters it holds.  Each wrapper states, over that name and the spec
//! functions of the text model, what the corresponding `ropey` method
//! returns, exactly as the crate's source computes it.  The library is built
//! with ropey's default features off, so a line break is a line feed.

use vstd::prelude::*;

use crate::text::{
    byte_of_char, char_of_byte, char_of_cu, cu_of_char, line_of_char, line_start_byte,
    line_start_char, newline_count, total_bytes, total_cus,
};

verus! {

#[verifier::external_type_specification]
#[verifier::external_body]
pub struct ExRope(ropey::Rope);

/// The characters a rope holds, in order.
pub uninterp spec fn rope_chars(r: ropey::Rope) -> Seq<char>;

/// Relies on `ropey::Rope::from_str`: builds a rope holding the characters
/// of the given text.
#[verifier::external_body]
pub fn rope_from_str(text: &str) -> (r: ropey::Rope)
    ensures
        rope_chars(r) == text@,
{
    ropey::Rope::from_str(text)
}

/// Relies on `ropey::Rope::len_bytes`: the total UTF-8 length.
#[verifier::external_body]
pub fn rope_len_bytes(r: &ropey::Rope) -> (n: usize)
    ensures
        n == total_bytes(rope_chars(*r)),
{
    r.len_bytes()
}

/// Relies on `ropey::Rope::len_lines`: one more than the number of line
/// feeds.
#[verifier::external_body]
pub(crate) fn rope_len_lines(r: &ropey::Rope) -> (n: usize)
    ensures
        n == newline_count(rope_chars(*r)) + 1,
{
    r.len_lines()
}

/// Relies on `ropey::Rope::len_utf16_cu`: the total UTF-16 length.
#[verifier::external_body]
pub(crate) fn rope_len_utf16(r: &ropey::Rope) -> (n: usize)
    ensures
        n == total_cus(rope_chars(*r)),
{
    r.len_utf16_cu()
}

/// Relies on `ropey::Rope::try_byte_to_char`: the index of the character
/// containing the byte, defined for offsets up to the byte length.
#[verifier::external_body]
pub(crate) fn rope_try_byte_to_char(r: &ropey::Rope, byte_idx: usize) -> (res: Option<usize>)
    ensures
        res is Some <==> byte_idx <= total_bytes(rope_chars(*r)),
        res matches Some(ci) ==> ci == char_of_byte(rope_chars(*r), byte_idx as int),
{
    r.try_byte_to_char(byte_idx).ok()
}

/// Relies on `ropey::Rope::try_byte_to_line`: the line on which the byte
/// falls, defined for offsets up to the byte length.
#[verifier::external_body]
pub(crate) fn rope_try_byte_to_line(r: &ropey::Rope, byte_idx: usize) -> (res: Option<usize>)
    ensures
        res is Some <==> byte_idx <= total_bytes(rope_chars(*r)),
        res matches Some(l) ==> l == line_of_char(
            rope_chars(*r),
            char_of_byte(rope_chars(*r), byte_idx as int),
        ),
{
    r.try_byte_to_line(byte_idx).ok()
}

/// Relies on `ropey::Rope::try_char_to_byte`: the byte offset of the
/// character start, defined for indices up to the character count.
#[verifier::external_body]
pub(crate) fn rope_try_char_to_byte(r: &ropey::Rope, char_idx: usize) -> (res: Option<usize>)
    ensures
        res is Some <==> char_idx <= rope_chars(*r).len(),
        res matches Some(b) ==> b == byte_of_char(rope_chars(*r), char_idx as int),
{
    r.try_char_to_byte(char_idx).ok()
}

/// Relies on `ropey::Rope::try_char_to_utf16_cu`: the UTF-16 offset of the
/// character start, defined for indices up to the character count.
#[verifier::external_body]
pub(crate) fn rope_try_char_to_utf16(r: &ropey::Rope, char_idx: usize) -> (res: Option<usize>)
    ensures
        res is Some <==> char_idx <= rope_chars(*r).len(),
        res matches Some(cu) ==> cu == cu_of_char(rope_chars(*r), char_idx as int),
{
    r.try_char_to_utf16_cu(char_idx).ok()
}

/// Relies on `ropey::Rope::try_utf16_cu_to_char`: the index of the character
/// containing the UTF-16 offset, defined up to the UTF-16 length.
#[verifier::external_body]
pub(crate) fn rope_try_utf16_to_char(r: &ropey::Rope, cu_idx: usize) -> (res: Option<usize>)
    ensures
        res is Some <==> cu_idx <= total_cus(rope_chars(*r)),
        res matches Some(ci) ==> ci == char_of_cu(rope_chars(*r), cu_idx as int),
{
    r.try_utf16_cu_to_char(cu_idx).ok()
}

/// Relies on `ropey::Rope::try_line_to_char`: the character index at which
/// the line starts, defined for lines up to and including the line count.
#[verifier::external_body]
pub(crate) fn rope_try_line_to_char(r: &ropey::Rope, line_idx: usize) -> (res: Option<usize>)
    ensures
        res is Some <==> line_idx <= newline_count(rope_chars(*r)) + 1,
        res matches Some(ci) ==> ci == line_start_char(rope_chars(*r), line_idx as int),
{
    r.try_line_to_char(line_idx).ok()
}

/// Relies on `ropey::Rope::try_line_to_byte`: the byte offset at which the
/// line starts, defined for lines up to and including the line count.
#[verifier::external_body]
pub(crate) fn rope_try_line_to_byte(r: &ropey::Rope, line_idx: usize) -> (res: Option<usize>)
    ensures
        res is Some <==> line_idx <= newline_count(rope_chars(*r)) + 1,
        res matches Some(b) ==> b == line_start_byte(rope_chars(*r), line_idx as int),
{
    r.try_line_to_byte(line_idx).ok()
}

/// Relies on `ropey::Rope::insert`: splices the text in at the character
/// index.
#[verifier::external_body]
pub(crate) fn rope_insert(r: &mut ropey::Rope, char_idx: usize, text: &str)
    requires
        char_idx <= rope_chars(*old(r)).len(),
    ensures
        rope_chars(*final(r)) == rope_chars(*old(r)).subrange(0, char_idx as int) + text@
            + rope_chars(*old(r)).subrange(char_idx as int, rope_chars(*old(r)).len() as int),
{
    r.insert(char_idx, text)
}

/// Relies on `ropey::Rope::remove`: deletes the character range.
#[verifier::external_body]
pub(crate) fn rope_remove(r: &mut ropey::Rope, char_start: usize, char_end: usize)
    requires
        char_start <= char_end <= rope_chars(*old(r)).len(),
    ensures
        rope_chars(*final(r)) == rope_chars(*old(r)).subrange(0, char_start as int) + rope_chars(
            *old(r),
        ).subrange(char_end as int, rope_chars(*old(r)).len() as int),
{
    r.remove(char_start..char_end)
}

/// Relies on `ropey::Rope::line` and `ropey::RopeSlice::to_string`: the
/// characters of the line, its trailing line feed included.
#[verifier::external_body]
pub(crate) fn rope_line_string(r: &ropey::Rope, line_idx: usize) -> (res: String)
    requires
        line_idx <= newline_count(rope_chars(*r)),
    ensures
        res@ == rope_chars(*r).subrange(
            line_start_char(rope_chars(*r), line_idx as int),
            line_start_char(rope_chars(*r), line_idx as int + 1),
        ),
{
    r.line(line_idx).to_string()
}

/// Relies on `ropey::Rope::slice` and `ropey::RopeSlice::to_string`: the
/// characters of the given character range.
#[verifier::external_body]
pub(crate) fn rope_char_slice_string(r: &ropey::Rope, char_start: usize, char_end: usize) -> (res: String)
    requires
        char_start <= char_end <= rope_chars(*r).len(),
    ensures
        res@ == rope_chars(*r).subrange(char_start as int, char_end as int),
{
    r.slice(char_start..char_end).to_string()
}

/// Relies on `ropey::Rope::to_string`: the whole text.
#[verifier::external_body]
pub fn rope_to_string(r: &ropey::Rope) -> (res: String)
    ensures
        res@ == rope_chars(*r),
{
    r.to_string()
}

} // verus!

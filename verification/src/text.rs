//! Mathematical model of a document: a sequence of characters, with the
//! three coordinate systems that the server must relate to one another.
//!
//! * byte offsets (UTF-8),
//! * UTF-16 code-unit offsets (the LSP wire format),
//! * lines and grammar points (row plus byte column).
//!
//! Everything here is specification and proof; the executable conversions in
//! the position module carry these functions in their contracts.

use vstd::prelude::*;

verus! {

/// Number of bytes the character occupies in UTF-8.
pub open spec fn utf8_len(c: char) -> int {
    if (c as u32) < 0x80 {
        1
    } else if (c as u32) < 0x800 {
        2
    } else if (c as u32) < 0x10000 {
        3
    } else {
        4
    }
}

/// Number of UTF-16 code units the character occupies.
pub open spec fn utf16_len(c: char) -> int {
    if (c as u32) < 0x10000 {
        1
    } else {
        2
    }
}

/// Cumulative weight of the first `i` characters of `s`.
pub open spec fn cum(w: spec_fn(char) -> int, s: Seq<char>, i: int) -> int
    decreases i,
{
    if i <= 0 {
        0
    } else {
        cum(w, s, i - 1) + w(s[i - 1])
    }
}

/// Largest character index `n <= s.len()` with `cum(w, s, n) <= x`,
/// assuming every weight is at least one.
pub open spec fn idx_at(w: spec_fn(char) -> int, s: Seq<char>, x: int) -> int
    decreases s.len(),
{
    if s.len() == 0 || x < w(s[0]) {
        0
    } else {
        1 + idx_at(w, s.drop_first(), x - w(s[0]))
    }
}

/// A weight function that is at least one on every character, as both
/// `utf8_len` and `utf16_len` are.
pub open spec fn positive(w: spec_fn(char) -> int) -> bool {
    forall|c: char| #[trigger] w(c) >= 1
}

/// The UTF-8 weight as a function value, so that the cumulative-sum lemmas
/// apply to it directly.
pub open spec fn w8() -> spec_fn(char) -> int {
    |c: char| utf8_len(c)
}

/// The UTF-16 weight as a function value.
pub open spec fn w16() -> spec_fn(char) -> int {
    |c: char| utf16_len(c)
}

/// Both weights assign at least one unit to every character.
pub proof fn lemma_weights_positive()
    ensures
        positive(w8()),
        positive(w16()),
{
    assert forall|c: char| #[trigger] w8()(c) >= 1 by {
        assert(w8()(c) == utf8_len(c));
    }
    assert forall|c: char| #[trigger] w16()(c) >= 1 by {
        assert(w16()(c) == utf16_len(c));
    }
}

/// Byte offset of the start of the character at index `ci`.
pub open spec fn byte_of_char(s: Seq<char>, ci: int) -> int {
    cum(w8(), s, ci)
}

/// Total byte length of the text.
pub open spec fn total_bytes(s: Seq<char>) -> int {
    byte_of_char(s, s.len() as int)
}

/// Index of the character containing byte offset `b` (its own index for a
/// boundary byte, the count of all characters for the end offset).
pub open spec fn char_of_byte(s: Seq<char>, b: int) -> int {
    idx_at(w8(), s, b)
}

/// `b` is the byte offset of a character start, or the end of the text.
pub open spec fn is_char_boundary(s: Seq<char>, b: int) -> bool {
    exists|ci: int| 0 <= ci <= s.len() && b == byte_of_char(s, ci)
}

/// UTF-16 code-unit offset of the character at index `ci`.
pub open spec fn cu_of_char(s: Seq<char>, ci: int) -> int {
    cum(w16(), s, ci)
}

/// Total UTF-16 length of the text.
pub open spec fn total_cus(s: Seq<char>) -> int {
    cu_of_char(s, s.len() as int)
}

/// Index of the character containing UTF-16 offset `cu`.
pub open spec fn char_of_cu(s: Seq<char>, cu: int) -> int {
    idx_at(w16(), s, cu)
}

/// Number of newline characters among the first `ci` characters: the line
/// (row) on which the character at `ci` sits.
pub open spec fn line_of_char(s: Seq<char>, ci: int) -> int
    decreases ci,
{
    if ci <= 0 {
        0
    } else {
        line_of_char(s, ci - 1) + if s[ci - 1] == '\n' {
            1int
        } else {
            0int
        }
    }
}

/// Number of newline characters in the whole text; the text spans
/// `newline_count + 1` lines.
pub open spec fn newline_count(s: Seq<char>) -> int {
    line_of_char(s, s.len() as int)
}

/// Character index of the first character of line `l`: the position just
/// after the `l`-th newline (or the text end when there are fewer lines).
pub open spec fn line_start_char(s: Seq<char>, l: int) -> int
    decreases s.len(),
{
    if l <= 0 || s.len() == 0 {
        0
    } else if s[0] == '\n' {
        1 + line_start_char(s.drop_first(), l - 1)
    } else {
        1 + line_start_char(s.drop_first(), l)
    }
}

/// Byte offset of the start of line `l`.
pub open spec fn line_start_byte(s: Seq<char>, l: int) -> int {
    byte_of_char(s, line_start_char(s, l))
}

// ------------------------------------------------------------------
// Basic facts about cumulative weights.
// ------------------------------------------------------------------

/// Cumulative weights grow by at least one per character.
pub proof fn lemma_cum_mono(w: spec_fn(char) -> int, s: Seq<char>, i: int, j: int)
    requires
        positive(w),
        0 <= i <= j <= s.len(),
    ensures
        cum(w, s, i) + (j - i) <= cum(w, s, j),
    decreases j - i,
{
    if i < j {
        lemma_cum_mono(w, s, i, j - 1);
        assert(w(s[j - 1]) >= 1);
    }
}

/// Cumulative weights are nonnegative and bounded by the total.
pub proof fn lemma_cum_bounds(w: spec_fn(char) -> int, s: Seq<char>, i: int)
    requires
        positive(w),
        0 <= i <= s.len(),
    ensures
        0 <= cum(w, s, i),
        cum(w, s, i) <= cum(w, s, s.len() as int),
        i <= cum(w, s, i),
{
    lemma_cum_mono(w, s, 0, i);
    lemma_cum_mono(w, s, i, s.len() as int);
}

/// `cum` on a dropped-first sequence shifts by the first weight.
pub proof fn lemma_cum_drop_first(w: spec_fn(char) -> int, s: Seq<char>, i: int)
    requires
        1 <= i <= s.len(),
    ensures
        cum(w, s, i) == w(s[0]) + cum(w, s.drop_first(), i - 1),
    decreases i,
{
    if i == 1 {
        assert(cum(w, s, 1) == cum(w, s, 0) + w(s[0]));
    } else {
        lemma_cum_drop_first(w, s, i - 1);
        assert(s.drop_first()[i - 2] == s[i - 1]);
    }
}

/// The floor index inverts the cumulative weight on exact boundaries:
/// `idx_at(w, s, cum(w, s, ci)) == ci`.
pub proof fn lemma_idx_at_cum(w: spec_fn(char) -> int, s: Seq<char>, ci: int)
    requires
        positive(w),
        0 <= ci <= s.len(),
    ensures
        idx_at(w, s, cum(w, s, ci)) == ci,
    decreases s.len(),
{
    let x = cum(w, s, ci);
    if ci == 0 {
        assert(x == 0);
        if s.len() > 0 {
            assert(w(s[0]) >= 1);
        }
    } else {
        lemma_cum_drop_first(w, s, ci);
        assert(x == w(s[0]) + cum(w, s.drop_first(), ci - 1));
        lemma_cum_bounds(w, s.drop_first(), ci - 1);
        assert(x >= w(s[0]));
        lemma_idx_at_cum(w, s.drop_first(), ci - 1);
    }
}

/// The floor index never exceeds the sequence length, and its cumulative
/// weight stays at or below the probe.
pub proof fn lemma_idx_at_bounds(w: spec_fn(char) -> int, s: Seq<char>, x: int)
    requires
        positive(w),
        x >= 0,
    ensures
        0 <= idx_at(w, s, x) <= s.len(),
        cum(w, s, idx_at(w, s, x)) <= x,
    decreases s.len(),
{
    if s.len() == 0 || x < w(s[0]) {
    } else {
        lemma_idx_at_bounds(w, s.drop_first(), x - w(s[0]));
        lemma_cum_drop_first(w, s, 1 + idx_at(w, s.drop_first(), x - w(s[0])));
    }
}

/// A cumulative weight taken from an offset onward equals the cumulative
/// weight of the subrange.
pub proof fn lemma_cum_subrange(w: spec_fn(char) -> int, s: Seq<char>, a: int, k: int)
    requires
        0 <= a,
        0 <= k,
        a + k <= s.len(),
    ensures
        cum(w, s, a + k) == cum(w, s, a) + cum(w, s.subrange(a, a + k), k),
    decreases k,
{
    if k > 0 {
        lemma_cum_subrange(w, s, a, k - 1);
        lemma_cum_prefix(w, s.subrange(a, a + k - 1), s.subrange(a, a + k), k - 1);
        assert(s.subrange(a, a + k)[k - 1] == s[a + k - 1]);
    }
}

/// `cum` only reads the first `i` elements, so prefix-equal sequences
/// agree on it.
pub proof fn lemma_cum_prefix(w: spec_fn(char) -> int, s: Seq<char>, t: Seq<char>, i: int)
    requires
        0 <= i <= s.len(),
        i <= t.len(),
        forall|j: int| 0 <= j < i ==> s[j] == t[j],
    ensures
        cum(w, s, i) == cum(w, t, i),
    decreases i,
{
    if i > 0 {
        lemma_cum_prefix(w, s, t, i - 1);
    }
}

/// The byte total of the model agrees with the UTF-8 encoding length that
/// the standard library's contracts speak of.
pub proof fn lemma_total_bytes_encode(s: Seq<char>)
    ensures
        total_bytes(s) == vstd::utf8::encode_utf8(s).len(),
    decreases s.len(),
{
    if s.len() == 0 {
    } else {
        lemma_total_bytes_encode(s.drop_first());
        lemma_cum_drop_first(w8(), s, s.len() as int);
        assert(w8()(s[0]) == utf8_len(s[0]));
        // a char is a Unicode scalar: never a surrogate, at most 0x10FFFF
        vstd::utf8::char_is_scalar(s[0]);
        assert(vstd::utf8::encode_scalar(s[0] as u32).len() == utf8_len(s[0]));
    }
}

/// The floor index is monotone in the probe.
pub proof fn lemma_idx_at_mono(w: spec_fn(char) -> int, s: Seq<char>, x: int, y: int)
    requires
        positive(w),
        0 <= x <= y,
    ensures
        idx_at(w, s, x) <= idx_at(w, s, y),
    decreases s.len(),
{
    if s.len() == 0 {
    } else if x < w(s[0]) {
        lemma_idx_at_bounds(w, s, y);
    } else {
        lemma_idx_at_mono(w, s.drop_first(), x - w(s[0]), y - w(s[0]));
    }
}

// ------------------------------------------------------------------
// Facts about lines.
// ------------------------------------------------------------------

/// The line counter never decreases and never grows past the number of
/// characters inspected.
pub proof fn lemma_line_of_char_mono(s: Seq<char>, i: int, j: int)
    requires
        0 <= i <= j,
    ensures
        line_of_char(s, i) <= line_of_char(s, j),
        line_of_char(s, j) <= line_of_char(s, i) + (j - i),
        0 <= line_of_char(s, i) <= i,
    decreases j - i + i,
{
    if i < j {
        lemma_line_of_char_mono(s, i, j - 1);
        lemma_line_of_char_mono(s, i, i);
    } else if i > 0 {
        lemma_line_of_char_mono(s, i - 1, i - 1);
    }
}

/// `line_of_char` on a dropped-first sequence.
pub proof fn lemma_line_of_char_drop_first(s: Seq<char>, i: int)
    requires
        1 <= i <= s.len(),
    ensures
        line_of_char(s, i) == line_of_char(s.drop_first(), i - 1) + if s[0] == '\n' {
            1int
        } else {
            0int
        },
    decreases i,
{
    if i == 1 {
        assert(line_of_char(s.drop_first(), 0) == 0);
        assert(line_of_char(s, 1) == line_of_char(s, 0) + if s[0] == '\n' {
            1int
        } else {
            0int
        });
    } else {
        lemma_line_of_char_drop_first(s, i - 1);
        assert(s.drop_first()[i - 2] == s[i - 1]);
        assert(line_of_char(s, i) == line_of_char(s, i - 1) + if s[i - 1] == '\n' {
            1int
        } else {
            0int
        });
        assert(line_of_char(s.drop_first(), i - 1) == line_of_char(s.drop_first(), i - 2)
            + if s.drop_first()[i - 2] == '\n' {
            1int
        } else {
            0int
        });
    }
}

/// The start of the line a character sits on is no later than the character.
pub proof fn lemma_line_start_le_char(s: Seq<char>, ci: int)
    requires
        0 <= ci <= s.len(),
    ensures
        0 <= line_start_char(s, line_of_char(s, ci)) <= ci,
    decreases s.len(),
{
    let l = line_of_char(s, ci);
    lemma_line_of_char_mono(s, 0, ci);
    if ci == 0 {
    } else if s.len() == 0 {
    } else if l == 0 {
        // no newline among the first ci characters, and line 0 starts at 0
    } else {
        // peel the first character off
        lemma_line_of_char_drop_first(s, ci);
        if s[0] == '\n' {
            lemma_line_start_le_char(s.drop_first(), ci - 1);
            assert(line_of_char(s.drop_first(), ci - 1) == l - 1);
        } else {
            lemma_line_start_le_char(s.drop_first(), ci - 1);
            assert(line_of_char(s.drop_first(), ci - 1) == l);
        }
    }
}

/// Line starts always fall inside the text.
pub proof fn lemma_line_start_char_le_len(s: Seq<char>, l: int)
    ensures
        0 <= line_start_char(s, l) <= s.len(),
    decreases s.len(),
{
    if l <= 0 || s.len() == 0 {
    } else if s[0] == '\n' {
        lemma_line_start_char_le_len(s.drop_first(), l - 1);
    } else {
        lemma_line_start_char_le_len(s.drop_first(), l);
    }
}

} // verus!

//! The rule-directed pretty printer: a side table of formatting rules
//! classifies each node of the tree, and a pre-order walk emits the
//! canonical text, two-space indentation and width-aware breaks included.

use vstd::prelude::*;

use crate::strings::{chars_vec, string_from_chars};

verus! {

/// Width target for conditional line breaks, in columns.
pub const TEXT_WIDTH: usize = 100;

/// Upper bound on the node count the formatter accepts; keeps every
/// indentation level within machine range.
pub const MAX_FMT_NODES: usize = 0x1000000;

/// The formatting rules a node carries, assigned by the tag-query of the
/// target grammar.
#[derive(Clone, Copy, Debug, PartialEq, Eq, Structural, Default)]
pub struct RuleFlags {
    pub ignore: bool,
    pub remove: bool,
    pub cancel_prepend: bool,
    pub cancel_append: bool,
    pub prepend_newline: bool,
    pub prepend_space: bool,
    pub conditional_newline: bool,
    pub lookahead_newline: bool,
    pub append_newline: bool,
    pub append_space: bool,
    pub indent_begin: bool,
    pub indent_dedent: bool,
    pub comment_fix: bool,
    pub make_pound: bool,
}

/// One node of the formatting tree: its text, byte range, children (as
/// indices into the arena) and rules.
#[derive(Clone, Debug)]
pub struct FmtNode {
    pub text: String,
    pub start_byte: usize,
    pub end_byte: usize,
    pub named_child_count: usize,
    pub is_string: bool,
    pub children: Vec<usize>,
    pub flags: RuleFlags,
}

/// The formatting tree: a pre-order arena, the root at index zero.
#[derive(Clone, Debug)]
pub struct FmtTree {
    pub nodes: Vec<FmtNode>,
}

impl FmtTree {
    /// Children point forward, strictly in order, and lie inside their
    /// parent's byte range.
    pub open spec fn wf(&self) -> bool {
        forall|i: int, k: int|
            0 <= i < self.nodes@.len() && 0 <= k < self.nodes@[i].children@.len() ==> {
                let c = #[trigger] self.nodes@[i].children@[k];
                &&& i < c < self.nodes@.len()
                &&& (k > 0 ==> self.nodes@[i].children@[k - 1] < c)
                &&& self.nodes@[c as int].start_byte <= self.nodes@[c as int].end_byte
                &&& self.nodes@[c as int].end_byte <= self.nodes@[i].end_byte
            }
    }
}

// ------------------------------------------------------------------
// Text normalization.
// ------------------------------------------------------------------

/// Carriage returns normalized away: CRLF and lone CR become LF.
pub open spec fn spec_crlf_to_lf(s: Seq<char>) -> Seq<char>
    decreases s.len(),
{
    if s.len() == 0 {
        Seq::empty()
    } else if s[0] == '\r' {
        if s.len() > 1 && s[1] == '\n' {
            seq!['\n'] + spec_crlf_to_lf(s.skip(2))
        } else {
            seq!['\n'] + spec_crlf_to_lf(s.skip(1))
        }
    } else {
        seq![s[0]] + spec_crlf_to_lf(s.skip(1))
    }
}

/// Leading line feeds dropped.
pub open spec fn spec_trim_front(s: Seq<char>) -> Seq<char>
    decreases s.len(),
{
    if s.len() > 0 && s[0] == '\n' {
        spec_trim_front(s.drop_first())
    } else {
        s
    }
}

/// Trailing line feeds dropped.
pub open spec fn spec_trim_back(s: Seq<char>) -> Seq<char>
    decreases s.len(),
{
    if s.len() > 0 && s[s.len() - 1] == '\n' {
        spec_trim_back(s.drop_last())
    } else {
        s
    }
}

/// Line feeds dropped at both ends.
pub open spec fn spec_trim_nl(s: Seq<char>) -> Seq<char> {
    spec_trim_back(spec_trim_front(s))
}

/// The text split at line feeds; `collapse` treats a run of them as one
/// separator.
pub open spec fn spec_split_nl(s: Seq<char>, collapse: bool) -> Seq<Seq<char>>
    decreases s.len(),
{
    if s.len() == 0 {
        seq![Seq::empty()]
    } else if s[0] == '\n' {
        if collapse && s.len() > 1 && s[1] == '\n' {
            spec_split_nl(s.drop_first(), collapse)
        } else {
            seq![Seq::<char>::empty()] + spec_split_nl(s.drop_first(), collapse)
        }
    } else {
        let r = spec_split_nl(s.drop_first(), collapse);
        r.update(0, seq![s[0]] + r[0])
    }
}

/// The split never yields an empty list.
pub proof fn lemma_split_nonempty(s: Seq<char>, collapse: bool)
    ensures
        spec_split_nl(s, collapse).len() > 0,
    decreases s.len(),
{
    if s.len() > 0 {
        lemma_split_nonempty(s.drop_first(), collapse);
    }
}

/// Normalizes carriage returns to line feeds.
pub fn crlf_to_lf(v: &Vec<char>) -> (r: Vec<char>)
    ensures
        r@ == spec_crlf_to_lf(v@),
{
    let mut out: Vec<char> = Vec::new();
    let mut i: usize = 0;
    proof {
        assert(v@.skip(0) =~= v@);
        assert(out@ + spec_crlf_to_lf(v@) =~= spec_crlf_to_lf(v@));
    }
    while i < v.len()
        invariant
            i <= v@.len(),
            out@ + spec_crlf_to_lf(v@.skip(i as int)) == spec_crlf_to_lf(v@),
        decreases v@.len() - i,
    {
        let ghost rem = v@.skip(i as int);
        proof {
            assert(rem[0] == v@[i as int]);
            assert(rem.skip(1) =~= v@.skip(i as int + 1));
            if rem.len() > 1 {
                assert(rem[1] == v@[i as int + 1]);
                assert(rem.skip(2) =~= v@.skip(i as int + 2));
            }
        }
        if v[i] == '\r' {
            out.push('\n');
            if i + 1 < v.len() && v[i + 1] == '\n' {
                i += 2;
            } else {
                i += 1;
            }
        } else {
            out.push(v[i]);
            i += 1;
        }
        proof {
            assert(out@ + spec_crlf_to_lf(v@.skip(i as int)) =~= spec_crlf_to_lf(v@));
        }
    }
    proof {
        assert(v@.skip(v@.len() as int) =~= Seq::<char>::empty());
        assert(out@ =~= spec_crlf_to_lf(v@));
    }
    out
}

/// Drops line feeds at both ends.
pub fn trim_nl(v: &Vec<char>) -> (r: Vec<char>)
    ensures
        r@ == spec_trim_nl(v@),
{
    let mut a: usize = 0;
    proof {
        assert(v@.skip(0) =~= v@);
    }
    while a < v.len() && v[a] == '\n'
        invariant
            a <= v@.len(),
            spec_trim_front(v@) == spec_trim_front(v@.skip(a as int)),
            forall|j: int| 0 <= j < a ==> v@[j] == '\n',
        decreases v@.len() - a,
    {
        proof {
            assert(v@.skip(a as int)[0] == v@[a as int]);
            assert(v@.skip(a as int).drop_first() =~= v@.skip(a as int + 1));
        }
        a += 1;
    }
    proof {
        if a < v@.len() {
            assert(v@.skip(a as int)[0] == v@[a as int]);
        }
        assert(spec_trim_front(v@) == v@.skip(a as int)) by {
            if a == v@.len() {
                assert(v@.skip(a as int) =~= Seq::<char>::empty());
            }
        }
    }
    let ghost f = v@.skip(a as int);
    proof {
        assert(v@.subrange(a as int, v@.len() as int) =~= f);
    }
    let mut b: usize = v.len();
    while b > a && v[b - 1] == '\n'
        invariant
            a <= b <= v@.len(),
            f == v@.skip(a as int),
            spec_trim_back(f) == spec_trim_back(v@.subrange(a as int, b as int)),
        decreases b,
    {
        proof {
            let cur = v@.subrange(a as int, b as int);
            assert(cur[cur.len() - 1] == v@[b - 1]);
            assert(cur.drop_last() =~= v@.subrange(a as int, b as int - 1));
        }
        b -= 1;
    }
    let mut out: Vec<char> = Vec::new();
    let mut i: usize = a;
    while i < b
        invariant
            a <= i <= b <= v@.len(),
            out@ == v@.subrange(a as int, i as int),
        decreases b - i,
    {
        out.push(v[i]);
        i += 1;
        proof {
            assert(out@ =~= v@.subrange(a as int, i as int));
        }
    }
    proof {
        let cur = v@.subrange(a as int, b as int);
        if b > a {
            assert(cur[cur.len() - 1] == v@[b - 1]);
            assert(spec_trim_back(cur) == cur);
        } else {
            assert(cur =~= Seq::<char>::empty());
            assert(spec_trim_back(cur) == cur);
        }
        assert(f =~= v@.subrange(a as int, v@.len() as int));
        assert(out@ == spec_trim_nl(v@));
    }
    out
}

/// Splits the text at line feeds.
pub fn split_nl(v: &Vec<char>, collapse: bool) -> (r: Vec<Vec<char>>)
    ensures
        r@.map_values(|l: Vec<char>| l@) == spec_split_nl(v@, collapse),
        r@.len() > 0,
{
    let ghost full = spec_split_nl(v@, collapse);
    proof {
        lemma_split_nonempty(v@, collapse);
    }
    let mut out: Vec<Vec<char>> = Vec::new();
    let mut cur: Vec<char> = Vec::new();
    let mut i: usize = 0;
    proof {
        assert(v@.skip(0) =~= v@);
        assert(full =~~= out@.map_values(|l: Vec<char>| l@) + full.update(0, cur@ + full[0]));
    }
    while i < v.len()
        invariant
            i <= v@.len(),
            full == spec_split_nl(v@, collapse),
            ({
                let rem = spec_split_nl(v@.skip(i as int), collapse);
                full == out@.map_values(|l: Vec<char>| l@) + rem.update(0, cur@ + rem[0])
            }),
        decreases v@.len() - i,
    {
        let ghost rem = spec_split_nl(v@.skip(i as int), collapse);
        proof {
            lemma_split_nonempty(v@.skip(i as int), collapse);
            lemma_split_nonempty(v@.skip(i as int + 1), collapse);
            assert(v@.skip(i as int)[0] == v@[i as int]);
            assert(v@.skip(i as int).drop_first() =~= v@.skip(i as int + 1));
            if i + 1 < v@.len() {
                assert(v@.skip(i as int)[1] == v@[i as int + 1]);
            }
        }
        if v[i] == '\n' {
            if collapse && i + 1 < v.len() && v[i + 1] == '\n' {
                // this line feed is absorbed into the run
            } else {
                out.push(cur);
                cur = Vec::new();
            }
        } else {
            cur.push(v[i]);
        }
        i += 1;
        proof {
            let rem2 = spec_split_nl(v@.skip(i as int), collapse);
            lemma_split_nonempty(v@.skip(i as int), collapse);
            assert(full =~~= out@.map_values(|l: Vec<char>| l@) + rem2.update(0, cur@ + rem2[0]));
        }
    }
    proof {
        assert(v@.skip(v@.len() as int) =~= Seq::<char>::empty());
    }
    out.push(cur);
    proof {
        let rem = spec_split_nl(Seq::<char>::empty(), collapse);
        assert(rem =~~= seq![Seq::<char>::empty()]);
        assert(full =~~= out@.map_values(|l: Vec<char>| l@));
    }
    out
}

// ------------------------------------------------------------------
// Line emission helpers.
// ------------------------------------------------------------------

/// Two spaces for every indentation level.
pub open spec fn indent_chars(level: int) -> Seq<char> {
    if level <= 0 {
        Seq::empty()
    } else {
        Seq::new((2 * level) as nat, |j: int| ' ')
    }
}

/// A fresh line indented to the level.
pub fn make_indent(level: usize) -> (r: Vec<char>)
    ensures
        r@ == indent_chars(level as int),
{
    let mut out: Vec<char> = Vec::new();
    let mut i: usize = 0;
    while i < level
        invariant
            i <= level,
            out@ == indent_chars(i as int),
        decreases level - i,
    {
        out.push(' ');
        out.push(' ');
        i += 1;
        proof {
            assert(out@ =~= indent_chars(i as int));
        }
    }
    out
}

/// Appends pre-split lines: the first onto the current line, the rest as
/// lines of their own.
pub open spec fn spec_append_lines(lines: Seq<Seq<char>>, app: Seq<Seq<char>>) -> Seq<Seq<char>> {
    if app.len() == 0 {
        lines
    } else {
        lines.update(lines.len() - 1, lines.last() + app[0]) + app.skip(1)
    }
}

/// Extends the current (last) line by the given characters.
pub fn extend_last(lines: &mut Vec<Vec<char>>, piece: &Vec<char>)
    requires
        old(lines)@.len() > 0,
    ensures
        final(lines)@.map_values(|l: Vec<char>| l@) == old(lines)@.map_values(
            |l: Vec<char>| l@,
        ).update(old(lines)@.len() - 1, old(lines)@.last()@ + piece@),
        final(lines)@.len() == old(lines)@.len(),
{
    let ghost lv0 = old(lines)@.map_values(|l: Vec<char>| l@);
    let mut tail = match lines.pop() {
        Some(t) => t,
        None => {
            proof {
                assert(false);
            }
            Vec::new()
        },
    };
    let mut piece2 = piece.clone();
    tail.append(&mut piece2);
    lines.push(tail);
    proof {
        assert(lines@.map_values(|l: Vec<char>| l@) =~~= lv0.update(
            lv0.len() - 1,
            old(lines)@.last()@ + piece@,
        ));
    }
}

/// Extends the current line by one character.
pub fn extend_last_char(lines: &mut Vec<Vec<char>>, c: char)
    requires
        old(lines)@.len() > 0,
    ensures
        final(lines)@.map_values(|l: Vec<char>| l@) == old(lines)@.map_values(
            |l: Vec<char>| l@,
        ).update(old(lines)@.len() - 1, old(lines)@.last()@ + seq![c]),
        final(lines)@.len() == old(lines)@.len(),
{
    let ghost lv0 = old(lines)@.map_values(|l: Vec<char>| l@);
    let mut tail = match lines.pop() {
        Some(t) => t,
        None => {
            proof {
                assert(false);
            }
            Vec::new()
        },
    };
    tail.push(c);
    lines.push(tail);
    proof {
        assert(lines@.map_values(|l: Vec<char>| l@) =~~= lv0.update(
            lv0.len() - 1,
            old(lines)@.last()@ + seq![c],
        ));
    }
}

/// Removes up to `k` characters from the front of the current line.
pub fn drop_last_line_front(lines: &mut Vec<Vec<char>>, k: usize)
    requires
        old(lines)@.len() > 0,
    ensures
        final(lines)@.map_values(|l: Vec<char>| l@) == old(lines)@.map_values(
            |l: Vec<char>| l@,
        ).update(
            old(lines)@.len() - 1,
            old(lines)@.last()@.skip(
                if k as int <= old(lines)@.last()@.len() {
                    k as int
                } else {
                    old(lines)@.last()@.len() as int
                },
            ),
        ),
        final(lines)@.len() == old(lines)@.len(),
{
    let ghost lv0 = old(lines)@.map_values(|l: Vec<char>| l@);
    let tail = match lines.pop() {
        Some(t) => t,
        None => {
            proof {
                assert(false);
            }
            Vec::new()
        },
    };
    let start: usize = if k <= tail.len() {
        k
    } else {
        tail.len()
    };
    let mut fresh: Vec<char> = Vec::new();
    let mut i: usize = start;
    while i < tail.len()
        invariant
            start <= i <= tail@.len(),
            fresh@ == tail@.subrange(start as int, i as int),
        decreases tail@.len() - i,
    {
        fresh.push(tail[i]);
        i += 1;
        proof {
            assert(fresh@ =~= tail@.subrange(start as int, i as int));
        }
    }
    lines.push(fresh);
    proof {
        assert(fresh@ =~= tail@.skip(start as int));
        assert(lines@.map_values(|l: Vec<char>| l@) =~~= lv0.update(
            lv0.len() - 1,
            old(lines)@.last()@.skip(start as int),
        ));
    }
}

/// Appends pre-split lines to the output buffer: the first continues the
/// current line, each further one opens a new line.
pub fn append_lines(lines: &mut Vec<Vec<char>>, lines_to_append: &Vec<Vec<char>>)
    requires
        old(lines)@.len() > 0,
    ensures
        final(lines)@.map_values(|l: Vec<char>| l@) == spec_append_lines(
            old(lines)@.map_values(|l: Vec<char>| l@),
            lines_to_append@.map_values(|l: Vec<char>| l@),
        ),
        final(lines)@.len() > 0,
{
    let ghost lv0 = old(lines)@.map_values(|l: Vec<char>| l@);
    let ghost av = lines_to_append@.map_values(|l: Vec<char>| l@);
    let ghost base = lv0.update(lv0.len() - 1, lv0.last() + av[0]);
    let n = lines_to_append.len();
    if n == 0 {
        return ;
    }
    extend_last(lines, &lines_to_append[0]);
    proof {
        assert(lines_to_append@[0]@ == av[0]);
        assert(lines@.map_values(|l: Vec<char>| l@) =~~= base + av.subrange(1, 1));
    }
    let mut i: usize = 1;
    while i < n
        invariant
            1 <= i <= n,
            n == av.len(),
            av == lines_to_append@.map_values(|l: Vec<char>| l@),
            base == lv0.update(lv0.len() - 1, lv0.last() + av[0]),
            lv0.len() > 0,
            lines@.len() > 0,
            lines@.map_values(|l: Vec<char>| l@) == base + av.subrange(1, i as int),
        decreases n - i,
    {
        lines.push(Vec::new());
        proof {
            assert(lines@.map_values(|l: Vec<char>| l@) =~~= base + av.subrange(1, i as int)
                + seq![Seq::<char>::empty()]);
        }
        let ghost mid = lines@.map_values(|l: Vec<char>| l@);
        extend_last(lines, &lines_to_append[i]);
        proof {
            assert(lines_to_append@[i as int]@ == av[i as int]);
            assert(mid.last() == Seq::<char>::empty());
            assert(Seq::<char>::empty() + av[i as int] =~= av[i as int]);
            assert(lines@.map_values(|l: Vec<char>| l@) == mid.update(
                mid.len() - 1,
                Seq::<char>::empty() + av[i as int],
            ));
            assert(lines@.map_values(|l: Vec<char>| l@) =~~= base + av.subrange(1, i as int + 1));
        }
        i += 1;
    }
    proof {
        assert(av.subrange(1, n as int) =~~= av.skip(1));
        assert(lines@.map_values(|l: Vec<char>| l@) =~~= spec_append_lines(lv0, av));
    }
}


// ------------------------------------------------------------------
// Comments and whitespace.
// ------------------------------------------------------------------

/// Whitespace, as the Unicode property the standard library uses.
pub open spec fn is_ws(c: char) -> bool {
    ||| c == ' '
    ||| c == '\t'
    ||| c == '\n'
    ||| c == '\r'
    ||| c == '\u{b}'
    ||| c == '\u{c}'
    ||| c == '\u{85}'
    ||| c == '\u{a0}'
    ||| c == '\u{1680}'
    ||| ('\u{2000}' <= c && c <= '\u{200a}')
    ||| c == '\u{2028}'
    ||| c == '\u{2029}'
    ||| c == '\u{202f}'
    ||| c == '\u{205f}'
    ||| c == '\u{3000}'
}

/// Whitespace test on one character.
pub fn exec_is_ws(c: char) -> (r: bool)
    ensures
        r == is_ws(c),
{
    c == ' ' || c == '\t' || c == '\n' || c == '\r' || c == '\u{b}' || c == '\u{c}' || c
        == '\u{85}' || c == '\u{a0}' || c == '\u{1680}' || ('\u{2000}' <= c && c <= '\u{200a}')
        || c == '\u{2028}' || c == '\u{2029}' || c == '\u{202f}' || c == '\u{205f}' || c
        == '\u{3000}'
}

/// Leading semicolons dropped.
pub open spec fn spec_strip_semis(s: Seq<char>) -> Seq<char>
    decreases s.len(),
{
    if s.len() > 0 && s[0] == ';' {
        spec_strip_semis(s.drop_first())
    } else {
        s
    }
}

/// Trailing whitespace dropped.
pub open spec fn spec_trim_ws_back(s: Seq<char>) -> Seq<char>
    decreases s.len(),
{
    if s.len() > 0 && is_ws(s[s.len() - 1]) {
        spec_trim_ws_back(s.drop_last())
    } else {
        s
    }
}

/// The sequence holds a line feed or carriage return somewhere.
pub open spec fn has_line_break(s: Seq<char>) -> bool {
    exists|j: int| 0 <= j < s.len() && ((#[trigger] s[j]) == '\n' || s[j] == '\r')
}

/// What a comment node contributes to the current line: a single
/// semicolon and the body (semicolons stripped in front, whitespace
/// behind).  A node that does not begin with a semicolon, or whose body
/// still holds a line break, contributes nothing: the output buffer keeps
/// one line per element.
pub open spec fn spec_comment_piece(text: Seq<char>) -> Seq<char> {
    if text.len() > 0 && text[0] == ';' {
        let body = spec_trim_ws_back(spec_strip_semis(text));
        if has_line_break(body) {
            Seq::empty()
        } else {
            seq![';'] + body
        }
    } else {
        Seq::empty()
    }
}

/// The comment contribution of a node text.
pub fn comment_piece(text: &String) -> (r: Vec<char>)
    ensures
        r@ == spec_comment_piece(text@),
{
    let v = chars_vec(text.as_str());
    if v.len() == 0 || v[0] != ';' {
        return Vec::new();
    }
    let mut a: usize = 0;
    proof {
        assert(v@.skip(0) =~= v@);
    }
    while a < v.len() && v[a] == ';'
        invariant
            a <= v@.len(),
            v@ == text@,
            spec_strip_semis(v@) == spec_strip_semis(v@.skip(a as int)),
        decreases v@.len() - a,
    {
        proof {
            assert(v@.skip(a as int)[0] == v@[a as int]);
            assert(v@.skip(a as int).drop_first() =~= v@.skip(a as int + 1));
        }
        a += 1;
    }
    proof {
        if a < v@.len() {
            assert(v@.skip(a as int)[0] == v@[a as int]);
        } else {
            assert(v@.skip(a as int) =~= Seq::<char>::empty());
        }
        assert(spec_strip_semis(v@) == v@.skip(a as int));
    }
    let mut b: usize = v.len();
    while b > a && exec_is_ws(v[b - 1])
        invariant
            a <= b <= v@.len(),
            v@ == text@,
            spec_trim_ws_back(v@.skip(a as int)) == spec_trim_ws_back(
                v@.subrange(a as int, b as int),
            ),
        decreases b,
    {
        proof {
            let cur = v@.subrange(a as int, b as int);
            assert(cur[cur.len() - 1] == v@[b - 1]);
            assert(cur.drop_last() =~= v@.subrange(a as int, b as int - 1));
        }
        b -= 1;
    }
    proof {
        assert(v@.subrange(a as int, v@.len() as int) =~= v@.skip(a as int));
        let cur = v@.subrange(a as int, b as int);
        if b > a {
            assert(cur[cur.len() - 1] == v@[b - 1]);
        } else {
            assert(cur =~= Seq::<char>::empty());
        }
        assert(spec_trim_ws_back(cur) == cur);
    }
    let ghost body = v@.subrange(a as int, b as int);
    let mut k: usize = a;
    while k < b
        invariant
            a <= k <= b <= v@.len(),
            v@ == text@,
            v@.len() > 0,
            v@[0] == ';',
            body == v@.subrange(a as int, b as int),
            body == spec_trim_ws_back(spec_strip_semis(text@)),
            forall|j: int| 0 <= j < k - a ==> !((#[trigger] body[j]) == '\n' || body[j] == '\r'),
        decreases b - k,
    {
        proof {
            assert(body[k - a] == v@[k as int]);
        }
        if v[k] == '\n' || v[k] == '\r' {
            proof {
                assert(has_line_break(body));
            }
            return Vec::new();
        }
        k += 1;
    }
    proof {
        assert(!has_line_break(body));
    }
    let mut out: Vec<char> = Vec::new();
    out.push(';');
    let mut i: usize = a;
    while i < b
        invariant
            a <= i <= b <= v@.len(),
            v@ == text@,
            out@ == seq![';'] + v@.subrange(a as int, i as int),
        decreases b - i,
    {
        out.push(v[i]);
        i += 1;
        proof {
            assert(out@ =~= seq![';'] + v@.subrange(a as int, i as int));
        }
    }
    proof {
        assert(out@ =~= spec_comment_piece(text@));
    }
    out
}

// ------------------------------------------------------------------
// The traversal.
// ------------------------------------------------------------------

/// The line buffer after the children of node `idx`, from child position
/// `j` on, have been emitted.  `level` is the current indentation,
/// `apply_newline` the deferred line break.  This is the whole emission
/// algorithm: rules fire per child in the order prepend, body, indent,
/// append.
pub open spec fn spec_fmt_children(
    t: FmtTree,
    idx: int,
    j: int,
    lines: Seq<Seq<char>>,
    level: int,
    apply_newline: bool,
) -> Seq<Seq<char>>
    decreases t.nodes@.len() - idx, t.nodes@[idx].children@.len() - j,
{
    if !t.wf() || !(0 <= idx < t.nodes@.len()) || !(0 <= j) || j >= t.nodes@[idx].children@.len()
        || lines.len() == 0 {
        lines
    } else {
        let node = t.nodes@[idx];
        let c = node.children@[j];
        if !(idx < c < t.nodes@.len()) {
            lines
        } else {
            let child = t.nodes@[c as int];
            let f = child.flags;
            let l1 = if apply_newline {
                lines + seq![indent_chars(level)]
            } else {
                lines
            };
            if f.ignore {
                let pieces = spec_split_nl(spec_trim_nl(spec_crlf_to_lf(child.text@)), false);
                let l2 = spec_append_lines(l1, pieces);
                let l3 = spec_fmt_post(l2, f, false);
                spec_fmt_children(t, idx, j + 1, l3.0, level, l3.1)
            } else if f.remove {
                let l3 = spec_fmt_post(l1, f, false);
                spec_fmt_children(t, idx, j + 1, l3.0, level, l3.1)
            } else {
                let l_pre = if !f.cancel_prepend {
                    if f.prepend_newline {
                        l1 + seq![indent_chars(level)]
                    } else if f.prepend_space && !f.conditional_newline {
                        l1.update(l1.len() - 1, l1.last() + seq![' '])
                    } else if f.prepend_space && f.conditional_newline {
                        let width = child.end_byte - child.start_byte;
                        let broader = node.end_byte - child.start_byte;
                        let cur_len = l1.last().len();
                        if width + 1 + cur_len > TEXT_WIDTH || (f.lookahead_newline && broader
                            + cur_len > TEXT_WIDTH) {
                            l1 + seq![indent_chars(level)]
                        } else {
                            l1.update(l1.len() - 1, l1.last() + seq![' '])
                        }
                    } else {
                        l1
                    }
                } else {
                    l1
                };
                let l_body = if f.comment_fix {
                    l_pre.update(l_pre.len() - 1, l_pre.last() + spec_comment_piece(child.text@))
                } else if f.make_pound {
                    l_pre.update(l_pre.len() - 1, l_pre.last() + seq!['#'])
                } else if child.named_child_count == 0 || child.is_string {
                    let pieces = spec_split_nl(spec_trim_nl(spec_crlf_to_lf(child.text@)), true);
                    spec_append_lines(l_pre, pieces)
                } else {
                    spec_fmt_children(t, c as int, 0, l_pre, level, false)
                };
                if f.indent_begin {
                    let l3 = spec_fmt_post(l_body, f, true);
                    spec_fmt_children(t, idx, j + 1, l3.0, level + 1, l3.1)
                } else if f.indent_dedent {
                    let last = l_body.last();
                    let cut = if 2 <= last.len() {
                        2int
                    } else {
                        last.len() as int
                    };
                    let l_ded = l_body.update(l_body.len() - 1, last.skip(cut));
                    let l3 = spec_fmt_post(l_ded, f, false);
                    spec_fmt_children(t, idx, j + 1, l3.0, level, l3.1)
                } else {
                    let l3 = spec_fmt_post(l_body, f, false);
                    spec_fmt_children(t, idx, j + 1, l3.0, level, l3.1)
                }
            }
        }
    }
}

/// The append rules, fired after a child's emission; they may extend the
/// current line or set the deferred line break.
pub open spec fn spec_fmt_post(lines: Seq<Seq<char>>, f: RuleFlags, apply_newline: bool) -> (
    Seq<Seq<char>>,
    bool,
) {
    if lines.len() == 0 {
        (lines, apply_newline)
    } else if f.cancel_append {
        (lines, false)
    } else if f.append_newline {
        (lines, true)
    } else if f.append_space {
        (lines.update(lines.len() - 1, lines.last() + seq![' ']), apply_newline)
    } else {
        (lines, apply_newline)
    }
}

/// Children of one node come after it, in strictly increasing order, so
/// the `j`-th child is at least `idx + j + 1`.
proof fn lemma_child_index_bound(t: FmtTree, idx: int, j: int)
    requires
        t.wf(),
        0 <= idx < t.nodes@.len(),
        0 <= j < t.nodes@[idx].children@.len(),
    ensures
        t.nodes@[idx].children@[j] >= idx + j + 1,
    decreases j,
{
    if j > 0 {
        lemma_child_index_bound(t, idx, j - 1);
    }
}

/// A node has room for all its children after it.
proof fn lemma_children_count(t: FmtTree, idx: int)
    requires
        t.wf(),
        0 <= idx < t.nodes@.len(),
    ensures
        t.nodes@[idx].children@.len() <= t.nodes@.len() - idx - 1,
{
    let n = t.nodes@[idx].children@.len();
    if n > 0 {
        lemma_child_index_bound(t, idx, n - 1);
    }
}

/// Emits the children of node `idx` into the line buffer at the given
/// indentation, exactly as `spec_fmt_children` describes.
#[verifier::rlimit(100)]
pub fn format_iter(tree: &FmtTree, idx: usize, lines: &mut Vec<Vec<char>>, level: usize)
    requires
        tree.wf(),
        idx < tree.nodes@.len(),
        old(lines)@.len() > 0,
        level + (tree.nodes@.len() - idx) <= MAX_FMT_NODES,
    ensures
        final(lines)@.map_values(|l: Vec<char>| l@) == spec_fmt_children(
            *tree,
            idx as int,
            0,
            old(lines)@.map_values(|l: Vec<char>| l@),
            level as int,
            false,
        ),
        final(lines)@.len() > 0,
    decreases tree.nodes@.len() - idx,
{
    let ghost t = *tree;
    let ghost lines0 = old(lines)@.map_values(|l: Vec<char>| l@);
    let node = &tree.nodes[idx];
    let n_children = node.children.len();
    let mut level_now: usize = level;
    let mut apply_newline: bool = false;
    let mut j: usize = 0;
    while j < n_children
        invariant
            t == *tree,
            tree.wf(),
            idx < tree.nodes@.len(),
            node == &tree.nodes@[idx as int],
            n_children == node.children@.len(),
            j <= n_children,
            lines@.len() > 0,
            level_now <= level + j,
            level + (tree.nodes@.len() - idx) <= MAX_FMT_NODES,
            spec_fmt_children(t, idx as int, 0, lines0, level as int, false) == spec_fmt_children(
                t,
                idx as int,
                j as int,
                lines@.map_values(|l: Vec<char>| l@),
                level_now as int,
                apply_newline,
            ),
        decreases n_children - j,
    {
        proof {
            lemma_child_index_bound(t, idx as int, j as int);
            lemma_children_count(t, idx as int);
        }
        let ghost l_in = lines@.map_values(|l: Vec<char>| l@);
        let ghost an_in = apply_newline;
        let ghost level_in = level_now;
        let c = node.children[j];
        let child = &tree.nodes[c];
        let f = child.flags;
        if apply_newline {
            apply_newline = false;
            lines.push(make_indent(level_now));
            proof {
                assert(lines@.map_values(|l: Vec<char>| l@) =~~= l_in + seq![
                    indent_chars(level_now as int),
                ]);
            }
        }
        let ghost l1 = lines@.map_values(|l: Vec<char>| l@);
        proof {
            assert(l1 == if an_in {
                l_in + seq![indent_chars(level_in as int)]
            } else {
                l_in
            });
        }
        if f.ignore {
            let text = chars_vec(child.text.as_str());
            let normalized = crlf_to_lf(&text);
            let trimmed = trim_nl(&normalized);
            let pieces = split_nl(&trimmed, false);
            append_lines(lines, &pieces);
            proof {
                assert(lines@.map_values(|l: Vec<char>| l@) == spec_append_lines(
                    l1,
                    spec_split_nl(spec_trim_nl(spec_crlf_to_lf(child.text@)), false),
                ));
            }
        } else if !f.remove {
            if !f.cancel_prepend {
                if f.prepend_newline {
                    lines.push(make_indent(level_now));
                    proof {
                        assert(lines@.map_values(|l: Vec<char>| l@) =~~= l1 + seq![
                            indent_chars(level_now as int),
                        ]);
                    }
                } else if f.prepend_space && !f.conditional_newline {
                    extend_last_char(lines, ' ');
                } else if f.prepend_space && f.conditional_newline {
                    let width = child.end_byte - child.start_byte;
                    let broader = node.end_byte - child.start_byte;
                    let cur_len = lines[lines.len() - 1].len();
                    proof {
                        assert(lines@[lines@.len() - 1]@ == l1.last());
                    }
                    let too_wide: bool = (width > TEXT_WIDTH || cur_len > TEXT_WIDTH || (width
                        <= TEXT_WIDTH && cur_len <= TEXT_WIDTH && width + 1 + cur_len
                        > TEXT_WIDTH)) || (f.lookahead_newline && (broader > TEXT_WIDTH || cur_len
                        > TEXT_WIDTH || (broader <= TEXT_WIDTH && cur_len <= TEXT_WIDTH && broader
                        + cur_len > TEXT_WIDTH)));
                    proof {
                        assert(too_wide == (width + 1 + cur_len > TEXT_WIDTH || (
                        f.lookahead_newline && broader + cur_len > TEXT_WIDTH)));
                    }
                    if too_wide {
                        lines.push(make_indent(level_now));
                        proof {
                            assert(lines@.map_values(|l: Vec<char>| l@) =~~= l1 + seq![
                                indent_chars(level_now as int),
                            ]);
                        }
                    } else {
                        extend_last_char(lines, ' ');
                    }
                }
            }
            let ghost l_pre = lines@.map_values(|l: Vec<char>| l@);
            proof {
                let child_s = t.nodes@[node.children@[j as int] as int];
                let width = child_s.end_byte - child_s.start_byte;
                let broader = t.nodes@[idx as int].end_byte - child_s.start_byte;
                let cur_len = l1.last().len() as int;
                assert(l_pre == if !f.cancel_prepend {
                    if f.prepend_newline {
                        l1 + seq![indent_chars(level_in as int)]
                    } else if f.prepend_space && !f.conditional_newline {
                        l1.update(l1.len() - 1, l1.last() + seq![' '])
                    } else if f.prepend_space && f.conditional_newline {
                        if width + 1 + cur_len > TEXT_WIDTH || (f.lookahead_newline && broader
                            + cur_len > TEXT_WIDTH) {
                            l1 + seq![indent_chars(level_in as int)]
                        } else {
                            l1.update(l1.len() - 1, l1.last() + seq![' '])
                        }
                    } else {
                        l1
                    }
                } else {
                    l1
                });
            }
            if f.comment_fix {
                let piece = comment_piece(&child.text);
                extend_last(lines, &piece);
            } else if f.make_pound {
                extend_last_char(lines, '#');
            } else if child.named_child_count == 0 || child.is_string {
                let text = chars_vec(child.text.as_str());
                let normalized = crlf_to_lf(&text);
                let trimmed = trim_nl(&normalized);
                let pieces = split_nl(&trimmed, true);
                append_lines(lines, &pieces);
            } else {
                format_iter(tree, c, lines, level_now);
            }
            let ghost l_body = lines@.map_values(|l: Vec<char>| l@);
            proof {
                let child_s = t.nodes@[node.children@[j as int] as int];
                assert(l_body == if f.comment_fix {
                    l_pre.update(l_pre.len() - 1, l_pre.last() + spec_comment_piece(child_s.text@))
                } else if f.make_pound {
                    l_pre.update(l_pre.len() - 1, l_pre.last() + seq!['#'])
                } else if child_s.named_child_count == 0 || child_s.is_string {
                    spec_append_lines(
                        l_pre,
                        spec_split_nl(spec_trim_nl(spec_crlf_to_lf(child_s.text@)), true),
                    )
                } else {
                    spec_fmt_children(
                        t,
                        node.children@[j as int] as int,
                        0,
                        l_pre,
                        level_in as int,
                        false,
                    )
                });
            }
            if f.indent_begin {
                level_now = level_now + 1;
                apply_newline = true;
            } else if f.indent_dedent {
                drop_last_line_front(lines, 2);
                proof {
                    let last = l_body.last();
                    let cut = if 2 <= last.len() {
                        2int
                    } else {
                        last.len() as int
                    };
                    assert(lines@.map_values(|l: Vec<char>| l@) == l_body.update(
                        l_body.len() - 1,
                        last.skip(cut),
                    ));
                }
            }
        }
        // the append rules
        let ghost l2 = lines@.map_values(|l: Vec<char>| l@);
        let ghost an2 = apply_newline;
        if f.cancel_append {
            apply_newline = false;
        } else if f.append_newline {
            apply_newline = true;
        } else if f.append_space {
            extend_last_char(lines, ' ');
        }
        proof {
            assert((lines@.map_values(|l: Vec<char>| l@), apply_newline) == spec_fmt_post(
                l2,
                f,
                an2,
            ));
        }
        j += 1;
        proof {
            assert(spec_fmt_children(t, idx as int, j - 1, l_in, level_in as int, an_in)
                == spec_fmt_children(
                t,
                idx as int,
                j as int,
                lines@.map_values(|l: Vec<char>| l@),
                level_now as int,
                apply_newline,
            ));
        }
    }
    proof {
        assert(spec_fmt_children(
            t,
            idx as int,
            n_children as int,
            lines@.map_values(|l: Vec<char>| l@),
            level_now as int,
            apply_newline,
        ) == lines@.map_values(|l: Vec<char>| l@));
    }
}

/// The lines joined by line feeds, with one trailing line feed.
pub open spec fn spec_join_lines(lines: Seq<Seq<char>>) -> Seq<char>
    decreases lines.len(),
{
    if lines.len() == 0 {
        Seq::empty()
    } else {
        lines[0] + seq!['\n'] + spec_join_lines(lines.drop_first())
    }
}

/// The canonical text of a formatting tree: the root's children emitted
/// into an empty buffer, joined by line feeds with a single trailing one.
/// A tree too large to format safely yields nothing.
pub fn format_document(tree: &FmtTree) -> (r: Option<String>)
    ensures
        r is Some <==> 0 < tree.nodes@.len() <= MAX_FMT_NODES && tree.wf(),
        r matches Some(text) ==> text@ == spec_join_lines(
            spec_fmt_children(*tree, 0, 0, seq![Seq::<char>::empty()], 0, false),
        ),
{
    if tree.nodes.len() == 0 || tree.nodes.len() > MAX_FMT_NODES || !check_wf(tree) {
        return None;
    }
    let mut lines: Vec<Vec<char>> = Vec::new();
    lines.push(Vec::new());
    proof {
        assert(lines@.map_values(|l: Vec<char>| l@) =~~= seq![Seq::<char>::empty()]);
    }
    format_iter(tree, 0, &mut lines, 0);
    let ghost lv = lines@.map_values(|l: Vec<char>| l@);
    let mut out: Vec<char> = Vec::new();
    let mut i: usize = 0;
    proof {
        assert(lv.skip(0) =~= lv);
        assert(out@ + spec_join_lines(lv) =~= spec_join_lines(lv));
    }
    while i < lines.len()
        invariant
            i <= lines@.len(),
            lv == lines@.map_values(|l: Vec<char>| l@),
            out@ + spec_join_lines(lv.skip(i as int)) == spec_join_lines(lv),
        decreases lines@.len() - i,
    {
        proof {
            assert(lv.skip(i as int)[0] == lv[i as int]);
            assert(lv.skip(i as int).drop_first() =~= lv.skip(i as int + 1));
            assert(lv[i as int] == lines@[i as int]@);
        }
        let mut piece = lines[i].clone();
        out.append(&mut piece);
        out.push('\n');
        i += 1;
        proof {
            assert(out@ + spec_join_lines(lv.skip(i as int)) =~= spec_join_lines(lv));
        }
    }
    proof {
        assert(lv.skip(lv.len() as int) =~= Seq::<Seq<char>>::empty());
        assert(out@ =~= spec_join_lines(lv));
    }
    Some(string_from_chars(&out))
}

/// Checks the arena's well-formedness at run time.
pub fn check_wf(tree: &FmtTree) -> (r: bool)
    ensures
        r == tree.wf(),
{
    let n = tree.nodes.len();
    let mut i: usize = 0;
    while i < n
        invariant
            i <= n,
            n == tree.nodes@.len(),
            forall|a: int, k: int|
                0 <= a < i && 0 <= k < tree.nodes@[a].children@.len() ==> {
                    let c = #[trigger] tree.nodes@[a].children@[k];
                    &&& a < c < tree.nodes@.len()
                    &&& (k > 0 ==> tree.nodes@[a].children@[k - 1] < c)
                    &&& tree.nodes@[c as int].start_byte <= tree.nodes@[c as int].end_byte
                    &&& tree.nodes@[c as int].end_byte <= tree.nodes@[a].end_byte
                },
        decreases n - i,
    {
        let node = &tree.nodes[i];
        let m = node.children.len();
        let mut k: usize = 0;
        while k < m
            invariant
                i < n,
                n == tree.nodes@.len(),
                node == &tree.nodes@[i as int],
                m == node.children@.len(),
                k <= m,
                forall|q: int|
                    0 <= q < k ==> {
                        let c = #[trigger] node.children@[q];
                        &&& i < c < tree.nodes@.len()
                        &&& (q > 0 ==> node.children@[q - 1] < c)
                        &&& tree.nodes@[c as int].start_byte <= tree.nodes@[c as int].end_byte
                        &&& tree.nodes@[c as int].end_byte <= node.end_byte
                    },
            decreases m - k,
        {
            let c = node.children[k];
            if !(i < c && c < n) {
                return false;
            }
            if k > 0 && !(node.children[k - 1] < c) {
                return false;
            }
            let cn = &tree.nodes[c];
            if !(cn.start_byte <= cn.end_byte && cn.end_byte <= node.end_byte) {
                return false;
            }
            k += 1;
        }
        i += 1;
    }
    true
}


// ------------------------------------------------------------------
// The clean-buffer law: output lines hold no line break.
// ------------------------------------------------------------------

/// A line free of line feeds and carriage returns.
pub open spec fn line_clean(l: Seq<char>) -> bool {
    forall|j: int| 0 <= j < l.len() ==> (#[trigger] l[j]) != '\n' && l[j] != '\r'
}

/// Every line of the buffer is clean.
pub open spec fn lines_clean(lines: Seq<Seq<char>>) -> bool {
    forall|k: int| 0 <= k < lines.len() ==> line_clean(#[trigger] lines[k])
}

/// A text free of carriage returns.
pub open spec fn no_cr(s: Seq<char>) -> bool {
    forall|j: int| 0 <= j < s.len() ==> (#[trigger] s[j]) != '\r'
}

/// Normalization leaves no carriage return behind.
proof fn lemma_crlf_no_cr(s: Seq<char>)
    ensures
        no_cr(spec_crlf_to_lf(s)),
    decreases s.len(),
{
    if s.len() == 0 {
    } else if s[0] == '\r' && s.len() > 1 && s[1] == '\n' {
        lemma_crlf_no_cr(s.skip(2));
        let out = seq!['\n'] + spec_crlf_to_lf(s.skip(2));
        assert forall|j: int| 0 <= j < out.len() implies (#[trigger] out[j]) != '\r' by {
            if j > 0 {
                assert(out[j] == spec_crlf_to_lf(s.skip(2))[j - 1]);
            }
        }
        assert(spec_crlf_to_lf(s) == out);
    } else if s[0] == '\r' {
        lemma_crlf_no_cr(s.skip(1));
        let out = seq!['\n'] + spec_crlf_to_lf(s.skip(1));
        assert forall|j: int| 0 <= j < out.len() implies (#[trigger] out[j]) != '\r' by {
            if j > 0 {
                assert(out[j] == spec_crlf_to_lf(s.skip(1))[j - 1]);
            }
        }
        assert(spec_crlf_to_lf(s) == out);
    } else {
        lemma_crlf_no_cr(s.skip(1));
        let out = seq![s[0]] + spec_crlf_to_lf(s.skip(1));
        assert forall|j: int| 0 <= j < out.len() implies (#[trigger] out[j]) != '\r' by {
            if j > 0 {
                assert(out[j] == spec_crlf_to_lf(s.skip(1))[j - 1]);
            }
        }
        assert(spec_crlf_to_lf(s) == out);
    }
}

/// Trimming line feeds keeps a text free of carriage returns.
proof fn lemma_trim_no_cr(s: Seq<char>)
    requires
        no_cr(s),
    ensures
        no_cr(spec_trim_nl(s)),
{
    lemma_trim_front_no_cr(s);
    lemma_trim_back_no_cr(spec_trim_front(s));
}

proof fn lemma_trim_front_no_cr(s: Seq<char>)
    requires
        no_cr(s),
    ensures
        no_cr(spec_trim_front(s)),
    decreases s.len(),
{
    if s.len() > 0 && s[0] == '\n' {
        assert forall|j: int| 0 <= j < s.drop_first().len() implies (#[trigger] s.drop_first()[j])
            != '\r' by {
            assert(s.drop_first()[j] == s[j + 1]);
        }
        lemma_trim_front_no_cr(s.drop_first());
    }
}

proof fn lemma_trim_back_no_cr(s: Seq<char>)
    requires
        no_cr(s),
    ensures
        no_cr(spec_trim_back(s)),
    decreases s.len(),
{
    if s.len() > 0 && s[s.len() - 1] == '\n' {
        assert forall|j: int| 0 <= j < s.drop_last().len() implies (#[trigger] s.drop_last()[j])
            != '\r' by {
            assert(s.drop_last()[j] == s[j]);
        }
        lemma_trim_back_no_cr(s.drop_last());
    }
}

/// Splitting a text free of carriage returns yields clean segments.
proof fn lemma_split_clean(s: Seq<char>, collapse: bool)
    requires
        no_cr(s),
    ensures
        lines_clean(spec_split_nl(s, collapse)),
    decreases s.len(),
{
    lemma_split_nonempty(s, collapse);
    if s.len() == 0 {
        assert(line_clean(Seq::<char>::empty()));
        assert(lines_clean(seq![Seq::<char>::empty()]));
    } else {
        assert forall|j: int| 0 <= j < s.drop_first().len() implies (#[trigger] s.drop_first()[j])
            != '\r' by {
            assert(s.drop_first()[j] == s[j + 1]);
        }
        lemma_split_clean(s.drop_first(), collapse);
        let r = spec_split_nl(s.drop_first(), collapse);
        lemma_split_nonempty(s.drop_first(), collapse);
        if s[0] == '\n' {
            if collapse && s.len() > 1 && s[1] == '\n' {
            } else {
                let out = seq![Seq::<char>::empty()] + r;
                assert forall|k: int| 0 <= k < out.len() implies line_clean(#[trigger] out[k]) by {
                    if k > 0 {
                        assert(out[k] == r[k - 1]);
                        assert(line_clean(r[k - 1]));
                    } else {
                        assert(out[0] == Seq::<char>::empty());
                    }
                }
            }
        } else {
            let first = seq![s[0]] + r[0];
            assert(line_clean(r[0]));
            assert(line_clean(first)) by {
                assert forall|j: int| 0 <= j < first.len() implies (#[trigger] first[j]) != '\n'
                    && first[j] != '\r' by {
                    if j > 0 {
                        assert(first[j] == r[0][j - 1]);
                    } else {
                        assert(first[0] == s[0]);
                    }
                }
            }
            let out = r.update(0, first);
            assert forall|k: int| 0 <= k < out.len() implies line_clean(#[trigger] out[k]) by {
                if k != 0 {
                    assert(out[k] == r[k]);
                    assert(line_clean(r[k]));
                }
            }
        }
    }
}

/// Appending clean segments to a clean buffer keeps it clean.
proof fn lemma_append_clean(lines: Seq<Seq<char>>, app: Seq<Seq<char>>)
    requires
        lines.len() > 0,
        lines_clean(lines),
        lines_clean(app),
    ensures
        lines_clean(spec_append_lines(lines, app)),
{
    if app.len() > 0 {
        let joined = lines.last() + app[0];
        assert(line_clean(joined)) by {
            assert forall|j: int| 0 <= j < joined.len() implies (#[trigger] joined[j]) != '\n'
                && joined[j] != '\r' by {
                if j < lines.last().len() {
                    assert(joined[j] == lines.last()[j]);
                } else {
                    assert(joined[j] == app[0][j - lines.last().len()]);
                }
            }
        }
        let out = lines.update(lines.len() - 1, joined) + app.skip(1);
        assert forall|k: int| 0 <= k < out.len() implies line_clean(#[trigger] out[k]) by {
            if k < lines.len() {
                if k == lines.len() - 1 {
                    assert(out[k] == joined);
                } else {
                    assert(out[k] == lines[k]);
                }
            } else {
                assert(out[k] == app[k - lines.len() + 1]);
            }
        }
    }
}

/// An indent line is clean.
proof fn lemma_indent_clean(level: int)
    ensures
        line_clean(indent_chars(level)),
{
}

/// Extending the current line with one clean piece keeps the buffer clean.
proof fn lemma_extend_clean(lines: Seq<Seq<char>>, piece: Seq<char>)
    requires
        lines.len() > 0,
        lines_clean(lines),
        line_clean(piece),
    ensures
        lines_clean(lines.update(lines.len() - 1, lines.last() + piece)),
{
    let joined = lines.last() + piece;
    assert(line_clean(joined)) by {
        assert forall|j: int| 0 <= j < joined.len() implies (#[trigger] joined[j]) != '\n'
            && joined[j] != '\r' by {
            if j < lines.last().len() {
                assert(joined[j] == lines.last()[j]);
            } else {
                assert(joined[j] == piece[j - lines.last().len()]);
            }
        }
    }
    let out = lines.update(lines.len() - 1, joined);
    assert forall|k: int| 0 <= k < out.len() implies line_clean(#[trigger] out[k]) by {
        if k != lines.len() - 1 {
            assert(out[k] == lines[k]);
        }
    }
}

/// Pushing a clean line keeps the buffer clean.
proof fn lemma_push_clean(lines: Seq<Seq<char>>, l: Seq<char>)
    requires
        lines_clean(lines),
        line_clean(l),
    ensures
        lines_clean(lines + seq![l]),
{
    let out = lines + seq![l];
    assert forall|k: int| 0 <= k < out.len() implies line_clean(#[trigger] out[k]) by {
        if k < lines.len() {
            assert(out[k] == lines[k]);
        } else {
            assert(out[k] == l);
        }
    }
}

/// The append rules keep a clean buffer clean.
proof fn lemma_post_clean(lines: Seq<Seq<char>>, f: RuleFlags, an: bool)
    requires
        lines_clean(lines),
    ensures
        lines_clean(spec_fmt_post(lines, f, an).0),
{
    if lines.len() > 0 && !f.cancel_append && !f.append_newline && f.append_space {
        lemma_extend_clean(lines, seq![' ']);
    }
}

/// The clean segments a leaf text contributes.
proof fn lemma_leaf_pieces_clean(text: Seq<char>, collapse: bool)
    ensures
        lines_clean(spec_split_nl(spec_trim_nl(spec_crlf_to_lf(text)), collapse)),
{
    lemma_crlf_no_cr(text);
    lemma_trim_no_cr(spec_crlf_to_lf(text));
    lemma_split_clean(spec_trim_nl(spec_crlf_to_lf(text)), collapse);
}

/// Emission never shrinks the buffer: the result holds at least as many
/// lines as were handed in.
proof fn lemma_fmt_children_len(
    t: FmtTree,
    idx: int,
    j: int,
    lines: Seq<Seq<char>>,
    level: int,
    apply_newline: bool,
)
    ensures
        spec_fmt_children(t, idx, j, lines, level, apply_newline).len() >= lines.len(),
    decreases t.nodes@.len() - idx, t.nodes@[idx].children@.len() - j,
{
    if !t.wf() || !(0 <= idx < t.nodes@.len()) || !(0 <= j) || j >= t.nodes@[idx].children@.len()
        || lines.len() == 0 {
    } else {
        let node = t.nodes@[idx];
        let c = node.children@[j];
        if !(idx < c < t.nodes@.len()) {
        } else {
            let child = t.nodes@[c as int];
            let f = child.flags;
            let l1 = if apply_newline {
                lines + seq![indent_chars(level)]
            } else {
                lines
            };
            if f.ignore {
                let pieces = spec_split_nl(spec_trim_nl(spec_crlf_to_lf(child.text@)), false);
                let l2 = spec_append_lines(l1, pieces);
                assert(l2.len() >= l1.len());
                lemma_fmt_children_len(t, idx, j + 1, spec_fmt_post(l2, f, false).0, level, spec_fmt_post(l2, f, false).1);
            } else if f.remove {
                lemma_fmt_children_len(t, idx, j + 1, spec_fmt_post(l1, f, false).0, level, spec_fmt_post(l1, f, false).1);
            } else {
                let l_pre = if !f.cancel_prepend {
                    if f.prepend_newline {
                        l1 + seq![indent_chars(level)]
                    } else if f.prepend_space && !f.conditional_newline {
                        l1.update(l1.len() - 1, l1.last() + seq![' '])
                    } else if f.prepend_space && f.conditional_newline {
                        let width = child.end_byte - child.start_byte;
                        let broader = node.end_byte - child.start_byte;
                        let cur_len = l1.last().len();
                        if width + 1 + cur_len > TEXT_WIDTH || (f.lookahead_newline && broader
                            + cur_len > TEXT_WIDTH) {
                            l1 + seq![indent_chars(level)]
                        } else {
                            l1.update(l1.len() - 1, l1.last() + seq![' '])
                        }
                    } else {
                        l1
                    }
                } else {
                    l1
                };
                let l_body = if f.comment_fix {
                    l_pre.update(l_pre.len() - 1, l_pre.last() + spec_comment_piece(child.text@))
                } else if f.make_pound {
                    l_pre.update(l_pre.len() - 1, l_pre.last() + seq!['#'])
                } else if child.named_child_count == 0 || child.is_string {
                    spec_append_lines(
                        l_pre,
                        spec_split_nl(spec_trim_nl(spec_crlf_to_lf(child.text@)), true),
                    )
                } else {
                    spec_fmt_children(t, c as int, 0, l_pre, level, false)
                };
                assert(l_body.len() >= l_pre.len()) by {
                    if !f.comment_fix && !f.make_pound && !(child.named_child_count == 0
                        || child.is_string) {
                        lemma_fmt_children_len(t, c as int, 0, l_pre, level, false);
                    }
                }
                if f.indent_begin {
                    lemma_fmt_children_len(t, idx, j + 1, spec_fmt_post(l_body, f, true).0, level + 1, spec_fmt_post(l_body, f, true).1);
                } else if f.indent_dedent {
                    let last = l_body.last();
                    let cut = if 2 <= last.len() {
                        2int
                    } else {
                        last.len() as int
                    };
                    let l_ded = l_body.update(l_body.len() - 1, last.skip(cut));
                    lemma_fmt_children_len(t, idx, j + 1, spec_fmt_post(l_ded, f, false).0, level, spec_fmt_post(l_ded, f, false).1);
                } else {
                    lemma_fmt_children_len(t, idx, j + 1, spec_fmt_post(l_body, f, false).0, level, spec_fmt_post(l_body, f, false).1);
                }
            }
        }
    }
}

/// The formatter never puts a line break inside an output line: a clean
/// buffer stays clean through the whole emission, whatever the arena
/// holds.
pub proof fn lemma_format_lines_clean(
    t: FmtTree,
    idx: int,
    j: int,
    lines: Seq<Seq<char>>,
    level: int,
    apply_newline: bool,
)
    requires
        lines_clean(lines),
    ensures
        lines_clean(spec_fmt_children(t, idx, j, lines, level, apply_newline)),
    decreases t.nodes@.len() - idx, t.nodes@[idx].children@.len() - j,
{
    if !t.wf() || !(0 <= idx < t.nodes@.len()) || !(0 <= j) || j >= t.nodes@[idx].children@.len()
        || lines.len() == 0 {
    } else {
        let node = t.nodes@[idx];
        let c = node.children@[j];
        if !(idx < c < t.nodes@.len()) {
        } else {
            let child = t.nodes@[c as int];
            let f = child.flags;
            lemma_indent_clean(level);
            let l1 = if apply_newline {
                lines + seq![indent_chars(level)]
            } else {
                lines
            };
            if apply_newline {
                lemma_push_clean(lines, indent_chars(level));
            }
            assert(lines_clean(l1));
            if f.ignore {
                let pieces = spec_split_nl(spec_trim_nl(spec_crlf_to_lf(child.text@)), false);
                lemma_leaf_pieces_clean(child.text@, false);
                lemma_append_clean(l1, pieces);
                let l2 = spec_append_lines(l1, pieces);
                lemma_post_clean(l2, f, false);
                lemma_format_lines_clean(t, idx, j + 1, spec_fmt_post(l2, f, false).0, level, spec_fmt_post(l2, f, false).1);
            } else if f.remove {
                lemma_post_clean(l1, f, false);
                lemma_format_lines_clean(t, idx, j + 1, spec_fmt_post(l1, f, false).0, level, spec_fmt_post(l1, f, false).1);
            } else {
                let l_pre = if !f.cancel_prepend {
                    if f.prepend_newline {
                        l1 + seq![indent_chars(level)]
                    } else if f.prepend_space && !f.conditional_newline {
                        l1.update(l1.len() - 1, l1.last() + seq![' '])
                    } else if f.prepend_space && f.conditional_newline {
                        let width = child.end_byte - child.start_byte;
                        let broader = node.end_byte - child.start_byte;
                        let cur_len = l1.last().len();
                        if width + 1 + cur_len > TEXT_WIDTH || (f.lookahead_newline && broader
                            + cur_len > TEXT_WIDTH) {
                            l1 + seq![indent_chars(level)]
                        } else {
                            l1.update(l1.len() - 1, l1.last() + seq![' '])
                        }
                    } else {
                        l1
                    }
                } else {
                    l1
                };
                assert(lines_clean(l_pre)) by {
                    lemma_push_clean(l1, indent_chars(level));
                    lemma_extend_clean(l1, seq![' ']);
                }
                assert(l_pre.len() > 0);
                let l_body = if f.comment_fix {
                    l_pre.update(l_pre.len() - 1, l_pre.last() + spec_comment_piece(child.text@))
                } else if f.make_pound {
                    l_pre.update(l_pre.len() - 1, l_pre.last() + seq!['#'])
                } else if child.named_child_count == 0 || child.is_string {
                    spec_append_lines(
                        l_pre,
                        spec_split_nl(spec_trim_nl(spec_crlf_to_lf(child.text@)), true),
                    )
                } else {
                    spec_fmt_children(t, c as int, 0, l_pre, level, false)
                };
                assert(lines_clean(l_body)) by {
                    if f.comment_fix {
                        assert(line_clean(spec_comment_piece(child.text@))) by {
                            let piece = spec_comment_piece(child.text@);
                            let body = spec_trim_ws_back(spec_strip_semis(child.text@));
                            if child.text@.len() > 0 && child.text@[0] == ';' && !has_line_break(
                                body,
                            ) {
                                assert forall|q: int| 0 <= q < piece.len() implies (#[trigger] piece[q])
                                    != '\n' && piece[q] != '\r' by {
                                    if q > 0 {
                                        assert(piece[q] == body[q - 1]);
                                        assert(!(body[q - 1] == '\n' || body[q - 1] == '\r'));
                                    }
                                }
                            }
                        }
                        lemma_extend_clean(l_pre, spec_comment_piece(child.text@));
                    } else if f.make_pound {
                        lemma_extend_clean(l_pre, seq!['#']);
                    } else if child.named_child_count == 0 || child.is_string {
                        lemma_leaf_pieces_clean(child.text@, true);
                        lemma_append_clean(
                            l_pre,
                            spec_split_nl(spec_trim_nl(spec_crlf_to_lf(child.text@)), true),
                        );
                    } else {
                        lemma_format_lines_clean(t, c as int, 0, l_pre, level, false);
                    }
                }
                assert(l_body.len() > 0) by {
                    if !f.comment_fix && !f.make_pound && !(child.named_child_count == 0
                        || child.is_string) {
                        lemma_fmt_children_len(t, c as int, 0, l_pre, level, false);
                    }
                }
                if f.indent_begin {
                    lemma_post_clean(l_body, f, true);
                    lemma_format_lines_clean(t, idx, j + 1, spec_fmt_post(l_body, f, true).0, level + 1, spec_fmt_post(l_body, f, true).1);
                } else if f.indent_dedent {
                    let last = l_body.last();
                    let cut = if 2 <= last.len() {
                        2int
                    } else {
                        last.len() as int
                    };
                    let l_ded = l_body.update(l_body.len() - 1, last.skip(cut));
                    assert(lines_clean(l_ded)) by {
                        if l_body.len() > 0 {
                            assert(line_clean(last));
                            assert(line_clean(last.skip(cut))) by {
                                assert forall|q: int| 0 <= q < last.skip(cut).len() implies (
                                #[trigger] last.skip(cut)[q]) != '\n' && last.skip(cut)[q] != '\r' by {
                                    assert(last.skip(cut)[q] == last[q + cut]);
                                }
                            }
                            assert forall|k: int| 0 <= k < l_ded.len() implies line_clean(
                                #[trigger] l_ded[k],
                            ) by {
                                if k != l_body.len() - 1 {
                                    assert(l_ded[k] == l_body[k]);
                                }
                            }
                        }
                    }
                    lemma_post_clean(l_ded, f, false);
                    lemma_format_lines_clean(t, idx, j + 1, spec_fmt_post(l_ded, f, false).0, level, spec_fmt_post(l_ded, f, false).1);
                } else {
                    lemma_post_clean(l_body, f, false);
                    lemma_format_lines_clean(t, idx, j + 1, spec_fmt_post(l_body, f, false).0, level, spec_fmt_post(l_body, f, false).1);
                }
            }
        }
    }
}

} // verus!

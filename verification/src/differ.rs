//! Translation of a chunked diff into an edit script, with the proof that
//! applying the script to the source text yields the target text.

use vstd::prelude::*;

use crate::position::{byte_offset_to_lsp_position, byte_to_character_spec, byte_to_line_spec};
use crate::rope::rope_chars;
use crate::text::{
    byte_of_char, lemma_cum_bounds, lemma_cum_mono, lemma_cum_prefix, lemma_cum_subrange,
    lemma_total_bytes_encode, lemma_weights_positive, total_bytes, w8,
};
use crate::types::{Position, Range, TextEdit};
use vstd::string::StringSliceAdditionalSpecFns;

verus! {

broadcast use vstd::slice::axiom_spec_len;

/// One piece of a diff between two texts.
#[derive(Clone, Debug, PartialEq, Eq)]
pub enum DiffChunk {
    /// Text common to both sides.
    Equal(String),
    /// Text present only in the source.
    Delete(String),
    /// Text present only in the target.
    Insert(String),
}

/// The part of a chunk that belongs to the source text.
pub open spec fn chunk_source(c: DiffChunk) -> Seq<char> {
    match c {
        DiffChunk::Equal(t) => t@,
        DiffChunk::Delete(t) => t@,
        DiffChunk::Insert(_) => Seq::empty(),
    }
}

/// The part of a chunk that belongs to the target text.
pub open spec fn chunk_target(c: DiffChunk) -> Seq<char> {
    match c {
        DiffChunk::Equal(t) => t@,
        DiffChunk::Delete(_) => Seq::empty(),
        DiffChunk::Insert(t) => t@,
    }
}

/// Concatenation of the source parts of a chunk list.
pub open spec fn source_concat(cs: Seq<DiffChunk>) -> Seq<char>
    decreases cs.len(),
{
    if cs.len() == 0 {
        Seq::empty()
    } else {
        chunk_source(cs[0]) + source_concat(cs.drop_first())
    }
}

/// Concatenation of the target parts of a chunk list.
pub open spec fn target_concat(cs: Seq<DiffChunk>) -> Seq<char>
    decreases cs.len(),
{
    if cs.len() == 0 {
        Seq::empty()
    } else {
        chunk_target(cs[0]) + target_concat(cs.drop_first())
    }
}

/// Relies on `dissimilar::diff`: the chunks partition the source text
/// (equal and delete parts, in order) and the target text (equal and
/// insert parts, in order).  Equal inputs share a common prefix covering
/// both whole texts, so every chunk of their diff is an equal chunk.
#[verifier::external_body]
fn dissimilar_diff(left: &str, right: &str) -> (r: Vec<DiffChunk>)
    ensures
        source_concat(r@) == left@,
        target_concat(r@) == right@,
        left@ == right@ ==> forall|i: int| 0 <= i < r@.len() ==> (#[trigger] r@[i]) is Equal,
{
    dissimilar::diff(left, right)
        .into_iter()
        .map(
            |c|
                match c {
                    dissimilar::Chunk::Equal(t) => DiffChunk::Equal(t.to_owned()),
                    dissimilar::Chunk::Delete(t) => DiffChunk::Delete(t.to_owned()),
                    dissimilar::Chunk::Insert(t) => DiffChunk::Insert(t.to_owned()),
                },
        )
        .collect()
}

/// One range replacement on the source text, with the range given both in
/// characters and in bytes.
#[derive(Clone, Debug, PartialEq, Eq)]
pub struct SpliceEdit {
    pub start_char: usize,
    pub end_char: usize,
    pub start_byte: usize,
    pub end_byte: usize,
    pub new_text: String,
}

/// Mathematical image of one splice edit.
pub struct SpliceView {
    pub start_char: int,
    pub end_char: int,
    pub start_byte: int,
    pub end_byte: int,
    pub text: Seq<char>,
}

impl View for SpliceEdit {
    type V = SpliceView;

    open spec fn view(&self) -> SpliceView {
        SpliceView {
            start_char: self.start_char as int,
            end_char: self.end_char as int,
            start_byte: self.start_byte as int,
            end_byte: self.end_byte as int,
            text: self.new_text@,
        }
    }
}

/// The edit script a chunk list gives rise to, walking the source from
/// character offset `co` and byte offset `bo`: an equal chunk yields no
/// edit and advances the cursor; a delete fuses with an immediately
/// following insert into one range replacement; a lone delete replaces
/// with nothing; a lone insert replaces an empty range.
pub open spec fn fused_edits(cs: Seq<DiffChunk>, i: int, co: int, bo: int) -> Seq<SpliceView>
    decreases cs.len() - i,
{
    if i < 0 || i >= cs.len() {
        Seq::empty()
    } else {
        match cs[i] {
            DiffChunk::Equal(t) => fused_edits(cs, i + 1, co + t@.len(), bo + total_bytes(t@)),
            DiffChunk::Delete(d) => {
                let nco = co + d@.len();
                let nbo = bo + total_bytes(d@);
                let fused = i + 1 < cs.len() && cs[i + 1] is Insert;
                let txt = if fused {
                    chunk_target(cs[i + 1])
                } else {
                    Seq::<char>::empty()
                };
                seq![
                    SpliceView {
                        start_char: co,
                        end_char: nco,
                        start_byte: bo,
                        end_byte: nbo,
                        text: txt,
                    },
                ] + fused_edits(
                    cs,
                    if fused {
                        i + 2
                    } else {
                        i + 1
                    },
                    nco,
                    nbo,
                )
            },
            DiffChunk::Insert(t) => seq![
                SpliceView {
                    start_char: co,
                    end_char: co,
                    start_byte: bo,
                    end_byte: bo,
                    text: t@,
                },
            ] + fused_edits(cs, i + 1, co, bo),
        }
    }
}

/// A chunk list of equal parts alone yields no edit.
proof fn lemma_all_equal_no_edits(cs: Seq<DiffChunk>, i: int, co: int, bo: int)
    requires
        forall|j: int| 0 <= j < cs.len() ==> (#[trigger] cs[j]) is Equal,
    ensures
        fused_edits(cs, i, co, bo) == Seq::<SpliceView>::empty(),
    decreases cs.len() - i,
{
    if 0 <= i < cs.len() {
        assert(cs[i] is Equal);
        let t = cs[i]->Equal_0;
        lemma_all_equal_no_edits(cs, i + 1, co + t@.len(), bo + total_bytes(t@));
    }
}

/// The edits lie in order inside `s`, from `from` onward, and each byte
/// offset is the byte form of its character offset.
pub open spec fn splice_chain(es: Seq<SpliceEdit>, s: Seq<char>, from: int) -> bool
    decreases es.len(),
{
    if es.len() == 0 {
        true
    } else {
        &&& from <= es[0].start_char <= es[0].end_char <= s.len()
        &&& es[0].start_byte == byte_of_char(s, es[0].start_char as int)
        &&& es[0].end_byte == byte_of_char(s, es[0].end_char as int)
        &&& splice_chain(es.drop_first(), s, es[0].end_char as int)
    }
}

/// Where the last edit of the chain ends (or `from`, for an empty chain).
pub open spec fn chain_end(es: Seq<SpliceEdit>, from: int) -> int
    decreases es.len(),
{
    if es.len() == 0 {
        from
    } else {
        chain_end(es.drop_first(), es[0].end_char as int)
    }
}

/// The text the edits produce out of `s[from..]`, up to the end of the
/// last edit; the untouched tail is not included.
pub open spec fn apply_prefix(s: Seq<char>, es: Seq<SpliceEdit>, from: int) -> Seq<char>
    decreases es.len(),
{
    if es.len() == 0 {
        Seq::empty()
    } else {
        s.subrange(from, es[0].start_char as int) + es[0].new_text@ + apply_prefix(
            s,
            es.drop_first(),
            es[0].end_char as int,
        )
    }
}

/// The text the edits produce out of `s[from..]`: replaced ranges give way
/// to their new text, everything else stays.
pub open spec fn apply_splices(s: Seq<char>, es: Seq<SpliceEdit>, from: int) -> Seq<char> {
    apply_prefix(s, es, from) + s.subrange(chain_end(es, from), s.len() as int)
}

/// Equal prefixes cancel in a sequence concatenation.
proof fn lemma_concat_cancel(p: Seq<char>, x: Seq<char>, y: Seq<char>)
    requires
        p + x == p + y,
    ensures
        x == y,
{
    assert((p + x).len() == p.len() + x.len());
    assert((p + y).len() == p.len() + y.len());
    assert(x.len() == y.len());
    assert forall|j: int| 0 <= j < x.len() implies x[j] == y[j] by {
        assert((p + x)[p.len() + j] == x[j]);
        assert((p + y)[p.len() + j] == y[j]);
    }
    assert(x =~= y);
}

/// The chain end never runs backwards, and stays within the text.
proof fn lemma_chain_end_bounds(es: Seq<SpliceEdit>, s: Seq<char>, from: int)
    requires
        splice_chain(es, s, from),
        0 <= from <= s.len(),
    ensures
        from <= chain_end(es, from) <= s.len(),
    decreases es.len(),
{
    if es.len() > 0 {
        lemma_chain_end_bounds(es.drop_first(), s, es[0].end_char as int);
    }
}

/// Appending an edit extends the chain and the produced prefix in the
/// expected way.
proof fn lemma_apply_push(s: Seq<char>, es: Seq<SpliceEdit>, e: SpliceEdit, from: int)
    requires
        splice_chain(es, s, from),
        0 <= from <= s.len(),
        chain_end(es, from) <= e.start_char as int,
        e.start_char <= e.end_char <= s.len(),
        e.start_byte == byte_of_char(s, e.start_char as int),
        e.end_byte == byte_of_char(s, e.end_char as int),
    ensures
        splice_chain(es.push(e), s, from),
        chain_end(es.push(e), from) == e.end_char as int,
        apply_prefix(s, es.push(e), from) == apply_prefix(s, es, from) + s.subrange(
            chain_end(es, from),
            e.start_char as int,
        ) + e.new_text@,
    decreases es.len(),
{
    let p = es.push(e);
    lemma_chain_end_bounds(es, s, from);
    if es.len() == 0 {
        assert(p.len() == 1);
        assert(p[0] == e);
        assert(p.drop_first() =~= Seq::<SpliceEdit>::empty());
        assert(splice_chain(p.drop_first(), s, e.end_char as int));
        assert(chain_end(p.drop_first(), e.end_char as int) == e.end_char as int);
        assert(apply_prefix(s, p.drop_first(), e.end_char as int) == Seq::<char>::empty());
        assert(apply_prefix(s, p, from) == s.subrange(from, p[0].start_char as int)
            + p[0].new_text@ + apply_prefix(s, p.drop_first(), p[0].end_char as int));
        assert(apply_prefix(s, es, from) == Seq::<char>::empty());
        assert(apply_prefix(s, p, from) =~= apply_prefix(s, es, from) + s.subrange(
            from,
            e.start_char as int,
        ) + e.new_text@);
    } else {
        assert(p[0] == es[0]);
        assert(p.drop_first() =~= es.drop_first().push(e));
        lemma_apply_push(s, es.drop_first(), e, es[0].end_char as int);
        assert(splice_chain(p.drop_first(), s, es[0].end_char as int));
        assert(chain_end(p, from) == chain_end(p.drop_first(), p[0].end_char as int));
        assert(apply_prefix(s, p, from) == s.subrange(from, es[0].start_char as int)
            + es[0].new_text@ + apply_prefix(s, p.drop_first(), es[0].end_char as int));
        assert(apply_prefix(s, p, from) =~= apply_prefix(s, es, from) + s.subrange(
            chain_end(es, from),
            e.start_char as int,
        ) + e.new_text@);
    }
}

/// Builds the edit script for a chunked diff.  The chunks must partition
/// `left` on their source side; the script then rewrites `left` into the
/// text the chunks carry on their target side.
fn chunks_to_edits(left: &str, chunks: &Vec<DiffChunk>) -> (es: Vec<SpliceEdit>)
    requires
        source_concat(chunks@) == left@,
    ensures
        splice_chain(es@, left@, 0),
        apply_splices(left@, es@, 0) == target_concat(chunks@),
        es@.map_values(|e: SpliceEdit| e@) == fused_edits(chunks@, 0, 0, 0),
{
    let ghost s = left@;
    proof {
        lemma_weights_positive();
        lemma_total_bytes_encode(s);
    }
    let left_chars = left.unicode_len();
    let left_byte_slice = left.as_bytes();
    let left_bytes = left_byte_slice.len();
    let mut es: Vec<SpliceEdit> = Vec::new();
    let mut i: usize = 0;
    let mut char_off: usize = 0;
    let mut byte_off: usize = 0;
    let ghost mut produced: Seq<char> = Seq::empty();
    proof {
        assert(chunks@.skip(0) =~= chunks@);
        assert(s.subrange(0, 0) =~= Seq::<char>::empty());
        assert(apply_prefix(s, es@, 0) + s.subrange(chain_end(es@, 0), 0) =~= produced);
        assert(es@.map_values(|e: SpliceEdit| e@) + fused_edits(chunks@, 0, 0, 0) =~= fused_edits(
            chunks@,
            0,
            0,
            0,
        ));
    }
    while i < chunks.len()
        invariant
            source_concat(chunks@) == s,
            left_chars == s.len(),
            left_bytes == total_bytes(s),
            i <= chunks@.len(),
            char_off <= s.len(),
            byte_off == byte_of_char(s, char_off as int),
            splice_chain(es@, s, 0),
            0 <= chain_end(es@, 0) <= char_off,
            apply_prefix(s, es@, 0) + s.subrange(chain_end(es@, 0), char_off as int) == produced,
            produced + target_concat(chunks@.skip(i as int)) == target_concat(chunks@),
            source_concat(chunks@.skip(i as int)) == s.subrange(char_off as int, s.len() as int),
            es@.map_values(|e: SpliceEdit| e@) + fused_edits(
                chunks@,
                i as int,
                char_off as int,
                byte_off as int,
            ) == fused_edits(chunks@, 0, 0, 0),
        decreases chunks@.len() - i,
    {
        let ghost rest = chunks@.skip(i as int);
        proof {
            assert(rest[0] == chunks@[i as int]);
            assert(rest.drop_first() =~= chunks@.skip(i as int + 1));
        }
        match &chunks[i] {
            DiffChunk::Equal(t) => {
                let k = t.as_str().unicode_len();
                let tb = t.as_str().as_bytes().len();
                proof {
                    lemma_total_bytes_encode(t@);
                    // the remaining source starts with t
                    assert(chunk_source(rest[0]) == t@);
                    assert(s.subrange(char_off as int, s.len() as int) == t@ + source_concat(
                        chunks@.skip(i as int + 1),
                    ));
                    assert((t@ + source_concat(chunks@.skip(i as int + 1))).len() == t@.len()
                        + source_concat(chunks@.skip(i as int + 1)).len());
                    assert(t@.len() <= s.len() - char_off);
                    assert(s.subrange(char_off as int, char_off + k) =~= t@) by {
                        assert forall|j: int| 0 <= j < k implies s.subrange(
                            char_off as int,
                            s.len() as int,
                        )[j] == t@[j] by {}
                    }
                    lemma_cum_subrange(w8(), s, char_off as int, k as int);
                    lemma_cum_prefix(w8(), s.subrange(char_off as int, char_off + k), t@, k as int);
                    lemma_cum_bounds(w8(), s, char_off + k);
                }
                let new_char_off = char_off + k;
                let new_byte_off = byte_off + tb;
                proof {
                    produced = produced + t@;
                    assert(s.subrange(char_off as int, s.len() as int) =~= t@ + s.subrange(
                        new_char_off as int,
                        s.len() as int,
                    ));
                    lemma_concat_cancel(
                        t@,
                        source_concat(chunks@.skip(i as int + 1)),
                        s.subrange(new_char_off as int, s.len() as int),
                    );
                    lemma_chain_end_bounds(es@, s, 0);
                    assert(s.subrange(chain_end(es@, 0), new_char_off as int) =~= s.subrange(
                        chain_end(es@, 0),
                        char_off as int,
                    ) + s.subrange(char_off as int, new_char_off as int));
                    assert(apply_prefix(s, es@, 0) + s.subrange(
                        chain_end(es@, 0),
                        new_char_off as int,
                    ) =~= produced);
                    assert(target_concat(rest) == chunk_target(rest[0]) + target_concat(
                        chunks@.skip(i as int + 1),
                    ));
                    assert(produced + target_concat(chunks@.skip(i as int + 1)) =~= target_concat(
                        chunks@,
                    ));
                }
                char_off = new_char_off;
                byte_off = new_byte_off;
                i += 1;
                proof {
                    assert(es@.map_values(|e: SpliceEdit| e@) + fused_edits(
                        chunks@,
                        i as int,
                        char_off as int,
                        byte_off as int,
                    ) == fused_edits(chunks@, 0, 0, 0));
                }
            },
            DiffChunk::Delete(d) => {
                let k = d.as_str().unicode_len();
                let db = d.as_str().as_bytes().len();
                proof {
                    lemma_total_bytes_encode(d@);
                    assert(chunk_source(rest[0]) == d@);
                    assert(chunk_target(rest[0]) == Seq::<char>::empty());
                    assert(s.subrange(char_off as int, s.len() as int) == d@ + source_concat(
                        chunks@.skip(i as int + 1),
                    ));
                    assert((d@ + source_concat(chunks@.skip(i as int + 1))).len() == d@.len()
                        + source_concat(chunks@.skip(i as int + 1)).len());
                    assert(d@.len() <= s.len() - char_off);
                    assert(s.subrange(char_off as int, char_off + k) =~= d@) by {
                        assert forall|j: int| 0 <= j < k implies s.subrange(
                            char_off as int,
                            s.len() as int,
                        )[j] == d@[j] by {}
                    }
                    lemma_cum_subrange(w8(), s, char_off as int, k as int);
                    lemma_cum_prefix(w8(), s.subrange(char_off as int, char_off + k), d@, k as int);
                    lemma_cum_bounds(w8(), s, char_off + k);
                }
                let new_char_off = char_off + k;
                let new_byte_off = byte_off + db;
                proof {
                    assert(s.subrange(char_off as int, s.len() as int) =~= d@ + s.subrange(
                        new_char_off as int,
                        s.len() as int,
                    ));
                    lemma_concat_cancel(
                        d@,
                        source_concat(chunks@.skip(i as int + 1)),
                        s.subrange(new_char_off as int, s.len() as int),
                    );
                }
                // a following insert fuses with the delete into one replace
                let ins: String = if i + 1 < chunks.len() {
                    match &chunks[i + 1] {
                        DiffChunk::Insert(t) => t.clone(),
                        _ => String::new(),
                    }
                } else {
                    String::new()
                };
                let fused: bool = if i + 1 < chunks.len() {
                    matches!(&chunks[i + 1], DiffChunk::Insert(_))
                } else {
                    false
                };
                let e = SpliceEdit {
                    start_char: char_off,
                    end_char: new_char_off,
                    start_byte: byte_off,
                    end_byte: new_byte_off,
                    new_text: ins,
                };
                proof {
                    lemma_apply_push(s, es@, e, 0);
                }
                let ghost es_map0 = es@.map_values(|x: SpliceEdit| x@);
                es.push(e);
                proof {
                    assert(es@.map_values(|x: SpliceEdit| x@) =~~= es_map0.push(e@));
                }
                proof {
                    produced = produced + e.new_text@;
                    assert(s.subrange(new_char_off as int, new_char_off as int)
                        =~= Seq::<char>::empty());
                    assert(apply_prefix(s, es@, 0) + s.subrange(
                        chain_end(es@, 0),
                        new_char_off as int,
                    ) =~= produced);
                }
                char_off = new_char_off;
                byte_off = new_byte_off;
                if fused {
                    proof {
                        let rest2 = chunks@.skip(i as int + 1);
                        assert(rest2[0] == chunks@[i as int + 1]);
                        assert(rest2.drop_first() =~= chunks@.skip(i as int + 2));
                        assert(chunk_source(rest2[0]) == Seq::<char>::empty());
                        assert(source_concat(rest2) == chunk_source(rest2[0]) + source_concat(
                            rest2.drop_first(),
                        ));
                        assert(source_concat(chunks@.skip(i as int + 2)) =~= s.subrange(
                            char_off as int,
                            s.len() as int,
                        ));
                        assert(target_concat(rest) == target_concat(rest2));
                        assert(target_concat(rest2) == e.new_text@ + target_concat(
                            chunks@.skip(i as int + 2),
                        ));
                        assert(produced + target_concat(chunks@.skip(i as int + 2))
                            =~= target_concat(chunks@));
                    }
                    i += 2;
                } else {
                    proof {
                        assert(e.new_text@ =~= Seq::<char>::empty());
                        assert(produced + target_concat(chunks@.skip(i as int + 1)) =~= target_concat(
                            chunks@,
                        ));
                    }
                    i += 1;
                }
                proof {
                    assert(es@.map_values(|x: SpliceEdit| x@) + fused_edits(
                        chunks@,
                        i as int,
                        char_off as int,
                        byte_off as int,
                    ) =~~= fused_edits(chunks@, 0, 0, 0));
                }
            },
            DiffChunk::Insert(t) => {
                let e = SpliceEdit {
                    start_char: char_off,
                    end_char: char_off,
                    start_byte: byte_off,
                    end_byte: byte_off,
                    new_text: t.clone(),
                };
                proof {
                    lemma_chain_end_bounds(es@, s, 0);
                    lemma_apply_push(s, es@, e, 0);
                }
                let ghost es_map0 = es@.map_values(|x: SpliceEdit| x@);
                es.push(e);
                proof {
                    assert(es@.map_values(|x: SpliceEdit| x@) =~~= es_map0.push(e@));
                    produced = produced + t@;
                    assert(chunk_source(rest[0]) == Seq::<char>::empty());
                    assert(chunk_target(rest[0]) == t@);
                    assert(s.subrange(char_off as int, char_off as int) =~= Seq::<char>::empty());
                    assert(apply_prefix(s, es@, 0) + s.subrange(chain_end(es@, 0), char_off as int)
                        =~= produced);
                    assert(produced + target_concat(chunks@.skip(i as int + 1)) =~= target_concat(
                        chunks@,
                    ));
                    assert(source_concat(chunks@.skip(i as int + 1)) =~= s.subrange(
                        char_off as int,
                        s.len() as int,
                    )) by {
                        assert(source_concat(rest) == chunk_source(rest[0]) + source_concat(
                            rest.drop_first(),
                        ));
                    }
                }
                i += 1;
                proof {
                    assert(es@.map_values(|x: SpliceEdit| x@) + fused_edits(
                        chunks@,
                        i as int,
                        char_off as int,
                        byte_off as int,
                    ) =~~= fused_edits(chunks@, 0, 0, 0));
                }
            },
        }
    }
    proof {
        assert(chunks@.skip(chunks@.len() as int) =~= Seq::<DiffChunk>::empty());
        // the source side is exhausted, so the cursor reached the text end
        assert(s.subrange(char_off as int, s.len() as int) =~= Seq::<char>::empty());
        assert(char_off == s.len());
        assert(produced =~= target_concat(chunks@));
        assert(apply_splices(s, es@, 0) == produced);
        assert(es@.map_values(|e: SpliceEdit| e@) + fused_edits(
            chunks@,
            chunks@.len() as int,
            char_off as int,
            byte_off as int,
        ) =~~= es@.map_values(|e: SpliceEdit| e@));
    }
    es
}

/// The minimal edit script between two texts, as range replacements on the
/// source.  Applying the script (in order, ranges addressed on the source)
/// rewrites `left` into `right`; the script is the chunk fusion of some
/// chunking of the two texts (equal chunks yield no edit, a delete and the
/// insert right after it fuse into one replacement), and equal texts yield
/// no edit at all.
pub fn diff_splices(left: &str, right: &str) -> (es: Vec<SpliceEdit>)
    ensures
        splice_chain(es@, left@, 0),
        apply_splices(left@, es@, 0) == right@,
        exists|cs: Seq<DiffChunk>|
            source_concat(cs) == left@ && target_concat(cs) == right@ && es@.map_values(
                |e: SpliceEdit| e@,
            ) == fused_edits(cs, 0, 0, 0),
        left@ == right@ ==> es@.len() == 0,
{
    let chunks = dissimilar_diff(left, right);
    let es = chunks_to_edits(left, &chunks);
    proof {
        assert(source_concat(chunks@) == left@ && target_concat(chunks@) == right@
            && es@.map_values(|e: SpliceEdit| e@) == fused_edits(chunks@, 0, 0, 0));
        if left@ == right@ {
            lemma_all_equal_no_edits(chunks@, 0, 0, 0);
            assert(es@.map_values(|e: SpliceEdit| e@).len() == 0);
        }
    }
    es
}

/// The edit list matches the splice script: same replacement texts, and
/// each range is the LSP form of the splice's byte range on the source.
pub open spec fn edits_match_splices(
    edits: Seq<TextEdit>,
    es: Seq<SpliceEdit>,
    s: Seq<char>,
) -> bool {
    &&& edits.len() == es.len()
    &&& forall|i: int|
        0 <= i < es.len() ==> {
            &&& (#[trigger] edits[i]).new_text@ == es[i].new_text@
            &&& edits[i].range.start.line == byte_to_line_spec(s, es[i].start_byte as int)
            &&& edits[i].range.start.character == byte_to_character_spec(s, es[i].start_byte as int)
            &&& edits[i].range.end.line == byte_to_line_spec(s, es[i].end_byte as int)
            &&& edits[i].range.end.character == byte_to_character_spec(s, es[i].end_byte as int)
        }
}

/// Splice byte offsets stay within the text.
proof fn lemma_chain_bytes_in_range(es: Seq<SpliceEdit>, s: Seq<char>, from: int)
    requires
        splice_chain(es, s, from),
        0 <= from <= s.len(),
    ensures
        forall|i: int|
            0 <= i < es.len() ==> (#[trigger] es[i]).start_byte <= total_bytes(s)
                && es[i].end_byte <= total_bytes(s),
    decreases es.len(),
{
    lemma_weights_positive();
    if es.len() > 0 {
        lemma_cum_mono(w8(), s, es[0].start_char as int, s.len() as int);
        lemma_cum_mono(w8(), s, es[0].end_char as int, s.len() as int);
        lemma_chain_bytes_in_range(es.drop_first(), s, es[0].end_char as int);
        assert forall|i: int| 0 <= i < es.len() implies (#[trigger] es[i]).start_byte
            <= total_bytes(s) && es[i].end_byte <= total_bytes(s) by {
            if i > 0 {
                assert(es.drop_first()[i - 1] == es[i]);
            }
        }
    }
}

/// The minimal edit script between two texts, in LSP positions over the
/// source rope.  The ranges and texts are those of `diff_splices`, whose
/// script rewrites `left` into `right`.
pub fn diff(left: &str, right: &str, rope: &ropey::Rope) -> (edits: Vec<TextEdit>)
    requires
        rope_chars(*rope) == left@,
    ensures
        exists|es: Seq<SpliceEdit>|
            splice_chain(es, left@, 0) && apply_splices(left@, es, 0) == right@
                && edits_match_splices(edits@, es, left@) && (exists|cs: Seq<DiffChunk>|
                source_concat(cs) == left@ && target_concat(cs) == right@ && es.map_values(
                    |e: SpliceEdit| e@,
                ) == fused_edits(cs, 0, 0, 0)),
        left@ == right@ ==> edits@.len() == 0,
{
    let ghost s = left@;
    let es = diff_splices(left, right);
    proof {
        lemma_chain_bytes_in_range(es@, s, 0);
    }
    let mut edits: Vec<TextEdit> = Vec::new();
    let mut i: usize = 0;
    while i < es.len()
        invariant
            rope_chars(*rope) == s,
            splice_chain(es@, s, 0),
            forall|j: int|
                0 <= j < es@.len() ==> (#[trigger] es@[j]).start_byte <= total_bytes(s)
                    && es@[j].end_byte <= total_bytes(s),
            i <= es@.len(),
            edits_match_splices(edits@, es@.subrange(0, i as int), s),
        decreases es@.len() - i,
    {
        let e = &es[i];
        let start = match byte_offset_to_lsp_position(e.start_byte, rope) {
            Ok(p) => p,
            Err(_) => {
                proof {
                    assert(false);
                }
                Position { line: 0, character: 0 }
            },
        };
        let end = match byte_offset_to_lsp_position(e.end_byte, rope) {
            Ok(p) => p,
            Err(_) => {
                proof {
                    assert(false);
                }
                Position { line: 0, character: 0 }
            },
        };
        edits.push(TextEdit { range: Range { start, end }, new_text: e.new_text.clone() });
        i += 1;
        proof {
            assert(edits_match_splices(edits@, es@.subrange(0, i as int), s));
        }
    }
    proof {
        assert(es@.subrange(0, es@.len() as int) =~= es@);
    }
    edits
}

} // verus!

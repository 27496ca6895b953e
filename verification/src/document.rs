//! The document store: a concurrent map from URI to (rope, parse tree),
//! with the incremental edit pipeline.  The rope and the text the tree
//! parses stay byte-identical at every observable point.

use vstd::prelude::*;

use crate::position::{
    byte_offset_to_lsp_position, byte_offset_to_ts_point, byte_to_column_spec, byte_to_line_spec,
    lsp_in_range, lsp_position_to_byte_offset, lsp_to_byte_spec,
};
use crate::rope::{
    rope_chars, rope_from_str, rope_insert, rope_len_bytes, rope_len_lines, rope_remove,
    rope_to_string, rope_try_byte_to_char,
};
use crate::text::{
    char_of_byte, lemma_idx_at_bounds, lemma_idx_at_mono, lemma_weights_positive, newline_count,
    total_bytes, w8,
};
use crate::tstree::{parse_document, tree_edit, tree_source, InputEditRec};
use crate::types::{Position, PositionError, Range};

verus! {

/// One textual change: a range replacement, or a whole-document reset
/// when no range is given.
#[derive(Clone, Debug)]
pub struct DocChange {
    pub range: Option<Range>,
    pub text: String,
}

/// A document: its text as a rope, and the tree parsed from that text.
pub struct Document {
    pub rope: ropey::Rope,
    pub tree: tree_sitter::Tree,
}

/// Mathematical image of a document: the text it holds and the text its
/// tree was parsed from.
pub struct DocView {
    pub text: Seq<char>,
    pub tree_text: Seq<char>,
}

impl View for Document {
    type V = DocView;

    open spec fn view(&self) -> DocView {
        DocView { text: rope_chars(self.rope), tree_text: tree_source(self.tree) }
    }
}

/// The byte offset where a change starts, on the text it applies to.
pub open spec fn change_start_byte(s: Seq<char>, r: Range) -> int {
    lsp_to_byte_spec(s, r.start.line as int, r.start.character as int)
}

/// The byte offset where a change's replaced range ends.
pub open spec fn change_end_byte(s: Seq<char>, r: Range) -> int {
    lsp_to_byte_spec(s, r.end.line as int, r.end.character as int)
}

/// A ranged change addresses the text when both positions do and the
/// range is not reversed.
pub open spec fn change_ok(s: Seq<char>, c: DocChange) -> bool {
    match c.range {
        Some(r) => lsp_in_range(s, r.start.line as int, r.start.character as int) && lsp_in_range(
            s,
            r.end.line as int,
            r.end.character as int,
        ) && change_start_byte(s, r) <= change_end_byte(s, r),
        None => true,
    }
}

/// The text after one change: the ranged splice, the whole-document
/// reset, or the text unchanged when the change does not address it.
pub open spec fn spec_apply_change(s: Seq<char>, c: DocChange) -> Seq<char> {
    match c.range {
        Some(r) => {
            if change_ok(s, c) {
                let start_ci = char_of_byte(s, change_start_byte(s, r));
                let end_ci = char_of_byte(s, change_end_byte(s, r));
                s.subrange(0, start_ci) + c.text@ + s.subrange(end_ci, s.len() as int)
            } else {
                s
            }
        },
        None => c.text@,
    }
}

/// The text after the changes from index `i` on, applied in order.
pub open spec fn spec_apply_changes(s: Seq<char>, cs: Seq<DocChange>, i: int) -> Seq<char>
    decreases cs.len() - i,
{
    if i < 0 || i >= cs.len() {
        s
    } else {
        spec_apply_changes(spec_apply_change(s, cs[i]), cs, i + 1)
    }
}

/// The row tree-sitter is told for a new end past the text: the old line
/// count plus the insert's line feeds, held to the machine bound.
pub open spec fn synth_row(s: Seq<char>, t: Seq<char>) -> int {
    let r = newline_count(s) + 1 + newline_count(t);
    if r <= usize::MAX {
        r
    } else {
        usize::MAX as int
    }
}

/// Bytes after the last line feed of the insert; its whole byte length
/// when it holds none.
pub open spec fn bytes_after_last_nl(t: Seq<char>) -> int
    decreases t.len(),
{
    if t.len() == 0 {
        0
    } else if t[t.len() - 1] == '\n' {
        0
    } else {
        bytes_after_last_nl(t.drop_last()) + crate::text::utf8_len(t[t.len() - 1])
    }
}

/// Counts the insert's line feeds and the bytes after the last of them.
fn count_insert_tail(text: &str) -> (r: (usize, usize))
    ensures
        r.0 == newline_count(text@),
        r.1 == bytes_after_last_nl(text@),
{
    let ghost tvv = text@;
    let tv = crate::strings::chars_vec(text);
    let text_bytes = text.as_bytes().len();
    proof {
        crate::text::lemma_total_bytes_encode(text@);
        lemma_weights_positive();
    }
    let mut nl: usize = 0;
    let mut after: usize = 0;
    let mut i: usize = 0;
    while i < tv.len()
        invariant
            i <= tv@.len(),
            tv@ == tvv,
            text_bytes == total_bytes(tvv),
            nl == crate::text::line_of_char(tvv, i as int),
            nl <= i,
            after == bytes_after_last_nl(tvv.subrange(0, i as int)),
            after <= crate::text::byte_of_char(tvv, i as int),
        decreases tv@.len() - i,
    {
        proof {
            crate::text::lemma_cum_bounds(w8(), tvv, i as int + 1);
            assert(crate::text::byte_of_char(tvv, i as int + 1) == crate::text::byte_of_char(
                tvv,
                i as int,
            ) + w8()(tvv[i as int]));
            assert(w8()(tvv[i as int]) == crate::text::utf8_len(tvv[i as int]));
            assert(tvv.subrange(0, i as int + 1).drop_last() =~= tvv.subrange(0, i as int));
            assert(tvv.subrange(0, i as int + 1)[i as int] == tvv[i as int]);
        }
        if tv[i] == '\n' {
            nl += 1;
            after = 0;
        } else {
            after = after + crate::strings::exec_utf8_len(tv[i]);
        }
        i += 1;
    }
    proof {
        assert(tvv.subrange(0, tvv.len() as int) =~= tvv);
    }
    (nl, after)
}

/// Builds the edit record tree-sitter needs for an incremental reparse:
/// start and old end against the pre-edit text; the new end synthesized
/// from the inserted text when it reaches the text end or past it.  The
/// record is built exactly when the change addresses the text and the new
/// end offset is representable.
pub fn lsp_textdocchange_to_ts_inputedit(rope: &ropey::Rope, change: &DocChange) -> (res: Result<
    InputEditRec,
    PositionError,
>)
    ensures
        res is Ok <==> (match change.range {
            Some(r) => lsp_in_range(rope_chars(*rope), r.start.line as int, r.start.character as int)
                && lsp_in_range(rope_chars(*rope), r.end.line as int, r.end.character as int)
                && change_start_byte(rope_chars(*rope), r) + vstd::utf8::encode_utf8(
                change.text@,
            ).len() <= usize::MAX,
            None => vstd::utf8::encode_utf8(change.text@).len() <= total_bytes(rope_chars(*rope)),
        }),
        res matches Ok(e) ==> {
            let s = rope_chars(*rope);
            let ins_bytes = vstd::utf8::encode_utf8(change.text@).len() as int;
            &&& (match change.range {
                Some(r) => e.start_byte == change_start_byte(s, r) && e.old_end_byte
                    == change_end_byte(s, r),
                None => e.start_byte == 0 && e.old_end_byte == crate::text::byte_of_char(
                    s,
                    char_of_byte(s, ins_bytes),
                ),
            })
            &&& e.new_end_byte == e.start_byte + ins_bytes
            &&& e.start_row == byte_to_line_spec(s, e.start_byte as int)
            &&& e.start_col == byte_to_column_spec(s, e.start_byte as int)
            &&& e.old_end_row == byte_to_line_spec(s, e.old_end_byte as int)
            &&& e.old_end_col == byte_to_column_spec(s, e.old_end_byte as int)
            &&& e.new_end_byte < total_bytes(s) ==> e.new_end_row == byte_to_line_spec(
                s,
                e.new_end_byte as int,
            ) && e.new_end_col == byte_to_column_spec(s, e.new_end_byte as int)
            &&& e.new_end_byte >= total_bytes(s) ==> e.new_end_row == synth_row(s, change.text@)
                && e.new_end_col == bytes_after_last_nl(change.text@)
        },
{
    let ghost s = rope_chars(*rope);
    let text_len = change.text.as_str().as_bytes().len();
    proof {
        crate::text::lemma_total_bytes_encode(change.text@);
    }
    let range = match change.range {
        Some(r) => r,
        None => {
            let start = match byte_offset_to_lsp_position(0, rope) {
                Ok(p) => p,
                Err(e) => {
                    proof {
                        crate::text::lemma_weights_positive();
                        crate::text::lemma_cum_bounds(w8(), s, 0);
                        assert(false);
                    }
                    return Err(e);
                },
            };
            let end = match byte_offset_to_lsp_position(text_len, rope) {
                Ok(p) => p,
                Err(e) => {
                    return Err(e);
                },
            };
            proof {
                crate::position::lemma_lsp_byte_round_trip(s, 0);
                crate::position::lemma_lsp_byte_round_trip(s, text_len as int);
            }
            Range { start, end }
        },
    };
    proof {
        if change.range is None {
            assert(lsp_in_range(s, range.start.line as int, range.start.character as int));
            assert(lsp_in_range(s, range.end.line as int, range.end.character as int));
        }
    }
    let start_byte = match lsp_position_to_byte_offset(range.start, rope) {
        Ok(b) => b,
        Err(e) => {
            proof {
                if change.range is None {
                    assert(false);
                }
            }
            return Err(e);
        },
    };
    let old_end_byte = match lsp_position_to_byte_offset(range.end, rope) {
        Ok(b) => b,
        Err(e) => {
            proof {
                if change.range is None {
                    assert(false);
                }
            }
            return Err(e);
        },
    };
    proof {
        crate::position::lemma_lsp_byte_in_range(s, range.start.line as int, range.start.character as int);
        crate::position::lemma_lsp_byte_in_range(s, range.end.line as int, range.end.character as int);
        if change.range is None {
            // offset zero is a character boundary, so it maps back to itself
            crate::position::lemma_lsp_byte_round_trip(s, 0);
            assert(crate::text::byte_of_char(s, 0) == 0);
            assert(start_byte == 0);
        }
    }
    let start_point = match byte_offset_to_ts_point(start_byte, rope) {
        Ok(p) => p,
        Err(e) => {
            proof {
                assert(false);
            }
            return Err(e);
        },
    };
    let old_end_point = match byte_offset_to_ts_point(old_end_byte, rope) {
        Ok(p) => p,
        Err(e) => {
            proof {
                assert(false);
            }
            return Err(e);
        },
    };
    let new_end_byte = match start_byte.checked_add(text_len) {
        Some(v) => v,
        None => {
            return Err(PositionError::OutOfRange);
        },
    };
    let total = rope_len_bytes(rope);
    let (new_row, new_col): (usize, usize) = if new_end_byte >= total {
        // at or past the current text end: synthesize from the insert alone
        let (nl, after) = count_insert_tail(change.text.as_str());
        let lines = rope_len_lines(rope);
        let row = if nl <= usize::MAX - lines {
            lines + nl
        } else {
            usize::MAX
        };
        (row, after)
    } else {
        let p = match byte_offset_to_ts_point(new_end_byte, rope) {
            Ok(p) => p,
            Err(e) => {
                proof {
                    assert(false);
                }
                return Err(e);
            },
        };
        (p.row, p.column)
    };
    Ok(
        InputEditRec {
            start_byte,
            old_end_byte,
            new_end_byte,
            start_row: start_point.row,
            start_col: start_point.column,
            old_end_row: old_end_point.row,
            old_end_col: old_end_point.column,
            new_end_row: new_row,
            new_end_col: new_col,
        },
    )
}

/// Applies one change to a document: splices the rope, records the edit
/// on the tree, and reparses incrementally.  The tree always parses the
/// rope that results.
pub fn apply_change(doc: &mut Document, change: &DocChange)
    ensures
        rope_chars(final (doc).rope) == spec_apply_change(rope_chars(old(doc).rope), *change),
        tree_source(final (doc).tree) == rope_chars(final (doc).rope),
{
    let ghost s = rope_chars(doc.rope);
    match change.range {
        Some(r) => {
            let start_byte = match lsp_position_to_byte_offset(r.start, &doc.rope) {
                Ok(b) => b,
                Err(_) => {
                    let text = rope_to_string(&doc.rope);
                    doc.tree = parse_document(text.as_str(), None);
                    return ;
                },
            };
            let end_byte = match lsp_position_to_byte_offset(r.end, &doc.rope) {
                Ok(b) => b,
                Err(_) => {
                    let text = rope_to_string(&doc.rope);
                    doc.tree = parse_document(text.as_str(), None);
                    return ;
                },
            };
            if start_byte > end_byte {
                let text = rope_to_string(&doc.rope);
                doc.tree = parse_document(text.as_str(), None);
                return ;
            }
            // the edit record for the incremental reparse
            let edit = lsp_textdocchange_to_ts_inputedit(&doc.rope, change);
            proof {
                lemma_weights_positive();
                crate::position::lemma_lsp_byte_in_range(s, r.start.line as int, r.start.character as int);
                crate::position::lemma_lsp_byte_in_range(s, r.end.line as int, r.end.character as int);
                lemma_idx_at_mono(w8(), s, start_byte as int, end_byte as int);
                lemma_idx_at_bounds(w8(), s, end_byte as int);
            }
            let start_ci = match rope_try_byte_to_char(&doc.rope, start_byte) {
                Some(c) => c,
                None => {
                    proof {
                        assert(false);
                    }
                    0
                },
            };
            let end_ci = match rope_try_byte_to_char(&doc.rope, end_byte) {
                Some(c) => c,
                None => {
                    proof {
                        assert(false);
                    }
                    0
                },
            };
            rope_remove(&mut doc.rope, start_ci, end_ci);
            rope_insert(&mut doc.rope, start_ci, change.text.as_str());
            proof {
                assert(rope_chars(doc.rope) =~= spec_apply_change(s, *change));
            }
            match edit {
                Ok(e) => {
                    tree_edit(&mut doc.tree, &e);
                },
                Err(_) => {},
            }
            let text = rope_to_string(&doc.rope);
            doc.tree = parse_document(text.as_str(), Some(&doc.tree));
        },
        None => {
            doc.rope = rope_from_str(change.text.as_str());
            let text = rope_to_string(&doc.rope);
            doc.tree = parse_document(text.as_str(), None);
        },
    }
}

/// Applies a sequence of changes in order; the rope that results is the
/// sequential application of the changes to the original text, and the
/// tree parses it.
pub fn apply_changes(doc: &mut Document, changes: &Vec<DocChange>)
    ensures
        rope_chars(final (doc).rope) == spec_apply_changes(
            rope_chars(old(doc).rope),
            changes@,
            0,
        ),
        changes@.len() > 0 ==> tree_source(final (doc).tree) == rope_chars(final (doc).rope),
        changes@.len() == 0 ==> *final (doc) == *old(doc),
{
    let ghost s0 = rope_chars(doc.rope);
    let mut i: usize = 0;
    while i < changes.len()
        invariant
            i <= changes@.len(),
            spec_apply_changes(rope_chars(doc.rope), changes@, i as int) == spec_apply_changes(
                s0,
                changes@,
                0,
            ),
            i > 0 ==> tree_source(doc.tree) == rope_chars(doc.rope),
            i == 0 ==> *doc == *old(doc) && rope_chars(doc.rope) == s0,
        decreases changes@.len() - i,
    {
        apply_change(doc, &changes[i]);
        i += 1;
    }
}

// ------------------------------------------------------------------
// The keyed concurrent map behind the store.
// ------------------------------------------------------------------

#[verifier::external_type_specification]
#[verifier::external_body]
#[verifier::reject_recursive_types(K)]
#[verifier::reject_recursive_types(V)]
#[verifier::reject_recursive_types(S)]
pub struct ExDashMap<K, V, S>(dashmap::DashMap<K, V, S>);

/// The documents a store map holds, keyed by URI.
pub uninterp spec fn dash_docs(m: dashmap::DashMap<String, Document>) -> Map<Seq<char>, DocView>;

/// Relies on `dashmap::DashMap::new`: the fresh map holds nothing.
#[verifier::external_body]
fn dash_new() -> (m: dashmap::DashMap<String, Document>)
    ensures
        dash_docs(m) === Map::empty(),
{
    dashmap::DashMap::new()
}

/// Relies on `dashmap::DashMap::insert`: the entry replaces any previous
/// one under the same key.
#[verifier::external_body]
fn dash_insert(m: &mut dashmap::DashMap<String, Document>, key: &str, doc: Document)
    ensures
        dash_docs(*final (m)) == dash_docs(*old(m)).insert(key@, doc@),
{
    m.insert(key.to_owned(), doc);
}

/// Relies on `dashmap::DashMap::get` and the clones of rope and tree: the
/// copy handed out holds the stored entry's text and tree text.
#[verifier::external_body]
fn dash_get(m: &dashmap::DashMap<String, Document>, key: &str) -> (res: Option<Document>)
    ensures
        res matches Some(d) ==> dash_docs(*m).contains_key(key@) && d@ == dash_docs(*m)[key@],
        res is None ==> !dash_docs(*m).contains_key(key@),
{
    m.get(key).map(
        |entry| Document { rope: entry.value().rope.clone(), tree: entry.value().tree.clone() },
    )
}

/// Relies on `dashmap::DashMap::remove`: the entry under the key leaves
/// the map.
#[verifier::external_body]
fn dash_remove(m: &mut dashmap::DashMap<String, Document>, key: &str)
    ensures
        dash_docs(*final (m)) == dash_docs(*old(m)).remove(key@),
{
    m.remove(key);
}

/// The concurrent URI-keyed document cache.
pub struct DocumentStore {
    pub map: dashmap::DashMap<String, Document>,
}

impl DocumentStore {
    /// The documents held, keyed by URI.
    pub open spec fn docs(&self) -> Map<Seq<char>, DocView> {
        dash_docs(self.map)
    }

    /// An empty store.
    pub fn new() -> (s: Self)
        ensures
            s.docs() == Map::<Seq<char>, DocView>::empty(),
    {
        DocumentStore { map: dash_new() }
    }

    /// Opens a document: parses the text and stores rope and tree.
    pub fn open(&mut self, uri: &str, text: &str)
        ensures
            final (self).docs() == old(self).docs().insert(
                uri@,
                DocView { text: text@, tree_text: text@ },
            ),
    {
        let rope = rope_from_str(text);
        let tree = parse_document(text, None);
        dash_insert(&mut self.map, uri, Document { rope, tree });
    }

    /// Applies incremental changes to a document.  The rope that results
    /// is the sequential application of the changes, and the tree parses
    /// it; a URI not held is left alone.
    pub fn change(&mut self, uri: &str, changes: &Vec<DocChange>)
        ensures
            old(self).docs().contains_key(uri@) ==> final (self).docs() == old(
                self,
            ).docs().insert(
                uri@,
                if changes@.len() == 0 {
                    old(self).docs()[uri@]
                } else {
                    DocView {
                        text: spec_apply_changes(old(self).docs()[uri@].text, changes@, 0),
                        tree_text: spec_apply_changes(old(self).docs()[uri@].text, changes@, 0),
                    }
                },
            ),
            !old(self).docs().contains_key(uri@) ==> final (self).docs() == old(self).docs(),
    {
        let mut doc = match dash_get(&self.map, uri) {
            Some(d) => d,
            None => {
                return ;
            },
        };
        if changes.len() == 0 {
            dash_insert(&mut self.map, uri, doc);
            return ;
        }
        apply_changes(&mut doc, changes);
        dash_insert(&mut self.map, uri, doc);
    }

    /// Drops a document.
    pub fn close(&mut self, uri: &str)
        ensures
            final (self).docs() == old(self).docs().remove(uri@),
    {
        dash_remove(&mut self.map, uri);
    }

    /// A consistent snapshot of a document: its rope and the tree parsed
    /// from the same text.
    pub fn snapshot(&self, uri: &str) -> (res: Option<Document>)
        ensures
            res matches Some(d) ==> self.docs().contains_key(uri@) && d@ == self.docs()[uri@],
            res is None ==> !self.docs().contains_key(uri@),
    {
        dash_get(&self.map, uri)
    }
}

} // verus!

//! The semantic analyzer: interprets the captures of the fixed meta-query
//! over a query document and emits diagnostics, cross-referencing the
//! target grammar's tables.

use vstd::prelude::*;

use crate::position::{
    byte_offset_to_lsp_position, byte_range_text, byte_to_character_spec, byte_to_line_spec,
    text_slice,
};
use crate::rope::{rope_chars, rope_to_string};
use crate::strings::str_eq;
use crate::text::total_bytes;
use crate::tstree::{captures_of, run_query, top_ranges, top_ranges_of, tree_source, CaptureRec, CaptureView};
use crate::types::{Diagnostic, LanguageInfo, Position, Range, Severity};
use crate::types::{exec_entry_has_subtype, exec_has_field, exec_has_symbol, exec_super_index};

verus! {

/// The meta-query that drives the analyzer, over the query-language
/// grammar this library is built with.  Predicate-name classification is
/// done by the interpretation below, not in the query.  The grammar linked
/// here has no supertype or missing-node forms, so the `supertype` and `m`
/// captures the interpretation understands reach it only from callers that
/// supply capture records of their own.
pub const DIAGNOSTICS_QUERY: &'static str = "(ERROR) @e\n(anonymous_node name: (identifier) @a)\n(named_node . name: (identifier) @n)\n(field_definition name: (identifier) @f)\n(parameters (capture) @c)\n(predicate name: (identifier) @_name (parameters . [(string) (identifier)] @arg))\n(predicate name: (identifier) @_name (parameters (capture) _ _+ @extra))";

/// The query that finds every capture node in the document.
pub const ALL_CAPTURES_QUERY: &'static str = "(capture) @cap";

/// One diagnostic at the mathematical level: a message and the byte range
/// it points at.
pub struct DiagSpec {
    pub message: Seq<char>,
    pub warning: bool,
    pub start_byte: int,
    pub end_byte: int,
}

/// A byte range that lies within the text.
pub open spec fn range_ok(s: Seq<char>, sb: int, eb: int) -> bool {
    0 <= sb <= eb <= total_bytes(s)
}

/// Predicate names of the equality family.
pub open spec fn is_eq_family(name: Seq<char>) -> bool {
    ||| name == "eq"@
    ||| name == "not-eq"@
    ||| name == "any-eq"@
    ||| name == "any-not-eq"@
}

/// Predicate names of the match family.
pub open spec fn is_match_family(name: Seq<char>) -> bool {
    ||| name == "match"@
    ||| name == "not-match"@
    ||| name == "any-match"@
    ||| name == "any-not-match"@
}

/// Predicate names that take a capture as their first argument.
pub open spec fn is_text_predicate(name: Seq<char>) -> bool {
    ||| is_eq_family(name)
    ||| is_match_family(name)
    ||| name == "any-of"@
    ||| name == "not-any-of"@
}

/// The label an anonymous-node capture carries: its text with the
/// surrounding quotes stripped when both are present.
pub open spec fn anon_label(t: Seq<char>) -> Seq<char> {
    if t.len() >= 2 && t[0] == '"' && t[t.len() - 1] == '"' {
        t.subrange(1, t.len() - 1)
    } else {
        t
    }
}

/// The name of the predicate a match belongs to: the text of the first
/// `_name` capture with that match index.
pub open spec fn pred_name_of_match(caps: Seq<CaptureView>, mid: int, s: Seq<char>) -> Seq<char>
    decreases caps.len(),
{
    if caps.len() == 0 {
        Seq::empty()
    } else if caps[0].match_id == mid && caps[0].name == "_name"@ && range_ok(
        s,
        caps[0].start_byte,
        caps[0].end_byte,
    ) {
        text_slice(s, caps[0].start_byte, caps[0].end_byte)
    } else {
        pred_name_of_match(caps.drop_first(), mid, s)
    }
}

/// The first top-level pattern range containing the byte range, if any.
pub open spec fn enclosing_top(tops: Seq<(usize, usize)>, sb: int, eb: int) -> Option<
    (usize, usize),
>
    decreases tops.len(),
{
    if tops.len() == 0 {
        None
    } else if tops[0].0 <= sb && eb <= tops[0].1 {
        Some(tops[0])
    } else {
        enclosing_top(tops.drop_first(), sb, eb)
    }
}

/// A capture with the given text is declared inside the top-level range:
/// some capture node there, outside any `parameters`, has that text.
pub open spec fn capture_declared(
    all: Seq<CaptureView>,
    ts: int,
    te: int,
    ctext: Seq<char>,
    s: Seq<char>,
) -> bool {
    exists|j: int|
        0 <= j < all.len() && range_ok(s, (#[trigger] all[j]).start_byte, all[j].end_byte) && ts
            <= all[j].start_byte && all[j].end_byte <= te && all[j].parent_kind != "parameters"@
            && text_slice(s, all[j].start_byte, all[j].end_byte) == ctext
}

/// The diagnostics one capture of the meta-query gives rise to.
pub open spec fn diags_for(
    c: CaptureView,
    caps: Seq<CaptureView>,
    all: Seq<CaptureView>,
    tops: Seq<(usize, usize)>,
    s: Seq<char>,
    info: LanguageInfo,
) -> Seq<DiagSpec> {
    if !range_ok(s, c.start_byte, c.end_byte) {
        Seq::empty()
    } else if c.name == "a"@ || c.name == "n"@ {
        if !info.present() {
            Seq::empty()
        } else {
            let named = c.name == "n"@;
            let label = if named {
                text_slice(s, c.start_byte, c.end_byte)
            } else {
                anon_label(text_slice(s, c.start_byte, c.end_byte))
            };
            if !info.has_symbol(label, named) {
                seq![
                    DiagSpec {
                        message: "Invalid node type!"@,
                        warning: false,
                        start_byte: c.start_byte,
                        end_byte: c.end_byte,
                    },
                ]
            } else {
                Seq::empty()
            }
        }
    } else if c.name == "supertype"@ {
        if !info.present() {
            Seq::empty()
        } else {
            let sup = text_slice(s, c.start_byte, c.end_byte);
            match info.super_index(sup) {
                None => seq![
                    DiagSpec {
                        message: "Not a supertype!"@,
                        warning: false,
                        start_byte: c.start_byte,
                        end_byte: c.end_byte,
                    },
                ],
                Some(e) => {
                    if !c.has_sib || !range_ok(s, c.sib_start, c.sib_end) {
                        Seq::empty()
                    } else {
                        let sub = text_slice(s, c.sib_start, c.sib_end);
                        if info.supertypes@[e].subtypes@.len() > 0 && !info.entry_has_subtype(
                            e,
                            sub,
                        ) {
                            seq![
                                DiagSpec {
                                    message: "Not a subtype of \""@ + sup + "\"!"@,
                                    warning: false,
                                    start_byte: c.sib_start,
                                    end_byte: c.sib_end,
                                },
                            ]
                        } else if info.supertypes@[e].subtypes@.len() == 0 && !info.has_symbol(
                            sub,
                            true,
                        ) {
                            seq![
                                DiagSpec {
                                    message: "Invalid node type!"@,
                                    warning: false,
                                    start_byte: c.sib_start,
                                    end_byte: c.sib_end,
                                },
                            ]
                        } else {
                            Seq::empty()
                        }
                    }
                },
            }
        }
    } else if c.name == "f"@ {
        if !info.present() {
            Seq::empty()
        } else if !info.has_field(text_slice(s, c.start_byte, c.end_byte)) {
            seq![
                DiagSpec {
                    message: "Invalid field type!"@,
                    warning: false,
                    start_byte: c.start_byte,
                    end_byte: c.end_byte,
                },
            ]
        } else {
            Seq::empty()
        }
    } else if c.name == "e"@ {
        seq![
            DiagSpec {
                message: "Invalid syntax!"@,
                warning: false,
                start_byte: c.start_byte,
                end_byte: c.end_byte,
            },
        ]
    } else if c.name == "m"@ {
        seq![
            DiagSpec {
                message: "Missing \""@ + c.kind + "\"!"@,
                warning: false,
                start_byte: c.start_byte,
                end_byte: c.end_byte,
            },
        ]
    } else if c.name == "c"@ {
        let declared = match enclosing_top(tops, c.start_byte, c.end_byte) {
            None => false,
            Some(t) => capture_declared(
                all,
                t.0 as int,
                t.1 as int,
                text_slice(s, c.start_byte, c.end_byte),
                s,
            ),
        };
        if !declared {
            seq![
                DiagSpec {
                    message: "Undeclared capture name!"@,
                    warning: false,
                    start_byte: c.start_byte,
                    end_byte: c.end_byte,
                },
            ]
        } else {
            Seq::empty()
        }
    } else if c.name == "arg"@ {
        if is_text_predicate(pred_name_of_match(caps, c.match_id, s)) {
            seq![
                DiagSpec {
                    message: "First argument must be a capture"@,
                    warning: true,
                    start_byte: c.start_byte,
                    end_byte: c.end_byte,
                },
            ]
        } else {
            Seq::empty()
        }
    } else if c.name == "extra"@ {
        let pred = pred_name_of_match(caps, c.match_id, s);
        if is_eq_family(pred) {
            seq![
                DiagSpec {
                    message:
                        "\"#eq?\" family predicates cannot accept multiple arguments. Consider using \"#any-of?\"."@,
                    warning: true,
                    start_byte: c.start_byte,
                    end_byte: c.end_byte,
                },
            ]
        } else if is_match_family(pred) {
            seq![
                DiagSpec {
                    message: "\"#match?\" family predicates cannot accept multiple arguments."@,
                    warning: true,
                    start_byte: c.start_byte,
                    end_byte: c.end_byte,
                },
            ]
        } else {
            Seq::empty()
        }
    } else {
        Seq::empty()
    }
}

/// The diagnostics of all captures from index `i` onward.
pub open spec fn diag_list_from(
    caps: Seq<CaptureView>,
    all: Seq<CaptureView>,
    tops: Seq<(usize, usize)>,
    s: Seq<char>,
    info: LanguageInfo,
    i: int,
) -> Seq<DiagSpec>
    decreases caps.len() - i,
{
    if i < 0 || i >= caps.len() {
        Seq::empty()
    } else {
        diags_for(caps[i], caps, all, tops, s, info) + diag_list_from(caps, all, tops, s, info, i + 1)
    }
}

/// The diagnostics of a document: every capture of the meta-query
/// interpreted in order.
pub open spec fn diag_list(
    caps: Seq<CaptureView>,
    all: Seq<CaptureView>,
    tops: Seq<(usize, usize)>,
    s: Seq<char>,
    info: LanguageInfo,
) -> Seq<DiagSpec> {
    diag_list_from(caps, all, tops, s, info, 0)
}

/// The emitted diagnostics match the mathematical list: same messages and
/// severities, ranges in LSP form over the document.
pub open spec fn diags_match(ds: Seq<Diagnostic>, specs: Seq<DiagSpec>, s: Seq<char>) -> bool {
    &&& ds.len() == specs.len()
    &&& forall|i: int|
        0 <= i < specs.len() ==> {
            &&& (#[trigger] ds[i]).message@ == specs[i].message
            &&& ds[i].severity == (if specs[i].warning {
                Severity::Warning
            } else {
                Severity::Error
            })
            &&& ds[i].range.start.line == byte_to_line_spec(s, specs[i].start_byte)
            &&& ds[i].range.start.character == byte_to_character_spec(s, specs[i].start_byte)
            &&& ds[i].range.end.line == byte_to_line_spec(s, specs[i].end_byte)
            &&& ds[i].range.end.character == byte_to_character_spec(s, specs[i].end_byte)
        }
}

/// The LSP range of a byte range that lies within the document.
fn lsp_range_of(rope: &ropey::Rope, sb: usize, eb: usize) -> (r: Range)
    requires
        range_ok(rope_chars(*rope), sb as int, eb as int),
    ensures
        r.start.line == byte_to_line_spec(rope_chars(*rope), sb as int),
        r.start.character == byte_to_character_spec(rope_chars(*rope), sb as int),
        r.end.line == byte_to_line_spec(rope_chars(*rope), eb as int),
        r.end.character == byte_to_character_spec(rope_chars(*rope), eb as int),
{
    let start = match byte_offset_to_lsp_position(sb, rope) {
        Ok(p) => p,
        Err(_) => {
            proof {
                assert(false);
            }
            Position { line: 0, character: 0 }
        },
    };
    let end = match byte_offset_to_lsp_position(eb, rope) {
        Ok(p) => p,
        Err(_) => {
            proof {
                assert(false);
            }
            Position { line: 0, character: 0 }
        },
    };
    Range { start, end }
}

/// The name of the predicate the match with index `mid` belongs to.
fn exec_pred_name(caps: &Vec<CaptureRec>, mid: usize, rope: &ropey::Rope) -> (r: String)
    ensures
        r@ == pred_name_of_match(
            caps@.map_values(|c: CaptureRec| c@),
            mid as int,
            rope_chars(*rope),
        ),
{
    let ghost s = rope_chars(*rope);
    let ghost cv = caps@.map_values(|c: CaptureRec| c@);
    proof {
        assert(cv.skip(0) =~= cv);
    }
    let mut i: usize = 0;
    while i < caps.len()
        invariant
            i <= caps@.len(),
            cv == caps@.map_values(|c: CaptureRec| c@),
            s == rope_chars(*rope),
            pred_name_of_match(cv, mid as int, s) == pred_name_of_match(
                cv.skip(i as int),
                mid as int,
                s,
            ),
        decreases caps@.len() - i,
    {
        proof {
            assert(cv.skip(i as int)[0] == cv[i as int]);
            assert(cv.skip(i as int).drop_first() =~= cv.skip(i as int + 1));
            assert(cv[i as int] == caps@[i as int]@);
        }
        let c = &caps[i];
        if c.match_id == mid && str_eq(c.name.as_str(), "_name") {
            match byte_range_text(rope, c.start_byte, c.end_byte) {
                Some(t) => {
                    return t;
                },
                None => {
                    i += 1;
                },
            }
        } else {
            i += 1;
        }
    }
    proof {
        assert(cv.skip(caps@.len() as int) =~= Seq::<CaptureView>::empty());
    }
    String::new()
}

/// The first top-level range containing the byte range.
pub fn exec_enclosing_top(tops: &Vec<(usize, usize)>, sb: usize, eb: usize) -> (r: Option<
    (usize, usize),
>)
    ensures
        r == enclosing_top(tops@, sb as int, eb as int),
{
    proof {
        assert(tops@.skip(0) =~= tops@);
    }
    let mut i: usize = 0;
    while i < tops.len()
        invariant
            i <= tops@.len(),
            enclosing_top(tops@, sb as int, eb as int) == enclosing_top(
                tops@.skip(i as int),
                sb as int,
                eb as int,
            ),
        decreases tops@.len() - i,
    {
        proof {
            assert(tops@.skip(i as int)[0] == tops@[i as int]);
            assert(tops@.skip(i as int).drop_first() =~= tops@.skip(i as int + 1));
        }
        let t = tops[i];
        if t.0 <= sb && eb <= t.1 {
            return Some(t);
        }
        i += 1;
    }
    proof {
        assert(tops@.skip(tops@.len() as int) =~= Seq::<(usize, usize)>::empty());
    }
    None
}

/// Whether a capture with the given text is declared inside the range.
fn exec_capture_declared(
    all: &Vec<CaptureRec>,
    ts: usize,
    te: usize,
    ctext: &String,
    rope: &ropey::Rope,
) -> (r: bool)
    ensures
        r == capture_declared(
            all@.map_values(|c: CaptureRec| c@),
            ts as int,
            te as int,
            ctext@,
            rope_chars(*rope),
        ),
{
    let ghost s = rope_chars(*rope);
    let ghost av = all@.map_values(|c: CaptureRec| c@);
    let mut i: usize = 0;
    while i < all.len()
        invariant
            i <= all@.len(),
            av == all@.map_values(|c: CaptureRec| c@),
            s == rope_chars(*rope),
            forall|j: int|
                0 <= j < i ==> !(range_ok(s, (#[trigger] av[j]).start_byte, av[j].end_byte) && ts
                    <= av[j].start_byte && av[j].end_byte <= te && av[j].parent_kind
                    != "parameters"@ && text_slice(s, av[j].start_byte, av[j].end_byte) == ctext@),
        decreases all@.len() - i,
    {
        proof {
            assert(av[i as int] == all@[i as int]@);
        }
        let c = &all[i];
        if ts <= c.start_byte && c.end_byte <= te && !str_eq(c.parent_kind.as_str(), "parameters") {
            match byte_range_text(rope, c.start_byte, c.end_byte) {
                Some(t) => {
                    if crate::strings::string_eq(&t, ctext) {
                        proof {
                            assert(range_ok(s, av[i as int].start_byte, av[i as int].end_byte)
                                && ts <= av[i as int].start_byte && av[i as int].end_byte <= te
                                && av[i as int].parent_kind != "parameters"@ && text_slice(
                                s,
                                av[i as int].start_byte,
                                av[i as int].end_byte,
                            ) == ctext@);
                        }
                        return true;
                    }
                },
                None => {},
            }
        }
        i += 1;
    }
    false
}

/// The diagnostics one capture gives rise to, as `diags_for` describes
/// them.
#[verifier::rlimit(60)]
fn diags_for_exec(
    c: &CaptureRec,
    caps: &Vec<CaptureRec>,
    all: &Vec<CaptureRec>,
    tops: &Vec<(usize, usize)>,
    rope: &ropey::Rope,
    info: &LanguageInfo,
) -> (r: Vec<Diagnostic>)
    ensures
        diags_match(
            r@,
            diags_for(
                c@,
                caps@.map_values(|x: CaptureRec| x@),
                all@.map_values(|x: CaptureRec| x@),
                tops@,
                rope_chars(*rope),
                *info,
            ),
            rope_chars(*rope),
        ),
{
    let ghost s = rope_chars(*rope);
    let mut out: Vec<Diagnostic> = Vec::new();
    let severity_error = Severity::Error;
    let total = crate::rope::rope_len_bytes(rope);
    if !(c.start_byte <= c.end_byte && c.end_byte <= total) {
        return out;
    }
    if str_eq(c.name.as_str(), "a") || str_eq(c.name.as_str(), "n") {
        if info.symbols.len() > 0 {
            let named = str_eq(c.name.as_str(), "n");
            let t = match byte_range_text(rope, c.start_byte, c.end_byte) {
                Some(t) => t,
                None => {
                    proof {
                        assert(false);
                    }
                    String::new()
                },
            };
            let label: String = if named {
                t
            } else {
                exec_anon_label(&t)
            };
            if !exec_has_symbol(info, label.as_str(), named) {
                out.push(
                    Diagnostic {
                        message: String::from_str("Invalid node type!"),
                        severity: severity_error,
                        range: lsp_range_of(rope, c.start_byte, c.end_byte),
                    },
                );
            }
        }
    } else if str_eq(c.name.as_str(), "supertype") {
        if info.symbols.len() > 0 {
            let sup = match byte_range_text(rope, c.start_byte, c.end_byte) {
                Some(t) => t,
                None => {
                    proof {
                        assert(false);
                    }
                    String::new()
                },
            };
            match exec_super_index(info, sup.as_str()) {
                None => {
                    out.push(
                        Diagnostic {
                            message: String::from_str("Not a supertype!"),
                            severity: severity_error,
                            range: lsp_range_of(rope, c.start_byte, c.end_byte),
                        },
                    );
                },
                Some(e) => {
                    if c.has_sib {
                        match byte_range_text(rope, c.sib_start, c.sib_end) {
                            Some(sub) => {
                                let n_subtypes = info.supertypes[e].subtypes.len();
                                if n_subtypes > 0 && !exec_entry_has_subtype(info, e, sub.as_str())
                                {
                                    let mut m = String::from_str("Not a subtype of \"");
                                    m.append(sup.as_str());
                                    m.append("\"!");
                                    out.push(
                                        Diagnostic {
                                            message: m,
                                            severity: severity_error,
                                            range: lsp_range_of(rope, c.sib_start, c.sib_end),
                                        },
                                    );
                                } else if n_subtypes == 0 && !exec_has_symbol(
                                    info,
                                    sub.as_str(),
                                    true,
                                ) {
                                    out.push(
                                        Diagnostic {
                                            message: String::from_str("Invalid node type!"),
                                            severity: severity_error,
                                            range: lsp_range_of(rope, c.sib_start, c.sib_end),
                                        },
                                    );
                                }
                            },
                            None => {},
                        }
                    }
                },
            }
        }
    } else if str_eq(c.name.as_str(), "f") {
        if info.symbols.len() > 0 {
            let t = match byte_range_text(rope, c.start_byte, c.end_byte) {
                Some(t) => t,
                None => {
                    proof {
                        assert(false);
                    }
                    String::new()
                },
            };
            if !exec_has_field(info, t.as_str()) {
                out.push(
                    Diagnostic {
                        message: String::from_str("Invalid field type!"),
                        severity: severity_error,
                        range: lsp_range_of(rope, c.start_byte, c.end_byte),
                    },
                );
            }
        }
    } else if str_eq(c.name.as_str(), "e") {
        out.push(
            Diagnostic {
                message: String::from_str("Invalid syntax!"),
                severity: severity_error,
                range: lsp_range_of(rope, c.start_byte, c.end_byte),
            },
        );
    } else if str_eq(c.name.as_str(), "m") {
        let mut m = String::from_str("Missing \"");
        m.append(c.kind.as_str());
        m.append("\"!");
        out.push(
            Diagnostic {
                message: m,
                severity: severity_error,
                range: lsp_range_of(rope, c.start_byte, c.end_byte),
            },
        );
    } else if str_eq(c.name.as_str(), "c") {
        let t = match byte_range_text(rope, c.start_byte, c.end_byte) {
            Some(t) => t,
            None => {
                proof {
                    assert(false);
                }
                String::new()
            },
        };
        let declared: bool = match exec_enclosing_top(tops, c.start_byte, c.end_byte) {
            None => false,
            Some(tr) => exec_capture_declared(all, tr.0, tr.1, &t, rope),
        };
        if !declared {
            out.push(
                Diagnostic {
                    message: String::from_str("Undeclared capture name!"),
                    severity: severity_error,
                    range: lsp_range_of(rope, c.start_byte, c.end_byte),
                },
            );
        }
    } else if str_eq(c.name.as_str(), "arg") {
        let pred = exec_pred_name(caps, c.match_id, rope);
        if exec_is_text_predicate(pred.as_str()) {
            out.push(
                Diagnostic {
                    message: String::from_str("First argument must be a capture"),
                    severity: Severity::Warning,
                    range: lsp_range_of(rope, c.start_byte, c.end_byte),
                },
            );
        }
    } else if str_eq(c.name.as_str(), "extra") {
        let pred = exec_pred_name(caps, c.match_id, rope);
        if exec_is_eq_family(pred.as_str()) {
            out.push(
                Diagnostic {
                    message: String::from_str(
                        "\"#eq?\" family predicates cannot accept multiple arguments. Consider using \"#any-of?\".",
                    ),
                    severity: Severity::Warning,
                    range: lsp_range_of(rope, c.start_byte, c.end_byte),
                },
            );
        } else if exec_is_match_family(pred.as_str()) {
            out.push(
                Diagnostic {
                    message: String::from_str(
                        "\"#match?\" family predicates cannot accept multiple arguments.",
                    ),
                    severity: Severity::Warning,
                    range: lsp_range_of(rope, c.start_byte, c.end_byte),
                },
            );
        }
    }
    out
}

/// Interprets the meta-query captures of a document and returns its
/// diagnostics, exactly as `diag_list` describes them.
pub fn interpret_captures(
    caps: &Vec<CaptureRec>,
    all: &Vec<CaptureRec>,
    tops: &Vec<(usize, usize)>,
    rope: &ropey::Rope,
    info: &LanguageInfo,
) -> (r: Vec<Diagnostic>)
    ensures
        diags_match(
            r@,
            diag_list(
                caps@.map_values(|c: CaptureRec| c@),
                all@.map_values(|c: CaptureRec| c@),
                tops@,
                rope_chars(*rope),
                *info,
            ),
            rope_chars(*rope),
        ),
{
    let ghost s = rope_chars(*rope);
    let ghost cv = caps@.map_values(|c: CaptureRec| c@);
    let ghost av = all@.map_values(|c: CaptureRec| c@);
    let mut out: Vec<Diagnostic> = Vec::new();
    let ghost mut emitted: Seq<DiagSpec> = Seq::empty();
    let mut i: usize = 0;
    while i < caps.len()
        invariant
            i <= caps@.len(),
            cv == caps@.map_values(|c: CaptureRec| c@),
            av == all@.map_values(|c: CaptureRec| c@),
            s == rope_chars(*rope),
            diags_match(out@, emitted, s),
            emitted + diag_list_from(cv, av, tops@, s, *info, i as int) == diag_list(
                cv,
                av,
                tops@,
                s,
                *info,
            ),
        decreases caps@.len() - i,
    {
        proof {
            assert(cv[i as int] == caps@[i as int]@);
        }
        let c = &caps[i];
        let ghost these = diags_for(cv[i as int], cv, av, tops@, s, *info);
        let mut d = diags_for_exec(c, caps, all, tops, rope, info);
        out.append(&mut d);
        proof {
            emitted = emitted + these;
            assert(diags_match(out@, emitted, s));
            assert(diag_list_from(cv, av, tops@, s, *info, i as int) == these + diag_list_from(
                cv,
                av,
                tops@,
                s,
                *info,
                i + 1,
            ));
            assert(emitted + diag_list_from(cv, av, tops@, s, *info, i + 1) =~= diag_list(
                cv,
                av,
                tops@,
                s,
                *info,
            ));
        }
        i += 1;
    }
    proof {
        assert(diag_list_from(cv, av, tops@, s, *info, caps@.len() as int)
            =~= Seq::<DiagSpec>::empty());
        assert(emitted =~= diag_list(cv, av, tops@, s, *info));
    }
    out
}

/// Strips one pair of surrounding quotes, when both are present.
fn exec_anon_label(t: &String) -> (r: String)
    ensures
        r@ == anon_label(t@),
{
    let n = t.as_str().unicode_len();
    if n >= 2 && t.as_str().get_char(0) == '"' && t.as_str().get_char(n - 1) == '"' {
        t.as_str().substring_char(1, n - 1).to_owned()
    } else {
        t.clone()
    }
}

/// Whether the name belongs to the equality family.
fn exec_is_eq_family(name: &str) -> (r: bool)
    ensures
        r == is_eq_family(name@),
{
    str_eq(name, "eq") || str_eq(name, "not-eq") || str_eq(name, "any-eq") || str_eq(
        name,
        "any-not-eq",
    )
}

/// Whether the name belongs to the match family.
fn exec_is_match_family(name: &str) -> (r: bool)
    ensures
        r == is_match_family(name@),
{
    str_eq(name, "match") || str_eq(name, "not-match") || str_eq(name, "any-match") || str_eq(
        name,
        "any-not-match",
    )
}

/// Whether the name is a text predicate taking a capture first.
fn exec_is_text_predicate(name: &str) -> (r: bool)
    ensures
        r == is_text_predicate(name@),
{
    exec_is_eq_family(name) || exec_is_match_family(name) || str_eq(name, "any-of") || str_eq(
        name,
        "not-any-of",
    )
}

/// Runs the meta-query over a document and interprets its captures: the
/// diagnostics of a snapshot, a function of its tree, its text and the
/// language tables alone.
pub fn get_diagnostics(
    tree: &tree_sitter::Tree,
    rope: &ropey::Rope,
    info: &LanguageInfo,
) -> (r: Vec<Diagnostic>)
    requires
        rope_chars(*rope) == tree_source(*tree),
    ensures
        diags_match(
            r@,
            diag_list(
                captures_of(*tree, DIAGNOSTICS_QUERY@),
                captures_of(*tree, ALL_CAPTURES_QUERY@),
                top_ranges_of(*tree),
                tree_source(*tree),
                *info,
            ),
            tree_source(*tree),
        ),
{
    let text = rope_to_string(rope);
    let caps = run_query(tree, text.as_str(), DIAGNOSTICS_QUERY);
    let all = run_query(tree, text.as_str(), ALL_CAPTURES_QUERY);
    let tops = top_ranges(tree);
    interpret_captures(&caps, &all, &tops, rope, info)
}

/// The diagnostics of a snapshot are determined: any two runs over the
/// same (tree, text, language tables) agree in every message, severity
/// and range.
pub proof fn lemma_diagnostics_deterministic(
    d1: Seq<Diagnostic>,
    d2: Seq<Diagnostic>,
    specs: Seq<DiagSpec>,
    s: Seq<char>,
)
    requires
        diags_match(d1, specs, s),
        diags_match(d2, specs, s),
    ensures
        d1.len() == d2.len(),
        forall|i: int|
            0 <= i < d1.len() ==> (#[trigger] d1[i]).message@ == d2[i].message@ && d1[i].severity
                == d2[i].severity && d1[i].range == d2[i].range,
{
    assert forall|i: int| 0 <= i < d1.len() implies (#[trigger] d1[i]).message@ == d2[i].message@
        && d1[i].severity == d2[i].severity && d1[i].range == d2[i].range by {
        assert(d1[i].range.start.line == d2[i].range.start.line);
        assert(d1[i].range.start.character == d2[i].range.start.character);
        assert(d1[i].range.end.line == d2[i].range.end.line);
        assert(d1[i].range.end.character == d2[i].range.end.character);
        assert(d1[i].range.start == d2[i].range.start);
        assert(d1[i].range.end == d2[i].range.end);
    }
}

} // verus!

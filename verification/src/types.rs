//! The library's own plain-value forms of the protocol and grammar data the
//! server works with: positions, ranges, edits, diagnostics, symbol tables.

use vstd::prelude::*;

verus! {

/// An LSP position: zero-based line, character counted in UTF-16 code
/// units.
#[derive(Clone, Copy, Debug, PartialEq, Eq, Structural)]
pub struct Position {
    pub line: usize,
    pub character: usize,
}

/// A half-open LSP range.
#[derive(Clone, Copy, Debug, PartialEq, Eq, Structural)]
pub struct Range {
    pub start: Position,
    pub end: Position,
}

/// A grammar point: zero-based row and byte column.
#[derive(Clone, Copy, Debug, PartialEq, Eq, Structural)]
pub struct Point {
    pub row: usize,
    pub column: usize,
}

/// Failure of a coordinate conversion: the input lay outside the document.
#[derive(Clone, Copy, Debug, PartialEq, Eq, Structural)]
pub enum PositionError {
    OutOfRange,
}

/// A textual replacement of an LSP range.
#[derive(Clone, Debug, PartialEq, Eq)]
pub struct TextEdit {
    pub range: Range,
    pub new_text: String,
}

/// Diagnostic severities the analyzer emits.
#[derive(Clone, Copy, Debug, PartialEq, Eq, Structural)]
pub enum Severity {
    Error,
    Warning,
}

/// A diagnostic over an LSP range.
#[derive(Clone, Debug, PartialEq, Eq)]
pub struct Diagnostic {
    pub message: String,
    pub severity: Severity,
    pub range: Range,
}

/// A node kind of the target grammar: its label, and whether it is a named
/// node (identifier form) or an anonymous token (string form).
#[derive(Clone, Debug, PartialEq, Eq, Hash)]
pub struct SymbolInfo {
    pub label: String,
    pub named: bool,
}

/// Mathematical image of a `SymbolInfo`.
pub struct SymView {
    pub label: Seq<char>,
    pub named: bool,
}

impl View for SymbolInfo {
    type V = SymView;

    open spec fn view(&self) -> SymView {
        SymView { label: self.label@, named: self.named }
    }
}

/// One supertype with the set of subtypes the grammar declares for it; the
/// set may be empty for grammars of older ABIs.
#[derive(Clone, Debug)]
pub struct SupertypeEntry {
    pub supertype: SymbolInfo,
    pub subtypes: Vec<SymbolInfo>,
}

/// The tables derived from a target grammar: node kinds, field names and
/// the supertype relation.
#[derive(Clone, Debug)]
pub struct LanguageInfo {
    pub symbols: Vec<SymbolInfo>,
    pub fields: Vec<String>,
    pub supertypes: Vec<SupertypeEntry>,
}

impl LanguageInfo {
    /// The symbol table as a set of views.
    pub open spec fn sym_seq(&self) -> Seq<SymView> {
        self.symbols@.map_values(|s: SymbolInfo| s@)
    }

    /// Membership of a symbol in the table.
    pub open spec fn has_symbol(&self, label: Seq<char>, named: bool) -> bool {
        exists|i: int|
            0 <= i < self.symbols@.len() && self.symbols@[i]@.label == label
                && self.symbols@[i]@.named == named
    }

    /// Membership of a field name.
    pub open spec fn has_field(&self, name: Seq<char>) -> bool {
        exists|i: int| 0 <= i < self.fields@.len() && self.fields@[i]@ == name
    }

    /// Index of the first supertype entry whose key is the named symbol
    /// with the given label, if any.
    pub open spec fn super_matches(&self, i: int, label: Seq<char>) -> bool {
        &&& self.supertypes@[i].supertype@.label == label
        &&& self.supertypes@[i].supertype@.named
    }

    /// Index of the first supertype entry for the given label, if any.
    pub open spec fn super_index(&self, label: Seq<char>) -> Option<int> {
        if exists|i: int| 0 <= i < self.supertypes@.len() && self.super_matches(i, label) {
            Some(
                choose|i: int|
                    0 <= i < self.supertypes@.len() && #[trigger] self.super_matches(i, label)
                        && forall|j: int| 0 <= j < i ==> !self.super_matches(j, label),
            )
        } else {
            None
        }
    }

    /// A supertype entry holds the given subtype label.
    pub open spec fn entry_has_subtype(&self, e: int, label: Seq<char>) -> bool {
        exists|i: int|
            0 <= i < self.supertypes@[e].subtypes@.len()
                && self.supertypes@[e].subtypes@[i]@.label == label
    }

    /// The language tables are present when the symbol set is non-empty.
    pub open spec fn present(&self) -> bool {
        self.symbols@.len() > 0
    }
}

/// Whether the symbol table holds the pair `(label, named)`.
pub fn exec_has_symbol(info: &LanguageInfo, label: &str, named: bool) -> (r: bool)
    ensures
        r == info.has_symbol(label@, named),
{
    let mut i: usize = 0;
    while i < info.symbols.len()
        invariant
            i <= info.symbols@.len(),
            forall|j: int|
                0 <= j < i ==> !(info.symbols@[j]@.label == label@ && info.symbols@[j]@.named
                    == named),
        decreases info.symbols@.len() - i,
    {
        let s = &info.symbols[i];
        if s.named == named && crate::strings::str_eq(s.label.as_str(), label) {
            return true;
        }
        i += 1;
    }
    false
}

/// Whether the field table holds the name.
pub fn exec_has_field(info: &LanguageInfo, name: &str) -> (r: bool)
    ensures
        r == info.has_field(name@),
{
    let mut i: usize = 0;
    while i < info.fields.len()
        invariant
            i <= info.fields@.len(),
            forall|j: int| 0 <= j < i ==> info.fields@[j]@ != name@,
        decreases info.fields@.len() - i,
    {
        if crate::strings::str_eq(info.fields[i].as_str(), name) {
            return true;
        }
        i += 1;
    }
    false
}

/// Index of the first supertype entry for the label, if there is one.
pub fn exec_super_index(info: &LanguageInfo, label: &str) -> (r: Option<usize>)
    ensures
        match r {
            Some(e) => info.super_index(label@) == Some(e as int) && e < info.supertypes@.len(),
            None => info.super_index(label@) is None,
        },
{
    let mut i: usize = 0;
    while i < info.supertypes.len()
        invariant
            i <= info.supertypes@.len(),
            forall|j: int| 0 <= j < i ==> !info.super_matches(j, label@),
        decreases info.supertypes@.len() - i,
    {
        let e = &info.supertypes[i];
        if e.supertype.named && crate::strings::str_eq(e.supertype.label.as_str(), label) {
            proof {
                assert(info.super_matches(i as int, label@));
            }
            return Some(i);
        }
        i += 1;
    }
    None
}

/// Whether the supertype entry at `e` lists the subtype label.
pub fn exec_entry_has_subtype(info: &LanguageInfo, e: usize, label: &str) -> (r: bool)
    requires
        e < info.supertypes@.len(),
    ensures
        r == info.entry_has_subtype(e as int, label@),
{
    let entry = &info.supertypes[e];
    let mut i: usize = 0;
    while i < entry.subtypes.len()
        invariant
            i <= entry.subtypes@.len(),
            entry == &info.supertypes@[e as int],
            forall|j: int| 0 <= j < i ==> entry.subtypes@[j]@.label != label@,
        decreases entry.subtypes@.len() - i,
    {
        if crate::strings::str_eq(entry.subtypes[i].label.as_str(), label) {
            return true;
        }
        i += 1;
    }
    false
}

} // verus!

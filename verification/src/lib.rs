//! A verified core for a language server over the tree-sitter query DSL.
//!
//! The library models documents as sequences of characters and proves the
//! coordinate conversions (bytes, UTF-16 code units, grammar points), the
//! incremental edit pipeline, the diagnostics interpretation, the
//! rule-directed formatter and the diff-to-edit translation against exact
//! contracts.  Calls into the surrounding ecosystem (ropey, tree-sitter,
//! dissimilar, dashmap) stand behind small trusted wrappers.

pub mod diagnostics;
pub mod document;
pub mod differ;
pub mod format;
pub mod position;
pub mod rope;
pub mod semantic_tokens;
pub mod strings;
pub mod text;
pub mod tstree;
pub mod types;
pub mod util;

//! Generation of TXL grammars from tree-sitter JSON grammars.
//!
//! A tree-sitter grammar is a set of named rules, each a tree of rule nodes
//! (`SEQ`, `CHOICE`, `REPEAT`, `SYMBOL`, ...).  Two generators turn such a
//! grammar into TXL `define` (or `redefine`) statements: the first keeps the
//! concrete tokens of the language, the second refines a grammar of
//! tree-sitter S-expressions.  Both write the auxiliary `seq_N` definitions that
//! repeated sequences and choices need into a second text.

pub mod ids;
pub mod text;
pub mod json;
pub mod grammar;
pub mod decode;
pub mod first;
pub mod second;
pub mod laws;
pub mod layout;

//! A rule-based checker and auto-corrector for Greek orthography.
//!
//! The library tokenizes UTF-8 text into byte-exact, classified spans,
//! runs a configurable set of diagnostic rules over one text snapshot,
//! and can rewrite the text to a fixed point by repeatedly applying the
//! proposed fixes, bounded by an iteration cap.

pub mod chars;
pub mod cli;
pub mod diagnostic;
pub mod greek;
pub mod linter;
pub mod paint;
pub mod range;
pub mod rules;
pub mod registry;
pub mod syllables;
pub mod tokenizer;

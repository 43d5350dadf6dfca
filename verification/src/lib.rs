//! Analysis core of a language server for the RADS scripting language.
//!
//! The library analyzes a document's full text and produces diagnostics,
//! quick fixes, refactoring commands and symbol information. All positions
//! are zero-based line/character coordinates over the current text.

pub mod actions;
pub mod analysis;
pub mod diag;
pub mod engine;
pub mod refactor;
pub mod text;

//! A small regular-expression engine for a subset of POSIX extended syntax.
//!
//! A pattern string is parsed into a tree of matchers (character classes,
//! anchors, capture groups with alternation, quantifiers, back-references),
//! and the tree is evaluated against input lines by a backtracking search.
//! The parser is verified against a functional description of the grammar,
//! and the matcher engine against a step-indexed functional description of
//! the search.

pub mod ast;
pub mod backtrack;
pub mod class;
pub mod cursor;
pub mod engine;
pub mod grammar;
pub mod laws;
pub mod parse;
pub mod pattern;
pub mod sem;

pub use pattern::Pattern;

pub use ast::Error;
pub use ast::Matcher;
pub use ast::SingleCharacterMatcher;

//! Lexical and shallow-syntactic front end for a small experimental language.
//!
//! Source text is turned into a sequence of typed tokens by an ordered chain
//! of character-class sub-scanners, and short token runs are then grouped into
//! a handful of shallow expression shapes (definitions, function calls,
//! comment runs).

pub mod laws;
pub mod parsers;
pub mod text;
pub mod tokens;

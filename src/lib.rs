//! A literal-value engine for a small query language: grammars, interpretations and
//! canonical serializations of integer, floating-point and string literals.
pub mod literals;
pub mod storage;
mod text;

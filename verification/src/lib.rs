//! Tools for tables of text. The heart of the crate is the language of row
//! filters in [`filter`]: its grammar as functions on texts, a compiler that
//! is proved to follow it, and the evaluation of a compiled filter on a row.
pub mod chart;
pub mod filter;
pub mod number;
pub mod sql;
pub mod table;
pub mod text;

//! Row filters: a small language of comparisons joined by `AND`, `OR` and
//! parentheses, compiled once against the column names of a table and then
//! evaluated on each row.
//!
//! [`parse`] compiles a filter text into an [`Expr`] or rejects it with a
//! [`CompileError`]; what it yields is stated by the functions of
//! [`grammar`]. [`Expr::eval`] decides whether the filter holds on a row.
//!
//! A comparison is numeric where both the field and the literal read as
//! numbers, and textual otherwise. Reading a text as a number is left to the
//! caller: evaluation takes, beside the row, what each field of the row reads
//! as, and what each literal of [`Expr::literals`] reads as, each as a
//! [`Number`](crate::number::Number) or as none.
//!
//! What holds of every filter is proved in [`laws`].
pub mod error;
pub mod expr;
pub mod grammar;
pub mod laws;
pub mod parse;

pub use self::error::CompileError;
pub use self::expr::{Expr, Op, Pred};
pub use self::parse::parse;

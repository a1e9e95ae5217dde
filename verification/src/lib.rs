//! Reading dictionary-encoded columns.
//!
//! A dictionary column stores its distinct values once and, for every row, a code that
//! names one of them. The reader in this crate decides how an expression over such a
//! column is evaluated: which part of it runs once per distinct value, which part runs
//! once per row, and which of the values already computed can be used again.
pub mod cache;
pub mod dtype;
pub mod expr;
pub mod functions;
pub mod key;
pub mod mask;
pub mod matcher;
pub mod pushdown;
pub mod ranges;
pub mod reader;
pub mod rows;
pub mod semantics;

//! A verified evaluator for flat infix arithmetic expressions.
//!
//! The pipeline has two stages: a tokenizer that turns the expression
//! string into an alternating sequence of number and operator tokens
//! closed by an `=` sentinel, and a reducer that collapses the sequence
//! tier by tier (`^` first, then `*` and `/`, then `+` and `-`), left to
//! right within each tier, until a single value remains.
//!
//! Numeric values are kept symbolic: a value is either a validated
//! numeric literal or the application of an arithmetic operator to two
//! earlier values. The verified contracts pin down exactly which
//! applications are built and in which order; folding the resulting tree
//! into a machine float is left to unverified callers, since
//! floating-point arithmetic is outside what the verifier can model.

pub mod evaluate;
pub mod laws;
pub mod reducer;
pub mod tokenizer;
pub mod tokens;

pub use tokens::Operator;
pub use tokens::Token;
pub use tokens::Value;

//! A verified expression-compilation and evaluation engine.
//!
//! Text such as `2+5*6^2` is compiled — lexed, expanded with implicit
//! multiplications, and converted by the shunting-yard algorithm — into an
//! immutable postfix [`expression::Expression`], which is then evaluated any
//! number of times against per-call variable bindings.
//!
//! Numeric values travel as `u64` IEEE 754 double-precision bit patterns:
//! this crate proves every structural step — tokenization, conversion, stack
//! discipline, argument order, the error taxonomy — and leaves the
//! floating-point arithmetic itself to the caller, who is handed one
//! operation at a time by the step-wise evaluator in [`eval`].

pub mod bindings;
pub mod bits;
pub mod convert;
pub mod errors;
pub mod eval;
pub mod expand;
pub mod expression;
pub mod laws;
pub mod lexer;
pub mod operator;
pub mod token;

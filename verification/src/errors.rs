//! The two disjoint error families: failures of compilation and failures of a
//! single evaluation.
use vstd::prelude::*;

verus! {

/// Why a piece of text could not be compiled into an expression.
///
/// A parse error aborts compilation entirely; nothing partial is returned.
#[derive(Clone, Copy, Debug, PartialEq, Eq, Structural)]
pub enum ParseError {
    /// A symbol that the lexer recognizes no token in.
    ///
    /// The lexer falls back to reading any single non-whitespace character as
    /// a variable, so no input currently produces this; the variant completes
    /// the taxonomy for callers that match on it.
    UnrecognizedSymbol,
    /// A right parenthesis closed a group that was never opened.
    MissingLeftParenthesis,
    /// A left parenthesis opened a group that was never closed.
    MissingRightParenthesis,
}

/// Why one evaluation of an otherwise well-formed expression failed.
///
/// An evaluation error aborts that single evaluation only; the expression
/// stays valid and can be evaluated again, for instance with the missing
/// variable bound.
#[derive(Clone, Copy, Debug, PartialEq, Eq, Structural)]
pub enum EvalError {
    /// A variable token had no value in the supplied bindings.
    UndefinedVariable(char),
    /// An operator or function found fewer values on the stack than its
    /// arity requires.
    StackUnderflow,
    /// The token sequence left no value on the stack.
    EmptyResult,
    /// The token sequence left more than one value on the stack, as when two
    /// constants stand with nothing to connect them.
    LeftoverValues,
}

} // verus!

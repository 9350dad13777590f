//! The `Expression` aggregate: an immutable postfix token sequence, built
//! once by the compile pipeline and evaluated any number of times.
use vstd::prelude::*;

use crate::bindings::Bindings;
use crate::convert::spec_to_postfix;
use crate::convert::to_postfix;
use crate::errors::ParseError;
use crate::eval::spec_bindings_map;
use crate::eval::Evaluator;
use crate::expand::process_implicit;
use crate::expand::spec_expand;
use crate::lexer::lex_str;
use crate::lexer::spec_lex;
use crate::lexer::RawToken;
use crate::token::Token;

verus! {

/// What converting an infix token sequence yields: the implicit
/// multiplications are made explicit, then the shunting-yard algorithm
/// produces the postfix form or rejects a parenthesis mismatch.
pub open spec fn spec_from_infix(ts: Seq<Token>) -> Result<Seq<Token>, ParseError> {
    spec_to_postfix(spec_expand(ts))
}

/// An immutable sequence of tokens in postfix (reverse Polish) order.
///
/// Nothing is checked at construction: a sequence that is not a valid
/// postfix program is rejected lazily, by the evaluator, with the fitting
/// evaluation error.  The view of an expression is its token sequence.
#[derive(Debug)]
pub struct Expression {
    tokens: Vec<Token>,
}

impl View for Expression {
    type V = Seq<Token>;

    closed spec fn view(&self) -> Seq<Token> {
        self.tokens@
    }
}

impl Expression {
    /// Makes an `Expression` from a vector of `Token`s already in postfix
    /// order.
    pub fn new(tokens: Vec<Token>) -> (r: Expression)
        ensures
            r@ == tokens@,
    {
        Expression { tokens }
    }

    /// Makes an `Expression` from a vector of `Token`s organized using
    /// infix notation: implicit multiplications are inserted, then the
    /// shunting-yard conversion runs.
    ///
    /// Fails with the fitting parse error when the parentheses do not
    /// match.
    pub fn new_from_infix(tokens: Vec<Token>) -> (r: Result<Expression, ParseError>)
        ensures
            match r {
                Ok(e) => spec_from_infix(tokens@) == Ok::<Seq<Token>, ParseError>(e@),
                Err(pe) => spec_from_infix(tokens@) == Err::<Seq<Token>, ParseError>(pe),
            },
    {
        let expanded = process_implicit(&tokens);
        match to_postfix(&expanded) {
            Ok(v) => Ok(Expression { tokens: v }),
            Err(pe) => Err(pe),
        }
    }

    /// Makes a vector of infix raw tokens from a string.
    ///
    /// Lexing is total — every character either begins a token or is
    /// whitespace — so this never actually fails; the `Result` is the shape
    /// callers of a lexer expect.  Numeric literals come back as spans of
    /// the input (see [`RawToken::Number`]); the caller turns each span
    /// into a constant's bit pattern and builds the final token vector with
    /// [`crate::lexer::tokens_from_raw`].
    pub fn infix_tokens_from_str(input: &str) -> (r: Result<Vec<RawToken>, ParseError>)
        ensures
            r matches Ok(v) && v@ == spec_lex(input@),
    {
        Ok(lex_str(input))
    }

    /// The postfix token sequence, for callers that display or transform
    /// an expression.
    pub fn tokens(&self) -> (r: &Vec<Token>)
        ensures
            r@ == self@,
    {
        &self.tokens
    }

    /// Begins one evaluation of this expression against the given
    /// bindings; `None` means no bindings at all, so that every variable
    /// is undefined.
    ///
    /// The returned machine hands the caller one floating-point operation
    /// at a time; see [`crate::eval`].
    pub fn evaluator<'a>(&'a self, variables: Option<&'a Bindings>) -> (r: Evaluator<'a>)
        ensures
            r.wf(),
            !r.awaiting(),
            r.toks() == self@,
            r.bindings_map() == spec_bindings_map(variables),
            r.consumed() == Seq::<u64>::empty(),
            r.cursor() == 0,
            r.values() == Seq::<u64>::empty(),
    {
        Evaluator::new(&self.tokens, variables)
    }
}

impl Clone for Expression {
    /// An expression is duplicated by copying its token sequence; the copy
    /// has the same view.
    fn clone(&self) -> (r: Expression)
        ensures
            r@ == self@,
    {
        Expression { tokens: self.tokens.clone() }
    }
}

} // verus!

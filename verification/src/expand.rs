//! The implicit-multiplication expander: a synthetic `*` is inserted at every
//! juxtaposition boundary, so that `2(3+4)`, `xy`, `2Pi` and `x sin(x)` read
//! as products.
//!
//! The rule is purely local: between an adjacent pair of tokens a
//! multiplication appears exactly when the left one ends a value (a constant,
//! a variable, a right parenthesis, or a nullary function such as `Pi`) and
//! the right one begins a value (a constant, a variable, a function, or a
//! left parenthesis).  The result is never shorter than the input.
use vstd::prelude::*;

use crate::operator::function_arity;
use crate::operator::Operator;
use crate::token::ParenthesisDirection;
use crate::token::Token;

verus! {

/// Whether a token can end the left-hand side of an implicit multiplication.
pub open spec fn ends_value(t: Token) -> bool {
    match t {
        Token::Constant(_) | Token::Variable(_) => true,
        Token::Parenthesis(d) => d == ParenthesisDirection::Right,
        Token::Function(f) => function_arity(f) == 0,
        Token::Operator(_) => false,
    }
}

/// Whether a token can begin the right-hand side of an implicit
/// multiplication.
pub open spec fn begins_value(t: Token) -> bool {
    match t {
        Token::Constant(_) | Token::Variable(_) | Token::Function(_) => true,
        Token::Parenthesis(d) => d == ParenthesisDirection::Left,
        Token::Operator(_) => false,
    }
}

/// Whether a multiplication is inserted between this adjacent pair.
pub open spec fn needs_mul(prev: Token, next: Token) -> bool {
    ends_value(prev) && begins_value(next)
}

/// The expanded sequence from position `i` on: each token of the input,
/// preceded by a synthetic `*` wherever the pair rule asks for one.
pub open spec fn spec_expand_from(ts: Seq<Token>, i: int) -> Seq<Token>
    decreases ts.len() - i,
{
    if i < 0 || i >= ts.len() {
        Seq::empty()
    } else {
        let here = if i > 0 && needs_mul(ts[i - 1], ts[i]) {
            seq![Token::Operator(Operator::Mul), ts[i]]
        } else {
            seq![ts[i]]
        };
        here + spec_expand_from(ts, i + 1)
    }
}

/// The input with every implicit multiplication made explicit.
pub open spec fn spec_expand(ts: Seq<Token>) -> Seq<Token> {
    spec_expand_from(ts, 0)
}

fn ends_value_exec(t: &Token) -> (r: bool)
    ensures
        r == ends_value(*t),
{
    match t {
        Token::Constant(_) | Token::Variable(_) => true,
        Token::Parenthesis(d) => matches!(d, ParenthesisDirection::Right),
        Token::Function(f) => f.get_parameters() < 1,
        Token::Operator(_) => false,
    }
}

fn begins_value_exec(t: &Token) -> (r: bool)
    ensures
        r == begins_value(*t),
{
    match t {
        Token::Constant(_) | Token::Variable(_) | Token::Function(_) => true,
        Token::Parenthesis(d) => matches!(d, ParenthesisDirection::Left),
        Token::Operator(_) => false,
    }
}

/// Adds the implicit multiplication tokens.
pub(crate) fn process_implicit(input: &Vec<Token>) -> (r: Vec<Token>)
    ensures
        r@ == spec_expand(input@),
{
    let mut result: Vec<Token> = Vec::new();
    let mut i: usize = 0;
    while i < input.len()
        invariant
            i <= input@.len(),
            result@ + spec_expand_from(input@, i as int) == spec_expand(input@),
        decreases input@.len() - i,
    {
        let ghost prev_result = result@;
        let token = input[i];
        if i > 0 && ends_value_exec(&input[i - 1]) && begins_value_exec(&input[i]) {
            result.push(Token::Operator(Operator::Mul));
        }
        result.push(token);
        proof {
            let ii = i as int;
            let here = if ii > 0 && needs_mul(input@[ii - 1], input@[ii]) {
                seq![Token::Operator(Operator::Mul), input@[ii]]
            } else {
                seq![input@[ii]]
            };
            assert(result@ =~= prev_result + here);
            assert(prev_result + spec_expand_from(input@, ii) =~= result@ + spec_expand_from(
                input@,
                ii + 1,
            ));
        }
        i = i + 1;
    }
    assert(result@ =~= spec_expand(input@));
    result
}

} // verus!

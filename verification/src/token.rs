//! The token alphabet that expressions are made of.
use vstd::prelude::*;

use crate::operator::Function;
use crate::operator::Operator;

verus! {

/// Which way a parenthesis faces.
#[derive(Clone, Copy, Debug, PartialEq, Eq, Structural)]
pub enum ParenthesisDirection {
    Left,
    Right,
}

impl ParenthesisDirection {
    /// The direction for a parenthesis character, if the character is one.
    pub fn from_symbol(c: char) -> (r: Option<ParenthesisDirection>)
        ensures
            r == Self::spec_from_symbol(c),
    {
        match c {
            '(' => Some(ParenthesisDirection::Left),
            ')' => Some(ParenthesisDirection::Right),
            _ => None,
        }
    }

    /// Which direction, if any, a parenthesis character denotes.
    pub open spec fn spec_from_symbol(c: char) -> Option<ParenthesisDirection> {
        if c == '(' {
            Some(ParenthesisDirection::Left)
        } else if c == ')' {
            Some(ParenthesisDirection::Right)
        } else {
            None
        }
    }
}

/// One element of an expression.
///
/// A `Constant` carries the IEEE 754 bit pattern of its double-precision
/// value, so that the token is a plain, structurally comparable value; the
/// arithmetic that interprets such bit patterns is the caller's (see
/// [`crate::eval`]).
#[derive(Clone, Copy, Debug, PartialEq, Eq, Structural)]
pub enum Token {
    /// A numeric constant, as the bit pattern of a double-precision value.
    Constant(u64),
    /// A single-character variable, resolved against the bindings at
    /// evaluation time.
    Variable(char),
    Operator(Operator),
    Function(Function),
    Parenthesis(ParenthesisDirection),
}

impl Token {
    /// Whether the token stands for a value: a constant or a variable.
    pub fn is_value(&self) -> (r: bool)
        ensures
            r == self.spec_is_value(),
    {
        matches!(self, Token::Constant(_) | Token::Variable(_))
    }

    /// Whether the token is an operator.
    pub fn is_operator(&self) -> (r: bool)
        ensures
            r == (self is Operator),
    {
        matches!(self, Token::Operator(_))
    }

    /// Whether the token is a function.
    pub fn is_function(&self) -> (r: bool)
        ensures
            r == (self is Function),
    {
        matches!(self, Token::Function(_))
    }

    /// Whether the token stands for a value: a constant or a variable.
    pub open spec fn spec_is_value(&self) -> bool {
        self is Constant || self is Variable
    }
}

} // verus!

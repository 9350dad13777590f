//! The symbol table: every operator and function the calculator knows,
//! together with its arity, precedence and associativity.
use vstd::prelude::*;

verus! {

/// A binary or unary operator symbol, such as `+` or `^`.
///
/// `Rot` is the root operator `√` (the a-th root of b), `Unp` and `Unm` are
/// unary plus and unary minus.  Named functions such as `sin` live in
/// [`Function`].
#[derive(Clone, Copy, Debug, PartialEq, Eq, Structural)]
pub enum Operator {
    Add,
    Sub,
    Mul,
    Div,
    Mod,
    Pow,
    Rot,
    Unp,
    Unm,
}

/// A named function such as `sin`, or a nullary constant such as `Pi`.
#[derive(Clone, Copy, Debug, PartialEq, Eq, Structural)]
pub enum Function {
    Sin,
    Cos,
    Tan,
    Csc,
    Sec,
    Cot,
    Log,
    Ln,
    Abs,
    Sgn,
    Pi,
    E,
}

/// How operators of equal precedence group in the absence of parentheses.
#[derive(Clone, Copy, Debug, PartialEq, Eq, Structural)]
pub enum OperatorAssociativity {
    Left,
    Right,
}

/// How many operands an operator consumes.
pub open spec fn operator_arity(o: Operator) -> nat {
    match o {
        Operator::Add | Operator::Sub | Operator::Mul | Operator::Div | Operator::Mod
            | Operator::Pow | Operator::Rot => 2,
        Operator::Unp | Operator::Unm => 1,
    }
}

/// The binding strength of an operator; higher binds tighter.
pub open spec fn operator_precedence(o: Operator) -> nat {
    match o {
        Operator::Add | Operator::Sub => 2,
        Operator::Mul | Operator::Div | Operator::Mod => 3,
        Operator::Pow | Operator::Rot => 5,
        Operator::Unp | Operator::Unm => 7,
    }
}

/// The associativity of an operator.
pub open spec fn operator_associativity(o: Operator) -> OperatorAssociativity {
    match o {
        Operator::Add | Operator::Sub | Operator::Mul | Operator::Div | Operator::Mod
            => OperatorAssociativity::Left,
        Operator::Pow | Operator::Rot | Operator::Unp | Operator::Unm
            => OperatorAssociativity::Right,
    }
}

/// How many operands a function consumes; the nullary constants consume none.
pub open spec fn function_arity(f: Function) -> nat {
    match f {
        Function::Pi | Function::E => 0,
        _ => 1,
    }
}

impl Operator {
    /// The operator for a single symbol character, if the character is one.
    pub fn from_symbol(c: char) -> (r: Option<Operator>)
        ensures
            r == Self::spec_from_symbol(c),
    {
        match c {
            '+' => Some(Operator::Add),
            '-' => Some(Operator::Sub),
            '*' => Some(Operator::Mul),
            '/' => Some(Operator::Div),
            '%' => Some(Operator::Mod),
            '^' => Some(Operator::Pow),
            '√' => Some(Operator::Rot),
            _ => None,
        }
    }

    /// Which operator, if any, a symbol character denotes.
    pub open spec fn spec_from_symbol(c: char) -> Option<Operator> {
        if c == '+' {
            Some(Operator::Add)
        } else if c == '-' {
            Some(Operator::Sub)
        } else if c == '*' {
            Some(Operator::Mul)
        } else if c == '/' {
            Some(Operator::Div)
        } else if c == '%' {
            Some(Operator::Mod)
        } else if c == '^' {
            Some(Operator::Pow)
        } else if c == '√' {
            Some(Operator::Rot)
        } else {
            None
        }
    }

    /// Gets the amount of parameters an operator requires.
    pub fn get_parameters(&self) -> (r: usize)
        ensures
            r == operator_arity(*self),
    {
        match self {
            Operator::Add | Operator::Sub | Operator::Mul | Operator::Div | Operator::Mod
                | Operator::Pow | Operator::Rot => 2,
            Operator::Unp | Operator::Unm => 1,
        }
    }

    /// Gets the precedence of an operator; higher binds tighter.
    pub fn get_precedence(&self) -> (r: usize)
        ensures
            r == operator_precedence(*self),
    {
        match self {
            Operator::Add | Operator::Sub => 2,
            Operator::Mul | Operator::Div | Operator::Mod => 3,
            Operator::Pow | Operator::Rot => 5,
            Operator::Unp | Operator::Unm => 7,
        }
    }

    /// Gets the associativity of an operator.
    pub fn get_associativity(&self) -> (r: OperatorAssociativity)
        ensures
            r == operator_associativity(*self),
    {
        match self {
            Operator::Add | Operator::Sub | Operator::Mul | Operator::Div | Operator::Mod
                => OperatorAssociativity::Left,
            Operator::Pow | Operator::Rot | Operator::Unp | Operator::Unm
                => OperatorAssociativity::Right,
        }
    }
}

impl Function {
    /// Gets the amount of parameters a function requires; 0 for the nullary
    /// constants `Pi` and `E`.
    pub fn get_parameters(&self) -> (r: usize)
        ensures
            r == function_arity(*self),
    {
        match self {
            Function::Pi | Function::E => 0,
            _ => 1,
        }
    }

    /// Gets the precedence of a function.
    ///
    /// For stack-resolution purposes functions always outrank operators: the
    /// infix-to-postfix conversion pops a function from the operator stack
    /// before any comparison of this number is reached, so the value itself is
    /// never consulted there.
    pub fn get_precedence(&self) -> (r: usize)
        ensures
            r == 4,
    {
        4
    }
}

} // verus!

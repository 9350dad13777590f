//! Laws of the evaluator, stated and proved over the specification the
//! executable machine is verified against.
use vstd::prelude::*;

use crate::convert::lemma_parentheses_decide_conversion;
use crate::convert::lemma_scan_parens_append;
use crate::convert::paren_verdict;
use crate::convert::scan_parens;
use crate::errors::EvalError;
use crate::errors::ParseError;
use crate::eval::drive;
use crate::eval::internal_result;
use crate::eval::token_arity;
use crate::eval::oracle_run;
use crate::eval::spec_eval;
use crate::eval::DriveStep;
use crate::expand::needs_mul;
use crate::expand::spec_expand;
use crate::expand::spec_expand_from;
use crate::expression::spec_from_infix;
use crate::operator::Operator;
use crate::token::Token;

verus! {

/// Scanning one token adjusts the depth, or rejects a right parenthesis
/// at depth zero.
proof fn lemma_scan_parens_single(t: Token, depth: int)
    ensures
        scan_parens(seq![t], depth) == (match t {
            Token::Parenthesis(d) => if d == crate::token::ParenthesisDirection::Left {
                Ok::<int, ParseError>(depth + 1)
            } else if depth == 0 {
                Err::<int, ParseError>(ParseError::MissingLeftParenthesis)
            } else {
                Ok::<int, ParseError>(depth - 1)
            },
            _ => Ok::<int, ParseError>(depth),
        }),
{
    let one = seq![t];
    assert(one[0] == t);
    assert(one.drop_first() =~= Seq::<Token>::empty());
    match t {
        Token::Parenthesis(d) => {
            if d == crate::token::ParenthesisDirection::Left {
                assert(scan_parens(Seq::<Token>::empty(), depth + 1) == Ok::<int, ParseError>(
                    depth + 1,
                ));
            } else if depth != 0 {
                assert(scan_parens(Seq::<Token>::empty(), depth - 1) == Ok::<int, ParseError>(
                    depth - 1,
                ));
            }
        },
        _ => {
            assert(scan_parens(Seq::<Token>::empty(), depth) == Ok::<int, ParseError>(depth));
        },
    }
}

/// The implicit-multiplication expander inserts only multiplication
/// operators, so it leaves the parenthesis scan of a sequence untouched.
proof fn lemma_expand_preserves_scan(ts: Seq<Token>, i: int, depth: int)
    requires
        0 <= i <= ts.len(),
    ensures
        scan_parens(spec_expand_from(ts, i), depth) == scan_parens(ts.skip(i), depth),
    decreases ts.len() - i,
{
    if i >= ts.len() {
        assert(ts.skip(i) =~= Seq::<Token>::empty());
        assert(spec_expand_from(ts, i) == Seq::<Token>::empty());
    } else {
        let mul = Token::Operator(Operator::Mul);
        let one = seq![ts[i]];
        let rest = spec_expand_from(ts, i + 1);
        if i > 0 && needs_mul(ts[i - 1], ts[i]) {
            assert(spec_expand_from(ts, i) =~= seq![mul] + (one + rest));
            lemma_scan_parens_append(seq![mul], one + rest, depth);
            lemma_scan_parens_single(mul, depth);
        } else {
            assert(spec_expand_from(ts, i) =~= one + rest);
        }
        lemma_scan_parens_append(one, rest, depth);
        lemma_scan_parens_single(ts[i], depth);
        assert(ts.skip(i)[0] == ts[i]);
        assert(ts.skip(i).drop_first() =~= ts.skip(i + 1));
        match ts[i] {
            Token::Parenthesis(d) => {
                if d == crate::token::ParenthesisDirection::Left {
                    lemma_expand_preserves_scan(ts, i + 1, depth + 1);
                } else if depth != 0 {
                    lemma_expand_preserves_scan(ts, i + 1, depth - 1);
                }
            },
            _ => {
                lemma_expand_preserves_scan(ts, i + 1, depth);
            },
        }
    }
}

/// Mismatched parentheses are rejected, and nothing else is: building an
/// expression from infix tokens fails with `MissingLeftParenthesis` exactly
/// when a right parenthesis closes a group that was never opened, with
/// `MissingRightParenthesis` exactly when a group is never closed, and
/// succeeds on every other sequence.
pub proof fn lemma_parentheses_decide_compilation(ts: Seq<Token>)
    ensures
        match paren_verdict(ts, 0) {
            Some(e) => spec_from_infix(ts) == Err::<Seq<Token>, ParseError>(e),
            None => spec_from_infix(ts) is Ok,
        },
{
    assert(ts.skip(0) =~= ts);
    lemma_expand_preserves_scan(ts, 0, 0);
    lemma_parentheses_decide_conversion(spec_expand(ts));
}

/// Evaluation is deterministic and side-effect-free: the verdict of a run
/// is a function of the token sequence, the bindings, and the arithmetic
/// results supplied, and of nothing else — two runs given the same three
/// yield the same result.
pub proof fn lemma_evaluate_deterministic(
    ts: Seq<Token>,
    vars: Option<Map<char, u64>>,
    oracle: Seq<u64>,
    r1: Option<Result<u64, EvalError>>,
    r2: Option<Result<u64, EvalError>>,
)
    requires
        r1 == spec_eval(ts, vars, oracle),
        r2 == spec_eval(ts, vars, oracle),
    ensures
        r1 == r2,
{
}

/// A division's value is never inspected: whatever the floating-point unit
/// produced for `a / b` — an infinity or a NaN included — evaluation of
/// `a b ÷` returns exactly that value, never an error.
pub proof fn lemma_division_value_returned(
    a: u64,
    b: u64,
    vars: Option<Map<char, u64>>,
    q: u64,
)
    ensures
        spec_eval(
            seq![Token::Constant(a), Token::Constant(b), Token::Operator(Operator::Div)],
            vars,
            seq![q],
        ) == Some(Ok::<u64, EvalError>(q)),
{
    let ts = seq![Token::Constant(a), Token::Constant(b), Token::Operator(Operator::Div)];
    let e: Seq<u64> = Seq::empty();
    let st = e.push(a).push(b);
    assert(drive(ts, 0, e, vars) == drive(ts, 1, e.push(a), vars));
    assert(drive(ts, 1, e.push(a), vars) == drive(ts, 2, st, vars));
    assert(st.subrange(0, 0) =~= e);
    assert(st.subrange(0, 2) =~= st);
    assert(drive(ts, 2, st, vars) == (DriveStep::Apply { at: 2, stack: e, args: st }));
    let after = seq![q];
    assert(after.drop_first() =~= Seq::<u64>::empty());
    assert(e.push(q).len() == 1);
    assert(drive(ts, 3, e.push(q), vars) == (DriveStep::Complete {
        result: Ok::<u64, EvalError>(q),
    }));
    assert(oracle_run(ts, 3, e.push(q), vars, Seq::<u64>::empty()) == Some(
        Ok::<u64, EvalError>(q),
    ));
    assert(oracle_run(ts, 0, e, vars, after) == oracle_run(
        ts,
        3,
        e.push(after[0]),
        vars,
        after.drop_first(),
    ));
    assert(after[0] == q);
}

/// Malformed operator arity is rejected at evaluation: a postfix sequence
/// `a ÷ ÷ b` asks the first division for two operands when only one value
/// is on the stack, so every run fails with `StackUnderflow`, whatever
/// arithmetic results are on offer.
pub proof fn lemma_missing_operand_underflows(
    a: u64,
    b: u64,
    vars: Option<Map<char, u64>>,
    oracle: Seq<u64>,
)
    ensures
        spec_eval(
            seq![
                Token::Constant(a),
                Token::Operator(Operator::Div),
                Token::Operator(Operator::Div),
                Token::Constant(b),
            ],
            vars,
            oracle,
        ) == Some(Err::<u64, EvalError>(EvalError::StackUnderflow)),
{
    let ts = seq![
        Token::Constant(a),
        Token::Operator(Operator::Div),
        Token::Operator(Operator::Div),
        Token::Constant(b),
    ];
    let e: Seq<u64> = Seq::empty();
    assert(drive(ts, 0, e, vars) == drive(ts, 1, e.push(a), vars));
    assert(e.push(a).len() == 1);
    assert(drive(ts, 1, e.push(a), vars) == (DriveStep::Complete {
        result: Err::<u64, EvalError>(EvalError::StackUnderflow),
    }));
}

/// Whether the caller supplied no bindings, or bindings that bind nothing.
pub open spec fn binds_nothing(vars: Option<Map<char, u64>>) -> bool {
    match vars {
        Some(m) => m.dom() == Set::<char>::empty(),
        None => true,
    }
}

/// The machine never carries a run across an unbound variable: with empty
/// bindings, a run from before a variable token either fails or pauses for
/// arithmetic still before it.
proof fn lemma_drive_stops_at_unbound_var(
    ts: Seq<Token>,
    i: int,
    stack: Seq<u64>,
    vars: Option<Map<char, u64>>,
    j: int,
)
    requires
        0 <= i <= j < ts.len(),
        ts[j] is Variable,
        binds_nothing(vars),
    ensures
        match drive(ts, i, stack, vars) {
            DriveStep::Complete { result } => result is Err,
            DriveStep::Apply { at, .. } => i <= at < j,
        },
    decreases ts.len() - i,
{
    if i < j {
        match ts[i] {
            Token::Constant(b) => {
                lemma_drive_stops_at_unbound_var(ts, i + 1, stack.push(b), vars, j);
            },
            Token::Variable(_) => {
            },
            Token::Parenthesis(_) => {
                lemma_drive_stops_at_unbound_var(ts, i + 1, stack, vars, j);
            },
            Token::Operator(_) | Token::Function(_) => {
                let n = crate::eval::token_arity(ts[i]) as int;
                if stack.len() >= n {
                    let args = stack.subrange(stack.len() - n, stack.len() as int);
                    let rest = stack.subrange(0, stack.len() - n);
                    match crate::eval::internal_result(ts[i], args) {
                        Some(v) => {
                            lemma_drive_stops_at_unbound_var(ts, i + 1, rest.push(v), vars, j);
                        },
                        None => {
                        },
                    }
                }
            },
        }
    }
}

/// From any state before an unbound variable, no choice of arithmetic
/// results lets the run succeed.
proof fn lemma_unbound_variable_fails_from(
    ts: Seq<Token>,
    i: int,
    stack: Seq<u64>,
    vars: Option<Map<char, u64>>,
    oracle: Seq<u64>,
    j: int,
)
    requires
        0 <= i <= j < ts.len(),
        ts[j] is Variable,
        binds_nothing(vars),
    ensures
        !(oracle_run(ts, i, stack, vars, oracle) matches Some(Ok(_))),
    decreases oracle.len(),
{
    lemma_drive_stops_at_unbound_var(ts, i, stack, vars, j);
    match drive(ts, i, stack, vars) {
        DriveStep::Complete { result } => {
        },
        DriveStep::Apply { at, stack: rest, args } => {
            if oracle.len() > 0 {
                lemma_unbound_variable_fails_from(
                    ts,
                    at + 1,
                    rest.push(oracle[0]),
                    vars,
                    oracle.drop_first(),
                    j,
                );
            }
        },
    }
}

/// An expression that contains a variable cannot evaluate successfully
/// against bindings that bind nothing: whatever arithmetic results are
/// supplied, the run fails — with `UndefinedVariable` when it is the
/// variable itself that is reached first.
pub proof fn lemma_unbound_variable_fails(
    ts: Seq<Token>,
    vars: Option<Map<char, u64>>,
    oracle: Seq<u64>,
)
    requires
        exists|j: int| 0 <= j < ts.len() && ts[j] is Variable,
        binds_nothing(vars),
    ensures
        !(spec_eval(ts, vars, oracle) matches Some(Ok(_))),
{
    let j = choose|j: int| 0 <= j < ts.len() && ts[j] is Variable;
    lemma_unbound_variable_fails_from(ts, 0, Seq::empty(), vars, oracle, j);
}

/// A valid postfix program, by counter simulation: starting from `c`,
/// every value token adds one, every operator or function of arity `n`
/// needs `n` on the counter and replaces them with one result, parentheses
/// change nothing, and exactly one value must remain at the end.
pub open spec fn valid_postfix_from(ts: Seq<Token>, i: int, c: int) -> bool
    decreases ts.len() - i,
{
    if i < 0 || i >= ts.len() {
        c == 1
    } else {
        match ts[i] {
            Token::Constant(_) | Token::Variable(_) => valid_postfix_from(ts, i + 1, c + 1),
            Token::Operator(_) | Token::Function(_) => {
                let n = token_arity(ts[i]) as int;
                c >= n && valid_postfix_from(ts, i + 1, c - n + 1)
            },
            Token::Parenthesis(_) => valid_postfix_from(ts, i + 1, c),
        }
    }
}

/// Whether a token sequence is a valid postfix program.
pub open spec fn valid_postfix(ts: Seq<Token>) -> bool {
    valid_postfix_from(ts, 0, 0)
}

/// Whether a token's result comes from outside arithmetic rather than
/// from the machine itself.
pub open spec fn is_outside_op(t: Token) -> bool {
    match t {
        Token::Operator(o) => !(o == Operator::Unp || o == Operator::Unm),
        Token::Function(f) => !(f == crate::operator::Function::Abs || f
            == crate::operator::Function::Pi || f == crate::operator::Function::E),
        _ => false,
    }
}

/// How many outside operations the tokens from position `i` on hold: one
/// arithmetic answer is consumed for each.
pub open spec fn outside_ops_from(ts: Seq<Token>, i: int) -> nat
    decreases ts.len() - i,
{
    if i < 0 || i >= ts.len() {
        0
    } else {
        (if is_outside_op(ts[i]) {
            1nat
        } else {
            0nat
        }) + outside_ops_from(ts, i + 1)
    }
}

/// Whether every variable token has a value in the bindings.
pub open spec fn all_vars_bound(ts: Seq<Token>, vars: Option<Map<char, u64>>) -> bool {
    forall|j: int|
        0 <= j < ts.len() ==> (#[trigger] ts[j] matches Token::Variable(x) ==> vars matches Some(m)
            && m.dom().contains(x))
}

proof fn lemma_validity_decides_from(
    ts: Seq<Token>,
    i: int,
    stack: Seq<u64>,
    vars: Option<Map<char, u64>>,
    oracle: Seq<u64>,
)
    requires
        0 <= i <= ts.len(),
        all_vars_bound(ts, vars),
        oracle.len() >= outside_ops_from(ts, i),
    ensures
        valid_postfix_from(ts, i, stack.len() as int) <==> (oracle_run(ts, i, stack, vars, oracle)
            matches Some(Ok(_))),
    decreases ts.len() - i,
{
    if i < ts.len() {
        match ts[i] {
            Token::Constant(b) => {
                assert(drive(ts, i, stack, vars) == drive(ts, i + 1, stack.push(b), vars));
                assert(oracle_run(ts, i, stack, vars, oracle) == oracle_run(
                    ts,
                    i + 1,
                    stack.push(b),
                    vars,
                    oracle,
                ));
                lemma_validity_decides_from(ts, i + 1, stack.push(b), vars, oracle);
            },
            Token::Variable(x) => {
                assert(ts[i] matches Token::Variable(c) && vars matches Some(m)
                    && m.dom().contains(c));
                let m = vars->0;
                assert(drive(ts, i, stack, vars) == drive(ts, i + 1, stack.push(m[x]), vars));
                assert(oracle_run(ts, i, stack, vars, oracle) == oracle_run(
                    ts,
                    i + 1,
                    stack.push(m[x]),
                    vars,
                    oracle,
                ));
                lemma_validity_decides_from(ts, i + 1, stack.push(m[x]), vars, oracle);
            },
            Token::Parenthesis(_) => {
                assert(drive(ts, i, stack, vars) == drive(ts, i + 1, stack, vars));
                assert(oracle_run(ts, i, stack, vars, oracle) == oracle_run(
                    ts,
                    i + 1,
                    stack,
                    vars,
                    oracle,
                ));
                lemma_validity_decides_from(ts, i + 1, stack, vars, oracle);
            },
            Token::Operator(_) | Token::Function(_) => {
                let n = token_arity(ts[i]) as int;
                if stack.len() < n {
                    assert(!valid_postfix_from(ts, i, stack.len() as int));
                } else {
                    let args = stack.subrange(stack.len() - n, stack.len() as int);
                    let rest = stack.subrange(0, stack.len() - n);
                    match internal_result(ts[i], args) {
                        Some(v) => {
                            assert(!is_outside_op(ts[i]));
                            assert(drive(ts, i, stack, vars) == drive(
                                ts,
                                i + 1,
                                rest.push(v),
                                vars,
                            ));
                            assert(oracle_run(ts, i, stack, vars, oracle) == oracle_run(
                                ts,
                                i + 1,
                                rest.push(v),
                                vars,
                                oracle,
                            ));
                            lemma_validity_decides_from(ts, i + 1, rest.push(v), vars, oracle);
                        },
                        None => {
                            assert(is_outside_op(ts[i]));
                            assert(oracle.len() >= 1);
                            assert(oracle_run(ts, i, stack, vars, oracle) == oracle_run(
                                ts,
                                i + 1,
                                rest.push(oracle[0]),
                                vars,
                                oracle.drop_first(),
                            ));
                            lemma_validity_decides_from(
                                ts,
                                i + 1,
                                rest.push(oracle[0]),
                                vars,
                                oracle.drop_first(),
                            );
                        },
                    }
                }
            },
        }
    }
}

/// The lazily-checked well-formedness of an expression, made exact: when
/// every variable is bound and every outside operation gets an arithmetic
/// answer, evaluation succeeds exactly on the valid postfix programs —
/// and, by the error taxonomy, fails on every other sequence.
pub proof fn lemma_validity_decides_evaluation(
    ts: Seq<Token>,
    vars: Option<Map<char, u64>>,
    oracle: Seq<u64>,
)
    requires
        all_vars_bound(ts, vars),
        oracle.len() >= outside_ops_from(ts, 0),
    ensures
        valid_postfix(ts) <==> (spec_eval(ts, vars, oracle) matches Some(Ok(_))),
{
    lemma_validity_decides_from(ts, 0, Seq::empty(), vars, oracle);
}

} // verus!

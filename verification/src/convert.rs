//! The infix-to-postfix converter: the shunting-yard algorithm.
//!
//! One pass over the infix tokens maintains an operator stack and an output
//! sequence.  Values go straight to the output; functions and left
//! parentheses are pushed; an operator first pops every stack element that
//! outranks it — any function, or an operator of higher precedence, or one of
//! equal precedence that is left-associative — and is then pushed itself; a
//! right parenthesis pops to the output until its matching left parenthesis
//! is discarded.  At the end of input the stack is drained to the output.
//!
//! A right parenthesis that empties the stack without finding its partner
//! fails with `MissingLeftParenthesis`; a left parenthesis still on the stack
//! at the drain fails with `MissingRightParenthesis`.
use vstd::prelude::*;

use crate::errors::ParseError;
use crate::operator::operator_associativity;
use crate::operator::operator_precedence;
use crate::operator::Operator;
use crate::operator::OperatorAssociativity;
use crate::token::ParenthesisDirection;
use crate::token::Token;

verus! {

/// Whether the token on top of the operator stack outranks the incoming
/// operator `o`, and so must be popped to the output before `o` is pushed.
///
/// Functions always outrank an operator: that is what lets a function's
/// argument resolve without an explicit argument-list boundary.
pub open spec fn outranks(top: Token, o: Operator) -> bool {
    match top {
        Token::Function(_) => true,
        Token::Operator(o2) => operator_precedence(o2) > operator_precedence(o)
            || (operator_precedence(o2) == operator_precedence(o)
                && operator_associativity(o2) == OperatorAssociativity::Left),
        _ => false,
    }
}

/// Draining the operator stack after the last input token: every remaining
/// element goes to the output, unless a left parenthesis surfaces, which
/// means a group was never closed.
pub open spec fn spec_drain(stack: Seq<Token>, out: Seq<Token>) -> Result<
    Seq<Token>,
    ParseError,
>
    decreases stack.len(),
{
    if stack.len() == 0 {
        Ok(out)
    } else if stack.last() == Token::Parenthesis(ParenthesisDirection::Left) {
        Err(ParseError::MissingRightParenthesis)
    } else {
        spec_drain(stack.drop_last(), out.push(stack.last()))
    }
}

/// One step at a time, the state of the shunting-yard run on `ts` from
/// position `i`, with operator stack `stack` and output `out`.
pub open spec fn spec_convert_from(
    ts: Seq<Token>,
    i: int,
    stack: Seq<Token>,
    out: Seq<Token>,
) -> Result<Seq<Token>, ParseError>
    decreases ts.len() - i, stack.len(),
{
    if i < 0 || i >= ts.len() {
        spec_drain(stack, out)
    } else {
        match ts[i] {
            Token::Constant(_) | Token::Variable(_) => spec_convert_from(
                ts,
                i + 1,
                stack,
                out.push(ts[i]),
            ),
            Token::Operator(o) => if stack.len() > 0 && outranks(stack.last(), o) {
                spec_convert_from(ts, i, stack.drop_last(), out.push(stack.last()))
            } else {
                spec_convert_from(ts, i + 1, stack.push(ts[i]), out)
            },
            Token::Function(_) => spec_convert_from(ts, i + 1, stack.push(ts[i]), out),
            Token::Parenthesis(d) => if d == ParenthesisDirection::Left {
                spec_convert_from(ts, i + 1, stack.push(ts[i]), out)
            } else if stack.len() == 0 {
                Err(ParseError::MissingLeftParenthesis)
            } else if stack.last() == Token::Parenthesis(ParenthesisDirection::Left) {
                spec_convert_from(ts, i + 1, stack.drop_last(), out)
            } else {
                spec_convert_from(ts, i, stack.drop_last(), out.push(stack.last()))
            },
        }
    }
}

/// The postfix form of an infix token sequence, or the parenthesis mismatch
/// that prevents one.
pub open spec fn spec_to_postfix(ts: Seq<Token>) -> Result<Seq<Token>, ParseError> {
    spec_convert_from(ts, 0, Seq::empty(), Seq::empty())
}

fn outranks_exec(top: &Token, o: Operator) -> (r: bool)
    ensures
        r == outranks(*top, o),
{
    match top {
        Token::Function(_) => true,
        Token::Operator(o2) => o2.get_precedence() > o.get_precedence() || (o2.get_precedence()
            == o.get_precedence() && matches!(
            o2.get_associativity(),
            OperatorAssociativity::Left,
        )),
        _ => false,
    }
}

/// Runs the shunting-yard conversion.
pub(crate) fn to_postfix(tokens: &Vec<Token>) -> (r: Result<Vec<Token>, ParseError>)
    ensures
        match r {
            Ok(v) => spec_to_postfix(tokens@) == Ok::<Seq<Token>, ParseError>(v@),
            Err(e) => spec_to_postfix(tokens@) == Err::<Seq<Token>, ParseError>(e),
        },
{
    let ghost ts = tokens@;
    let mut op_stack: Vec<Token> = Vec::new();
    let mut result: Vec<Token> = Vec::new();
    let mut i: usize = 0;
    while i < tokens.len()
        invariant
            ts == tokens@,
            i <= ts.len(),
            spec_convert_from(ts, i as int, op_stack@, result@) == spec_to_postfix(ts),
        decreases ts.len() - i,
    {
        let token = tokens[i];
        match token {
            Token::Constant(_) | Token::Variable(_) => {
                result.push(token);
            },
            Token::Operator(o) => {
                while op_stack.len() > 0 && outranks_exec(&op_stack[op_stack.len() - 1], o)
                    invariant
                        ts == tokens@,
                        i < ts.len(),
                        ts[i as int] == Token::Operator(o),
                        spec_convert_from(ts, i as int, op_stack@, result@) == spec_to_postfix(
                            ts,
                        ),
                    decreases op_stack@.len(),
                {
                    let top = op_stack.pop().unwrap();
                    result.push(top);
                }
                op_stack.push(token);
            },
            Token::Function(_) => {
                op_stack.push(token);
            },
            Token::Parenthesis(d) => {
                match d {
                    ParenthesisDirection::Left => {
                        op_stack.push(token);
                    },
                    ParenthesisDirection::Right => {
                        loop
                            invariant_except_break
                                ts == tokens@,
                                i < ts.len(),
                                ts[i as int] == Token::Parenthesis(ParenthesisDirection::Right),
                                spec_convert_from(ts, i as int, op_stack@, result@)
                                    == spec_to_postfix(ts),
                            ensures
                                spec_convert_from(ts, i as int + 1, op_stack@, result@)
                                    == spec_to_postfix(ts),
                            decreases op_stack@.len(),
                        {
                            if op_stack.len() == 0 {
                                return Err(ParseError::MissingLeftParenthesis);
                            }
                            let top = op_stack.pop().unwrap();
                            if matches!(top, Token::Parenthesis(ParenthesisDirection::Left)) {
                                break ;
                            }
                            result.push(top);
                        }
                    },
                }
            },
        }
        i = i + 1;
    }
    while op_stack.len() > 0
        invariant
            ts == tokens@,
            spec_drain(op_stack@, result@) == spec_to_postfix(ts),
        decreases op_stack@.len(),
    {
        let ghost pre_stack = op_stack@;
        let top = op_stack.pop().unwrap();
        if matches!(top, Token::Parenthesis(ParenthesisDirection::Left)) {
            proof {
                assert(pre_stack.last() == Token::Parenthesis(ParenthesisDirection::Left));
                assert(spec_drain(pre_stack, result@) == Err::<Seq<Token>, ParseError>(
                    ParseError::MissingRightParenthesis,
                ));
            }
            return Err(ParseError::MissingRightParenthesis);
        }
        result.push(top);
    }
    Ok(result)
}

/// How many left parentheses a stack holds: exactly the groups opened and
/// not yet closed.
pub open spec fn paren_count(stack: Seq<Token>) -> nat
    decreases stack.len(),
{
    if stack.len() == 0 {
        0
    } else {
        paren_count(stack.drop_last()) + (if stack.last() == Token::Parenthesis(
            ParenthesisDirection::Left,
        ) {
            1nat
        } else {
            0nat
        })
    }
}

/// Scans a token sequence left to right keeping only the parenthesis
/// depth: the depth after the whole sequence, or the error of the first
/// right parenthesis that closes an unopened group.
pub open spec fn scan_parens(ts: Seq<Token>, depth: int) -> Result<int, ParseError>
    decreases ts.len(),
{
    if ts.len() == 0 {
        Ok(depth)
    } else {
        match ts[0] {
            Token::Parenthesis(d) => if d == ParenthesisDirection::Left {
                scan_parens(ts.drop_first(), depth + 1)
            } else if depth == 0 {
                Err(ParseError::MissingLeftParenthesis)
            } else {
                scan_parens(ts.drop_first(), depth - 1)
            },
            _ => scan_parens(ts.drop_first(), depth),
        }
    }
}

/// Whether the parentheses of a token sequence mismatch, and how: a right
/// parenthesis closing an unopened group, or groups left unclosed.
pub open spec fn paren_verdict(ts: Seq<Token>, depth: int) -> Option<ParseError> {
    match scan_parens(ts, depth) {
        Err(e) => Some(e),
        Ok(d) => if d > 0 {
            Some(ParseError::MissingRightParenthesis)
        } else {
            None
        },
    }
}

/// Scanning a concatenation scans the first part, then the second from the
/// depth the first one reached.
pub proof fn lemma_scan_parens_append(a: Seq<Token>, b: Seq<Token>, depth: int)
    ensures
        scan_parens(a + b, depth) == match scan_parens(a, depth) {
            Err(e) => Err::<int, ParseError>(e),
            Ok(d) => scan_parens(b, d),
        },
    decreases a.len(),
{
    if a.len() == 0 {
        assert(a + b =~= b);
    } else {
        assert((a + b)[0] == a[0]);
        assert((a + b).drop_first() =~= a.drop_first() + b);
        match a[0] {
            Token::Parenthesis(d) => {
                if d == ParenthesisDirection::Left {
                    lemma_scan_parens_append(a.drop_first(), b, depth + 1);
                } else if depth != 0 {
                    lemma_scan_parens_append(a.drop_first(), b, depth - 1);
                }
            },
            _ => {
                lemma_scan_parens_append(a.drop_first(), b, depth);
            },
        }
    }
}

proof fn lemma_paren_count_push(stack: Seq<Token>, t: Token)
    ensures
        paren_count(stack.push(t)) == paren_count(stack) + (if t == Token::Parenthesis(
            ParenthesisDirection::Left,
        ) {
            1nat
        } else {
            0nat
        }),
{
    assert(stack.push(t).drop_last() =~= stack);
}

/// The drain fails exactly when an unmatched left parenthesis is still on
/// the stack.
proof fn lemma_drain_verdict(stack: Seq<Token>, out: Seq<Token>)
    ensures
        paren_count(stack) > 0 ==> spec_drain(stack, out) == Err::<Seq<Token>, ParseError>(
            ParseError::MissingRightParenthesis,
        ),
        paren_count(stack) == 0 ==> spec_drain(stack, out) is Ok,
    decreases stack.len(),
{
    if stack.len() > 0 && stack.last() != Token::Parenthesis(ParenthesisDirection::Left) {
        lemma_drain_verdict(stack.drop_last(), out.push(stack.last()));
    }
}

/// The shunting-yard run fails exactly as the parenthesis scan of the
/// remaining input says, counting the groups still open on the stack.
proof fn lemma_convert_matches_scan(ts: Seq<Token>, i: int, stack: Seq<Token>, out: Seq<Token>)
    requires
        0 <= i <= ts.len(),
    ensures
        match paren_verdict(ts.skip(i), paren_count(stack) as int) {
            Some(e) => spec_convert_from(ts, i, stack, out) == Err::<Seq<Token>, ParseError>(e),
            None => spec_convert_from(ts, i, stack, out) is Ok,
        },
    decreases ts.len() - i, stack.len(),
{
    let tail = ts.skip(i);
    let count = paren_count(stack) as int;
    if i == ts.len() {
        assert(tail =~= Seq::<Token>::empty());
        lemma_drain_verdict(stack, out);
    } else {
        assert(tail[0] == ts[i]);
        assert(tail.drop_first() =~= ts.skip(i + 1));
        match ts[i] {
            Token::Constant(_) | Token::Variable(_) => {
                lemma_convert_matches_scan(ts, i + 1, stack, out.push(ts[i]));
            },
            Token::Operator(o) => {
                if stack.len() > 0 && outranks(stack.last(), o) {
                    lemma_paren_count_push(stack.drop_last(), stack.last());
                    assert(stack.drop_last().push(stack.last()) =~= stack);
                    lemma_convert_matches_scan(ts, i, stack.drop_last(), out.push(stack.last()));
                } else {
                    lemma_paren_count_push(stack, ts[i]);
                    lemma_convert_matches_scan(ts, i + 1, stack.push(ts[i]), out);
                }
            },
            Token::Function(_) => {
                lemma_paren_count_push(stack, ts[i]);
                lemma_convert_matches_scan(ts, i + 1, stack.push(ts[i]), out);
            },
            Token::Parenthesis(d) => {
                if d == ParenthesisDirection::Left {
                    lemma_paren_count_push(stack, ts[i]);
                    lemma_convert_matches_scan(ts, i + 1, stack.push(ts[i]), out);
                } else if stack.len() == 0 {
                } else if stack.last() == Token::Parenthesis(ParenthesisDirection::Left) {
                    lemma_paren_count_push(stack.drop_last(), stack.last());
                    assert(stack.drop_last().push(stack.last()) =~= stack);
                    lemma_convert_matches_scan(ts, i + 1, stack.drop_last(), out);
                } else {
                    lemma_paren_count_push(stack.drop_last(), stack.last());
                    assert(stack.drop_last().push(stack.last()) =~= stack);
                    lemma_convert_matches_scan(ts, i, stack.drop_last(), out.push(stack.last()));
                }
            },
        }
    }
}

/// Mismatched parentheses are rejected, and nothing else is: the
/// conversion of a token sequence fails with `MissingLeftParenthesis`
/// exactly when a right parenthesis closes a group that was never opened,
/// with `MissingRightParenthesis` exactly when a group is never closed,
/// and succeeds on every other sequence.
pub proof fn lemma_parentheses_decide_conversion(ts: Seq<Token>)
    ensures
        match paren_verdict(ts, 0) {
            Some(e) => spec_to_postfix(ts) == Err::<Seq<Token>, ParseError>(e),
            None => spec_to_postfix(ts) is Ok,
        },
{
    assert(ts.skip(0) =~= ts);
    lemma_convert_matches_scan(ts, 0, Seq::empty(), Seq::empty());
}

} // verus!

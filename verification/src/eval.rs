//! The postfix evaluator, as a step-wise machine.
//!
//! Evaluation walks the token sequence with a value stack: constants and
//! bound variables are pushed; an operator or function pops its arity's
//! worth of values, in push order, and pushes one result.  After the last
//! token exactly one value must remain — that is the result.
//!
//! Floating-point arithmetic cannot be performed here, so the machine stops
//! at every operator or function whose result needs the floating-point unit
//! and hands the caller the operation and its arguments ([`EvalStep::Apply`]);
//! the caller computes the one value and feeds it back with
//! [`Evaluator::supply`].  Everything structural — stack discipline, argument
//! order, variable lookup, the whole error taxonomy — is decided and proved
//! here, for any values the caller supplies.  The operations that are pure
//! bit manipulation (unary plus and minus, absolute value, the constants
//! `Pi` and `E`) are computed internally and never reach the caller.
//!
//! The specification is two-layered: [`drive`] runs the machine up to the
//! next outside operation, and [`spec_eval`] gives the verdict of a whole
//! run as a function of the token sequence, the bindings, and the sequence
//! of values the caller supplied.
use vstd::prelude::*;

use crate::bindings::Bindings;
use crate::bits::abs_bits;
use crate::bits::absolute;
use crate::bits::negate;
use crate::bits::negate_bits;
use crate::bits::E_BITS;
use crate::bits::PI_BITS;
use crate::errors::EvalError;
use crate::operator::function_arity;
use crate::operator::operator_arity;
use crate::operator::Function;
use crate::operator::Operator;
use crate::token::Token;

verus! {

/// How many values a token pops from the stack.
pub open spec fn token_arity(t: Token) -> nat {
    match t {
        Token::Operator(o) => operator_arity(o),
        Token::Function(f) => function_arity(f),
        _ => 0,
    }
}

/// The result of a token the machine computes by itself, without the
/// floating-point unit: unary plus and minus and the absolute value are IEEE
/// 754 sign-bit operations, and the nullary constants are fixed bit
/// patterns.  `None` for every token whose result needs arithmetic.
pub open spec fn internal_result(t: Token, args: Seq<u64>) -> Option<u64> {
    match t {
        Token::Operator(o) => match o {
            Operator::Unp => Some(args[0]),
            Operator::Unm => Some(negate_bits(args[0])),
            _ => None,
        },
        Token::Function(f) => match f {
            Function::Abs => Some(abs_bits(args[0])),
            Function::Pi => Some(PI_BITS),
            Function::E => Some(E_BITS),
            _ => None,
        },
        _ => None,
    }
}

/// The verdict once every token has been processed: the sole stack value,
/// or the error the leftover shape denotes.
pub open spec fn finish(stack: Seq<u64>) -> Result<u64, EvalError> {
    if stack.len() == 0 {
        Err(EvalError::EmptyResult)
    } else if stack.len() > 1 {
        Err(EvalError::LeftoverValues)
    } else {
        Ok(stack[0])
    }
}

/// Where a run of the machine pauses next.
#[allow(dead_code)]
pub ghost enum DriveStep {
    /// The token at `at` needs outside arithmetic on `args` (in push
    /// order); `stack` is the value stack with those arguments removed.
    Apply { at: int, stack: Seq<u64>, args: Seq<u64> },
    /// The run is over, successfully or not.
    Complete { result: Result<u64, EvalError> },
}

/// Runs the machine from position `i` with value stack `stack` until it
/// completes or needs outside arithmetic.
///
/// `vars` is the bindings mapping, or `None` when the caller supplied no
/// bindings at all, in which case every variable is undefined.  Parentheses,
/// which a well-formed postfix sequence does not contain, are skipped.
pub open spec fn drive(
    ts: Seq<Token>,
    i: int,
    stack: Seq<u64>,
    vars: Option<Map<char, u64>>,
) -> DriveStep
    decreases ts.len() - i,
{
    if i < 0 || i >= ts.len() {
        DriveStep::Complete { result: finish(stack) }
    } else {
        match ts[i] {
            Token::Constant(b) => drive(ts, i + 1, stack.push(b), vars),
            Token::Variable(x) => match vars {
                Some(m) => if m.dom().contains(x) {
                    drive(ts, i + 1, stack.push(m[x]), vars)
                } else {
                    DriveStep::Complete { result: Err(EvalError::UndefinedVariable(x)) }
                },
                None => DriveStep::Complete { result: Err(EvalError::UndefinedVariable(x)) },
            },
            Token::Parenthesis(_) => drive(ts, i + 1, stack, vars),
            Token::Operator(_) | Token::Function(_) => {
                let n = token_arity(ts[i]) as int;
                if stack.len() < n {
                    DriveStep::Complete { result: Err(EvalError::StackUnderflow) }
                } else {
                    let args = stack.subrange(stack.len() - n, stack.len() as int);
                    let rest = stack.subrange(0, stack.len() - n);
                    match internal_result(ts[i], args) {
                        Some(v) => drive(ts, i + 1, rest.push(v), vars),
                        None => DriveStep::Apply { at: i, stack: rest, args },
                    }
                }
            },
        }
    }
}

/// The verdict of a run from a given state, when the caller answers the
/// machine's arithmetic requests with the values of `oracle`, in order:
/// `None` if the run needs more answers than `oracle` holds.
pub open spec fn oracle_run(
    ts: Seq<Token>,
    i: int,
    stack: Seq<u64>,
    vars: Option<Map<char, u64>>,
    oracle: Seq<u64>,
) -> Option<Result<u64, EvalError>>
    decreases oracle.len(),
{
    match drive(ts, i, stack, vars) {
        DriveStep::Complete { result } => Some(result),
        DriveStep::Apply { at, stack: rest, args } => if oracle.len() == 0 {
            None
        } else {
            oracle_run(ts, at + 1, rest.push(oracle[0]), vars, oracle.drop_first())
        },
    }
}

/// The verdict of a whole evaluation of `ts` under `vars`, when the caller
/// supplies the arithmetic results `oracle`, in order.
pub open spec fn spec_eval(
    ts: Seq<Token>,
    vars: Option<Map<char, u64>>,
    oracle: Seq<u64>,
) -> Option<Result<u64, EvalError>> {
    oracle_run(ts, 0, Seq::empty(), vars, oracle)
}

/// What [`Evaluator::advance`] found.
#[derive(Debug)]
pub enum EvalStep {
    /// `token` needs outside arithmetic: compute its result on `args` (in
    /// left-to-right argument order) and hand it to [`Evaluator::supply`].
    Apply { token: Token, args: Vec<u64> },
    /// Evaluation finished; `value` is the bit pattern of the result.
    Done { value: u64 },
    /// Evaluation failed; the expression itself stays usable.
    Fail { error: EvalError },
}

/// One evaluation in progress: the token cursor, the value stack, and —
/// for the proofs — the values supplied so far.
pub struct Evaluator<'a> {
    tokens: &'a Vec<Token>,
    vars: Option<&'a Bindings>,
    pos: usize,
    stack: Vec<u64>,
    pending: bool,
    supplied: Ghost<Seq<u64>>,
}

/// The machine at `(pos, stack)` agrees with a fresh run that is fed
/// `sup` first and any future answers after.
spec fn live_at(
    ts: Seq<Token>,
    vars: Option<Map<char, u64>>,
    pos: int,
    stack: Seq<u64>,
    sup: Seq<u64>,
) -> bool {
    forall|fut: Seq<u64>|
        oracle_run(ts, pos, stack, vars, fut) == #[trigger] spec_eval(ts, vars, sup + fut)
}

/// As [`live_at`], for a machine waiting for one answer to be pushed.
spec fn pending_live_at(
    ts: Seq<Token>,
    vars: Option<Map<char, u64>>,
    pos: int,
    stack: Seq<u64>,
    sup: Seq<u64>,
) -> bool {
    forall|v: u64, fut: Seq<u64>|
        oracle_run(ts, pos, stack.push(v), vars, fut) == #[trigger] spec_eval(
            ts,
            vars,
            sup + seq![v] + fut,
        )
}

impl<'a> Evaluator<'a> {
    /// The token sequence being evaluated.
    pub closed spec fn toks(&self) -> Seq<Token> {
        self.tokens@
    }

    /// The bindings mapping, or `None` when none was supplied.
    pub closed spec fn bindings_map(&self) -> Option<Map<char, u64>> {
        match self.vars {
            Some(b) => Some(b@),
            None => None,
        }
    }

    /// The position of the next token to process.
    pub closed spec fn cursor(&self) -> int {
        self.pos as int
    }

    /// The value stack, bottom first.
    pub closed spec fn values(&self) -> Seq<u64> {
        self.stack@
    }

    /// Whether the machine waits for [`Evaluator::supply`].
    pub closed spec fn awaiting(&self) -> bool {
        self.pending
    }

    /// The arithmetic results supplied so far, in order.
    pub closed spec fn consumed(&self) -> Seq<u64> {
        self.supplied@
    }

    /// The machine's invariant: its state is exactly where replaying the
    /// supplied values from the start would leave it.
    pub closed spec fn wf(&self) -> bool {
        &&& self.pos <= self.tokens@.len()
        &&& if self.pending {
            pending_live_at(
                self.tokens@,
                self.bindings_map(),
                self.pos as int,
                self.stack@,
                self.supplied@,
            )
        } else {
            live_at(
                self.tokens@,
                self.bindings_map(),
                self.pos as int,
                self.stack@,
                self.supplied@,
            )
        }
    }

    /// A machine at the start of `tokens`, with nothing supplied yet.
    pub(crate) fn new(tokens: &'a Vec<Token>, vars: Option<&'a Bindings>) -> (r: Evaluator<'a>)
        ensures
            r.wf(),
            !r.awaiting(),
            r.toks() == tokens@,
            r.bindings_map() == spec_bindings_map(vars),
            r.consumed() == Seq::<u64>::empty(),
            r.cursor() == 0,
            r.values() == Seq::<u64>::empty(),
    {
        let r = Evaluator {
            tokens,
            vars,
            pos: 0,
            stack: Vec::new(),
            pending: false,
            supplied: Ghost(Seq::empty()),
        };
        proof {
            assert(r.stack@ =~= Seq::<u64>::empty());
            assert forall|fut: Seq<u64>|
                oracle_run(tokens@, 0, Seq::<u64>::empty(), r.bindings_map(), fut)
                    == #[trigger] spec_eval(
                    tokens@,
                    r.bindings_map(),
                    Seq::<u64>::empty() + fut,
                ) by {
                assert(Seq::<u64>::empty() + fut =~= fut);
            };
        }
        r
    }

    /// Whether the machine waits for an arithmetic answer: `advance` may
    /// only be called when this is false, `supply` only when it is true.
    pub fn is_waiting(&self) -> (r: bool)
        ensures
            r == self.awaiting(),
    {
        self.pending
    }

    /// Runs until the next outside operation, the end, or an error.
    ///
    /// Whatever it returns is exactly what [`drive`] says of the state the
    /// machine was in; on `Done` and `Fail` the verdict moreover equals
    /// [`spec_eval`] of the whole run with the values supplied so far.
    pub fn advance(&mut self) -> (r: EvalStep)
        requires
            old(self).wf(),
            !old(self).awaiting(),
        ensures
            final(self).wf(),
            final(self).toks() == old(self).toks(),
            final(self).bindings_map() == old(self).bindings_map(),
            final(self).consumed() == old(self).consumed(),
            match drive(
                old(self).toks(),
                old(self).cursor(),
                old(self).values(),
                old(self).bindings_map(),
            ) {
                DriveStep::Complete { result } => {
                    &&& !final(self).awaiting()
                    &&& match result {
                        Ok(v) => r == (EvalStep::Done { value: v }),
                        Err(e) => r == (EvalStep::Fail { error: e }),
                    }
                    &&& spec_eval(
                        final(self).toks(),
                        final(self).bindings_map(),
                        final(self).consumed(),
                    ) == Some(result)
                },
                DriveStep::Apply { at, stack, args } => {
                    &&& final(self).awaiting()
                    &&& final(self).cursor() == at + 1
                    &&& final(self).values() == stack
                    &&& (r matches EvalStep::Apply { token, args: actual } && token == old(
                        self,
                    ).toks()[at] && actual@ == args)
                },
            },
    {
        let ghost gtoks = self.tokens@;
        let ghost gvars = self.bindings_map();
        let ghost gsup = self.supplied@;
        let ghost entry = drive(gtoks, self.pos as int, self.stack@, gvars);
        loop
            invariant
                gtoks == old(self).toks(),
                gvars == old(self).bindings_map(),
                gsup == old(self).consumed(),
                entry == drive(
                    old(self).toks(),
                    old(self).cursor(),
                    old(self).values(),
                    old(self).bindings_map(),
                ),
                self.tokens@ == gtoks,
                self.bindings_map() == gvars,
                self.supplied@ == gsup,
                !self.pending,
                self.pos <= gtoks.len(),
                drive(gtoks, self.pos as int, self.stack@, gvars) == entry,
                live_at(gtoks, gvars, self.pos as int, self.stack@, gsup),
            decreases gtoks.len() - self.pos,
        {
            let ghost pre_pos = self.pos as int;
            let ghost pre_stack = self.stack@;
            if self.pos == self.tokens.len() {
                proof {
                    lemma_complete_verdict(gtoks, gvars, pre_pos, pre_stack, gsup);
                }
                if self.stack.len() == 0 {
                    return EvalStep::Fail { error: EvalError::EmptyResult };
                } else if self.stack.len() > 1 {
                    return EvalStep::Fail { error: EvalError::LeftoverValues };
                } else {
                    let value = self.stack[0];
                    return EvalStep::Done { value };
                }
            }
            let t = self.tokens[self.pos];
            match t {
                Token::Constant(b) => {
                    self.stack.push(b);
                    self.pos = self.pos + 1;
                    proof {
                        lemma_live_step(gtoks, gvars, gsup, pre_pos, pre_stack, self.pos as int,
                            self.stack@);
                    }
                },
                Token::Variable(x) => {
                    let looked: Option<u64> = match self.vars {
                        Some(b) => b.get(x),
                        None => None,
                    };
                    match looked {
                        Some(v) => {
                            self.stack.push(v);
                            self.pos = self.pos + 1;
                            proof {
                                lemma_live_step(gtoks, gvars, gsup, pre_pos, pre_stack,
                                    self.pos as int, self.stack@);
                            }
                        },
                        None => {
                            proof {
                                lemma_complete_verdict(gtoks, gvars, pre_pos, pre_stack, gsup);
                            }
                            return EvalStep::Fail { error: EvalError::UndefinedVariable(x) };
                        },
                    }
                },
                Token::Parenthesis(_) => {
                    self.pos = self.pos + 1;
                    proof {
                        lemma_live_step(gtoks, gvars, gsup, pre_pos, pre_stack, self.pos as int,
                            self.stack@);
                    }
                },
                Token::Operator(_) | Token::Function(_) => {
                    let n: usize = match t {
                        Token::Operator(o) => o.get_parameters(),
                        Token::Function(f) => f.get_parameters(),
                        _ => 0,
                    };
                    if self.stack.len() < n {
                        proof {
                            lemma_complete_verdict(gtoks, gvars, pre_pos, pre_stack, gsup);
                        }
                        return EvalStep::Fail { error: EvalError::StackUnderflow };
                    }
                    let m = self.stack.len() - n;
                    let mut args: Vec<u64> = Vec::new();
                    let mut k: usize = m;
                    proof {
                        assert(args@ =~= pre_stack.subrange(m as int, m as int));
                    }
                    while k < self.stack.len()
                        invariant
                            self.stack@ == pre_stack,
                            m <= k <= pre_stack.len(),
                            args@ == pre_stack.subrange(m as int, k as int),
                        decreases pre_stack.len() - k,
                    {
                        let a = self.stack[k];
                        args.push(a);
                        proof {
                            assert(args@ =~= pre_stack.subrange(m as int, k as int + 1));
                        }
                        k = k + 1;
                    }
                    self.stack.truncate(m);
                    proof {
                        assert(self.stack@ =~= pre_stack.subrange(0, m as int));
                    }
                    match internal_apply(&t, &args) {
                        Some(v) => {
                            self.stack.push(v);
                            self.pos = self.pos + 1;
                            proof {
                                lemma_live_step(gtoks, gvars, gsup, pre_pos, pre_stack,
                                    self.pos as int, self.stack@);
                            }
                        },
                        None => {
                            self.pending = true;
                            self.pos = self.pos + 1;
                            proof {
                                let at = pre_pos;
                                let rest = pre_stack.subrange(0, m as int);
                                assert(drive(gtoks, at, pre_stack, gvars) == (DriveStep::Apply {
                                    at,
                                    stack: rest,
                                    args: args@,
                                }));
                                assert forall|v: u64, fut: Seq<u64>|
                                    oracle_run(gtoks, at + 1, rest.push(v), gvars, fut)
                                        == #[trigger] spec_eval(
                                        gtoks,
                                        gvars,
                                        gsup + seq![v] + fut,
                                    ) by {
                                    let longer = seq![v] + fut;
                                    assert(oracle_run(gtoks, at, pre_stack, gvars, longer)
                                        == spec_eval(gtoks, gvars, gsup + longer));
                                    assert(longer[0] == v);
                                    assert(longer.drop_first() =~= fut);
                                    assert(gsup + longer =~= gsup + seq![v] + fut);
                                };
                            }
                            return EvalStep::Apply { token: t, args };
                        },
                    }
                },
            }
        }
    }

    /// Feeds the machine the result of the operation it paused on: the
    /// value is pushed and the run can advance again.
    pub fn supply(&mut self, value: u64)
        requires
            old(self).wf(),
            old(self).awaiting(),
        ensures
            final(self).wf(),
            !final(self).awaiting(),
            final(self).toks() == old(self).toks(),
            final(self).bindings_map() == old(self).bindings_map(),
            final(self).consumed() == old(self).consumed().push(value),
            final(self).cursor() == old(self).cursor(),
            final(self).values() == old(self).values().push(value),
    {
        self.stack.push(value);
        self.pending = false;
        proof {
            self.supplied@ = self.supplied@.push(value);
        }
        proof {
            let gtoks = self.tokens@;
            let gvars = self.bindings_map();
            let pre_sup = old(self).supplied@;
            assert forall|fut: Seq<u64>|
                oracle_run(gtoks, self.pos as int, self.stack@, gvars, fut) == #[trigger] spec_eval(
                    gtoks,
                    gvars,
                    self.supplied@ + fut,
                ) by {
                assert(oracle_run(gtoks, self.pos as int, old(self).stack@.push(value), gvars, fut)
                    == spec_eval(gtoks, gvars, pre_sup + seq![value] + fut));
                assert(self.stack@ == old(self).stack@.push(value));
                assert(self.supplied@ + fut =~= pre_sup + seq![value] + fut);
            };
        }
    }
}

/// The bindings mapping an optional reference denotes.
pub open spec fn spec_bindings_map(vars: Option<&Bindings>) -> Option<Map<char, u64>> {
    match vars {
        Some(b) => Some(b@),
        None => None,
    }
}

/// Computes the tokens the machine handles without outside arithmetic.
fn internal_apply(t: &Token, args: &Vec<u64>) -> (r: Option<u64>)
    requires
        args@.len() == token_arity(*t),
    ensures
        r == internal_result(*t, args@),
{
    match t {
        Token::Operator(Operator::Unp) => Some(args[0]),
        Token::Operator(Operator::Unm) => Some(negate(args[0])),
        Token::Function(Function::Abs) => Some(absolute(args[0])),
        Token::Function(Function::Pi) => Some(crate::bits::PI_BITS),
        Token::Function(Function::E) => Some(crate::bits::E_BITS),
        _ => None,
    }
}

/// Equal `drive` verdicts give equal runs: stepping the machine over
/// internal work does not change where any future run ends.
proof fn lemma_live_step(
    ts: Seq<Token>,
    vars: Option<Map<char, u64>>,
    sup: Seq<u64>,
    i1: int,
    st1: Seq<u64>,
    i2: int,
    st2: Seq<u64>,
)
    requires
        drive(ts, i1, st1, vars) == drive(ts, i2, st2, vars),
        live_at(ts, vars, i1, st1, sup),
    ensures
        live_at(ts, vars, i2, st2, sup),
{
    assert forall|fut: Seq<u64>|
        oracle_run(ts, i2, st2, vars, fut) == #[trigger] spec_eval(ts, vars, sup + fut) by {
        assert(oracle_run(ts, i1, st1, vars, fut) == spec_eval(ts, vars, sup + fut));
        assert(oracle_run(ts, i1, st1, vars, fut) == oracle_run(ts, i2, st2, vars, fut));
    };
}

/// When `drive` completes from the machine's state, the whole-run verdict
/// on the values supplied so far is that completion.
proof fn lemma_complete_verdict(
    ts: Seq<Token>,
    vars: Option<Map<char, u64>>,
    pos: int,
    stack: Seq<u64>,
    sup: Seq<u64>,
)
    requires
        live_at(ts, vars, pos, stack, sup),
        drive(ts, pos, stack, vars) is Complete,
    ensures
        spec_eval(ts, vars, sup) == Some(drive(ts, pos, stack, vars)->Complete_result),
{
    assert(oracle_run(ts, pos, stack, vars, Seq::<u64>::empty()) == spec_eval(
        ts,
        vars,
        sup + Seq::<u64>::empty(),
    ));
    assert(sup + Seq::<u64>::empty() =~= sup);
}

} // verus!

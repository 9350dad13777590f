//! The lexer: one left-to-right scan of the input, longest match first, with
//! a fixed priority among token categories.
//!
//! At every position the scanner tries, in order: a parenthesis, a numeric
//! literal (maximal munch: digits with at most one decimal point, no sign, no
//! exponent), an operator symbol, a function or constant keyword, and — after
//! skipping whitespace — falls back to reading the single character as a
//! variable.  The scan consumes input monotonically, so no two tokens ever
//! overlap.
//!
//! A `-` always lexes as the binary subtraction operator and is never part
//! of a numeric literal: the unary plus and minus of the symbol table are
//! available to callers that build token sequences themselves, but no text
//! produces them, so an expression beginning with `-` compiles and then
//! fails at evaluation for want of a left operand.
//!
//! A numeric literal is returned as its span in the input rather than as a
//! value: turning the digits into a double-precision bit pattern is
//! floating-point work and is left to the caller, who substitutes a
//! [`Token::Constant`](crate::token::Token::Constant) for each span before
//! building an expression.
use vstd::prelude::*;

use crate::operator::Function;
use crate::operator::Operator;
use crate::token::ParenthesisDirection;
use crate::token::Token;

verus! {

/// One token as the scanner found it: numeric literals are still spans of
/// the input text; everything else is already in final form.
#[derive(Clone, Copy, Debug, PartialEq, Eq, Structural)]
pub enum RawToken {
    /// A numeric literal: `len` characters of the input starting at `start`
    /// (both counted in characters, not bytes).
    Number { start: usize, len: usize },
    /// A single character that no other category claimed.
    Variable(char),
    Operator(Operator),
    Function(Function),
    Parenthesis(ParenthesisDirection),
}

/// A decimal digit.
pub open spec fn spec_is_digit(c: char) -> bool {
    48 <= (c as u32) && (c as u32) <= 57
}

/// The whitespace the scanner skips between tokens.
pub open spec fn spec_is_space(c: char) -> bool {
    c == ' ' || c == '\t' || c == '\n' || c == '\r'
}

/// The first position at or after `i` that does not hold a digit.
pub open spec fn digits_end(s: Seq<char>, i: int) -> int
    decreases s.len() - i,
{
    if i < 0 || i >= s.len() || !spec_is_digit(s[i]) {
        i
    } else {
        digits_end(s, i + 1)
    }
}

pub proof fn lemma_digits_end_bounds(s: Seq<char>, i: int)
    requires
        0 <= i <= s.len(),
    ensures
        i <= digits_end(s, i) <= s.len(),
    decreases s.len() - i,
{
    if i < s.len() && spec_is_digit(s[i]) {
        lemma_digits_end_bounds(s, i + 1);
    }
}

/// How many characters of a numeric literal begin at position `i`, or 0 if
/// none does.
///
/// A literal is one or more digits with at most one decimal point, with
/// digits on either side of it: `12`, `12.`, `12.5` and `.5` all qualify; a
/// lone `.` does not.  The match is maximal: every digit that can extend the
/// literal is taken.
pub open spec fn number_len(s: Seq<char>, i: int) -> int {
    if 0 <= i < s.len() {
        if spec_is_digit(s[i]) {
            let j = digits_end(s, i);
            if j < s.len() && s[j] == '.' {
                digits_end(s, j + 1) - i
            } else {
                j - i
            }
        } else if s[i] == '.' && i + 1 < s.len() && spec_is_digit(s[i + 1]) {
            digits_end(s, i + 1) - i
        } else {
            0
        }
    } else {
        0
    }
}

pub proof fn lemma_number_len_bounds(s: Seq<char>, i: int)
    requires
        0 <= i < s.len(),
    ensures
        0 <= number_len(s, i) <= s.len() - i,
        spec_is_digit(s[i]) ==> number_len(s, i) >= 1,
{
    lemma_digits_end_bounds(s, i);
    if spec_is_digit(s[i]) {
        let j = digits_end(s, i);
        assert(digits_end(s, i) == digits_end(s, i + 1));
        lemma_digits_end_bounds(s, i + 1);
        if j < s.len() && s[j] == '.' {
            lemma_digits_end_bounds(s, j + 1);
        }
    } else if s[i] == '.' && i + 1 < s.len() && spec_is_digit(s[i + 1]) {
        lemma_digits_end_bounds(s, i + 1);
    }
}

/// Whether the three characters starting at `i` are exactly `a`, `b`, `c`.
pub open spec fn spec_chars3_at(s: Seq<char>, i: int, a: char, b: char, c: char) -> bool {
    i + 3 <= s.len() && s[i] == a && s[i + 1] == b && s[i + 2] == c
}

/// Whether the two characters starting at `i` are exactly `a`, `b`.
pub open spec fn spec_chars2_at(s: Seq<char>, i: int, a: char, b: char) -> bool {
    i + 2 <= s.len() && s[i] == a && s[i + 1] == b
}

/// Which function or constant keyword begins at position `i`, if any.
///
/// The keyword set is prefix-free, so at most one matches at a given
/// position.
pub open spec fn keyword_at(s: Seq<char>, i: int) -> Option<Function> {
    if spec_chars3_at(s, i, 's', 'i', 'n') {
        Some(Function::Sin)
    } else if spec_chars3_at(s, i, 'c', 'o', 's') {
        Some(Function::Cos)
    } else if spec_chars3_at(s, i, 't', 'a', 'n') {
        Some(Function::Tan)
    } else if spec_chars3_at(s, i, 'c', 's', 'c') {
        Some(Function::Csc)
    } else if spec_chars3_at(s, i, 's', 'e', 'c') {
        Some(Function::Sec)
    } else if spec_chars3_at(s, i, 'c', 'o', 't') {
        Some(Function::Cot)
    } else if spec_chars3_at(s, i, 'l', 'o', 'g') {
        Some(Function::Log)
    } else if spec_chars3_at(s, i, 'a', 'b', 's') {
        Some(Function::Abs)
    } else if spec_chars3_at(s, i, 's', 'g', 'n') {
        Some(Function::Sgn)
    } else if spec_chars2_at(s, i, 'l', 'n') {
        Some(Function::Ln)
    } else if spec_chars2_at(s, i, 'P', 'i') {
        Some(Function::Pi)
    } else if 0 <= i < s.len() && s[i] == 'E' {
        Some(Function::E)
    } else {
        None
    }
}

/// How many characters a keyword occupies in the input.
pub open spec fn keyword_len(f: Function) -> int {
    match f {
        Function::Ln | Function::Pi => 2,
        Function::E => 1,
        _ => 3,
    }
}

/// What the scanner does at position `i`: the token it emits, if any, and
/// how many characters it consumes.  Whitespace consumes one character and
/// emits nothing.
pub open spec fn scan_at(s: Seq<char>, i: int) -> (Option<RawToken>, int) {
    let c = s[i];
    if c == '(' {
        (Some(RawToken::Parenthesis(ParenthesisDirection::Left)), 1)
    } else if c == ')' {
        (Some(RawToken::Parenthesis(ParenthesisDirection::Right)), 1)
    } else if number_len(s, i) > 0 {
        (
            Some(RawToken::Number { start: i as usize, len: number_len(s, i) as usize }),
            number_len(s, i),
        )
    } else if Operator::spec_from_symbol(c) is Some {
        (Some(RawToken::Operator(Operator::spec_from_symbol(c)->0)), 1)
    } else if keyword_at(s, i) is Some {
        (Some(RawToken::Function(keyword_at(s, i)->0)), keyword_len(keyword_at(s, i)->0))
    } else if spec_is_space(c) {
        (None, 1)
    } else {
        (Some(RawToken::Variable(c)), 1)
    }
}

pub proof fn lemma_scan_at_bounds(s: Seq<char>, i: int)
    requires
        0 <= i < s.len(),
    ensures
        1 <= scan_at(s, i).1 <= s.len() - i,
{
    lemma_number_len_bounds(s, i);
}

/// The tokens of the input from position `i` on.
pub open spec fn spec_lex_from(s: Seq<char>, i: int) -> Seq<RawToken>
    decreases s.len() - i,
{
    if i < 0 || i >= s.len() {
        Seq::empty()
    } else {
        let (t, l) = scan_at(s, i);
        let step = if l < 1 {
            1
        } else if l > s.len() - i {
            s.len() - i
        } else {
            l
        };
        match t {
            Some(tok) => seq![tok] + spec_lex_from(s, i + step),
            None => spec_lex_from(s, i + step),
        }
    }
}

/// The tokens of the whole input.  Lexing is total: every character either
/// begins a token or is whitespace.
pub open spec fn spec_lex(s: Seq<char>) -> Seq<RawToken> {
    spec_lex_from(s, 0)
}

fn is_digit(c: char) -> (r: bool)
    ensures
        r == spec_is_digit(c),
{
    let u: u32 = c as u32;
    48 <= u && u <= 57
}

fn is_space(c: char) -> (r: bool)
    ensures
        r == spec_is_space(c),
{
    c == ' ' || c == '\t' || c == '\n' || c == '\r'
}

fn digits_end_exec(cs: &Vec<char>, i: usize) -> (r: usize)
    requires
        i <= cs@.len(),
    ensures
        r == digits_end(cs@, i as int),
        i <= r <= cs@.len(),
{
    let mut j: usize = i;
    while j < cs.len() && is_digit(cs[j])
        invariant
            i <= j <= cs@.len(),
            digits_end(cs@, i as int) == digits_end(cs@, j as int),
        decreases cs@.len() - j,
    {
        j = j + 1;
    }
    proof {
        lemma_digits_end_bounds(cs@, j as int);
    }
    j
}

fn number_len_exec(cs: &Vec<char>, i: usize) -> (r: usize)
    requires
        i < cs@.len(),
    ensures
        r == number_len(cs@, i as int),
{
    let c = cs[i];
    if is_digit(c) {
        let j = digits_end_exec(cs, i);
        if j < cs.len() && cs[j] == '.' {
            let k = digits_end_exec(cs, j + 1);
            k - i
        } else {
            j - i
        }
    } else if c == '.' && i < cs.len() - 1 && is_digit(cs[i + 1]) {
        let k = digits_end_exec(cs, i + 1);
        proof {
            lemma_digits_end_bounds(cs@, i + 1);
        }
        k - i
    } else {
        0
    }
}

fn keyword_exec(cs: &Vec<char>, i: usize) -> (r: Option<Function>)
    requires
        i < cs@.len(),
    ensures
        r == keyword_at(cs@, i as int),
        r is Some ==> i + keyword_len(r->0) <= cs@.len(),
{
    let remaining: usize = cs.len() - i;
    let c0 = cs[i];
    if remaining >= 3 {
        let c1 = cs[i + 1];
        let c2 = cs[i + 2];
        if c0 == 's' && c1 == 'i' && c2 == 'n' {
            return Some(Function::Sin);
        }
        if c0 == 'c' && c1 == 'o' && c2 == 's' {
            return Some(Function::Cos);
        }
        if c0 == 't' && c1 == 'a' && c2 == 'n' {
            return Some(Function::Tan);
        }
        if c0 == 'c' && c1 == 's' && c2 == 'c' {
            return Some(Function::Csc);
        }
        if c0 == 's' && c1 == 'e' && c2 == 'c' {
            return Some(Function::Sec);
        }
        if c0 == 'c' && c1 == 'o' && c2 == 't' {
            return Some(Function::Cot);
        }
        if c0 == 'l' && c1 == 'o' && c2 == 'g' {
            return Some(Function::Log);
        }
        if c0 == 'a' && c1 == 'b' && c2 == 's' {
            return Some(Function::Abs);
        }
        if c0 == 's' && c1 == 'g' && c2 == 'n' {
            return Some(Function::Sgn);
        }
    }
    if remaining >= 2 {
        let c1 = cs[i + 1];
        if c0 == 'l' && c1 == 'n' {
            return Some(Function::Ln);
        }
        if c0 == 'P' && c1 == 'i' {
            return Some(Function::Pi);
        }
    }
    if c0 == 'E' {
        return Some(Function::E);
    }
    None
}

/// Collects the characters of a string slice, so that the scanner can index
/// them by position.
fn chars_of(s: &str) -> (r: Vec<char>)
    ensures
        r@ == s@,
{
    let n: usize = s.unicode_len();
    let mut r: Vec<char> = Vec::new();
    let mut i: usize = 0;
    while i < n
        invariant
            n == s@.len(),
            i <= n,
            r@ == s@.subrange(0, i as int),
        decreases n - i,
    {
        let c = s.get_char(i);
        r.push(c);
        i = i + 1;
    }
    assert(r@ =~= s@);
    r
}

/// Scans a whole string into raw tokens.
pub(crate) fn lex_str(input: &str) -> (r: Vec<RawToken>)
    ensures
        r@ == spec_lex(input@),
{
    let cs = chars_of(input);
    let mut out: Vec<RawToken> = Vec::new();
    let mut i: usize = 0;
    while i < cs.len()
        invariant
            cs@ == input@,
            i <= cs@.len(),
            out@ + spec_lex_from(cs@, i as int) == spec_lex(cs@),
        decreases cs@.len() - i,
    {
        proof {
            lemma_scan_at_bounds(cs@, i as int);
        }
        let ghost prev_out = out@;
        let c = cs[i];
        let mut step: usize = 1;
        if c == '(' {
            out.push(RawToken::Parenthesis(ParenthesisDirection::Left));
        } else if c == ')' {
            out.push(RawToken::Parenthesis(ParenthesisDirection::Right));
        } else {
            let nl = number_len_exec(&cs, i);
            if nl > 0 {
                out.push(RawToken::Number { start: i, len: nl });
                step = nl;
            } else if let Some(o) = Operator::from_symbol(c) {
                out.push(RawToken::Operator(o));
            } else if let Some(f) = keyword_exec(&cs, i) {
                out.push(RawToken::Function(f));
                step = f_len(f);
            } else if is_space(c) {
                // emit nothing: whitespace only separates tokens
            } else {
                out.push(RawToken::Variable(c));
            }
        }
        proof {
            let s = cs@;
            let ii = i as int;
            let (t, l) = scan_at(s, ii);
            assert(step as int == l);
            match t {
                Some(tok) => {
                    assert(out@ =~= prev_out + seq![tok]);
                    assert(prev_out + spec_lex_from(s, ii) =~= out@ + spec_lex_from(
                        s,
                        ii + l,
                    ));
                },
                None => {
                    assert(out@ == prev_out);
                },
            }
        }
        i = i + step;
    }
    assert(spec_lex_from(cs@, i as int) =~= Seq::<RawToken>::empty());
    assert(out@ =~= spec_lex(cs@));
    out
}

fn f_len(f: Function) -> (r: usize)
    ensures
        r as int == keyword_len(f),
{
    match f {
        Function::Ln | Function::Pi => 2,
        Function::E => 1,
        _ => 3,
    }
}

/// How many numeric literals a raw token sequence holds.
pub open spec fn spec_number_count(raw: Seq<RawToken>) -> nat
    decreases raw.len(),
{
    if raw.len() == 0 {
        0
    } else {
        (if raw[0] is Number {
            1nat
        } else {
            0nat
        }) + spec_number_count(raw.drop_first())
    }
}

/// The raw tokens with every numeric literal replaced by a constant: the
/// k-th literal takes the k-th of `vals`, every other token is carried
/// over unchanged.
pub open spec fn spec_substitute(raw: Seq<RawToken>, vals: Seq<u64>) -> Seq<Token>
    decreases raw.len(),
{
    if raw.len() == 0 {
        Seq::empty()
    } else {
        let rest = raw.drop_first();
        match raw[0] {
            RawToken::Number { .. } => seq![Token::Constant(vals[0])] + spec_substitute(
                rest,
                vals.drop_first(),
            ),
            RawToken::Variable(c) => seq![Token::Variable(c)] + spec_substitute(rest, vals),
            RawToken::Operator(o) => seq![Token::Operator(o)] + spec_substitute(rest, vals),
            RawToken::Function(f) => seq![Token::Function(f)] + spec_substitute(rest, vals),
            RawToken::Parenthesis(d) => seq![Token::Parenthesis(d)] + spec_substitute(rest, vals),
        }
    }
}

/// Replaces each numeric literal with the constant value the caller parsed
/// for it: the k-th literal, in input order, becomes `Token::Constant` of
/// `constants[k]`.  Returns `None` when the number of values does not match
/// the number of literals.
pub fn tokens_from_raw(raw: &Vec<RawToken>, constants: &Vec<u64>) -> (r: Option<Vec<Token>>)
    ensures
        match r {
            Some(v) => constants@.len() == spec_number_count(raw@) && v@ == spec_substitute(
                raw@,
                constants@,
            ),
            None => constants@.len() != spec_number_count(raw@),
        },
{
    let mut out: Vec<Token> = Vec::new();
    let mut i: usize = 0;
    let mut k: usize = 0;
    proof {
        assert(raw@.skip(0) =~= raw@);
        assert(constants@.skip(0) =~= constants@);
    }
    while i < raw.len()
        invariant
            i <= raw@.len(),
            k <= constants@.len(),
            spec_number_count(raw@) == k + spec_number_count(raw@.skip(i as int)),
            out@ + spec_substitute(raw@.skip(i as int), constants@.skip(k as int))
                == spec_substitute(raw@, constants@),
        decreases raw@.len() - i,
    {
        let ghost pre_out = out@;
        let ghost tail = raw@.skip(i as int);
        let ghost vtail = constants@.skip(k as int);
        proof {
            assert(tail[0] == raw@[i as int]);
            assert(tail.drop_first() =~= raw@.skip(i as int + 1));
        }
        let t = raw[i];
        match t {
            RawToken::Number { .. } => {
                if k == constants.len() {
                    proof {
                        assert(spec_number_count(tail) >= 1);
                    }
                    return None;
                }
                out.push(Token::Constant(constants[k]));
                proof {
                    assert(vtail[0] == constants@[k as int]);
                    assert(vtail.drop_first() =~= constants@.skip(k as int + 1));
                    assert(out@ =~= pre_out + seq![Token::Constant(constants@[k as int])]);
                    assert(pre_out + spec_substitute(tail, vtail) =~= out@ + spec_substitute(
                        raw@.skip(i as int + 1),
                        constants@.skip(k as int + 1),
                    ));
                }
                k = k + 1;
            },
            RawToken::Variable(c) => {
                out.push(Token::Variable(c));
                proof {
                    assert(out@ =~= pre_out + seq![Token::Variable(c)]);
                    assert(pre_out + spec_substitute(tail, vtail) =~= out@ + spec_substitute(
                        raw@.skip(i as int + 1),
                        vtail,
                    ));
                }
            },
            RawToken::Operator(o) => {
                out.push(Token::Operator(o));
                proof {
                    assert(out@ =~= pre_out + seq![Token::Operator(o)]);
                    assert(pre_out + spec_substitute(tail, vtail) =~= out@ + spec_substitute(
                        raw@.skip(i as int + 1),
                        vtail,
                    ));
                }
            },
            RawToken::Function(f) => {
                out.push(Token::Function(f));
                proof {
                    assert(out@ =~= pre_out + seq![Token::Function(f)]);
                    assert(pre_out + spec_substitute(tail, vtail) =~= out@ + spec_substitute(
                        raw@.skip(i as int + 1),
                        vtail,
                    ));
                }
            },
            RawToken::Parenthesis(d) => {
                out.push(Token::Parenthesis(d));
                proof {
                    assert(out@ =~= pre_out + seq![Token::Parenthesis(d)]);
                    assert(pre_out + spec_substitute(tail, vtail) =~= out@ + spec_substitute(
                        raw@.skip(i as int + 1),
                        vtail,
                    ));
                }
            },
        }
        i = i + 1;
    }
    proof {
        assert(raw@.skip(i as int) =~= Seq::<RawToken>::empty());
    }
    if k != constants.len() {
        return None;
    }
    proof {
        assert(constants@.skip(k as int) =~= Seq::<u64>::empty());
        assert(out@ + spec_substitute(Seq::<RawToken>::empty(), Seq::<u64>::empty()) =~= out@);
    }
    Some(out)
}


} // verus!

//! Unit tests of the pieces: the lexer's spans, the raw-token
//! substitution, the bindings, the token predicates, and the bit-level
//! arithmetic constants.
use calculator::bindings::Bindings;
use calculator::bits;
use calculator::lexer::tokens_from_raw;
use calculator::lexer::RawToken;
use calculator::operator::Function;
use calculator::operator::Operator;
use calculator::operator::OperatorAssociativity;
use calculator::expression::Expression;
use calculator::token::ParenthesisDirection;
use calculator::token::Token;

fn lex(text: &str) -> Vec<RawToken> {
    Expression::infix_tokens_from_str(text).unwrap()
}

#[test]
fn lexer_spans_and_categories() {
    assert_eq!(
        lex("2.5x+sin(1)"),
        vec![
            RawToken::Number { start: 0, len: 3 },
            RawToken::Variable('x'),
            RawToken::Operator(Operator::Add),
            RawToken::Function(Function::Sin),
            RawToken::Parenthesis(ParenthesisDirection::Left),
            RawToken::Number { start: 9, len: 1 },
            RawToken::Parenthesis(ParenthesisDirection::Right),
        ]
    );
}

#[test]
fn lexer_number_forms() {
    assert_eq!(
        lex("1. .5 2.75"),
        vec![
            RawToken::Number { start: 0, len: 2 },
            RawToken::Number { start: 3, len: 2 },
            RawToken::Number { start: 6, len: 4 },
        ]
    );
    // a lone dot is no number; it falls back to a variable
    assert_eq!(lex("."), vec![RawToken::Variable('.')]);
}

#[test]
fn lexer_keywords_use_maximal_munch() {
    // "sin" is one keyword, the trailing letter is a variable
    assert_eq!(
        lex("sins"),
        vec![RawToken::Function(Function::Sin), RawToken::Variable('s')]
    );
    // "si" is no keyword at all
    assert_eq!(
        lex("si"),
        vec![RawToken::Variable('s'), RawToken::Variable('i')]
    );
    assert_eq!(lex("E"), vec![RawToken::Function(Function::E)]);
    assert_eq!(lex("Pi"), vec![RawToken::Function(Function::Pi)]);
}

#[test]
fn lexer_operators() {
    assert_eq!(
        lex("+-*/%^√"),
        vec![
            RawToken::Operator(Operator::Add),
            RawToken::Operator(Operator::Sub),
            RawToken::Operator(Operator::Mul),
            RawToken::Operator(Operator::Div),
            RawToken::Operator(Operator::Mod),
            RawToken::Operator(Operator::Pow),
            RawToken::Operator(Operator::Rot),
        ]
    );
}

#[test]
fn substitution_pairs_literals_with_values() {
    let raw = lex("1+2");
    let tokens = tokens_from_raw(&raw, &vec![1.0f64.to_bits(), 2.0f64.to_bits()]).unwrap();
    assert_eq!(
        tokens,
        vec![
            Token::Constant(1.0f64.to_bits()),
            Token::Operator(Operator::Add),
            Token::Constant(2.0f64.to_bits()),
        ]
    );
}

#[test]
fn substitution_rejects_wrong_count() {
    let raw = lex("1+2");
    assert!(tokens_from_raw(&raw, &vec![1.0f64.to_bits()]).is_none());
    assert!(tokens_from_raw(&raw, &vec![0, 0, 0]).is_none());
}

#[test]
fn symbol_table() {
    assert_eq!(Operator::Add.get_parameters(), 2);
    assert_eq!(Operator::Unm.get_parameters(), 1);
    assert_eq!(Operator::Add.get_precedence(), 2);
    assert_eq!(Operator::Mul.get_precedence(), 3);
    assert_eq!(Operator::Pow.get_precedence(), 5);
    assert_eq!(Operator::Unm.get_precedence(), 7);
    assert_eq!(Operator::Sub.get_associativity(), OperatorAssociativity::Left);
    assert_eq!(Operator::Pow.get_associativity(), OperatorAssociativity::Right);
    assert_eq!(Function::Sin.get_parameters(), 1);
    assert_eq!(Function::Pi.get_parameters(), 0);
    assert_eq!(Function::E.get_parameters(), 0);
    assert_eq!(Function::Sin.get_precedence(), 4);
}

#[test]
fn token_predicates() {
    assert!(Token::Constant(0).is_value());
    assert!(Token::Variable('x').is_value());
    assert!(!Token::Operator(Operator::Add).is_value());
    assert!(Token::Operator(Operator::Add).is_operator());
    assert!(!Token::Function(Function::Sin).is_operator());
    assert!(Token::Function(Function::Sin).is_function());
    assert!(!Token::Parenthesis(ParenthesisDirection::Left).is_function());
}

#[test]
fn bindings_shadow_and_lookup() {
    let mut vars = Bindings::new();
    assert_eq!(vars.get('x'), None);
    vars.insert('x', 1.0f64.to_bits());
    vars.insert('y', 2.0f64.to_bits());
    vars.insert('x', 3.0f64.to_bits());
    assert_eq!(vars.get('x'), Some(3.0f64.to_bits()));
    assert_eq!(vars.get('y'), Some(2.0f64.to_bits()));
    assert_eq!(vars.get('z'), None);
}

#[test]
fn constant_bit_patterns_match_std() {
    assert_eq!(bits::PI_BITS, std::f64::consts::PI.to_bits());
    assert_eq!(bits::E_BITS, std::f64::consts::E.to_bits());
}

#[test]
fn sign_bit_operations() {
    assert_eq!(f64::from_bits(bits::negate(5.0f64.to_bits())), -5.0);
    assert_eq!(f64::from_bits(bits::negate((-5.0f64).to_bits())), 5.0);
    assert_eq!(f64::from_bits(bits::absolute((-5.0f64).to_bits())), 5.0);
    assert_eq!(f64::from_bits(bits::absolute(5.0f64.to_bits())), 5.0);
    assert_eq!(bits::negate(0.0f64.to_bits()), (-0.0f64).to_bits());
    assert!(f64::from_bits(bits::absolute(f64::NAN.to_bits())).is_nan());
}

#[test]
fn parenthesis_from_symbol() {
    assert_eq!(
        ParenthesisDirection::from_symbol('('),
        Some(ParenthesisDirection::Left)
    );
    assert_eq!(
        ParenthesisDirection::from_symbol(')'),
        Some(ParenthesisDirection::Right)
    );
    assert_eq!(ParenthesisDirection::from_symbol('x'), None);
    assert_eq!(Operator::from_symbol('%'), Some(Operator::Mod));
    assert_eq!(Operator::from_symbol('√'), Some(Operator::Rot));
    assert_eq!(Operator::from_symbol('1'), None);
}

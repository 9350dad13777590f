//! End-to-end tests: text is compiled to a postfix expression and evaluated
//! with real double-precision arithmetic supplied to the step-wise machine.
use calculator::bindings::Bindings;
use calculator::errors::EvalError;
use calculator::errors::ParseError;
use calculator::eval::EvalStep;
use calculator::expression::Expression;
use calculator::lexer::tokens_from_raw;
use calculator::lexer::RawToken;
use calculator::operator::Function;
use calculator::operator::Operator;
use calculator::token::Token;

/// The floating-point compute rules: exactly the operator and function
/// semantics of the engine, applied to the arguments in push order.
fn apply(token: &Token, args: &[f64]) -> f64 {
    match token {
        Token::Operator(o) => match o {
            Operator::Add => args[0] + args[1],
            Operator::Sub => args[0] - args[1],
            Operator::Mul => args[0] * args[1],
            Operator::Div => args[0] / args[1],
            Operator::Mod => args[0] % args[1],
            Operator::Pow => args[0].powf(args[1]),
            Operator::Rot => args[1].powf(args[0].recip()),
            Operator::Unp => args[0],
            Operator::Unm => -args[0],
        },
        Token::Function(f) => match f {
            Function::Sin => args[0].sin(),
            Function::Cos => args[0].cos(),
            Function::Tan => args[0].tan(),
            Function::Csc => args[0].sin().recip(),
            Function::Sec => args[0].cos().recip(),
            Function::Cot => args[0].tan().recip(),
            Function::Log => args[0].log10(),
            Function::Ln => args[0].log(std::f64::consts::E),
            Function::Abs => args[0].abs(),
            Function::Sgn => args[0].signum(),
            Function::Pi => std::f64::consts::PI,
            Function::E => std::f64::consts::E,
        },
        other => panic!("the machine never asks to apply {:?}", other),
    }
}

/// Runs one evaluation, answering the machine's arithmetic requests with
/// real double-precision operations.
fn calculate(expr: &Expression, vars: Option<&Bindings>) -> Result<f64, EvalError> {
    let mut machine = expr.evaluator(vars);
    loop {
        match machine.advance() {
            EvalStep::Apply { token, args } => {
                let floats: Vec<f64> = args.iter().map(|b| f64::from_bits(*b)).collect();
                let result = apply(&token, &floats);
                machine.supply(result.to_bits());
            }
            EvalStep::Done { value } => return Ok(f64::from_bits(value)),
            EvalStep::Fail { error } => return Err(error),
        }
    }
}

/// The full compile pipeline: lex, parse each numeric literal into its bit
/// pattern, substitute, expand and convert.
fn compile(text: &str) -> Result<Expression, ParseError> {
    let raw = Expression::infix_tokens_from_str(text)?;
    let chars: Vec<char> = text.chars().collect();
    let mut constants: Vec<u64> = Vec::new();
    for t in &raw {
        if let RawToken::Number { start, len } = t {
            let literal: String = chars[*start..*start + *len].iter().collect();
            let value: f64 = literal.parse().expect("the lexer only spans valid literals");
            constants.push(value.to_bits());
        }
    }
    let tokens = tokens_from_raw(&raw, &constants).expect("one constant per literal");
    Expression::new_from_infix(tokens)
}

fn eval_str(text: &str) -> f64 {
    calculate(&compile(text).unwrap(), None).unwrap()
}

#[test]
fn calculate_expression() {
    assert_eq!(
        calculate(
            &Expression::new(vec![
                Token::Constant(2.0f64.to_bits()),
                Token::Constant(4.0f64.to_bits()),
                Token::Operator(Operator::Mul),
            ]),
            None,
        )
        .unwrap(),
        8.0
    );
}

#[test]
fn argument_order() {
    assert_eq!(
        calculate(
            &Expression::new(vec![
                Token::Constant(1.0f64.to_bits()),
                Token::Constant(2.0f64.to_bits()),
                Token::Operator(Operator::Div),
            ]),
            None,
        )
        .unwrap(),
        0.5
    );
}

#[test]
fn infix_expression_order() {
    assert_eq!(
        calculate(
            &Expression::new_from_infix(vec![
                Token::Constant(1.0f64.to_bits()),
                Token::Operator(Operator::Div),
                Token::Constant(2.0f64.to_bits()),
            ])
            .unwrap(),
            None,
        )
        .unwrap(),
        0.5
    );

    // (2 + 5) * 6 ^ 2 = 252
    let my_expression = Expression::new_from_infix(vec![
        Token::Parenthesis(calculator::token::ParenthesisDirection::Left),
        Token::Constant(2.0f64.to_bits()),
        Token::Operator(Operator::Add),
        Token::Constant(5.0f64.to_bits()),
        Token::Parenthesis(calculator::token::ParenthesisDirection::Right),
        Token::Operator(Operator::Mul),
        Token::Constant(6.0f64.to_bits()),
        Token::Operator(Operator::Pow),
        Token::Constant(2.0f64.to_bits()),
    ])
    .unwrap();

    // 2 + 5 * 6 ^ 2 = 182
    let my_other_expression = Expression::new_from_infix(vec![
        Token::Constant(2.0f64.to_bits()),
        Token::Operator(Operator::Add),
        Token::Constant(5.0f64.to_bits()),
        Token::Operator(Operator::Mul),
        Token::Constant(6.0f64.to_bits()),
        Token::Operator(Operator::Pow),
        Token::Constant(2.0f64.to_bits()),
    ])
    .unwrap();

    assert_eq!(calculate(&my_expression, None).unwrap(), 252.0);
    assert_eq!(calculate(&my_other_expression, None).unwrap(), 182.0);
}

#[test]
fn infix_expression_from_string() {
    let my_expression = compile("2.0+(2^5)/8").unwrap();
    assert_eq!(calculate(&my_expression, None).unwrap(), 6.0);
}

#[test]
fn missing_left_paren() {
    assert!(compile("2+2^5)/8").is_err());
}

#[test]
fn missing_right_paren() {
    assert!(compile("2+(2^5/8").is_err());
}

#[test]
fn error_handling() {
    assert!(calculate(
        &Expression::new_from_infix(vec![
            Token::Constant(1.0f64.to_bits()),
            Token::Operator(Operator::Div),
            Token::Operator(Operator::Div),
            Token::Constant(2.0f64.to_bits()),
        ])
        .unwrap(),
        None,
    )
    .is_err());
}

#[test]
fn basic_simplify() {
    // There is no simplification pass: an expression of constants is simply
    // cheap to share and evaluates to its folded value every time.
    let expr = compile("2*4+1").unwrap();
    let copy = expr.clone();
    assert_eq!(calculate(&expr, None).unwrap(), 9.0);
    assert_eq!(calculate(&copy, None).unwrap(), 9.0);
}

#[test]
fn precedence() {
    assert_eq!(eval_str("2+5*6^2"), 182.0);
    assert_eq!(eval_str("(2+5)*6^2"), 252.0);
}

#[test]
fn exponentiation_is_right_associative() {
    // 2^(3^2), not (2^3)^2
    assert_eq!(eval_str("2^3^2"), 512.0);
}

#[test]
fn implicit_multiplication() {
    assert_eq!(eval_str("2(3+4)"), 14.0);

    let mut vars = Bindings::new();
    vars.insert('x', 3.0f64.to_bits());
    let expr = compile("x(x-5)(x+2)").unwrap();
    assert_eq!(calculate(&expr, Some(&vars)).unwrap(), -30.0);
}

#[test]
fn implicit_multiplication_with_keywords() {
    let mut vars = Bindings::new();
    vars.insert('x', 2.0f64.to_bits());
    let expr = compile("x sin(x)").unwrap();
    assert_eq!(
        calculate(&expr, Some(&vars)).unwrap(),
        2.0 * 2.0f64.sin()
    );
    assert_eq!(eval_str("2Pi"), 2.0 * std::f64::consts::PI);
}

#[test]
fn division_by_zero_is_infinity() {
    let value = eval_str("1/0");
    assert_eq!(value, f64::INFINITY);
}

#[test]
fn mismatched_parentheses_errors() {
    assert_eq!(
        compile("2+2^5)/8").unwrap_err(),
        ParseError::MissingLeftParenthesis
    );
    assert_eq!(
        compile("2+(2^5/8").unwrap_err(),
        ParseError::MissingRightParenthesis
    );
    assert_eq!(compile(")").unwrap_err(), ParseError::MissingLeftParenthesis);
}

#[test]
fn stack_underflow_at_evaluation() {
    // The postfix sequence [1.0, Div, Div, 2.0], evaluated directly.
    let expr = Expression::new(vec![
        Token::Constant(1.0f64.to_bits()),
        Token::Operator(Operator::Div),
        Token::Operator(Operator::Div),
        Token::Constant(2.0f64.to_bits()),
    ]);
    assert_eq!(calculate(&expr, None).unwrap_err(), EvalError::StackUnderflow);
}

#[test]
fn round_trip() {
    assert_eq!(eval_str("2.0+(2^5)/8"), 6.0);
}

#[test]
fn undefined_variable() {
    let expr = Expression::new(vec![Token::Variable('x')]);
    let empty = Bindings::new();
    assert_eq!(
        calculate(&expr, Some(&empty)).unwrap_err(),
        EvalError::UndefinedVariable('x')
    );
    assert_eq!(
        calculate(&expr, None).unwrap_err(),
        EvalError::UndefinedVariable('x')
    );
}

#[test]
fn evaluation_is_repeatable() {
    let mut vars = Bindings::new();
    vars.insert('x', 1.25f64.to_bits());
    let expr = compile("sin(x)^2+cos(x)^2*x").unwrap();
    let first = calculate(&expr, Some(&vars)).unwrap();
    let second = calculate(&expr, Some(&vars)).unwrap();
    assert_eq!(first.to_bits(), second.to_bits());
}

#[test]
fn empty_input_gives_empty_result() {
    let expr = compile("").unwrap();
    assert_eq!(calculate(&expr, None).unwrap_err(), EvalError::EmptyResult);
}

#[test]
fn leftover_values_are_rejected() {
    let expr = Expression::new(vec![
        Token::Constant(1.0f64.to_bits()),
        Token::Constant(2.0f64.to_bits()),
    ]);
    assert_eq!(calculate(&expr, None).unwrap_err(), EvalError::LeftoverValues);
}

#[test]
fn modulo_and_root() {
    assert_eq!(eval_str("7%4"), 3.0);
    // 2√9 is the square root of 9
    assert_eq!(eval_str("2√9"), 3.0);
}

#[test]
fn unary_operators_via_tokens() {
    let negated = Expression::new_from_infix(vec![
        Token::Operator(Operator::Unm),
        Token::Constant(5.0f64.to_bits()),
    ])
    .unwrap();
    assert_eq!(calculate(&negated, None).unwrap(), -5.0);

    let kept = Expression::new_from_infix(vec![
        Token::Operator(Operator::Unp),
        Token::Constant(5.0f64.to_bits()),
    ])
    .unwrap();
    assert_eq!(calculate(&kept, None).unwrap(), 5.0);
}

#[test]
fn function_table() {
    assert_eq!(eval_str("sin(0)"), 0.0);
    assert_eq!(eval_str("cos(0)"), 1.0);
    assert_eq!(eval_str("tan(0)"), 0.0);
    assert_eq!(eval_str("sec(0)"), 1.0);
    assert_eq!(eval_str("csc(1)"), 1.0f64.sin().recip());
    assert_eq!(eval_str("cot(1)"), 1.0f64.tan().recip());
    assert_eq!(eval_str("log(100)"), 2.0);
    assert_eq!(eval_str("ln(1)"), 0.0);
    assert_eq!(eval_str("abs(0-5)"), 5.0);
    assert_eq!(eval_str("sgn(0-3)"), -1.0);
    assert_eq!(eval_str("E"), std::f64::consts::E);
    assert_eq!(eval_str("Pi"), std::f64::consts::PI);
}

#[test]
fn leading_minus_is_binary_subtraction() {
    // `-` is always the binary operator, so a leading minus has no left
    // operand and the failure surfaces at evaluation
    let expr = compile("-5+2").unwrap();
    assert_eq!(calculate(&expr, None).unwrap_err(), EvalError::StackUnderflow);
}

#[test]
fn zero_over_zero_is_nan() {
    assert!(eval_str("0/0").is_nan());
}

#[test]
fn whitespace_is_skipped() {
    assert_eq!(eval_str(" 1 +\t2 "), 3.0);
}

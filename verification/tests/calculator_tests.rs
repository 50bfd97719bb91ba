use sixball_dice::calculator::{evaluate, evaluate_string, evaluate_tokens, resolve_rpn};
use sixball_dice::rational::Rational;
use sixball_dice::rpn_token::RpnToken;
use sixball_dice::dice_errors::MathError;
use sixball_dice::rpn_expression::RpnExpression;

#[test]
fn test_rpn() {
    let expression = "3+4*2/(1-5)^2^3";
    let result = 3.0001220703125;
    let token_vector = RpnExpression::tokenize_expression(expression).unwrap();
    let postfix_expression = RpnExpression::shunting_yard(&token_vector).unwrap();

    let value = resolve_rpn(&postfix_expression).unwrap();
    assert_eq!(value.num as f64 / value.den as f64, result);
}

#[test]
fn evaluate_string_handles_precedence() {
    let q = evaluate_string("2+3*4").unwrap();
    assert_eq!(q.num, 14 * q.den / 1);
    let q2 = evaluate_string("(2+3)*4").unwrap();
    assert_eq!(q2.num, 20 * q2.den);
    let q3 = evaluate_string("2^3^2").unwrap();
    // Right associative: 2^(3^2) = 512.
    assert_eq!(q3.num, 512 * q3.den);
}

#[test]
fn evaluate_renders_text() {
    assert_eq!(evaluate("1+2").unwrap(), "3");
    assert_eq!(evaluate("7/2").unwrap(), "7/2");
}

#[test]
fn division_by_zero_is_an_error() {
    assert_eq!(evaluate_string("1/0"), Err(MathError::DivisionByZero));
}

#[test]
fn fractional_exponent_is_an_error() {
    assert_eq!(
        evaluate_string("2^(1/2)"),
        Err(MathError::NonIntegerExponent)
    );
}

#[test]
fn malformed_expressions_are_errors() {
    assert_eq!(
        evaluate_string("1+"),
        Err(MathError::MalformedExpressionError)
    );
    assert_eq!(
        evaluate_string("(1+2"),
        Err(MathError::MalformedExpressionError)
    );
    assert!(matches!(
        evaluate_string("1d6"),
        Err(MathError::SymbolError(_))
    ));
}

#[test]
fn decimal_literals_are_exact() {
    let q = evaluate_string("0.25*4").unwrap();
    assert_eq!(q.num, q.den);
}

#[test]
fn evaluate_tokens_runs_infix_tokens() {
    let tokens = vec![
        RpnToken::Number(Rational::from_int(2)),
        RpnToken::Add,
        RpnToken::Number(Rational::from_int(3)),
        RpnToken::Mul,
        RpnToken::Number(Rational::from_int(4)),
    ];
    let q = evaluate_tokens(&tokens).unwrap();
    assert_eq!(q.num, 14 * q.den);
}

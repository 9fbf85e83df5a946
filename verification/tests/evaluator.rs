use expr_eval::{evaluate, precedence, tokenize, Token};

fn val(s: &str) -> f64 {
    f64::from_bits(evaluate(s).unwrap())
}

#[test]
fn test_floating_point_numbers() {
    assert_eq!(val("2.5 + 1.5"), 4.0);
    assert_eq!(val("3.3 * 3"), 9.899999999999999);
    assert!((val("5.5 / 2") - 2.75).abs() < f64::EPSILON);
}

#[test]
fn test_operator_precedence() {
    assert_eq!(val("2 + 3 * 4"), 14.0);
    assert_eq!(val("10 - 2 * 3"), 4.0);
    assert_eq!(val("20 / 4 + 2"), 7.0);
}

#[test]
fn test_whitespace_handling() {
    assert_eq!(val("2+2"), 4.0);
    assert_eq!(val(" 2 + 2 "), 4.0);
    assert_eq!(val("2    +    2"), 4.0);
}

#[test]
fn test_multiple_operations() {
    assert_eq!(val("1 + 2 + 3"), 6.0);
    assert_eq!(val("10 - 2 - 3"), 5.0);
    assert_eq!(val("2 * 3 * 4"), 24.0);
    assert_eq!(val("24 / 2 / 3"), 4.0);
}

#[test]
fn test_decimal_precision() {
    assert!((val("0.1 + 0.2") - 0.3).abs() < f64::EPSILON);
    assert!((val("0.7 * 0.1") - 0.07).abs() < f64::EPSILON);
}

#[test]
fn test_product_is_native_double_bits() {
    assert_eq!(evaluate("3.3 * 3").unwrap(), (3.3f64 * 3.0f64).to_bits());
    assert_eq!(evaluate("0.1 + 0.2").unwrap(), (0.1f64 + 0.2f64).to_bits());
    assert_eq!(evaluate("5.5 / 2").unwrap(), (5.5f64 / 2.0f64).to_bits());
    assert_eq!(evaluate("10 - 2.25").unwrap(), (10.0f64 - 2.25f64).to_bits());
}

#[test]
fn test_parenthesization() {
    assert_eq!(val("(2 + 3) * 4"), 20.0);
    assert_eq!(val("2 * (3 + 4)"), 14.0);
}

#[test]
fn test_repeated_evaluation_is_bit_identical() {
    let first = evaluate("3.3 * 3 - 0.7 / 0.1").unwrap();
    let second = evaluate("3.3 * 3 - 0.7 / 0.1").unwrap();
    let third = evaluate("3.3 * 3 - 0.7 / 0.1").unwrap();
    assert_eq!(first, second);
    assert_eq!(second, third);
}

#[test]
fn test_tokenize_sequence() {
    let ts = tokenize("2 + 3.5").unwrap();
    assert_eq!(
        ts,
        vec![
            Token::Number(2.0f64.to_bits()),
            Token::Plus,
            Token::Number(3.5f64.to_bits()),
        ]
    );
}

#[test]
fn test_tokenize_empty_and_spaces() {
    assert_eq!(tokenize("").unwrap(), Vec::<Token>::new());
    assert_eq!(tokenize("   ").unwrap(), Vec::<Token>::new());
}

#[test]
fn test_tokenize_leading_dot_literal() {
    let ts = tokenize(".5 + 1.").unwrap();
    assert_eq!(
        ts,
        vec![
            Token::Number(0.5f64.to_bits()),
            Token::Plus,
            Token::Number(1.0f64.to_bits()),
        ]
    );
}

#[test]
fn test_precedence_values() {
    assert_eq!(precedence(&Token::Plus), 1);
    assert_eq!(precedence(&Token::Minus), 1);
    assert_eq!(precedence(&Token::Multiply), 2);
    assert_eq!(precedence(&Token::Divide), 2);
    assert_eq!(precedence(&Token::LeftParen), 0);
}

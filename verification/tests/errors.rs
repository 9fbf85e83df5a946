use expr_eval::{apply_operator, evaluate, evaluate_expression, EvalError, Token};

#[test]
fn test_division_by_zero() {
    assert_eq!(evaluate("5 / 0"), Err(EvalError::DivisionByZero));
    assert_eq!(evaluate("5 / 0.0"), Err(EvalError::DivisionByZero));
    assert_eq!(evaluate("5 / 0.00"), Err(EvalError::DivisionByZero));
}

#[test]
fn test_minus_before_literal_is_an_operator() {
    // There is no unary minus: the '-' in "5 / -0.0" is a Minus token, and
    // unwinding the pending division underflows the operand stack.
    assert_eq!(evaluate("5 / -0.0"), Err(EvalError::InvalidExpression));
}

#[test]
fn test_negative_zero_divisor() {
    // (0 - 1) * 0 is the IEEE-754 negative zero; it still counts as zero.
    assert_eq!(f64::from_bits(evaluate("(0 - 1) * 0").unwrap()), 0.0);
    assert_eq!(evaluate("1 / ((0 - 1) * 0)"), Err(EvalError::DivisionByZero));
}

#[test]
fn test_division_by_small_nonzero_allowed() {
    let r = evaluate("1 / 0.0000001").unwrap();
    assert_eq!(f64::from_bits(r), 1.0f64 / 0.0000001f64);
}

#[test]
fn test_trailing_operator_is_invalid_expression() {
    assert_eq!(evaluate("2 +"), Err(EvalError::InvalidExpression));
}

#[test]
fn test_unexpected_character_names_it() {
    assert_eq!(evaluate("2 $ 3"), Err(EvalError::UnexpectedCharacter('$')));
    assert_eq!(evaluate("2 + a"), Err(EvalError::UnexpectedCharacter('a')));
}

#[test]
fn test_multiple_dots_are_invalid_number() {
    assert_eq!(evaluate("2..5 + 1"), Err(EvalError::InvalidNumber));
    assert_eq!(evaluate("."), Err(EvalError::InvalidNumber));
}

#[test]
fn test_empty_input_is_invalid_expression() {
    assert_eq!(evaluate(""), Err(EvalError::InvalidExpression));
    assert_eq!(evaluate("   "), Err(EvalError::InvalidExpression));
}

#[test]
fn test_left_paren_applied_as_operator_is_invalid_operator() {
    // A number, an open parenthesis, a number: the final flush pops the
    // parenthesis with two operands on the stack and applies it.
    assert_eq!(evaluate("2 (3"), Err(EvalError::InvalidOperator));
}

#[test]
fn test_unmatched_left_paren_is_invalid_expression() {
    assert_eq!(evaluate("(2 + 3"), Err(EvalError::InvalidExpression));
}

#[test]
fn test_unmatched_right_paren_is_ignored() {
    assert_eq!(f64::from_bits(evaluate("2 + 3) * 4").unwrap()), 20.0);
    assert_eq!(f64::from_bits(evaluate("(2 + 3)) * 4").unwrap()), 20.0);
}

#[test]
fn test_extra_operands_only_top_returned() {
    assert_eq!(f64::from_bits(evaluate("2 3 4").unwrap()), 4.0);
}

#[test]
fn test_apply_operator_on_stack() {
    let mut numbers = vec![2.0f64.to_bits(), 3.0f64.to_bits()];
    assert_eq!(apply_operator(&mut numbers, Token::Plus), Ok(()));
    assert_eq!(numbers, vec![5.0f64.to_bits()]);

    let mut short = vec![1.0f64.to_bits()];
    assert_eq!(
        apply_operator(&mut short, Token::Minus),
        Err(EvalError::InvalidExpression)
    );
    assert_eq!(short, vec![1.0f64.to_bits()]);
}

#[test]
fn test_evaluate_expression_on_tokens() {
    let tokens = vec![
        Token::Number(6.0f64.to_bits()),
        Token::Divide,
        Token::Number(0.0f64.to_bits()),
    ];
    assert_eq!(
        evaluate_expression(&tokens),
        Err(EvalError::DivisionByZero)
    );

    let tokens = vec![
        Token::Number(6.0f64.to_bits()),
        Token::Multiply,
        Token::Number(7.0f64.to_bits()),
    ];
    assert_eq!(
        evaluate_expression(&tokens),
        Ok(42.0f64.to_bits())
    );
}

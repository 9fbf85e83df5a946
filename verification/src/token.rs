use vstd::prelude::*;

verus! {

/// A lexical unit of an arithmetic expression. A numeric literal is carried
/// as the IEEE-754 binary64 bit pattern of its value, so that the evaluator
/// can be reasoned about over plain integers.
#[derive(Clone, Copy, Debug, PartialEq, Eq, Structural)]
pub enum Token {
    Number(u64),
    Plus,
    Minus,
    Multiply,
    Divide,
    LeftParen,
    RightParen,
}

/// The failure categories of tokenizing and evaluating.
#[derive(Clone, Copy, Debug, PartialEq, Eq, Structural)]
pub enum EvalError {
    /// A numeric literal did not parse (for example, two decimal points).
    InvalidNumber,
    /// A character outside the recognized token set, carrying that character.
    UnexpectedCharacter(char),
    /// Operand underflow when applying an operator, or no result at the end.
    InvalidExpression,
    /// A divisor that compares equal to zero.
    DivisionByZero,
    /// A non-operator token routed into operator application.
    InvalidOperator,
}

/// True of the four binary operator tokens.
pub open spec fn is_binary_op(t: Token) -> bool {
    t is Plus || t is Minus || t is Multiply || t is Divide
}

/// Binding strength: multiplicative 2, additive 1. A left parenthesis on the
/// operator stack acts as a floor of 0, so no operator unwinds past it.
pub open spec fn spec_precedence(t: Token) -> int {
    match t {
        Token::Plus | Token::Minus => 1,
        Token::Multiply | Token::Divide => 2,
        _ => 0,
    }
}

/// Binding strength of a token, as the evaluator consults it.
pub fn precedence(token: &Token) -> (r: i32)
    ensures
        r as int == spec_precedence(*token),
{
    match token {
        Token::Plus | Token::Minus => 1,
        Token::Multiply | Token::Divide => 2,
        Token::LeftParen => 0,
        _ => 0,
    }
}

} // verus!

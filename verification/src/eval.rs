use vstd::prelude::*;

use crate::arith::{add_bits, bits_are_zero, div_bits, f64_add, f64_div, f64_mul, f64_sub,
    is_zero_bits, mul_bits, sub_bits};
use crate::token::{is_binary_op, precedence, spec_precedence, EvalError, Token};

verus! {

/// Applying an operator to the operand stack: pop `b` then `a`, push the
/// result of `a op b`. Fewer than two operands is `InvalidExpression`; a
/// divisor whose bits compare equal to zero is `DivisionByZero`; a token
/// that is no binary operator is `InvalidOperator`.
pub open spec fn spec_apply(numbers: Seq<u64>, op: Token) -> Result<Seq<u64>, EvalError> {
    if numbers.len() < 2 {
        Err(EvalError::InvalidExpression)
    } else {
        let b = numbers.last();
        let a = numbers[numbers.len() - 2];
        let rest = numbers.take(numbers.len() - 2);
        match op {
            Token::Plus => Ok(rest.push(f64_add(a, b))),
            Token::Minus => Ok(rest.push(f64_sub(a, b))),
            Token::Multiply => Ok(rest.push(f64_mul(a, b))),
            Token::Divide => if is_zero_bits(b) {
                Err(EvalError::DivisionByZero)
            } else {
                Ok(rest.push(f64_div(a, b)))
            },
            _ => Err(EvalError::InvalidOperator),
        }
    }
}

/// The operand stack after a failed application: underflow leaves it as it
/// was; any later failure has already consumed the two popped operands.
pub open spec fn spec_apply_failed_stack(numbers: Seq<u64>, op: Token) -> Seq<u64> {
    if numbers.len() < 2 {
        numbers
    } else {
        numbers.take(numbers.len() - 2)
    }
}

/// Pop and apply operators while the top of the operator stack binds at
/// least as strongly as an incoming operator of strength `prec` (the
/// left-associative tie-break); a left parenthesis, of strength 0, always
/// stops the unwinding.
pub open spec fn spec_unwind_op(numbers: Seq<u64>, operators: Seq<Token>, prec: int) -> Result<
    (Seq<u64>, Seq<Token>),
    EvalError,
>
    decreases operators.len(),
{
    if operators.len() == 0 {
        Ok((numbers, operators))
    } else if prec <= spec_precedence(operators.last()) {
        match spec_apply(numbers, operators.last()) {
            Ok(ns) => spec_unwind_op(ns, operators.drop_last(), prec),
            Err(e) => Err(e),
        }
    } else {
        Ok((numbers, operators))
    }
}

/// Pop and apply operators until a left parenthesis is popped and discarded.
/// An emptied stack stops the unwinding silently: an unmatched right
/// parenthesis is not an error.
pub open spec fn spec_unwind_paren(numbers: Seq<u64>, operators: Seq<Token>) -> Result<
    (Seq<u64>, Seq<Token>),
    EvalError,
>
    decreases operators.len(),
{
    if operators.len() == 0 {
        Ok((numbers, operators))
    } else if operators.last() is LeftParen {
        Ok((numbers, operators.drop_last()))
    } else {
        match spec_apply(numbers, operators.last()) {
            Ok(ns) => spec_unwind_paren(ns, operators.drop_last()),
            Err(e) => Err(e),
        }
    }
}

/// Pop and apply every operator left on the operator stack, in LIFO order.
/// A stray left parenthesis popped here is applied and fails.
pub open spec fn spec_flush(numbers: Seq<u64>, operators: Seq<Token>) -> Result<Seq<u64>, EvalError>
    decreases operators.len(),
{
    if operators.len() == 0 {
        Ok(numbers)
    } else {
        match spec_apply(numbers, operators.last()) {
            Ok(ns) => spec_flush(ns, operators.drop_last()),
            Err(e) => Err(e),
        }
    }
}

/// One left-to-right pass over the remaining tokens, from the given stacks:
/// numbers are pushed, operators unwind by precedence and are pushed,
/// parentheses group; after the last token the operator stack is flushed and
/// the top of the operand stack is the result. An empty operand stack at the
/// end is `InvalidExpression`; operands below the top are ignored.
pub open spec fn spec_eval_from(
    tokens: Seq<Token>,
    numbers: Seq<u64>,
    operators: Seq<Token>,
) -> Result<u64, EvalError>
    decreases tokens.len(),
{
    if tokens.len() == 0 {
        match spec_flush(numbers, operators) {
            Ok(ns) => if ns.len() == 0 {
                Err(EvalError::InvalidExpression)
            } else {
                Ok(ns.last())
            },
            Err(e) => Err(e),
        }
    } else {
        let t = tokens[0];
        let rest = tokens.drop_first();
        match t {
            Token::Number(v) => spec_eval_from(rest, numbers.push(v), operators),
            Token::LeftParen => spec_eval_from(rest, numbers, operators.push(t)),
            Token::RightParen => match spec_unwind_paren(numbers, operators) {
                Ok((ns, os)) => spec_eval_from(rest, ns, os),
                Err(e) => Err(e),
            },
            _ => match spec_unwind_op(numbers, operators, spec_precedence(t)) {
                Ok((ns, os)) => spec_eval_from(rest, ns, os.push(t)),
                Err(e) => Err(e),
            },
        }
    }
}

/// What the two-stack pass yields on a whole token sequence.
pub open spec fn spec_evaluate_tokens(tokens: Seq<Token>) -> Result<u64, EvalError> {
    spec_eval_from(tokens, Seq::empty(), Seq::empty())
}

/// Pop the top two operands as `b` then `a` and push `a op b`, or fail as
/// `spec_apply` says.
pub fn apply_operator(numbers: &mut Vec<u64>, op: Token) -> (r: Result<(), EvalError>)
    ensures
        match spec_apply(old(numbers)@, op) {
            Ok(ns) => r == Ok::<(), EvalError>(()) && final(numbers)@ == ns,
            Err(e) => r == Err::<(), EvalError>(e) && final(numbers)@ == spec_apply_failed_stack(
                old(numbers)@,
                op,
            ),
        },
{
    if numbers.len() < 2 {
        return Err(EvalError::InvalidExpression);
    }
    let b = numbers.pop().unwrap();
    let a = numbers.pop().unwrap();
    proof {
        assert(numbers@ =~= old(numbers)@.take(old(numbers)@.len() - 2));
    }
    let result = match op {
        Token::Plus => add_bits(a, b),
        Token::Minus => sub_bits(a, b),
        Token::Multiply => mul_bits(a, b),
        Token::Divide => {
            if bits_are_zero(b) {
                return Err(EvalError::DivisionByZero);
            }
            div_bits(a, b)
        },
        _ => {
            return Err(EvalError::InvalidOperator);
        },
    };
    numbers.push(result);
    Ok(())
}

/// Whether the incoming strength `prec` must unwind the top of the operator
/// stack before being pushed.
fn should_unwind(operators: &Vec<Token>, prec: i32) -> (r: bool)
    ensures
        r == (operators@.len() > 0 && prec as int <= spec_precedence(operators@.last())),
{
    if operators.len() == 0 {
        false
    } else {
        let top = operators[operators.len() - 1];
        prec <= precedence(&top)
    }
}

/// Whether unwinding toward a left parenthesis must apply another operator:
/// the stack still has a top and it is no left parenthesis.
fn paren_unwind_continues(operators: &Vec<Token>) -> (r: bool)
    ensures
        r == (operators@.len() > 0 && !(operators@.last() is LeftParen)),
{
    if operators.len() == 0 {
        false
    } else {
        !matches!(operators[operators.len() - 1], Token::LeftParen)
    }
}

/// Evaluate a token sequence in one left-to-right pass with an operand stack
/// and an operator stack, exactly as `spec_evaluate_tokens` states.
pub fn evaluate_expression(tokens: &[Token]) -> (r: Result<u64, EvalError>)
    ensures
        r == spec_evaluate_tokens(tokens@),
{
    let mut numbers: Vec<u64> = Vec::new();
    let mut operators: Vec<Token> = Vec::new();
    let n = tokens.len();
    let mut idx: usize = 0;
    proof {
        assert(tokens@.skip(0) =~= tokens@);
    }
    while idx < n
        invariant
            n == tokens@.len(),
            idx <= n,
            spec_evaluate_tokens(tokens@) == spec_eval_from(
                tokens@.skip(idx as int),
                numbers@,
                operators@,
            ),
        decreases n - idx,
    {
        let ghost pending = tokens@.skip(idx as int);
        let token = tokens[idx];
        proof {
            assert(token == pending[0]);
            assert(pending.drop_first() =~= tokens@.skip(idx + 1));
        }
        match token {
            Token::Number(v) => {
                numbers.push(v);
            },
            Token::LeftParen => {
                operators.push(token);
            },
            Token::RightParen => {
                let ghost numbers0 = numbers@;
                let ghost operators0 = operators@;
                while paren_unwind_continues(&operators)
                    invariant
                        spec_unwind_paren(numbers0, operators0) == spec_unwind_paren(
                            numbers@,
                            operators@,
                        ),
                        spec_evaluate_tokens(tokens@) == spec_eval_from(pending, numbers0, operators0),
                        pending == tokens@.skip(idx as int),
                        pending.len() > 0,
                        pending[0] is RightParen,
                        pending.drop_first() =~= tokens@.skip(idx + 1),
                    decreases operators@.len(),
                {
                    let op = operators.pop().unwrap();
                    match apply_operator(&mut numbers, op) {
                        Ok(()) => {},
                        Err(e) => {
                            proof {
                                assert(spec_evaluate_tokens(tokens@) == Err::<u64, EvalError>(e));
                            }
                            return Err(e);
                        },
                    }
                }
                if operators.len() > 0 {
                    operators.pop();
                }
            },
            _ => {
                let p = precedence(&token);
                let ghost numbers0 = numbers@;
                let ghost operators0 = operators@;
                while should_unwind(&operators, p)
                    invariant
                        spec_unwind_op(numbers0, operators0, p as int) == spec_unwind_op(
                            numbers@,
                            operators@,
                            p as int,
                        ),
                        spec_evaluate_tokens(tokens@) == spec_eval_from(pending, numbers0, operators0),
                        pending == tokens@.skip(idx as int),
                        pending.len() > 0,
                        pending[0] == token,
                        is_binary_op(token),
                        p as int == spec_precedence(token),
                        pending.drop_first() =~= tokens@.skip(idx + 1),
                    decreases operators@.len(),
                {
                    let op = operators.pop().unwrap();
                    match apply_operator(&mut numbers, op) {
                        Ok(()) => {},
                        Err(e) => {
                            proof {
                                assert(spec_evaluate_tokens(tokens@) == Err::<u64, EvalError>(e));
                            }
                            return Err(e);
                        },
                    }
                }
                operators.push(token);
            },
        }
        idx = idx + 1;
    }
    proof {
        assert(tokens@.skip(n as int) =~= Seq::<Token>::empty());
    }
    let ghost numbers1 = numbers@;
    let ghost operators1 = operators@;
    while operators.len() > 0
        invariant
            spec_flush(numbers1, operators1) == spec_flush(numbers@, operators@),
            spec_evaluate_tokens(tokens@) == spec_eval_from(
                Seq::empty(),
                numbers1,
                operators1,
            ),
        decreases operators@.len(),
    {
        let op = operators.pop().unwrap();
        match apply_operator(&mut numbers, op) {
            Ok(()) => {},
            Err(e) => {
                proof {
                    assert(spec_evaluate_tokens(tokens@) == Err::<u64, EvalError>(e));
                }
                return Err(e);
            },
        }
    }
    match numbers.pop() {
        Some(v) => Ok(v),
        None => Err(EvalError::InvalidExpression),
    }
}

} // verus!

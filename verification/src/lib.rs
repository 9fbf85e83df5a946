//! An arithmetic expression evaluator: text in, number or error out.
//!
//! The input supports the four binary operators, parenthesized grouping,
//! decimal numeric literals, and interior spaces. Evaluation is a single
//! left-to-right pass over the token sequence with an operand stack and an
//! operator stack (shunting-yard style); no syntax tree is built.
//!
//! All numbers are IEEE-754 binary64 values, carried throughout the library
//! as their 64-bit patterns so that every step of the algorithm is stated
//! and verified over plain integers. The four arithmetic operations and the
//! decimal-literal conversion are the only trusted calls.

use vstd::prelude::*;

pub mod arith;
pub mod eval;
pub mod laws;
pub mod token;
pub mod tokenizer;

pub use crate::eval::{apply_operator, evaluate_expression};
pub use crate::token::{precedence, EvalError, Token};
pub use crate::tokenizer::tokenize;

use crate::eval::spec_evaluate_tokens;
use crate::tokenizer::spec_tokenize;

verus! {

/// What evaluating an expression text yields: the tokenizer's error, or the
/// two-stack pass over the token sequence it produced.
pub open spec fn spec_evaluate(s: Seq<char>) -> Result<u64, EvalError> {
    match spec_tokenize(s) {
        Ok(ts) => spec_evaluate_tokens(ts),
        Err(e) => Err(e),
    }
}

/// Evaluate an arithmetic expression: tokenize the text, then run the
/// two-stack precedence pass. On success the result is the IEEE-754 binary64
/// bit pattern of the value; every failure carries its category.
pub fn evaluate(expression: &str) -> (r: Result<u64, EvalError>)
    ensures
        r == spec_evaluate(expression@),
{
    let tokens = match tokenize(expression) {
        Ok(ts) => ts,
        Err(e) => {
            return Err(e);
        },
    };
    evaluate_expression(tokens.as_slice())
}

} // verus!

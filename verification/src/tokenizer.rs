use vstd::prelude::*;
use vstd::string::StrSliceExecFns;
use rustc_apfloat::Float;

use crate::token::{EvalError, Token};

verus! {

/// A decimal digit, `'0'` through `'9'`.
pub open spec fn is_digit_char(c: char) -> bool {
    48 <= c as u32 && c as u32 <= 57
}

/// A character that may stand inside a numeric literal: a digit or a dot.
pub open spec fn is_numeric_char(c: char) -> bool {
    is_digit_char(c) || c == '.'
}

/// How many dots a character sequence holds.
pub open spec fn dot_count(s: Seq<char>) -> int
    decreases s.len(),
{
    if s.len() == 0 {
        0
    } else {
        dot_count(s.drop_last()) + (if s.last() == '.' {
            1int
        } else {
            0int
        })
    }
}

/// Whether the sequence holds at least one decimal digit.
pub open spec fn has_digit(s: Seq<char>) -> bool {
    exists|i: int| 0 <= i < s.len() && is_digit_char(s[i])
}

/// A run of digits and dots denotes a number exactly when it has at least
/// one digit and at most one dot.
pub open spec fn valid_number_literal(s: Seq<char>) -> bool {
    has_digit(s) && dot_count(s) <= 1
}

/// The bit pattern of the IEEE-754 binary64 value denoted by a decimal
/// literal (digits with at most one dot), rounded to nearest, ties to even.
pub uninterp spec fn f64_of_literal(s: Seq<char>) -> u64;

/// Relies on rustc_apfloat::ieee::Double's FromStr (from_str_r, rounding to
/// nearest, ties to even): correctly rounded decimal-to-binary64 conversion.
/// On a non-empty string of digits and dots it succeeds exactly when the
/// string has at least one digit ("Significand has no digits") and at most
/// one dot ("String contains multiple dots"), and the result depends on the
/// string alone.
#[verifier::external_body]
pub(crate) fn parse_number_bits(s: &str) -> (r: Option<u64>)
    requires
        s@.len() > 0,
        forall|i: int| 0 <= i < s@.len() ==> is_numeric_char(s@[i]),
    ensures
        valid_number_literal(s@) ==> r == Some(f64_of_literal(s@)),
        !valid_number_literal(s@) ==> r is None,
{
    match s.parse::<rustc_apfloat::ieee::Double>() {
        Ok(d) => Some(d.to_bits() as u64),
        Err(_) => None,
    }
}

/// The length of the maximal prefix of digits and dots.
pub open spec fn numeric_prefix_len(s: Seq<char>) -> int
    decreases s.len(),
{
    if s.len() == 0 || !is_numeric_char(s[0]) {
        0
    } else {
        1 + numeric_prefix_len(s.drop_first())
    }
}

pub proof fn lemma_numeric_prefix_len_bounds(s: Seq<char>)
    ensures
        0 <= numeric_prefix_len(s) <= s.len(),
        s.len() > 0 && is_numeric_char(s[0]) ==> numeric_prefix_len(s) >= 1,
    decreases s.len(),
{
    if s.len() == 0 || !is_numeric_char(s[0]) {
    } else {
        lemma_numeric_prefix_len_bounds(s.drop_first());
    }
}

/// The maximal numeric prefix is the unique cut whose characters are all
/// numeric and which ends at the end of the input or at a non-numeric
/// character.
pub proof fn lemma_numeric_prefix_len_unique(s: Seq<char>, n: int)
    requires
        0 <= n <= s.len(),
        forall|k: int| 0 <= k < n ==> is_numeric_char(s[k]),
        n == s.len() || !is_numeric_char(s[n]),
    ensures
        numeric_prefix_len(s) == n,
    decreases s.len(),
{
    if n == 0 {
        if s.len() > 0 {
            assert(!is_numeric_char(s[0]));
        }
    } else {
        assert(is_numeric_char(s[0]));
        let t = s.drop_first();
        assert forall|k: int| 0 <= k < n - 1 implies is_numeric_char(t[k]) by {
            assert(t[k] == s[k + 1]);
        }
        if n < s.len() {
            assert(t[n - 1] == s[n]);
        }
        lemma_numeric_prefix_len_unique(t, n - 1);
    }
}

/// Prepend a token to the result of tokenizing the rest, passing an error on.
pub open spec fn cons_token(t: Token, rest: Result<Seq<Token>, EvalError>) -> Result<
    Seq<Token>,
    EvalError,
> {
    match rest {
        Ok(ts) => Ok(seq![t] + ts),
        Err(e) => Err(e),
    }
}

/// What scanning the input yields: one token per operator or parenthesis,
/// one `Number` per maximal run of digits and dots (rejected as
/// `InvalidNumber` if the run is not a single valid literal), spaces
/// skipped, and any other character rejected as `UnexpectedCharacter`.
pub open spec fn spec_tokenize(s: Seq<char>) -> Result<Seq<Token>, EvalError>
    decreases s.len(),
    via spec_tokenize_decreases
{
    if s.len() == 0 {
        Ok(Seq::empty())
    } else {
        let c = s[0];
        if is_numeric_char(c) {
            let n = numeric_prefix_len(s);
            let lit = s.take(n);
            if valid_number_literal(lit) {
                cons_token(Token::Number(f64_of_literal(lit)), spec_tokenize(s.skip(n)))
            } else {
                Err(EvalError::InvalidNumber)
            }
        } else if c == '+' {
            cons_token(Token::Plus, spec_tokenize(s.drop_first()))
        } else if c == '-' {
            cons_token(Token::Minus, spec_tokenize(s.drop_first()))
        } else if c == '*' {
            cons_token(Token::Multiply, spec_tokenize(s.drop_first()))
        } else if c == '/' {
            cons_token(Token::Divide, spec_tokenize(s.drop_first()))
        } else if c == '(' {
            cons_token(Token::LeftParen, spec_tokenize(s.drop_first()))
        } else if c == ')' {
            cons_token(Token::RightParen, spec_tokenize(s.drop_first()))
        } else if c == ' ' {
            spec_tokenize(s.drop_first())
        } else {
            Err(EvalError::UnexpectedCharacter(c))
        }
    }
}

#[via_fn]
proof fn spec_tokenize_decreases(s: Seq<char>) {
    if s.len() > 0 && is_numeric_char(s[0]) {
        lemma_numeric_prefix_len_bounds(s);
    }
}

/// Whether a character may stand inside a numeric literal.
pub fn is_numeric(c: char) -> (r: bool)
    ensures
        r == is_numeric_char(c),
{
    (c as u32 >= 48 && c as u32 <= 57) || c == '.'
}

/// Scan the input left to right into a token sequence: numeric literals,
/// single-character operators and parentheses, spaces skipped; fails on a
/// malformed literal or an unrecognized character.
pub fn tokenize(input: &str) -> (r: Result<Vec<Token>, EvalError>)
    ensures
        match r {
            Ok(ts) => spec_tokenize(input@) == Ok::<Seq<Token>, EvalError>(ts@),
            Err(e) => spec_tokenize(input@) == Err::<Seq<Token>, EvalError>(e),
        },
{
    let n = input.unicode_len();
    let mut tokens: Vec<Token> = Vec::new();
    let mut i: usize = 0;
    proof {
        assert(input@.skip(0) =~= input@);
        match spec_tokenize(input@) {
            Ok(ts) => {
                assert(tokens@ + ts =~= ts);
            },
            Err(_) => {},
        }
    }
    while i < n
        invariant
            n == input@.len(),
            i <= n,
            spec_tokenize(input@) == (match spec_tokenize(input@.skip(i as int)) {
                Ok(ts) => Ok::<Seq<Token>, EvalError>(tokens@ + ts),
                Err(e) => Err::<Seq<Token>, EvalError>(e),
            }),
        decreases n - i,
    {
        let ghost pending = input@.skip(i as int);
        let ch = input.get_char(i);
        assert(ch == pending[0]);
        if is_numeric(ch) {
            let mut j: usize = i + 1;
            while j < n && is_numeric(input.get_char(j))
                invariant
                    n == input@.len(),
                    i < j <= n,
                    forall|k: int| i <= k < j ==> is_numeric_char(input@[k]),
                decreases n - j,
            {
                j = j + 1;
            }
            proof {
                assert forall|k: int| 0 <= k < j - i implies is_numeric_char(pending[k]) by {
                    assert(pending[k] == input@[i + k]);
                }
                if (j as int) < n as int {
                    assert(pending[j - i] == input@[j as int]);
                }
                lemma_numeric_prefix_len_unique(pending, j - i);
            }
            let lit = input.substring_char(i, j);
            proof {
                assert(lit@ =~= pending.take(j - i));
            }
            match parse_number_bits(lit) {
                Some(bits) => {
                    proof {
                        assert(valid_number_literal(lit@));
                        assert(spec_tokenize(pending) == cons_token(
                            Token::Number(f64_of_literal(lit@)),
                            spec_tokenize(pending.skip(j - i)),
                        ));
                        assert(pending.skip(j - i) =~= input@.skip(j as int));
                    }
                    let ghost tokens_before = tokens@;
                    tokens.push(Token::Number(bits));
                    proof {
                        match spec_tokenize(input@.skip(j as int)) {
                            Ok(ts) => {
                                assert(tokens_before + (seq![Token::Number(bits)] + ts) =~= tokens@
                                    + ts);
                            },
                            Err(_) => {},
                        }
                    }
                    i = j;
                },
                None => {
                    proof {
                        assert(!valid_number_literal(lit@));
                        assert(spec_tokenize(pending) == Err::<Seq<Token>, EvalError>(
                            EvalError::InvalidNumber,
                        ));
                    }
                    return Err(EvalError::InvalidNumber);
                },
            }
        } else if ch == '+' || ch == '-' || ch == '*' || ch == '/' || ch == '(' || ch == ')' {
            let t = if ch == '+' {
                Token::Plus
            } else if ch == '-' {
                Token::Minus
            } else if ch == '*' {
                Token::Multiply
            } else if ch == '/' {
                Token::Divide
            } else if ch == '(' {
                Token::LeftParen
            } else {
                Token::RightParen
            };
            proof {
                assert(spec_tokenize(pending) == cons_token(t, spec_tokenize(pending.drop_first())));
                assert(pending.drop_first() =~= input@.skip(i + 1));
            }
            let ghost tokens_before = tokens@;
            tokens.push(t);
            proof {
                match spec_tokenize(input@.skip(i + 1)) {
                    Ok(ts) => {
                        assert(tokens_before + (seq![t] + ts) =~= tokens@ + ts);
                    },
                    Err(_) => {},
                }
            }
            i = i + 1;
        } else if ch == ' ' {
            proof {
                assert(spec_tokenize(pending) == spec_tokenize(pending.drop_first()));
                assert(pending.drop_first() =~= input@.skip(i + 1));
            }
            i = i + 1;
        } else {
            proof {
                assert(spec_tokenize(pending) == Err::<Seq<Token>, EvalError>(
                    EvalError::UnexpectedCharacter(ch),
                ));
            }
            return Err(EvalError::UnexpectedCharacter(ch));
        }
    }
    proof {
        assert(input@.skip(i as int) =~= Seq::<char>::empty());
        assert(spec_tokenize(input@.skip(i as int)) == Ok::<Seq<Token>, EvalError>(Seq::empty()));
        assert(tokens@ + Seq::<Token>::empty() =~= tokens@);
    }
    Ok(tokens)
}

} // verus!

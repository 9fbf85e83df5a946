use vstd::prelude::*;

use crate::arith::{f64_add, f64_div, f64_mul, f64_sub, is_zero_bits};
use crate::eval::{spec_apply, spec_eval_from, spec_evaluate_tokens, spec_flush, spec_unwind_op,
    spec_unwind_paren};
use crate::token::{is_binary_op, spec_precedence, EvalError, Token};
use crate::tokenizer::{is_numeric_char, lemma_numeric_prefix_len_unique, numeric_prefix_len,
    spec_tokenize, valid_number_literal};
use crate::spec_evaluate;

verus! {

/// The token grammar of complete expressions, read left to right:
/// `expecting` is true while an operand (a number or a parenthesized group)
/// is owed, and `depth` counts the open parentheses. A sequence is
/// well-formed when it ends with its last operand supplied and every
/// parenthesis closed.
pub open spec fn wf_from(ts: Seq<Token>, expecting: bool, depth: nat) -> bool
    decreases ts.len(),
{
    if ts.len() == 0 {
        !expecting && depth == 0
    } else {
        let t = ts[0];
        let rest = ts.drop_first();
        if expecting {
            match t {
                Token::Number(_) => wf_from(rest, false, depth),
                Token::LeftParen => wf_from(rest, true, depth + 1),
                _ => false,
            }
        } else {
            match t {
                Token::Plus | Token::Minus | Token::Multiply | Token::Divide => wf_from(
                    rest,
                    true,
                    depth,
                ),
                Token::RightParen => depth > 0 && wf_from(rest, false, (depth - 1) as nat),
                _ => false,
            }
        }
    }
}

/// A well-formed expression: at least one operand, operands and binary
/// operators alternating, parentheses balanced.
pub open spec fn wf_tokens(ts: Seq<Token>) -> bool {
    wf_from(ts, true, 0)
}

/// How many binary operators a token sequence holds.
pub open spec fn count_binop(os: Seq<Token>) -> int
    decreases os.len(),
{
    if os.len() == 0 {
        0
    } else {
        count_binop(os.drop_last()) + (if is_binary_op(os.last()) {
            1int
        } else {
            0int
        })
    }
}

/// How many left parentheses a token sequence holds.
pub open spec fn count_lp(os: Seq<Token>) -> int
    decreases os.len(),
{
    if os.len() == 0 {
        0
    } else {
        count_lp(os.drop_last()) + (if os.last() is LeftParen {
            1int
        } else {
            0int
        })
    }
}

/// Every token is a binary operator or a left parenthesis: the invariant of
/// the operator stack.
pub open spec fn ops_ok(os: Seq<Token>) -> bool {
    forall|i: int| 0 <= i < os.len() ==> is_binary_op(os[i]) || os[i] is LeftParen
}

/// Whether an evaluation outcome is a value or a division by zero — the only
/// outcomes a well-formed expression admits.
pub open spec fn ok_or_div_zero(r: Result<u64, EvalError>) -> bool {
    r is Ok || r == Err::<u64, EvalError>(EvalError::DivisionByZero)
}

proof fn lemma_flush_shape(ns: Seq<u64>, os: Seq<Token>)
    requires
        ops_ok(os),
        count_lp(os) == 0,
        ns.len() == count_binop(os) + 1,
    ensures
        match spec_flush(ns, os) {
            Ok(fs) => fs.len() == 1,
            Err(e) => e is DivisionByZero,
        },
    decreases os.len(),
{
    if os.len() == 0 {
    } else {
        let top = os.last();
        assert(is_binary_op(top) || top is LeftParen);
        lemma_counts_nonnegative(os.drop_last());
        assert(is_binary_op(top));
        assert(ns.len() >= 2);
        match spec_apply(ns, top) {
            Ok(ns2) => {
                assert(ops_ok(os.drop_last()));
                lemma_flush_shape(ns2, os.drop_last());
            },
            Err(e) => {
                assert(e is DivisionByZero);
            },
        }
    }
}

proof fn lemma_counts_nonnegative(os: Seq<Token>)
    ensures
        count_binop(os) >= 0,
        count_lp(os) >= 0,
        count_lp(os) > 0 ==> exists|i: int| 0 <= i < os.len() && os[i] is LeftParen,
    decreases os.len(),
{
    if os.len() == 0 {
    } else {
        lemma_counts_nonnegative(os.drop_last());
        if count_lp(os) > 0 {
            if os.last() is LeftParen {
                assert(os[os.len() - 1] is LeftParen);
            } else {
                let i = choose|i: int| 0 <= i < os.drop_last().len() && os.drop_last()[i]
                    is LeftParen;
                assert(os[i] is LeftParen);
            }
        }
    }
}

proof fn lemma_unwind_op_shape(ns: Seq<u64>, os: Seq<Token>, p: int)
    requires
        ops_ok(os),
        ns.len() == count_binop(os) + 1,
        1 <= p,
    ensures
        match spec_unwind_op(ns, os, p) {
            Ok(r) => ops_ok(r.1) && count_lp(r.1) == count_lp(os) && r.0.len() == count_binop(r.1)
                + 1,
            Err(e) => e is DivisionByZero,
        },
    decreases os.len(),
{
    if os.len() == 0 {
    } else {
        let top = os.last();
        assert(is_binary_op(top) || top is LeftParen);
        if p <= spec_precedence(top) {
            assert(is_binary_op(top));
            lemma_counts_nonnegative(os.drop_last());
            assert(ns.len() >= 2);
            match spec_apply(ns, top) {
                Ok(ns2) => {
                    assert(ops_ok(os.drop_last()));
                    lemma_unwind_op_shape(ns2, os.drop_last(), p);
                },
                Err(e) => {
                    assert(e is DivisionByZero);
                },
            }
        }
    }
}

proof fn lemma_unwind_paren_shape(ns: Seq<u64>, os: Seq<Token>)
    requires
        ops_ok(os),
        count_lp(os) >= 1,
        ns.len() == count_binop(os) + 1,
    ensures
        match spec_unwind_paren(ns, os) {
            Ok(r) => ops_ok(r.1) && count_lp(r.1) == count_lp(os) - 1 && r.0.len() == count_binop(
                r.1,
            ) + 1,
            Err(e) => e is DivisionByZero,
        },
    decreases os.len(),
{
    lemma_counts_nonnegative(os);
    assert(os.len() > 0);
    let top = os.last();
    assert(is_binary_op(top) || top is LeftParen);
    if top is LeftParen {
        assert(ops_ok(os.drop_last()));
    } else {
        assert(is_binary_op(top));
        lemma_counts_nonnegative(os.drop_last());
        assert(ns.len() >= 2);
        match spec_apply(ns, top) {
            Ok(ns2) => {
                assert(ops_ok(os.drop_last()));
                lemma_unwind_paren_shape(ns2, os.drop_last());
            },
            Err(e) => {
                assert(e is DivisionByZero);
            },
        }
    }
}

proof fn lemma_eval_from_wf(
    ts: Seq<Token>,
    ns: Seq<u64>,
    os: Seq<Token>,
    expecting: bool,
    depth: nat,
)
    requires
        wf_from(ts, expecting, depth),
        ops_ok(os),
        count_lp(os) == depth,
        ns.len() == count_binop(os) + (if expecting {
            0int
        } else {
            1int
        }),
    ensures
        ok_or_div_zero(spec_eval_from(ts, ns, os)),
    decreases ts.len(),
{
    if ts.len() == 0 {
        lemma_flush_shape(ns, os);
    } else {
        let t = ts[0];
        let rest = ts.drop_first();
        match t {
            Token::Number(v) => {
                assert(wf_from(rest, false, depth));
                lemma_eval_from_wf(rest, ns.push(v), os, false, depth);
            },
            Token::LeftParen => {
                assert(wf_from(rest, true, depth + 1));
                assert(ops_ok(os.push(t)));
                assert(os.push(t).drop_last() =~= os);
                assert(count_lp(os.push(t)) == count_lp(os) + 1);
                assert(count_binop(os.push(t)) == count_binop(os));
                lemma_eval_from_wf(rest, ns, os.push(t), true, depth + 1);
            },
            Token::RightParen => {
                assert(!expecting && depth > 0);
                lemma_unwind_paren_shape(ns, os);
                match spec_unwind_paren(ns, os) {
                    Ok(r) => {
                        lemma_eval_from_wf(rest, r.0, r.1, false, (depth - 1) as nat);
                    },
                    Err(_) => {},
                }
            },
            _ => {
                assert(is_binary_op(t));
                assert(!expecting);
                assert(1 <= spec_precedence(t));
                lemma_unwind_op_shape(ns, os, spec_precedence(t));
                match spec_unwind_op(ns, os, spec_precedence(t)) {
                    Ok(r) => {
                        assert(ops_ok(r.1.push(t)));
                        assert(r.1.push(t).drop_last() =~= r.1);
                        assert(count_lp(r.1.push(t)) == count_lp(r.1));
                        assert(count_binop(r.1.push(t)) == count_binop(r.1) + 1);
                        lemma_eval_from_wf(rest, r.0, r.1.push(t), true, depth);
                    },
                    Err(_) => {},
                }
            },
        }
    }
}

/// A well-formed expression never fails structurally: evaluating it yields a
/// value unless a division by zero stops it. Together with the termination
/// measures on every loop, every well-formed input terminates with a value
/// or that one error.
pub proof fn lemma_wf_eval_ok_or_div_zero(ts: Seq<Token>)
    requires
        wf_tokens(ts),
    ensures
        ok_or_div_zero(spec_evaluate_tokens(ts)),
{
    lemma_eval_from_wf(ts, Seq::empty(), Seq::empty(), true, 0);
}

/// The value a binary operator computes from two operand bit patterns.
pub open spec fn binop_value(op: Token, a: u64, b: u64) -> u64 {
    match op {
        Token::Plus => f64_add(a, b),
        Token::Minus => f64_sub(a, b),
        Token::Multiply => f64_mul(a, b),
        Token::Divide => f64_div(a, b),
        _ => 0,
    }
}

/// Operator precedence, in general: whenever the second operator binds more
/// strongly than the first, `a o1 b o2 c` evaluates to `a o1 (b o2 c)`. The
/// weaker first operator is then additive, so only the second can divide.
pub proof fn lemma_higher_precedence_binds_first(a: u64, b: u64, c: u64, o1: Token, o2: Token)
    requires
        is_binary_op(o1),
        is_binary_op(o2),
        spec_precedence(o1) < spec_precedence(o2),
        o2 is Divide ==> !is_zero_bits(c),
    ensures
        spec_evaluate_tokens(
            seq![Token::Number(a), o1, Token::Number(b), o2, Token::Number(c)],
        ) == Ok::<u64, EvalError>(binop_value(o1, a, binop_value(o2, b, c))),
{
    let t0 = seq![Token::Number(a), o1, Token::Number(b), o2, Token::Number(c)];
    let t1 = seq![o1, Token::Number(b), o2, Token::Number(c)];
    let t2 = seq![Token::Number(b), o2, Token::Number(c)];
    let t3 = seq![o2, Token::Number(c)];
    let t4 = seq![Token::Number(c)];
    let te = Seq::<Token>::empty();
    let ne = Seq::<u64>::empty();
    assert(t0.drop_first() =~= t1);
    assert(t1.drop_first() =~= t2);
    assert(t2.drop_first() =~= t3);
    assert(t3.drop_first() =~= t4);
    assert(t4.drop_first() =~= te);

    assert(o1 is Plus || o1 is Minus);

    assert(ne.push(a) =~= seq![a]);
    assert(spec_eval_from(t0, ne, te) == spec_eval_from(t1, seq![a], te));

    assert(spec_unwind_op(seq![a], te, spec_precedence(o1)) == Ok::<
        (Seq<u64>, Seq<Token>),
        EvalError,
    >((seq![a], te)));
    assert(te.push(o1) =~= seq![o1]);
    assert(spec_eval_from(t1, seq![a], te) == spec_eval_from(t2, seq![a], seq![o1]));

    assert(seq![a].push(b) =~= seq![a, b]);
    assert(spec_eval_from(t2, seq![a], seq![o1]) == spec_eval_from(t3, seq![a, b], seq![o1]));

    assert(spec_unwind_op(seq![a, b], seq![o1], spec_precedence(o2)) == Ok::<
        (Seq<u64>, Seq<Token>),
        EvalError,
    >((seq![a, b], seq![o1])));
    assert(seq![o1].push(o2) =~= seq![o1, o2]);
    assert(spec_eval_from(t3, seq![a, b], seq![o1]) == spec_eval_from(
        t4,
        seq![a, b],
        seq![o1, o2],
    ));

    assert(seq![a, b].push(c) =~= seq![a, b, c]);
    assert(spec_eval_from(t4, seq![a, b], seq![o1, o2]) == spec_eval_from(
        te,
        seq![a, b, c],
        seq![o1, o2],
    ));

    let v1 = binop_value(o2, b, c);
    assert(seq![a, b, c].take(1) =~= seq![a]);
    assert(spec_apply(seq![a, b, c], o2) == Ok::<Seq<u64>, EvalError>(seq![a].push(v1)));
    assert(seq![a].push(v1) =~= seq![a, v1]);
    assert(seq![o1, o2].drop_last() =~= seq![o1]);

    let v2 = binop_value(o1, a, v1);
    assert(seq![a, v1].take(0) =~= ne);
    assert(spec_apply(seq![a, v1], o1) == Ok::<Seq<u64>, EvalError>(ne.push(v2)));
    assert(ne.push(v2) =~= seq![v2]);
    assert(seq![o1].drop_last() =~= te);
    assert(spec_flush(seq![v2], te) == Ok::<Seq<u64>, EvalError>(seq![v2]));
    assert(spec_flush(seq![a, v1], seq![o1]) == Ok::<Seq<u64>, EvalError>(seq![v2]));
    assert(spec_flush(seq![a, b, c], seq![o1, o2]) == Ok::<Seq<u64>, EvalError>(seq![v2]));
    assert(spec_eval_from(te, seq![a, b, c], seq![o1, o2]) == Ok::<u64, EvalError>(v2));
}

/// Left-associativity, in general: whenever the second operator binds no
/// more strongly than the first, `a o1 b o2 c` evaluates to `(a o1 b) o2 c`
/// — the earlier operator is applied first.
pub proof fn lemma_equal_precedence_left_associative(a: u64, b: u64, c: u64, o1: Token, o2: Token)
    requires
        is_binary_op(o1),
        is_binary_op(o2),
        spec_precedence(o2) <= spec_precedence(o1),
        o1 is Divide ==> !is_zero_bits(b),
        o2 is Divide ==> !is_zero_bits(c),
    ensures
        spec_evaluate_tokens(
            seq![Token::Number(a), o1, Token::Number(b), o2, Token::Number(c)],
        ) == Ok::<u64, EvalError>(binop_value(o2, binop_value(o1, a, b), c)),
{
    let t0 = seq![Token::Number(a), o1, Token::Number(b), o2, Token::Number(c)];
    let t1 = seq![o1, Token::Number(b), o2, Token::Number(c)];
    let t2 = seq![Token::Number(b), o2, Token::Number(c)];
    let t3 = seq![o2, Token::Number(c)];
    let t4 = seq![Token::Number(c)];
    let te = Seq::<Token>::empty();
    let ne = Seq::<u64>::empty();
    assert(t0.drop_first() =~= t1);
    assert(t1.drop_first() =~= t2);
    assert(t2.drop_first() =~= t3);
    assert(t3.drop_first() =~= t4);
    assert(t4.drop_first() =~= te);

    assert(ne.push(a) =~= seq![a]);
    assert(spec_eval_from(t0, ne, te) == spec_eval_from(t1, seq![a], te));

    assert(spec_unwind_op(seq![a], te, spec_precedence(o1)) == Ok::<
        (Seq<u64>, Seq<Token>),
        EvalError,
    >((seq![a], te)));
    assert(te.push(o1) =~= seq![o1]);
    assert(spec_eval_from(t1, seq![a], te) == spec_eval_from(t2, seq![a], seq![o1]));

    assert(seq![a].push(b) =~= seq![a, b]);
    assert(spec_eval_from(t2, seq![a], seq![o1]) == spec_eval_from(t3, seq![a, b], seq![o1]));

    let v1 = binop_value(o1, a, b);
    assert(seq![a, b].take(0) =~= ne);
    assert(spec_apply(seq![a, b], o1) == Ok::<Seq<u64>, EvalError>(ne.push(v1)));
    assert(ne.push(v1) =~= seq![v1]);
    assert(seq![o1].drop_last() =~= te);
    assert(spec_unwind_op(seq![v1], te, spec_precedence(o2)) == Ok::<
        (Seq<u64>, Seq<Token>),
        EvalError,
    >((seq![v1], te)));
    assert(spec_unwind_op(seq![a, b], seq![o1], spec_precedence(o2)) == Ok::<
        (Seq<u64>, Seq<Token>),
        EvalError,
    >((seq![v1], te)));
    assert(te.push(o2) =~= seq![o2]);
    assert(spec_eval_from(t3, seq![a, b], seq![o1]) == spec_eval_from(t4, seq![v1], seq![o2]));

    assert(seq![v1].push(c) =~= seq![v1, c]);
    assert(spec_eval_from(t4, seq![v1], seq![o2]) == spec_eval_from(te, seq![v1, c], seq![o2]));

    let v2 = binop_value(o2, v1, c);
    assert(seq![v1, c].take(0) =~= ne);
    assert(spec_apply(seq![v1, c], o2) == Ok::<Seq<u64>, EvalError>(ne.push(v2)));
    assert(ne.push(v2) =~= seq![v2]);
    assert(seq![o2].drop_last() =~= te);
    assert(spec_flush(seq![v2], te) == Ok::<Seq<u64>, EvalError>(seq![v2]));
    assert(spec_flush(seq![v1, c], seq![o2]) == Ok::<Seq<u64>, EvalError>(seq![v2]));
    assert(spec_eval_from(te, seq![v1, c], seq![o2]) == Ok::<u64, EvalError>(v2));
}

/// A lone numeric token evaluates to its own value.
pub proof fn lemma_single_number(a: u64)
    ensures
        spec_evaluate_tokens(seq![Token::Number(a)]) == Ok::<u64, EvalError>(a),
{
    let t0 = seq![Token::Number(a)];
    let te = Seq::<Token>::empty();
    let ne = Seq::<u64>::empty();
    assert(t0.drop_first() =~= te);
    assert(ne.push(a) =~= seq![a]);
    assert(spec_eval_from(t0, ne, te) == spec_eval_from(te, seq![a], te));
    assert(spec_flush(seq![a], te) == Ok::<Seq<u64>, EvalError>(seq![a]));
    assert(seq![a].last() == a);
}

/// A parenthesized group is applied before the operator outside it: for any
/// operand values, the token sequence `( a + b ) * c` evaluates to
/// `(a + b) * c`.
pub proof fn lemma_parentheses_group_first(a: u64, b: u64, c: u64)
    ensures
        spec_evaluate_tokens(
            seq![
                Token::LeftParen,
                Token::Number(a),
                Token::Plus,
                Token::Number(b),
                Token::RightParen,
                Token::Multiply,
                Token::Number(c),
            ],
        ) == Ok::<u64, EvalError>(f64_mul(f64_add(a, b), c)),
{
    let t0 = seq![
        Token::LeftParen,
        Token::Number(a),
        Token::Plus,
        Token::Number(b),
        Token::RightParen,
        Token::Multiply,
        Token::Number(c),
    ];
    let t1 = seq![
        Token::Number(a),
        Token::Plus,
        Token::Number(b),
        Token::RightParen,
        Token::Multiply,
        Token::Number(c),
    ];
    let t2 = seq![
        Token::Plus,
        Token::Number(b),
        Token::RightParen,
        Token::Multiply,
        Token::Number(c),
    ];
    let t3 = seq![Token::Number(b), Token::RightParen, Token::Multiply, Token::Number(c)];
    let t4 = seq![Token::RightParen, Token::Multiply, Token::Number(c)];
    let t5 = seq![Token::Multiply, Token::Number(c)];
    let t6 = seq![Token::Number(c)];
    let te = Seq::<Token>::empty();
    let ne = Seq::<u64>::empty();
    assert(t0.drop_first() =~= t1);
    assert(t1.drop_first() =~= t2);
    assert(t2.drop_first() =~= t3);
    assert(t3.drop_first() =~= t4);
    assert(t4.drop_first() =~= t5);
    assert(t5.drop_first() =~= t6);
    assert(t6.drop_first() =~= te);

    assert(te.push(Token::LeftParen) =~= seq![Token::LeftParen]);
    assert(spec_eval_from(t0, ne, te) == spec_eval_from(t1, ne, seq![Token::LeftParen]));

    assert(ne.push(a) =~= seq![a]);
    assert(spec_eval_from(t1, ne, seq![Token::LeftParen]) == spec_eval_from(
        t2,
        seq![a],
        seq![Token::LeftParen],
    ));

    assert(spec_unwind_op(seq![a], seq![Token::LeftParen], 1) == Ok::<
        (Seq<u64>, Seq<Token>),
        EvalError,
    >((seq![a], seq![Token::LeftParen])));
    assert(seq![Token::LeftParen].push(Token::Plus) =~= seq![Token::LeftParen, Token::Plus]);
    assert(spec_eval_from(t2, seq![a], seq![Token::LeftParen]) == spec_eval_from(
        t3,
        seq![a],
        seq![Token::LeftParen, Token::Plus],
    ));

    assert(seq![a].push(b) =~= seq![a, b]);
    assert(spec_eval_from(t3, seq![a], seq![Token::LeftParen, Token::Plus]) == spec_eval_from(
        t4,
        seq![a, b],
        seq![Token::LeftParen, Token::Plus],
    ));

    let s1 = f64_add(a, b);
    assert(seq![a, b].take(0) =~= ne);
    assert(spec_apply(seq![a, b], Token::Plus) == Ok::<Seq<u64>, EvalError>(ne.push(s1)));
    assert(ne.push(s1) =~= seq![s1]);
    assert(seq![Token::LeftParen, Token::Plus].drop_last() =~= seq![Token::LeftParen]);
    assert(seq![Token::LeftParen].drop_last() =~= te);
    assert(spec_unwind_paren(seq![s1], seq![Token::LeftParen]) == Ok::<
        (Seq<u64>, Seq<Token>),
        EvalError,
    >((seq![s1], te)));
    assert(spec_unwind_paren(seq![a, b], seq![Token::LeftParen, Token::Plus]) == Ok::<
        (Seq<u64>, Seq<Token>),
        EvalError,
    >((seq![s1], te)));
    assert(spec_eval_from(t4, seq![a, b], seq![Token::LeftParen, Token::Plus])
        == spec_eval_from(t5, seq![s1], te));

    assert(spec_unwind_op(seq![s1], te, 2) == Ok::<(Seq<u64>, Seq<Token>), EvalError>(
        (seq![s1], te),
    ));
    assert(te.push(Token::Multiply) =~= seq![Token::Multiply]);
    assert(spec_eval_from(t5, seq![s1], te) == spec_eval_from(
        t6,
        seq![s1],
        seq![Token::Multiply],
    ));

    assert(seq![s1].push(c) =~= seq![s1, c]);
    assert(spec_eval_from(t6, seq![s1], seq![Token::Multiply]) == spec_eval_from(
        te,
        seq![s1, c],
        seq![Token::Multiply],
    ));

    let s2 = f64_mul(s1, c);
    assert(seq![s1, c].take(0) =~= ne);
    assert(spec_apply(seq![s1, c], Token::Multiply) == Ok::<Seq<u64>, EvalError>(ne.push(s2)));
    assert(ne.push(s2) =~= seq![s2]);
    assert(seq![Token::Multiply].drop_last() =~= te);
    assert(spec_flush(seq![s2], te) == Ok::<Seq<u64>, EvalError>(seq![s2]));
    assert(spec_flush(seq![s1, c], seq![Token::Multiply]) == Ok::<Seq<u64>, EvalError>(
        seq![s2],
    ));
    assert(spec_eval_from(te, seq![s1, c], seq![Token::Multiply]) == Ok::<u64, EvalError>(s2));
}

/// A divisor that compares equal to zero (either zero bit pattern) fails as
/// `DivisionByZero`, whatever the dividend.
pub proof fn lemma_division_by_zero(a: u64, b: u64)
    requires
        is_zero_bits(b),
    ensures
        spec_evaluate_tokens(seq![Token::Number(a), Token::Divide, Token::Number(b)]) == Err::<
            u64,
            EvalError,
        >(EvalError::DivisionByZero),
{
    let t0 = seq![Token::Number(a), Token::Divide, Token::Number(b)];
    let t1 = seq![Token::Divide, Token::Number(b)];
    let t2 = seq![Token::Number(b)];
    let te = Seq::<Token>::empty();
    let ne = Seq::<u64>::empty();
    assert(t0.drop_first() =~= t1);
    assert(t1.drop_first() =~= t2);
    assert(t2.drop_first() =~= te);

    assert(ne.push(a) =~= seq![a]);
    assert(spec_eval_from(t0, ne, te) == spec_eval_from(t1, seq![a], te));

    assert(spec_unwind_op(seq![a], te, 2) == Ok::<(Seq<u64>, Seq<Token>), EvalError>(
        (seq![a], te),
    ));
    assert(te.push(Token::Divide) =~= seq![Token::Divide]);
    assert(spec_eval_from(t1, seq![a], te) == spec_eval_from(t2, seq![a], seq![Token::Divide]));

    assert(seq![a].push(b) =~= seq![a, b]);
    assert(spec_eval_from(t2, seq![a], seq![Token::Divide]) == spec_eval_from(
        te,
        seq![a, b],
        seq![Token::Divide],
    ));

    assert(spec_apply(seq![a, b], Token::Divide) == Err::<Seq<u64>, EvalError>(
        EvalError::DivisionByZero,
    ));
    assert(spec_flush(seq![a, b], seq![Token::Divide]) == Err::<Seq<u64>, EvalError>(
        EvalError::DivisionByZero,
    ));
}

/// The characters of the maximal numeric prefix are numeric, and the
/// character after it, if any, is not.
pub proof fn lemma_numeric_prefix_len_chars(s: Seq<char>)
    ensures
        0 <= numeric_prefix_len(s) <= s.len(),
        forall|k: int| 0 <= k < numeric_prefix_len(s) ==> is_numeric_char(s[k]),
        numeric_prefix_len(s) < s.len() ==> !is_numeric_char(s[numeric_prefix_len(s)]),
    decreases s.len(),
{
    if s.len() == 0 || !is_numeric_char(s[0]) {
    } else {
        let t = s.drop_first();
        lemma_numeric_prefix_len_chars(t);
        assert forall|k: int| 0 <= k < numeric_prefix_len(s) implies is_numeric_char(s[k]) by {
            if k > 0 {
                assert(t[k - 1] == s[k]);
            }
        }
        if numeric_prefix_len(s) < s.len() {
            assert(t[numeric_prefix_len(s) - 1] == s[numeric_prefix_len(s)]);
        }
    }
}

/// Whitespace invariance of the tokenizer: inserting a space anywhere but
/// inside a numeric literal (between two numeric characters) leaves the
/// token sequence, or the error, unchanged.
pub proof fn lemma_space_insertion_tokenize(s: Seq<char>, i: int)
    requires
        0 <= i <= s.len(),
        !(0 < i < s.len() && is_numeric_char(s[i - 1]) && is_numeric_char(s[i])),
    ensures
        spec_tokenize(s.insert(i, ' ')) == spec_tokenize(s),
    decreases s.len(),
{
    let s2 = s.insert(i, ' ');
    assert(!is_numeric_char(' '));
    if i == 0 {
        assert(s2[0] == ' ');
        assert(s2.drop_first() =~= s);
    } else {
        assert(s.len() > 0);
        assert(s2[0] == s[0]);
        if is_numeric_char(s[0]) {
            let n = numeric_prefix_len(s);
            lemma_numeric_prefix_len_chars(s);
            if i < n {
                assert(is_numeric_char(s[i - 1]));
                assert(is_numeric_char(s[i]));
                assert(false);
            }
            assert forall|k: int| 0 <= k < n implies is_numeric_char(s2[k]) by {
                assert(s2[k] == s[k]);
            }
            if i == n {
                assert(s2[n] == ' ');
            } else if n < s2.len() {
                assert(s2[n] == s[n]);
            }
            lemma_numeric_prefix_len_unique(s2, n);
            assert(s2.take(n) =~= s.take(n));
            if valid_number_literal(s.take(n)) {
                let rest = s.skip(n);
                assert(s2.skip(n) =~= rest.insert(i - n, ' '));
                assert forall|k: int| 0 <= k < rest.len() implies rest[k] == s[n + k] by {}
                lemma_space_insertion_tokenize(rest, i - n);
            }
        } else {
            assert(s2.drop_first() =~= s.drop_first().insert(i - 1, ' '));
            let t = s.drop_first();
            assert forall|k: int| 0 <= k < t.len() implies t[k] == s[k + 1] by {}
            lemma_space_insertion_tokenize(t, i - 1);
        }
    }
}

/// Whitespace invariance of evaluation: inserting a space anywhere but
/// inside a numeric literal leaves the result, or the error, unchanged.
pub proof fn lemma_space_insertion_evaluate(s: Seq<char>, i: int)
    requires
        0 <= i <= s.len(),
        !(0 < i < s.len() && is_numeric_char(s[i - 1]) && is_numeric_char(s[i])),
    ensures
        spec_evaluate(s.insert(i, ' ')) == spec_evaluate(s),
{
    lemma_space_insertion_tokenize(s, i);
}

/// A trailing binary operator underflows the operand stack and fails as
/// `InvalidExpression`, whatever the operand before it.
pub proof fn lemma_trailing_operator_invalid(a: u64, op: Token)
    requires
        is_binary_op(op),
    ensures
        spec_evaluate_tokens(seq![Token::Number(a), op]) == Err::<u64, EvalError>(
            EvalError::InvalidExpression,
        ),
{
    let t0 = seq![Token::Number(a), op];
    let t1 = seq![op];
    let te = Seq::<Token>::empty();
    let ne = Seq::<u64>::empty();
    assert(t0.drop_first() =~= t1);
    assert(t1.drop_first() =~= te);

    assert(ne.push(a) =~= seq![a]);
    assert(spec_eval_from(t0, ne, te) == spec_eval_from(t1, seq![a], te));

    assert(spec_unwind_op(seq![a], te, spec_precedence(op)) == Ok::<
        (Seq<u64>, Seq<Token>),
        EvalError,
    >((seq![a], te)));
    assert(te.push(op) =~= seq![op]);
    assert(spec_eval_from(t1, seq![a], te) == spec_eval_from(te, seq![a], seq![op]));

    assert(spec_apply(seq![a], op) == Err::<Seq<u64>, EvalError>(EvalError::InvalidExpression));
    assert(spec_flush(seq![a], seq![op]) == Err::<Seq<u64>, EvalError>(
        EvalError::InvalidExpression,
    ));
}

} // verus!

//! The arithmetic evaluator: infix text to postfix order to one exact
//! value, by a stack machine over exact fractions.
//!
//! Working on exact fractions rather than machine floats is a deliberate
//! choice with two visible consequences: division by zero is a typed
//! error rather than an infinity, and only whole-number exponents are
//! accepted — a fractional power of a fraction is not one.

use vstd::prelude::*;
use vstd::arithmetic::power::pow;
use crate::dice_errors::MathError;
use crate::numtext::i128_to_string;
use crate::rational::Rational;
use crate::rpn_expression::RpnExpression;
use crate::rpn_token::RpnToken;

verus! {

/// Apply one binary operator to two exact fractions, at the
/// specification level, over unbounded integers. `None` marks division by
/// zero, a fractional exponent, or a non-operator token.
pub open spec fn rpn_apply(op: RpnToken, a: (int, int), b: (int, int)) -> Option<(int, int)> {
    match op {
        RpnToken::Add => Some((a.0 * b.1 + b.0 * a.1, a.1 * b.1)),
        RpnToken::Sub => Some((a.0 * b.1 - b.0 * a.1, a.1 * b.1)),
        RpnToken::Mul => Some((a.0 * b.0, a.1 * b.1)),
        RpnToken::Div => if b.0 == 0 {
            None
        } else if b.0 < 0 {
            Some((-(a.0 * b.1), -(a.1 * b.0)))
        } else {
            Some((a.0 * b.1, a.1 * b.0))
        },
        RpnToken::Pow => if b.1 < 1 {
            None
        } else if b.0 % b.1 != 0 {
            None
        } else {
            let e = b.0 / b.1;
            if e >= 0 {
                Some((pow(a.0, e as nat), pow(a.1, e as nat)))
            } else if a.0 == 0 {
                None
            } else {
                let m = (-e) as nat;
                if pow(a.0, m) < 0 {
                    Some((-pow(a.1, m), -pow(a.0, m)))
                } else {
                    Some((pow(a.1, m), pow(a.0, m)))
                }
            }
        },
        _ => None,
    }
}

/// Run the stack machine over the remaining tokens: numbers push, each
/// operator pops its right then left operand and pushes the exact result.
pub open spec fn rpn_eval_stack(tokens: Seq<RpnToken>, stack: Seq<(int, int)>) -> Option<
    Seq<(int, int)>,
>
    decreases tokens.len(),
{
    if tokens.len() == 0 {
        Some(stack)
    } else {
        match tokens[0] {
            RpnToken::Number(q) => rpn_eval_stack(
                tokens.drop_first(),
                stack.push((q.num as int, q.den as int)),
            ),
            RpnToken::LParen => None,
            RpnToken::RParen => None,
            op => if stack.len() >= 2 {
                let b = stack.last();
                let a = stack[stack.len() - 2];
                match rpn_apply(op, a, b) {
                    Some(c) => rpn_eval_stack(
                        tokens.drop_first(),
                        stack.drop_last().drop_last().push(c),
                    ),
                    None => None,
                }
            } else {
                None
            },
        }
    }
}

/// The exact value of a postfix expression: the stack machine must end on
/// exactly one value.
pub open spec fn rpn_eval(tokens: Seq<RpnToken>) -> Option<(int, int)> {
    match rpn_eval_stack(tokens, Seq::empty()) {
        Some(s) => if s.len() == 1 {
            Some(s[0])
        } else {
            None
        },
        None => None,
    }
}

/// The fractions of a stack, as unbounded pairs.
pub open spec fn pairs_of(s: Seq<Rational>) -> Seq<(int, int)> {
    s.map_values(|q: Rational| (q.num as int, q.den as int))
}

/// Whether one operator application stays within the machine's fraction
/// range: every product, sum and power the executable step computes fits
/// in its integer type. Together with `rpn_eval` being defined, this is
/// what the machine needs to succeed.
pub open spec fn rpn_apply_fits(op: RpnToken, a: (int, int), b: (int, int)) -> bool {
    match op {
        RpnToken::Add => {
            &&& i128::MIN <= a.0 * b.1 <= i128::MAX
            &&& i128::MIN <= b.0 * a.1 <= i128::MAX
            &&& i128::MIN <= a.0 * b.1 + b.0 * a.1 <= i128::MAX
            &&& i128::MIN <= a.1 * b.1 <= i128::MAX
        },
        RpnToken::Sub => {
            &&& i128::MIN <= a.0 * b.1 <= i128::MAX
            &&& i128::MIN <= b.0 * a.1 <= i128::MAX
            &&& i128::MIN <= a.0 * b.1 - b.0 * a.1 <= i128::MAX
            &&& i128::MIN <= a.1 * b.1 <= i128::MAX
        },
        RpnToken::Mul => {
            &&& i128::MIN <= a.0 * b.0 <= i128::MAX
            &&& i128::MIN <= a.1 * b.1 <= i128::MAX
        },
        RpnToken::Div => {
            &&& i128::MIN <= a.0 * b.1 <= i128::MAX
            &&& i128::MIN <= a.1 * b.0 <= i128::MAX
            &&& (a.1 * b.0 < 0 ==> i128::MIN <= -(a.0 * b.1) <= i128::MAX && i128::MIN <= -(a.1
                * b.0) <= i128::MAX)
        },
        RpnToken::Pow => b.1 >= 1 && b.0 % b.1 == 0 && {
            let e = b.0 / b.1;
            &&& i64::MIN <= e <= i64::MAX
            &&& (e >= 0 ==> e <= u32::MAX && (forall|j: nat|
                j <= e ==> -i128::MAX <= #[trigger] pow(a.0, j) <= i128::MAX && -i128::MAX
                    <= pow(a.1, j) <= i128::MAX))
            &&& (e < 0 ==> a.0 != 0 && a.0 != i128::MIN && -e <= u32::MAX && (forall|j: nat|
                j <= -e ==> -i128::MAX <= #[trigger] pow(a.0, j) <= i128::MAX && -i128::MAX
                    <= pow(a.1, j) <= i128::MAX))
        },
        _ => false,
    }
}

/// Whether the whole stack-machine run stays within machine range.
pub open spec fn rpn_fits_stack(tokens: Seq<RpnToken>, stack: Seq<(int, int)>) -> bool
    decreases tokens.len(),
{
    if tokens.len() == 0 {
        true
    } else {
        match tokens[0] {
            RpnToken::Number(q) => rpn_fits_stack(
                tokens.drop_first(),
                stack.push((q.num as int, q.den as int)),
            ),
            RpnToken::LParen => false,
            RpnToken::RParen => false,
            op => stack.len() >= 2 && {
                let b = stack.last();
                let a = stack[stack.len() - 2];
                &&& rpn_apply_fits(op, a, b)
                &&& match rpn_apply(op, a, b) {
                    Some(c) => rpn_fits_stack(
                        tokens.drop_first(),
                        stack.drop_last().drop_last().push(c),
                    ),
                    None => false,
                }
            },
        }
    }
}

/// Whether a postfix expression's whole evaluation stays in machine range.
pub open spec fn rpn_fits(tokens: Seq<RpnToken>) -> bool {
    rpn_fits_stack(tokens, Seq::empty())
}

/// Evaluate an infix arithmetic expression to one exact value.
pub fn evaluate_string(infix_expression: &str) -> (r: Result<Rational, MathError>)
    ensures
        r matches Ok(q) ==> q.wf(),
{
    let infix_tokens = match RpnExpression::tokenize_expression(infix_expression) {
        Ok(v) => v,
        Err(e) => return Err(e),
    };
    evaluate_tokens(&infix_tokens)
}

/// Evaluate infix tokens: reorder to postfix, then run the stack machine.
pub fn evaluate_tokens(infix_tokens: &Vec<RpnToken>) -> (r: Result<Rational, MathError>)
    requires
        forall|i: int| 0 <= i < infix_tokens@.len() ==> (#[trigger] infix_tokens@[i]).wf(),
    ensures
        r matches Ok(q) ==> q.wf(),
{
    let postfix_tokens = match RpnExpression::shunting_yard(infix_tokens) {
        Ok(v) => v,
        Err(e) => return Err(e),
    };
    resolve_rpn(&postfix_tokens)
}

/// Run the stack machine over a postfix expression. On success the result
/// is exactly the specification value (the machine returns the same
/// fraction, unreduced); an expression whose specification value does not
/// exist — stack underflow or leftovers, division by zero, a fractional
/// exponent, a stray parenthesis — fails, and so does a value past the
/// machine's fraction range.
pub fn resolve_rpn(postfix_expression: &Vec<RpnToken>) -> (r: Result<Rational, MathError>)
    requires
        forall|i: int|
            0 <= i < postfix_expression@.len() ==> (#[trigger] postfix_expression@[i]).wf(),
    ensures
        r matches Ok(q) ==> {
            &&& q.wf()
            &&& rpn_eval(postfix_expression@) matches Some(p)
            &&& q.num == p.0
            &&& q.den == p.1
        },
        rpn_eval(postfix_expression@) is None ==> r is Err,
        (rpn_eval(postfix_expression@) is Some && rpn_fits(postfix_expression@)) ==> r is Ok,
{
    let tokens = postfix_expression;
    let n = tokens.len();
    let mut stack: Vec<Rational> = Vec::new();
    let mut i: usize = 0;
    proof {
        assert(tokens@.subrange(0, n as int) =~= tokens@);
        assert(pairs_of(stack@) =~= Seq::<(int, int)>::empty());
    }
    while i < n
        invariant
            tokens@ == postfix_expression@,
            n == tokens@.len(),
            i <= n,
            forall|k: int| 0 <= k < tokens@.len() ==> (#[trigger] tokens@[k]).wf(),
            forall|k: int| 0 <= k < stack@.len() ==> (#[trigger] stack@[k]).wf(),
            rpn_eval_stack(tokens@, Seq::empty()) == rpn_eval_stack(
                tokens@.subrange(i as int, n as int),
                pairs_of(stack@),
            ),
            rpn_fits_stack(tokens@, Seq::empty()) ==> rpn_fits_stack(
                tokens@.subrange(i as int, n as int),
                pairs_of(stack@),
            ),
        decreases n - i,
    {
        let ghost rest = tokens@.subrange(i as int, n as int);
        let ghost rest2 = tokens@.subrange(i + 1, n as int);
        proof {
            assert(rest.drop_first() =~= rest2);
            assert(rest[0] == tokens@[i as int]);
        }
        let ghost entry_pairs = pairs_of(stack@);
        let t = tokens[i];
        match t {
            RpnToken::Number(q) => {
                stack.push(q);
                proof {
                    assert(pairs_of(stack@) =~= entry_pairs.push((q.num as int, q.den as int)));
                    assert(rpn_eval_stack(rest, entry_pairs) == rpn_eval_stack(
                        rest2,
                        entry_pairs.push((q.num as int, q.den as int)),
                    ));
                    assert(rpn_fits_stack(rest, entry_pairs) ==> rpn_fits_stack(
                        rest2,
                        entry_pairs.push((q.num as int, q.den as int)),
                    ));
                }
            },
            RpnToken::LParen => {
                proof {
                    assert(!rpn_fits_stack(rest, entry_pairs));

                }
                return Err(MathError::MalformedExpressionError);
            },
            RpnToken::RParen => {
                proof {
                    assert(!rpn_fits_stack(rest, entry_pairs));
                }
                return Err(MathError::MalformedExpressionError);
            },
            _ => {
                if stack.len() < 2 {
                    proof {
                        assert(!rpn_fits_stack(rest, entry_pairs));
                    }
                    return Err(MathError::MalformedExpressionError);
                }
                let ghost old_pairs = pairs_of(stack@);
                let right = stack.pop().unwrap();
                let left = stack.pop().unwrap();
                proof {
                    assert(old_pairs.last() == (right.num as int, right.den as int));
                    assert(old_pairs[old_pairs.len() - 2] == (left.num as int, left.den as int));
                    assert(pairs_of(stack@) =~= old_pairs.drop_last().drop_last());
                }
                let result: Rational = match t {
                    RpnToken::Add => match left.add(right) {
                        Ok(v) => v,
                        Err(e) => {
                            proof {
                                if rpn_fits_stack(rest, old_pairs) {
                                    assert(false);
                                }
                            }
                            return Err(e);
                        },
                    },
                    RpnToken::Sub => match left.sub(right) {
                        Ok(v) => v,
                        Err(e) => {
                            proof {
                                if rpn_fits_stack(rest, old_pairs) {
                                    assert(false);
                                }
                            }
                            return Err(e);
                        },
                    },
                    RpnToken::Mul => match left.mul(right) {
                        Ok(v) => v,
                        Err(e) => {
                            proof {
                                if rpn_fits_stack(rest, old_pairs) {
                                    assert(false);
                                }
                            }
                            return Err(e);
                        },
                    },
                    RpnToken::Div => match left.div(right) {
                        Ok(v) => v,
                        Err(e) => {
                            proof {
                                if rpn_fits_stack(rest, old_pairs) {
                                    assert(false);
                                }
                            }
                            return Err(e);
                        },
                    },
                    RpnToken::Pow => {
                        let exponent = match right.to_integer() {
                            Some(k) => k,
                            None => {
                                // Either the exponent is fractional, or it
                                // is a whole number too large to raise
                                // anything to within machine range.
                                proof {
                                    if rpn_fits_stack(rest, old_pairs) {
                                        let e = (right.num as int) / (right.den as int);
                                        vstd::arithmetic::div_mod::lemma_fundamental_div_mod(
                                            right.num as int,
                                            right.den as int,
                                        );
                                        assert(e * (right.den as int) == right.num as int)
                                            by (nonlinear_arith)
                                            requires
                                                right.num as int == (right.den as int) * e + (
                                                right.num as int) % (right.den as int),
                                                (right.num as int) % (right.den as int) == 0,
                                        ;
                                        assert(false);
                                    }
                                }
                                return Err(MathError::NonIntegerExponent);
                            },
                        };
                        proof {
                            vstd::arithmetic::div_mod::lemma_fundamental_div_mod_converse_mod(
                                right.num as int,
                                right.den as int,
                                exponent as int,
                                0,
                            );
                            vstd::arithmetic::div_mod::lemma_fundamental_div_mod_converse_div(
                                right.num as int,
                                right.den as int,
                                exponent as int,
                                0,
                            );
                        }
                        match left.pow_int(exponent) {
                            Ok(v) => v,
                            Err(e) => {
                                proof {
                                    if rpn_fits_stack(rest, old_pairs) {
                                        assert(false);
                                    }
                                }
                                return Err(e);
                            },
                        }
                    },
                    _ => {
                        return Err(MathError::MalformedExpressionError);
                    },
                };
                stack.push(result);
                proof {
                    assert(pairs_of(stack@) =~= old_pairs.drop_last().drop_last().push(
                        (result.num as int, result.den as int),
                    ));
                    assert(rpn_apply(t, old_pairs[old_pairs.len() - 2], old_pairs.last())
                        == Some((result.num as int, result.den as int)));
                    assert(rpn_eval_stack(rest, old_pairs) == rpn_eval_stack(
                        rest2,
                        old_pairs.drop_last().drop_last().push(
                            (result.num as int, result.den as int),
                        ),
                    ));
                    assert(rpn_fits_stack(rest, old_pairs) ==> rpn_fits_stack(
                        rest2,
                        old_pairs.drop_last().drop_last().push(
                            (result.num as int, result.den as int),
                        ),
                    ));
                }
            },
        }
        i = i + 1;
    }
    proof {
        assert(tokens@.subrange(n as int, n as int) =~= Seq::<RpnToken>::empty());
    }
    if stack.len() != 1 {
        return Err(MathError::MalformedExpressionError);
    }
    let result = stack.pop().unwrap();
    proof {
        assert(pairs_of(stack@.push(result))[0] == (result.num as int, result.den as int));
    }
    Ok(result)
}

/// Evaluate an infix expression and render the value: a whole number
/// plainly, any other fraction as `numerator/denominator`.
pub fn evaluate(expression: &str) -> (r: Result<String, MathError>) {
    proof {
        reveal_strlit("/");
    }
    let q = match evaluate_string(expression) {
        Ok(v) => v,
        Err(e) => return Err(e),
    };
    if q.den == 1 {
        Ok(i128_to_string(q.num))
    } else {
        let mut s = i128_to_string(q.num);
        s.append("/");
        s.append(i128_to_string(q.den).as_str());
        Ok(s)
    }
}

} // verus!

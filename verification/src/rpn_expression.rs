//! From raw text to evaluation order: the arithmetic side of the shared
//! grammar, and the shunting-yard conversion from infix to postfix.

use vstd::prelude::*;
use vstd::string::StringSliceAdditionalSpecFns;
use crate::dice_errors::{MathError, RollError};
use crate::dice_re::{self, lex_from, lex_view, LexView, Lexeme};
use crate::rpn_token::RpnToken;

verus! {

/// The lexer-level view of an arithmetic token.
pub open spec fn rpn_view(t: RpnToken) -> LexView {
    match t {
        RpnToken::Number(q) => LexView::NumV(q.num as int, q.den as int),
        RpnToken::Add => LexView::PlusV,
        RpnToken::Sub => LexView::MinusV,
        RpnToken::Mul => LexView::StarV,
        RpnToken::Div => LexView::SlashV,
        RpnToken::Pow => LexView::CaretV,
        RpnToken::LParen => LexView::LParenV,
        RpnToken::RParen => LexView::RParenV,
    }
}

/// Whether a lexeme view belongs to the arithmetic part of the grammar.
pub open spec fn is_math_view(lv: LexView) -> bool {
    ||| lv is NumV
    ||| lv is PlusV
    ||| lv is MinusV
    ||| lv is StarV
    ||| lv is SlashV
    ||| lv is CaretV
    ||| lv is LParenV
    ||| lv is RParenV
}

/// The number tokens of a sequence, in order.
pub open spec fn number_tokens(s: Seq<RpnToken>) -> Seq<RpnToken>
    decreases s.len(),
{
    if s.len() == 0 {
        Seq::empty()
    } else {
        number_tokens(s.drop_last()) + (if s.last() is Number {
            seq![s.last()]
        } else {
            Seq::empty()
        })
    }
}

/// Marker type grouping the infix-to-postfix pipeline.
pub struct RpnExpression;

impl RpnExpression {
    /// Lex an arithmetic expression with the shared grammar: the tokens are
    /// exactly the text's lexemes, which must all be arithmetic —
    /// dice-domain lexemes fail with a symbol error.
    pub fn tokenize_expression(expression: &str) -> (r: Result<Vec<RpnToken>, MathError>)
        ensures
            r matches Ok(v) ==> forall|i: int| 0 <= i < v@.len() ==> (#[trigger] v@[i]).wf(),
            r is Ok <==> (expression.is_ascii() && (lex_from(expression.spec_bytes(), 0)
                matches Some(lvs) && forall|i: int|
                0 <= i < lvs.len() ==> is_math_view(#[trigger] lvs[i]))),
            r matches Ok(v) ==> (lex_from(expression.spec_bytes(), 0) matches Some(lvs) && v@
                .map_values(|t: RpnToken| rpn_view(t)) == lvs),
    {
        let lexemes = match dice_re::tokenize(expression) {
            Ok(v) => v,
            Err(e) => return Err(math_error_of(e)),
        };
        let ghost lvs = lexemes@.map_values(|l: Lexeme| lex_view(l));
        let mut out: Vec<RpnToken> = Vec::new();
        let mut i: usize = 0;
        proof {
            assert(out@.map_values(|t: RpnToken| rpn_view(t)) =~= lvs.subrange(0, 0));
        }
        while i < lexemes.len()
            invariant
                expression.is_ascii(),
                Some(lvs) == lex_from(expression.spec_bytes(), 0),
                lvs == lexemes@.map_values(|l: Lexeme| lex_view(l)),
                i <= lexemes@.len(),
                forall|k: int| 0 <= k < lexemes@.len() ==> (#[trigger] lexemes@[k]).wf(),
                forall|k: int| 0 <= k < out@.len() ==> (#[trigger] out@[k]).wf(),
                out@.map_values(|t: RpnToken| rpn_view(t)) == lvs.subrange(0, i as int),
                forall|k: int| 0 <= k < i ==> is_math_view(#[trigger] lvs[k]),
            decreases lexemes@.len() - i,
        {
            let ghost prev = out@;
            match &lexemes[i] {
                Lexeme::Num(q) => out.push(RpnToken::Number(*q)),
                Lexeme::Plus => out.push(RpnToken::Add),
                Lexeme::Minus => out.push(RpnToken::Sub),
                Lexeme::Star => out.push(RpnToken::Mul),
                Lexeme::Slash => out.push(RpnToken::Div),
                Lexeme::Caret => out.push(RpnToken::Pow),
                Lexeme::LParen => out.push(RpnToken::LParen),
                Lexeme::RParen => out.push(RpnToken::RParen),
                _ => {
                    proof {
                        assert(!is_math_view(lvs[i as int]));
                        match lex_from(expression.spec_bytes(), 0) {
                            Some(l2) => {
                                assert(l2 == lvs);
                                assert((i as int) < l2.len());
                                assert(!is_math_view(l2[i as int]));
                                assert(!(forall|k: int|
                                    0 <= k < l2.len() ==> is_math_view(#[trigger] l2[k])))
                                    by {
                                    assert((i as int) < l2.len() && !is_math_view(
                                        l2[i as int],
                                    ));
                                };
                            },
                            None => {},
                        }
                    }
                    return Err(MathError::SymbolError(String::from_str(
                        "only numbers and arithmetic fit here",
                    )));
                },
            }
            proof {
                assert(out@.drop_last() =~= prev);
                assert(lvs.subrange(0, i + 1) =~= lvs.subrange(0, i as int).push(
                    lvs[i as int],
                ));
                assert(lvs[i as int] == lex_view(lexemes@[i as int]));
                assert(out@.map_values(|t: RpnToken| rpn_view(t)) =~= out@.drop_last()
                    .map_values(|t: RpnToken| rpn_view(t)).push(rpn_view(out@.last())));
                assert(out@.map_values(|t: RpnToken| rpn_view(t)) =~= lvs.subrange(0, i + 1));
            }
            i = i + 1;
        }
        proof {
            assert(lvs.subrange(0, lvs.len() as int) =~= lvs);
            assert(lexemes@.len() == lvs.len());
            assert(forall|k: int| 0 <= k < lvs.len() ==> is_math_view(#[trigger] lvs[k]));
        }
        Ok(out)
    }

    /// Reorder an infix token sequence into postfix (evaluation) order:
    /// `^` binds tightest and associates to the right, `*` and `/` next,
    /// `+` and `-` last, and parentheses group. No number is dropped or
    /// reordered, and the output holds no parenthesis; unbalanced
    /// parentheses are a malformed expression.
    pub fn shunting_yard(infix: &Vec<RpnToken>) -> (r: Result<Vec<RpnToken>, MathError>)
        requires
            forall|i: int| 0 <= i < infix@.len() ==> (#[trigger] infix@[i]).wf(),
        ensures
            r matches Ok(v) ==> forall|i: int|
                0 <= i < v@.len() ==> (#[trigger] v@[i]).wf() && !(v@[i] is LParen) && !(v@[i]
                    is RParen),
            r matches Ok(v) ==> number_tokens(v@) == number_tokens(infix@),
    {
        let mut out: Vec<RpnToken> = Vec::new();
        let mut ops: Vec<RpnToken> = Vec::new();
        let mut i: usize = 0;
        proof {
            assert(number_tokens(infix@.subrange(0, 0)) =~= Seq::<RpnToken>::empty());
            assert(number_tokens(out@) =~= Seq::<RpnToken>::empty());
        }
        while i < infix.len()
            invariant
                i <= infix@.len(),
                forall|k: int| 0 <= k < infix@.len() ==> (#[trigger] infix@[k]).wf(),
                forall|k: int|
                    0 <= k < out@.len() ==> (#[trigger] out@[k]).wf() && !(out@[k] is LParen)
                        && !(out@[k] is RParen),
                forall|k: int|
                    0 <= k < ops@.len() ==> (#[trigger] ops@[k]).wf() && !(ops@[k] is Number)
                        && !(ops@[k] is RParen),
                number_tokens(out@) == number_tokens(infix@.subrange(0, i as int)),
            decreases infix@.len() - i,
        {
            proof {
                assert(infix@.subrange(0, i + 1).drop_last() =~= infix@.subrange(0, i as int));
                assert(infix@.subrange(0, i + 1).last() == infix@[i as int]);
            }
            let t = infix[i];
            match t {
                RpnToken::Number(_) => {
                    let ghost u0 = out@;
                    out.push(t);
                    proof {
                        assert(out@.drop_last() =~= u0);
                        assert(number_tokens(out@) =~= number_tokens(infix@.subrange(0, i + 1)));
                    }
                },
                RpnToken::LParen => {
                    let ghost o0 = ops@;
                    ops.push(t);
                    proof {
                        assert(ops@.drop_last() =~= o0);
                    }
                },
                RpnToken::RParen => {
                    let mut found = false;
                    while ops.len() > 0 && !found
                        invariant
                            forall|k: int|
                                0 <= k < out@.len() ==> (#[trigger] out@[k]).wf() && !(out@[k]
                                    is LParen) && !(out@[k] is RParen),
                            forall|k: int|
                                0 <= k < ops@.len() ==> (#[trigger] ops@[k]).wf() && !(ops@[k]
                                    is Number) && !(ops@[k] is RParen),
                            number_tokens(out@) == number_tokens(infix@.subrange(0, i as int)),
                        decreases ops@.len(), (if !found { 1int } else { 0int }),
                    {
                        let ghost u0 = out@;
                        let top = ops.pop().unwrap();
                        match top {
                            RpnToken::LParen => {
                                found = true;
                            },
                            _ => {
                                out.push(top);
                                proof {
                                    assert(out@.drop_last() =~= u0);
                                }
                            },
                        }
                    }
                    if !found {
                        return Err(MathError::MalformedExpressionError);
                    }
                    proof {
                        assert(number_tokens(out@) =~= number_tokens(infix@.subrange(0, i + 1)));
                    }
                },
                _ => {
                    // A binary operator: pop tighter bindings first; `^`
                    // associates right, the others left.
                    let prec = t.precedence();
                    let right_assoc = match t {
                        RpnToken::Pow => true,
                        _ => false,
                    };
                    let mut going = true;
                    while ops.len() > 0 && going
                        invariant
                            forall|k: int|
                                0 <= k < out@.len() ==> (#[trigger] out@[k]).wf() && !(out@[k]
                                    is LParen) && !(out@[k] is RParen),
                            forall|k: int|
                                0 <= k < ops@.len() ==> (#[trigger] ops@[k]).wf() && !(ops@[k]
                                    is Number) && !(ops@[k] is RParen),
                            number_tokens(out@) == number_tokens(infix@.subrange(0, i as int)),
                        decreases ops@.len(), (if going { 1int } else { 0int }),
                    {
                        let top = ops[ops.len() - 1];
                        let top_prec = top.precedence();
                        let pops = if top.is_operator() {
                            if right_assoc {
                                top_prec > prec
                            } else {
                                top_prec >= prec
                            }
                        } else {
                            false
                        };
                        if pops {
                            let ghost u0 = out@;
                            let popped = ops.pop().unwrap();
                            out.push(popped);
                            proof {
                                assert(out@.drop_last() =~= u0);
                            }
                        } else {
                            going = false;
                        }
                    }
                    let ghost o0 = ops@;
                    ops.push(t);
                    proof {
                        assert(ops@.drop_last() =~= o0);
                        assert(number_tokens(out@) =~= number_tokens(infix@.subrange(0, i + 1)));
                    }
                },
            }
            i = i + 1;
        }
        while ops.len() > 0
            invariant
                forall|k: int|
                    0 <= k < out@.len() ==> (#[trigger] out@[k]).wf() && !(out@[k] is LParen)
                        && !(out@[k] is RParen),
                forall|k: int|
                    0 <= k < ops@.len() ==> (#[trigger] ops@[k]).wf() && !(ops@[k] is Number)
                        && !(ops@[k] is RParen),
                number_tokens(out@) == number_tokens(infix@.subrange(
                    0,
                    infix@.len() as int,
                )),
            decreases ops@.len(),
        {
            let ghost u0 = out@;
            let top = ops.pop().unwrap();
            match top {
                RpnToken::LParen => {
                    return Err(MathError::MalformedExpressionError);
                },
                _ => {
                    out.push(top);
                    proof {
                        assert(out@.drop_last() =~= u0);
                    }
                },
            }
        }
        proof {
            assert(infix@.subrange(0, infix@.len() as int) =~= infix@);
        }
        Ok(out)
    }
}

/// The arithmetic reading of a lexer error.
pub fn math_error_of(e: RollError) -> (r: MathError) {
    match e {
        RollError::SymbolError(s) => MathError::SymbolError(s),
        RollError::NumericParseError => MathError::NumericParseError,
        RollError::MalformedExpressionError => MathError::MalformedExpressionError,
        _ => MathError::MalformedExpressionError,
    }
}

} // verus!

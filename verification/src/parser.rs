//! The shunting-yard parser and resolver for dice commands: from the
//! lexeme sequence to evaluation (postfix) order, and from postfix order
//! to one resolved value with per-operation provenance.
//!
//! Precedence, tightest first: the dice operator `d` and the narrative
//! conversions; the dice-domain postfix operators and the merge `&`,
//! chained left to right; then `^` (right-associative), `*` and `/`, and
//! `+` and `-`.

use vstd::prelude::*;
use crate::calculator;
use crate::dice_errors::{MathError, RollError};
use crate::dice_re::{self, Lexeme, OperLex};
use crate::rational::Rational;
use crate::roll::Operation;
use crate::roll_token::RollToken;
use crate::roll_value::RollValue;
use crate::token_kinds::{Argument, Cap, Combination, Conversion, Dice, Explode, GenesysDice,
    Keep, Merge, Operator, Reroll, Target};

verus! {

/// Binding strength of a lexeme, when it is an operator.
pub open spec fn spec_precedence(lex: Lexeme) -> int {
    match lex {
        Lexeme::DiceOp => 10,
        Lexeme::Ampersand => 8,
        Lexeme::Oper(o) => if o is GenBoost || o is GenSetback || o is GenAbility || o
            is GenDifficulty || o is GenProficiency || o is GenChallenge {
            10
        } else {
            8
        },
        Lexeme::Caret => 4,
        Lexeme::Star => 3,
        Lexeme::Slash => 3,
        Lexeme::Plus => 2,
        Lexeme::Minus => 2,
        _ => 0,
    }
}

/// Binding strength of a lexeme.
fn precedence(lex: &Lexeme) -> (r: u8)
    ensures
        r == spec_precedence(*lex),
{
    match lex {
        Lexeme::DiceOp => 10,
        Lexeme::Ampersand => 8,
        Lexeme::Oper(o) => match o {
            OperLex::GenBoost => 10,
            OperLex::GenSetback => 10,
            OperLex::GenAbility => 10,
            OperLex::GenDifficulty => 10,
            OperLex::GenProficiency => 10,
            OperLex::GenChallenge => 10,
            _ => 8,
        },
        Lexeme::Caret => 4,
        Lexeme::Star => 3,
        Lexeme::Slash => 3,
        Lexeme::Plus => 2,
        Lexeme::Minus => 2,
        _ => 0,
    }
}

/// Whether the lexeme is an operator that takes stack precedence.
fn is_op(lex: &Lexeme) -> (r: bool)
    ensures
        r == (spec_precedence(*lex) > 0),
{
    precedence(lex) > 0
}

/// Whether the lexeme is a narrative conversion, applied postfix with no
/// argument of its own.
fn is_conversion(lex: &Lexeme) -> (r: bool)
    ensures
        r ==> lex is Oper,
{
    match lex {
        Lexeme::Oper(o) => match o {
            OperLex::GenBoost => true,
            OperLex::GenSetback => true,
            OperLex::GenAbility => true,
            OperLex::GenDifficulty => true,
            OperLex::GenProficiency => true,
            OperLex::GenChallenge => true,
            _ => false,
        },
        _ => false,
    }
}

/// The operand lexemes (numbers and arrays) of a sequence, in order.
pub open spec fn operand_lexemes(s: Seq<Lexeme>) -> Seq<Lexeme>
    decreases s.len(),
{
    if s.len() == 0 {
        Seq::empty()
    } else {
        operand_lexemes(s.drop_last()) + (if s.last() is Num || s.last() is Array {
            seq![s.last()]
        } else {
            Seq::empty()
        })
    }
}

/// Operand extraction distributes over concatenation.
pub proof fn lemma_operands_concat(a: Seq<Lexeme>, b: Seq<Lexeme>)
    ensures
        operand_lexemes(a + b) == operand_lexemes(a) + operand_lexemes(b),
    decreases b.len(),
{
    if b.len() == 0 {
        assert(a + b =~= a);
        assert(operand_lexemes(a) + operand_lexemes(b) =~= operand_lexemes(a));
    } else {
        lemma_operands_concat(a, b.drop_last());
        assert((a + b).drop_last() =~= a + b.drop_last());
        assert((a + b).last() == b.last());
        assert(operand_lexemes(a + b) =~= operand_lexemes(a) + operand_lexemes(b));
    }
}

/// How many dice-domain operations (dice, merges, operators) a sequence
/// holds: each becomes one recorded operation when it resolves.
pub open spec fn dice_op_count(s: Seq<Lexeme>) -> int
    decreases s.len(),
{
    if s.len() == 0 {
        0
    } else {
        dice_op_count(s.drop_last()) + (if s.last() is DiceOp || s.last() is Ampersand
            || s.last() is Oper {
            1int
        } else {
            0int
        })
    }
}

/// The operation count distributes over concatenation.
pub proof fn lemma_dice_op_count_concat(a: Seq<Lexeme>, b: Seq<Lexeme>)
    ensures
        dice_op_count(a + b) == dice_op_count(a) + dice_op_count(b),
    decreases b.len(),
{
    if b.len() == 0 {
        assert(a + b =~= a);
    } else {
        lemma_dice_op_count_concat(a, b.drop_last());
        assert((a + b).drop_last() =~= a + b.drop_last());
        assert((a + b).last() == b.last());
    }
}

/// Reorder an infix lexeme sequence into postfix (evaluation) order. The
/// parser never drops or reorders operands: the numbers and arrays of the
/// output are exactly those of the input, in the same order, and the
/// dice-domain operations are all kept; unbalanced parentheses are a
/// malformed expression.
pub fn to_postfix(lexemes: Vec<Lexeme>) -> (r: Result<Vec<Lexeme>, RollError>)
    requires
        forall|i: int| 0 <= i < lexemes@.len() ==> (#[trigger] lexemes@[i]).wf(),
    ensures
        r matches Ok(v) ==> forall|i: int|
            0 <= i < v@.len() ==> (#[trigger] v@[i]).wf() && !(v@[i] is LParen) && !(v@[i]
                is RParen),
        r matches Ok(v) ==> operand_lexemes(v@) == operand_lexemes(lexemes@),
        r matches Ok(v) ==> dice_op_count(v@) == dice_op_count(lexemes@),
{
    let ghost orig = lexemes@;
    let mut input = lexemes;
    let mut out: Vec<Lexeme> = Vec::new();
    let mut ops: Vec<Lexeme> = Vec::new();
    proof {
        assert(operand_lexemes(out@) + operand_lexemes(input@) =~= operand_lexemes(orig));
    }
    while input.len() > 0
        invariant
            forall|k: int| 0 <= k < input@.len() ==> (#[trigger] input@[k]).wf(),
            forall|k: int|
                0 <= k < out@.len() ==> (#[trigger] out@[k]).wf() && !(out@[k] is LParen) && !(
                out@[k] is RParen),
            forall|k: int|
                0 <= k < ops@.len() ==> (#[trigger] ops@[k]).wf() && !(ops@[k] is RParen) && !(
                ops@[k] is Num) && !(ops@[k] is Array),
            operand_lexemes(out@) + operand_lexemes(input@) == operand_lexemes(orig),
            dice_op_count(out@) + dice_op_count(ops@) + dice_op_count(input@) == dice_op_count(
                orig,
            ),
        decreases input@.len(),
    {
        let ghost pre_input = input@;
        let t = input.remove(0);
        let ghost tflag: int = if t is DiceOp || t is Ampersand || t is Oper {
            1
        } else {
            0
        };
        proof {
            assert(pre_input =~= seq![t] + input@);
            lemma_operands_concat(seq![t], input@);
            lemma_dice_op_count_concat(seq![t], input@);
            assert(seq![t].drop_last() =~= Seq::<Lexeme>::empty());
            assert(seq![t].last() == t);
            assert(dice_op_count(Seq::<Lexeme>::empty()) == 0);
            assert(operand_lexemes(Seq::<Lexeme>::empty()) =~= Seq::<Lexeme>::empty());
            assert(dice_op_count(seq![t].drop_last()) == 0);
            assert(operand_lexemes(seq![t].drop_last()) =~= Seq::<Lexeme>::empty());
            assert(dice_op_count(seq![t]) == tflag);
            if t is Num || t is Array {
                assert(operand_lexemes(pre_input) =~= seq![t] + operand_lexemes(input@));
            } else {
                assert(operand_lexemes(pre_input) =~= operand_lexemes(input@));
            }
        }
        if is_conversion(&t) {
            // A postfix conversion binds to the completed operand chain:
            // flush tighter or equal operators, then emit it.
            let mut going = true;
            while ops.len() > 0 && going
                invariant
                    forall|k: int|
                        0 <= k < out@.len() ==> (#[trigger] out@[k]).wf() && !(out@[k]
                            is LParen) && !(out@[k] is RParen),
                    forall|k: int|
                        0 <= k < ops@.len() ==> (#[trigger] ops@[k]).wf() && !(ops@[k]
                            is RParen) && !(ops@[k] is Num) && !(ops@[k] is Array),
                    operand_lexemes(out@) + operand_lexemes(input@) == operand_lexemes(orig),
                    dice_op_count(out@) + dice_op_count(ops@) + dice_op_count(input@) + tflag
                        == dice_op_count(orig),
                decreases ops@.len(), (if going { 1int } else { 0int }),
            {
                let flush = precedence(&ops[ops.len() - 1]) >= 10;
                if flush {
                    let ghost u0 = out@;
                    let top = ops.pop().unwrap();
                    out.push(top);
                    proof {
                        assert(out@.drop_last() =~= u0);
                    }
                } else {
                    going = false;
                }
            }
            let ghost u0 = out@;
            out.push(t);
            proof {
                assert(out@.drop_last() =~= u0);
            }
        } else {
            match &t {
                Lexeme::Num(_) => {
                    let ghost u0 = out@;
                    out.push(t);
                    proof {
                        assert(out@.drop_last() =~= u0);
                    }
                },
                Lexeme::Array(_) => {
                    let ghost u0 = out@;
                    out.push(t);
                    proof {
                        assert(out@.drop_last() =~= u0);
                    }
                },
                Lexeme::LParen => {
                    let ghost o0 = ops@;
                    ops.push(t);
                    proof {
                        assert(ops@.drop_last() =~= o0);
                    }
                },
                Lexeme::RParen => {
                    let mut found = false;
                    while ops.len() > 0 && !found
                        invariant
                            forall|k: int|
                                0 <= k < out@.len() ==> (#[trigger] out@[k]).wf() && !(out@[k]
                                    is LParen) && !(out@[k] is RParen),
                            forall|k: int|
                                0 <= k < ops@.len() ==> (#[trigger] ops@[k]).wf() && !(ops@[k]
                                    is RParen) && !(ops@[k] is Num) && !(ops@[k] is Array),
                            operand_lexemes(out@) + operand_lexemes(input@) == operand_lexemes(
                                orig,
                            ),
                            dice_op_count(out@) + dice_op_count(ops@) + dice_op_count(input@)
                                == dice_op_count(orig),
                        decreases ops@.len(), (if !found { 1int } else { 0int }),
                    {
                        let ghost u0 = out@;
                        let top = ops.pop().unwrap();
                        match top {
                            Lexeme::LParen => {
                                found = true;
                            },
                            _ => {
                                out.push(top);
                                proof {
                                    assert(out@.drop_last() =~= u0);
                                }
                            },
                        }
                    }
                    if !found {
                        return Err(RollError::MalformedExpressionError);
                    }
                },
                _ => {
                    if !is_op(&t) {
                        return Err(RollError::MalformedExpressionError);
                    }
                    let prec = precedence(&t);
                    let right_assoc = match t {
                        Lexeme::Caret => true,
                        _ => false,
                    };
                    let mut going = true;
                    while ops.len() > 0 && going
                        invariant
                            forall|k: int|
                                0 <= k < out@.len() ==> (#[trigger] out@[k]).wf() && !(out@[k]
                                    is LParen) && !(out@[k] is RParen),
                            forall|k: int|
                                0 <= k < ops@.len() ==> (#[trigger] ops@[k]).wf() && !(ops@[k]
                                    is RParen) && !(ops@[k] is Num) && !(ops@[k] is Array),
                            operand_lexemes(out@) + operand_lexemes(input@) == operand_lexemes(
                                orig,
                            ),
                            dice_op_count(out@) + dice_op_count(ops@) + dice_op_count(input@)
                                + tflag == dice_op_count(orig),
                        decreases ops@.len(), (if going { 1int } else { 0int }),
                    {
                        let top_prec = precedence(&ops[ops.len() - 1]);
                        let pops = if is_op(&ops[ops.len() - 1]) {
                            if right_assoc {
                                top_prec > prec
                            } else {
                                top_prec >= prec
                            }
                        } else {
                            false
                        };
                        if pops {
                            let ghost u0 = out@;
                            let popped = ops.pop().unwrap();
                            out.push(popped);
                            proof {
                                assert(out@.drop_last() =~= u0);
                            }
                        } else {
                            going = false;
                        }
                    }
                    let ghost o0 = ops@;
                    ops.push(t);
                    proof {
                        assert(ops@.drop_last() =~= o0);
                    }
                },
            }
        }
    }
    while ops.len() > 0
        invariant
            forall|k: int|
                0 <= k < out@.len() ==> (#[trigger] out@[k]).wf() && !(out@[k] is LParen) && !(
                out@[k] is RParen),
            forall|k: int|
                0 <= k < ops@.len() ==> (#[trigger] ops@[k]).wf() && !(ops@[k] is RParen) && !(
                ops@[k] is Num) && !(ops@[k] is Array),
            operand_lexemes(out@) + operand_lexemes(input@) == operand_lexemes(orig),
            input@.len() == 0,
            dice_op_count(out@) + dice_op_count(ops@) + dice_op_count(input@) == dice_op_count(
                orig,
            ),
        decreases ops@.len(),
    {
        let ghost u0 = out@;
        let top = ops.pop().unwrap();
        match top {
            Lexeme::LParen => {
                return Err(RollError::MalformedExpressionError);
            },
            _ => {
                out.push(top);
                proof {
                    assert(out@.drop_last() =~= u0);
                }
            },
        }
    }
    proof {
        assert(operand_lexemes(input@) =~= Seq::<Lexeme>::empty());
        assert(operand_lexemes(out@) =~= operand_lexemes(out@) + operand_lexemes(input@));
    }
    Ok(out)
}


/// One slot of the resolution stack: a plain number, an array operand, or
/// a resolved roll token.
pub enum StackItem {
    Value(Rational),
    ArrayVal(Vec<u8>),
    Token(RollToken),
}

impl StackItem {
    /// Numbers and tokens on the stack are well-formed.
    pub open spec fn wf(self) -> bool {
        match self {
            StackItem::Value(q) => q.wf(),
            StackItem::ArrayVal(_) => true,
            StackItem::Token(t) => t.wf(),
        }
    }
}

/// A number usable as a dice-operator operand: a whole value in `0..=255`.
fn rational_to_u8(q: &Rational) -> (r: Result<u8, RollError>)
    requires
        q.wf(),
{
    match q.to_integer() {
        Some(k) => {
            if 0 <= k && k <= 255 {
                Ok(k as u8)
            } else {
                Err(RollError::NumericParseError)
            }
        },
        None => Err(RollError::NumericParseError),
    }
}

/// An operator argument from a stack item: a single value or an array.
fn item_to_argument(item: StackItem) -> (r: Result<Argument, RollError>)
    requires
        item.wf(),
{
    match item {
        StackItem::Value(q) => match rational_to_u8(&q) {
            Ok(v) => Ok(Argument::Single(v)),
            Err(e) => Err(e),
        },
        StackItem::ArrayVal(vals) => Ok(Argument::Array(vals)),
        StackItem::Token(_) => Err(RollError::ArgumentError),
    }
}

/// A numeric reading of a stack item, for the arithmetic operators.
fn item_to_rational(item: StackItem) -> (r: Result<Rational, RollError>)
    requires
        item.wf(),
    ensures
        r matches Ok(q) ==> q.wf(),
{
    match item {
        StackItem::Value(q) => Ok(q),
        StackItem::ArrayVal(_) => Err(RollError::ArgumentError),
        StackItem::Token(t) => {
            let v = match t.value() {
                Ok(v) => v,
                Err(e) => return Err(e),
            };
            v.to_decimal()
        },
    }
}

/// The unresolved operator token for a dice-domain operator lexeme.
fn base_operator(o: OperLex) -> (r: Operator)
    ensures
        r.wf(),
{
    match o {
        OperLex::KeepHigh => Operator::Keep(Keep::High { arg: None, res: None }),
        OperLex::KeepLow => Operator::Keep(Keep::Low { arg: None, res: None }),
        OperLex::KeepExact => Operator::Keep(Keep::Exact { arg: None, res: None }),
        OperLex::RerollOnce => Operator::Reroll(
            Reroll::Once { arg: None, res: None, rerolls: None },
        ),
        OperLex::RerollRecursive => Operator::Reroll(
            Reroll::Recursive { arg: None, res: None, rerolls: None },
        ),
        OperLex::RerollBetter => Operator::Reroll(
            Reroll::Better { arg: None, res: None, rerolls: None },
        ),
        OperLex::RerollWorse => Operator::Reroll(
            Reroll::Worse { arg: None, res: None, rerolls: None },
        ),
        OperLex::ExplodeOnce => Operator::Explode(Explode::Once { arg: None, res: Vec::new() }),
        OperLex::ExplodeRecursive => Operator::Explode(
            Explode::Recursive { arg: None, res: Vec::new() },
        ),
        OperLex::ExplodeAdditive => Operator::Explode(
            Explode::Additive { arg: None, res: Vec::new() },
        ),
        OperLex::TargetNumber => Operator::Target(
            Target::Success { arg: None, pool: None, sux: 0 },
        ),
        OperLex::BotchNumber => Operator::Target(Target::Botch { arg: None, pool: None, sux: 0 }),
        OperLex::CapMax => Operator::Cap(Cap::Max { arg: None, res: None }),
        OperLex::CapMin => Operator::Cap(Cap::Min { arg: None, res: None }),
        OperLex::GenBoost => Operator::Cap(Cap::Max { arg: None, res: None }),
        OperLex::GenSetback => Operator::Cap(Cap::Max { arg: None, res: None }),
        OperLex::GenAbility => Operator::Cap(Cap::Max { arg: None, res: None }),
        OperLex::GenDifficulty => Operator::Cap(Cap::Max { arg: None, res: None }),
        OperLex::GenProficiency => Operator::Cap(Cap::Max { arg: None, res: None }),
        OperLex::GenChallenge => Operator::Cap(Cap::Max { arg: None, res: None }),
    }
}

/// The unresolved narrative conversion for a conversion lexeme, if it is
/// one.
fn base_conversion(o: OperLex) -> (r: Option<Conversion>)
    ensures
        r matches Some(c) ==> c.wf(),
{
    match o {
        OperLex::GenBoost => Some(
            Conversion::Genesys(GenesysDice::Boost { base: None, res: Vec::new() }),
        ),
        OperLex::GenSetback => Some(
            Conversion::Genesys(GenesysDice::Setback { base: None, res: Vec::new() }),
        ),
        OperLex::GenAbility => Some(
            Conversion::Genesys(GenesysDice::Ability { base: None, res: Vec::new() }),
        ),
        OperLex::GenDifficulty => Some(
            Conversion::Genesys(GenesysDice::Difficulty { base: None, res: Vec::new() }),
        ),
        OperLex::GenProficiency => Some(
            Conversion::Genesys(GenesysDice::Proficiency { base: None, res: Vec::new() }),
        ),
        OperLex::GenChallenge => Some(
            Conversion::Genesys(GenesysDice::Challenge { base: None, res: Vec::new() }),
        ),
        _ => None,
    }
}

/// Resolve a postfix lexeme sequence: operands push, each operator pops
/// what it consumes, applies, and pushes its resolved token, recording the
/// rendered provenance of every applied operation in order. At the end
/// exactly one value must remain.
pub fn resolve_postfix(postfix: Vec<Lexeme>) -> (r: Result<(RollValue, Vec<Operation>), RollError>)
    requires
        forall|i: int| 0 <= i < postfix@.len() ==> (#[trigger] postfix@[i]).wf(),
    ensures
        r matches Ok(v) ==> v.0.wf(),
        r matches Ok(v) ==> v.1@.len() == dice_op_count(postfix@),
{
    let ghost orig = postfix@;
    let mut input = postfix;
    let mut stack: Vec<StackItem> = Vec::new();
    let mut operations: Vec<Operation> = Vec::new();
    while input.len() > 0
        invariant
            forall|k: int| 0 <= k < input@.len() ==> (#[trigger] input@[k]).wf(),
            forall|k: int| 0 <= k < stack@.len() ==> (#[trigger] stack@[k]).wf(),
            operations@.len() + dice_op_count(input@) == dice_op_count(orig),
        decreases input@.len(),
    {
        let ghost pre_input = input@;
        let t = input.remove(0);
        proof {
            assert(pre_input =~= seq![t] + input@);
            lemma_dice_op_count_concat(seq![t], input@);
            assert(seq![t].drop_last() =~= Seq::<Lexeme>::empty());
            assert(dice_op_count(Seq::<Lexeme>::empty()) == 0);
            assert(dice_op_count(seq![t].drop_last()) == 0);
            assert(seq![t].last() == t);
        }
        match t {
            Lexeme::Num(q) => stack.push(StackItem::Value(q)),
            Lexeme::Array(vals) => stack.push(StackItem::ArrayVal(vals)),
            Lexeme::LParen => {
                return Err(RollError::MalformedExpressionError);
            },
            Lexeme::RParen => {
                return Err(RollError::MalformedExpressionError);
            },
            Lexeme::DiceOp => {
                if stack.len() < 2 {
                    return Err(RollError::MalformedExpressionError);
                }
                let right = stack.pop().unwrap();
                let left = stack.pop().unwrap();
                let right_arg = match item_to_argument(right) {
                    Ok(a) => a,
                    Err(e) => return Err(e),
                };
                let left_arg = match item_to_argument(left) {
                    Ok(a) => a,
                    Err(e) => return Err(e),
                };
                let blank = Dice { pool: None };
                let dice = match blank.apply(left_arg, right_arg) {
                    Ok(d) => d,
                    Err(e) => return Err(e),
                };
                let token = RollToken::Dice(dice);
                operations.push(
                    Operation { description: token.description(), verbose: token.verbose() },
                );
                stack.push(StackItem::Token(token));
            },
            Lexeme::Ampersand => {
                if stack.len() < 2 {
                    return Err(RollError::MalformedExpressionError);
                }
                let right = stack.pop().unwrap();
                let left = stack.pop().unwrap();
                let right_token = match right {
                    StackItem::Token(t2) => t2,
                    _ => {
                        return Err(RollError::ArgumentError);
                    },
                };
                let left_token = match left {
                    StackItem::Token(t2) => t2,
                    _ => {
                        return Err(RollError::ArgumentError);
                    },
                };
                let blank = Combination::Merge(Merge { left: None, right: None });
                let merged = match blank.apply(left_token, right_token) {
                    Ok(c) => c,
                    Err(e) => return Err(e),
                };
                let token = RollToken::Combination(merged);
                operations.push(
                    Operation { description: token.description(), verbose: token.verbose() },
                );
                stack.push(StackItem::Token(token));
            },
            Lexeme::Oper(o) => {
                match base_conversion(o) {
                    Some(conv) => {
                        if stack.len() < 1 {
                            return Err(RollError::MalformedExpressionError);
                        }
                        let operand = stack.pop().unwrap();
                        let operand_token = match operand {
                            StackItem::Token(t2) => t2,
                            _ => {
                                return Err(RollError::MissingPoolError);
                            },
                        };
                        let applied = match conv.apply(operand_token) {
                            Ok(c) => c,
                            Err(e) => return Err(e),
                        };
                        let token = RollToken::Conversion(applied);
                        operations.push(
                            Operation {
                                description: token.description(),
                                verbose: token.verbose(),
                            },
                        );
                        stack.push(StackItem::Token(token));
                    },
                    None => {
                        if stack.len() < 2 {
                            return Err(RollError::MalformedExpressionError);
                        }
                        let arg_item = stack.pop().unwrap();
                        let operand = stack.pop().unwrap();
                        let argument = match item_to_argument(arg_item) {
                            Ok(a) => a,
                            Err(e) => return Err(e),
                        };
                        let operand_token = match operand {
                            StackItem::Token(t2) => t2,
                            _ => {
                                return Err(RollError::MissingPoolError);
                            },
                        };
                        let base = base_operator(o);
                        let applied = match base.apply(operand_token, argument) {
                            Ok(x) => x,
                            Err(e) => return Err(e),
                        };
                        let token = RollToken::Operator(applied);
                        operations.push(
                            Operation {
                                description: token.description(),
                                verbose: token.verbose(),
                            },
                        );
                        stack.push(StackItem::Token(token));
                    },
                }
            },
            _ => {
                // An arithmetic operator: pop right, then left, and push
                // the exact numeric result.
                if stack.len() < 2 {
                    return Err(RollError::MalformedExpressionError);
                }
                let right_item = stack.pop().unwrap();
                let left_item = stack.pop().unwrap();
                let right = match item_to_rational(right_item) {
                    Ok(q) => q,
                    Err(e) => return Err(e),
                };
                let left = match item_to_rational(left_item) {
                    Ok(q) => q,
                    Err(e) => return Err(e),
                };
                let computed: Result<Rational, MathError> = match t {
                    Lexeme::Plus => left.add(right),
                    Lexeme::Minus => left.sub(right),
                    Lexeme::Star => left.mul(right),
                    Lexeme::Slash => left.div(right),
                    Lexeme::Caret => match right.to_integer() {
                        Some(k) => left.pow_int(k),
                        None => Err(MathError::NonIntegerExponent),
                    },
                    _ => Err(MathError::MalformedExpressionError),
                };
                match computed {
                    Ok(q) => stack.push(StackItem::Value(q)),
                    Err(e) => return Err(RollError::Math(e)),
                }
            },
        }
    }
    if stack.len() != 1 {
        return Err(RollError::MalformedExpressionError);
    }
    let top = stack.pop().unwrap();
    match top {
        StackItem::Value(q) => Ok((RollValue::Numeric(q), operations)),
        StackItem::ArrayVal(_) => Err(RollError::MalformedExpressionError),
        StackItem::Token(token) => {
            let value = match token.value() {
                Ok(v) => v,
                Err(e) => return Err(e),
            };
            Ok((value, operations))
        },
    }
}

/// Resolve a raw dice command: lex, reorder to postfix, resolve.
pub fn resolve_command(command: &str) -> (r: Result<(RollValue, Vec<Operation>), RollError>)
    ensures
        r matches Ok(v) ==> v.0.wf(),
{
    let lexemes = match dice_re::tokenize(command) {
        Ok(v) => v,
        Err(e) => return Err(e),
    };
    let postfix = match to_postfix(lexemes) {
        Ok(v) => v,
        Err(e) => return Err(e),
    };
    resolve_postfix(postfix)
}

} // verus!

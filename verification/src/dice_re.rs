//! The lexer for the combined grammar: math tokens, dice-operator tokens,
//! and narrative-dice conversion tokens, recognized from raw ASCII text.

use vstd::prelude::*;
use vstd::string::StringSliceAdditionalSpecFns;
use crate::dice_errors::RollError;
use crate::rational::Rational;

verus! {

/// One lexeme of the combined grammar.
#[derive(Clone, Debug, PartialEq)]
pub enum Lexeme {
    /// A numeric literal, possibly with a fraction part.
    Num(Rational),
    /// An array literal of integers.
    Array(Vec<u8>),
    Plus,
    Minus,
    Star,
    Slash,
    Caret,
    LParen,
    RParen,
    /// The dice operator `d`.
    DiceOp,
    /// The merge operator `&`.
    Ampersand,
    /// A dice-domain postfix operator with its mode.
    Oper(OperLex),
}

/// The dice-domain operator lexemes.
#[derive(Clone, Copy, Debug, PartialEq, Eq, Structural)]
pub enum OperLex {
    KeepHigh,
    KeepLow,
    KeepExact,
    RerollOnce,
    RerollRecursive,
    RerollBetter,
    RerollWorse,
    ExplodeOnce,
    ExplodeRecursive,
    ExplodeAdditive,
    TargetNumber,
    BotchNumber,
    CapMax,
    CapMin,
    GenBoost,
    GenSetback,
    GenAbility,
    GenDifficulty,
    GenProficiency,
    GenChallenge,
}

impl Lexeme {
    /// Number payloads carry a positive denominator.
    pub open spec fn wf(self) -> bool {
        self matches Lexeme::Num(q) ==> q.wf()
    }
}

/// Lowercase of an ASCII letter byte; other bytes pass through.
pub open spec fn lower_spec(b: u8) -> u8 {
    if 65 <= b <= 90 {
        (b + 32) as u8
    } else {
        b
    }
}

/// Whether a byte is an ASCII digit.
pub open spec fn is_digit_spec(b: u8) -> bool {
    48 <= b <= 57
}

/// Where the run of decimal digits starting at `i` ends.
pub open spec fn digits_end(s: Seq<u8>, i: int) -> int
    decreases s.len() - i,
{
    if 0 <= i < s.len() && is_digit_spec(s[i]) {
        digits_end(s, i + 1)
    } else {
        i
    }
}

/// The decimal value of the digits from `i` up to `end`.
pub open spec fn digits_value(s: Seq<u8>, i: int, end: int) -> int
    decreases end - i,
{
    if end <= i {
        0
    } else {
        digits_value(s, i, end - 1) * 10 + (s[end - 1] - 48)
    }
}

/// A digit run ends in bounds, past its first digit.
pub proof fn lemma_digits_end_bounds(s: Seq<u8>, i: int)
    requires
        0 <= i <= s.len(),
    ensures
        i <= digits_end(s, i) <= s.len(),
    decreases s.len() - i,
{
    if i < s.len() && is_digit_spec(s[i]) {
        lemma_digits_end_bounds(s, i + 1);
    }
}

/// Digit values are non-negative and grow along a digit run.
pub proof fn lemma_digits_value_grows(s: Seq<u8>, i: int, a: int, b: int)
    requires
        i <= a <= b,
        forall|k: int| i <= k < b ==> is_digit_spec(#[trigger] s[k]),
    ensures
        0 <= digits_value(s, i, a) <= digits_value(s, i, b),
    decreases b - a,
{
    if a == b {
        lemma_digits_value_nonneg_pub(s, i, a);
    } else {
        lemma_digits_value_grows(s, i, a, b - 1);
    }
}

/// The scan that stops at the first non-digit finds `digits_end`.
pub proof fn lemma_digits_end_unique(s: Seq<u8>, i: int, j: int)
    requires
        0 <= i <= j <= s.len(),
        forall|k: int| i <= k < j ==> is_digit_spec(#[trigger] s[k]),
        j < s.len() ==> !is_digit_spec(s[j]),
    ensures
        j == digits_end(s, i),
    decreases j - i,
{
    if i < j {
        lemma_digits_end_unique(s, i + 1, j);
    }
}

pub proof fn lemma_digits_value_nonneg_pub(s: Seq<u8>, i: int, end: int)
    requires
        forall|k: int| i <= k < end ==> is_digit_spec(#[trigger] s[k]),
    ensures
        0 <= digits_value(s, i, end),
    decreases end - i,
{
    if end > i {
        lemma_digits_value_nonneg_pub(s, i, end - 1);
    }
}

/// The items of an array literal from position `i` (just past the opening
/// bracket), and the position just past the closing bracket; `None` for an
/// unclosed bracket, a stray character, or an entry past 255.
pub open spec fn array_scan(s: Seq<u8>, i: int) -> Option<(Seq<u8>, int)>
    decreases s.len() - i,
{
    if i < 0 || i >= s.len() {
        None
    } else if s[i] == 32 || s[i] == 9 || s[i] == 44 {
        array_scan(s, i + 1)
    } else if s[i] == 93 {
        Some((Seq::empty(), i + 1))
    } else if is_digit_spec(s[i]) {
        let e = digits_end(s, i);
        if digits_value(s, i, e) > 255 {
            None
        } else if e <= i || e > s.len() {
            None
        } else {
            match array_scan(s, e) {
                Some((rest, nxt)) => Some(
                    (seq![digits_value(s, i, e) as u8] + rest, nxt),
                ),
                None => None,
            }
        }
    } else {
        None
    }
}

/// A lexeme at the specification level: numbers as unbounded fractions,
/// arrays as their value sequence, every other lexeme by its symbol.
pub enum LexView {
    NumV(int, int),
    ArrV(Seq<u8>),
    PlusV,
    MinusV,
    StarV,
    SlashV,
    CaretV,
    LParenV,
    RParenV,
    DiceOpV,
    AmpV,
    OperV(OperLex),
}

/// The specification view of a lexeme.
pub open spec fn lex_view(l: Lexeme) -> LexView {
    match l {
        Lexeme::Num(q) => LexView::NumV(q.num as int, q.den as int),
        Lexeme::Array(v) => LexView::ArrV(v@),
        Lexeme::Plus => LexView::PlusV,
        Lexeme::Minus => LexView::MinusV,
        Lexeme::Star => LexView::StarV,
        Lexeme::Slash => LexView::SlashV,
        Lexeme::Caret => LexView::CaretV,
        Lexeme::LParen => LexView::LParenV,
        Lexeme::RParen => LexView::RParenV,
        Lexeme::DiceOp => LexView::DiceOpV,
        Lexeme::Ampersand => LexView::AmpV,
        Lexeme::Oper(o) => LexView::OperV(o),
    }
}

/// The lexemes from position `i` on: whitespace skipped, then one token
/// recognized by the grammar table, then the rest; `None` exactly when the
/// text does not lex.
pub open spec fn lex_from(s: Seq<u8>, i: int) -> Option<Seq<LexView>>
    decreases s.len() - i, 1int,
{
    if i < 0 || i > s.len() {
        None
    } else if i == s.len() {
        Some(Seq::empty())
    } else {
        let b = lower_spec(s[i]);
        if b == 32 || b == 9 || b == 10 || b == 13 {
            lex_from(s, i + 1)
        } else if is_digit_spec(b) {
            let e1 = digits_end(s, i);
            if e1 < s.len() && s[e1] == 46 {
                let e2 = digits_end(s, e1 + 1);
                let nv = digits_value(s, i, e1) * vstd::arithmetic::power::pow(
                    10,
                    (e2 - e1 - 1) as nat,
                ) + digits_value(s, e1 + 1, e2);
                let dv = vstd::arithmetic::power::pow(10, (e2 - e1 - 1) as nat);
                if nv > i128::MAX || dv > i128::MAX {
                    None
                } else {
                    lex_cons(
                        s,
                        LexView::NumV(nv, dv),
                        e2,
                        i,
                    )
                }
            } else {
                let nv = digits_value(s, i, e1);
                if nv > i128::MAX {
                    None
                } else {
                    lex_cons(s, LexView::NumV(nv, 1), e1, i)
                }
            }
        } else if b == 43 {
            lex_cons(s, LexView::PlusV, i + 1, i)
        } else if b == 45 {
            lex_cons(s, LexView::MinusV, i + 1, i)
        } else if b == 42 {
            lex_cons(s, LexView::StarV, i + 1, i)
        } else if b == 47 {
            lex_cons(s, LexView::SlashV, i + 1, i)
        } else if b == 94 {
            lex_cons(s, LexView::CaretV, i + 1, i)
        } else if b == 40 {
            lex_cons(s, LexView::LParenV, i + 1, i)
        } else if b == 41 {
            lex_cons(s, LexView::RParenV, i + 1, i)
        } else if b == 38 {
            lex_cons(s, LexView::AmpV, i + 1, i)
        } else if b == 100 {
            lex_cons(s, LexView::DiceOpV, i + 1, i)
        } else if b == 116 {
            lex_cons(s, LexView::OperV(OperLex::TargetNumber), i + 1, i)
        } else if b == 98 {
            lex_cons(s, LexView::OperV(OperLex::BotchNumber), i + 1, i)
        } else if b == 107 {
            let next = if i + 1 < s.len() {
                lower_spec(s[i + 1])
            } else {
                0
            };
            if next == 104 {
                lex_cons(s, LexView::OperV(OperLex::KeepHigh), i + 2, i)
            } else if next == 108 {
                lex_cons(s, LexView::OperV(OperLex::KeepLow), i + 2, i)
            } else if next == 101 {
                lex_cons(s, LexView::OperV(OperLex::KeepExact), i + 2, i)
            } else {
                lex_cons(s, LexView::OperV(OperLex::KeepHigh), i + 1, i)
            }
        } else if b == 114 {
            let next = if i + 1 < s.len() {
                lower_spec(s[i + 1])
            } else {
                0
            };
            if next == 111 {
                lex_cons(s, LexView::OperV(OperLex::RerollOnce), i + 2, i)
            } else if next == 114 {
                lex_cons(s, LexView::OperV(OperLex::RerollRecursive), i + 2, i)
            } else if next == 98 {
                lex_cons(s, LexView::OperV(OperLex::RerollBetter), i + 2, i)
            } else if next == 119 {
                lex_cons(s, LexView::OperV(OperLex::RerollWorse), i + 2, i)
            } else {
                lex_cons(s, LexView::OperV(OperLex::RerollOnce), i + 1, i)
            }
        } else if b == 101 {
            let next = if i + 1 < s.len() {
                lower_spec(s[i + 1])
            } else {
                0
            };
            if next == 111 {
                lex_cons(s, LexView::OperV(OperLex::ExplodeOnce), i + 2, i)
            } else if next == 114 {
                lex_cons(s, LexView::OperV(OperLex::ExplodeRecursive), i + 2, i)
            } else if next == 97 {
                lex_cons(s, LexView::OperV(OperLex::ExplodeAdditive), i + 2, i)
            } else {
                lex_cons(s, LexView::OperV(OperLex::ExplodeOnce), i + 1, i)
            }
        } else if b == 99 {
            let next = if i + 1 < s.len() {
                lower_spec(s[i + 1])
            } else {
                0
            };
            if next == 104 {
                lex_cons(s, LexView::OperV(OperLex::CapMax), i + 2, i)
            } else if next == 108 {
                lex_cons(s, LexView::OperV(OperLex::CapMin), i + 2, i)
            } else if next == 109 && s.len() - i > 3 {
                let a2 = lower_spec(s[i + 2]);
                let a3 = lower_spec(s[i + 3]);
                if a2 == 97 && a3 == 120 {
                    lex_cons(s, LexView::OperV(OperLex::CapMax), i + 4, i)
                } else if a2 == 105 && a3 == 110 {
                    lex_cons(s, LexView::OperV(OperLex::CapMin), i + 4, i)
                } else {
                    lex_cons(s, LexView::OperV(OperLex::CapMax), i + 1, i)
                }
            } else {
                lex_cons(s, LexView::OperV(OperLex::CapMax), i + 1, i)
            }
        } else if b == 103 {
            let next = if i + 1 < s.len() {
                lower_spec(s[i + 1])
            } else {
                0
            };
            if next == 98 {
                lex_cons(s, LexView::OperV(OperLex::GenBoost), i + 2, i)
            } else if next == 115 {
                lex_cons(s, LexView::OperV(OperLex::GenSetback), i + 2, i)
            } else if next == 97 {
                lex_cons(s, LexView::OperV(OperLex::GenAbility), i + 2, i)
            } else if next == 100 {
                lex_cons(s, LexView::OperV(OperLex::GenDifficulty), i + 2, i)
            } else if next == 112 {
                lex_cons(s, LexView::OperV(OperLex::GenProficiency), i + 2, i)
            } else if next == 99 {
                lex_cons(s, LexView::OperV(OperLex::GenChallenge), i + 2, i)
            } else {
                None
            }
        } else if b == 91 {
            match array_scan(s, i + 1) {
                Some((items, nxt)) => {
                    if i < nxt <= s.len() {
                        match lex_from(s, nxt) {
                            Some(rest) => Some(seq![LexView::ArrV(items)] + rest),
                            None => None,
                        }
                    } else {
                        None
                    }
                },
                None => None,
            }
        } else {
            None
        }
    }
}

/// One recognized token followed by the lexing of the rest.
pub open spec fn lex_cons(s: Seq<u8>, tok: LexView, next: int, i: int) -> Option<Seq<LexView>>
    decreases s.len() - i, 0int,
{
    if i < next <= s.len() {
        match lex_from(s, next) {
            Some(rest) => Some(seq![tok] + rest),
            None => None,
        }
    } else {
        None
    }
}

/// One lexing step: when the text at `start` lexes to `tok` followed by
/// the rest from `next`, recording `tok` keeps the whole-text relation.
proof fn lemma_lex_step(s: Seq<u8>, start: int, tok: Lexeme, next: int, pre: Seq<Lexeme>)
    requires
        start < next,
        lex_from(s, start) == lex_cons(s, lex_view(tok), next, start),
        match lex_from(s, start) {
            Some(r0) => lex_from(s, 0) == Some(
                pre.map_values(|l: Lexeme| lex_view(l)) + r0,
            ),
            None => lex_from(s, 0) is None,
        },
    ensures
        match lex_from(s, next) {
            Some(rest) => lex_from(s, 0) == Some(
                pre.push(tok).map_values(|l: Lexeme| lex_view(l)) + rest,
            ),
            None => lex_from(s, 0) is None,
        },
{
    if start < next <= s.len() {
        match lex_from(s, next) {
            Some(rest) => {
                assert(pre.push(tok).map_values(|l: Lexeme| lex_view(l)) =~= pre.map_values(
                    |l: Lexeme| lex_view(l),
                ).push(lex_view(tok)));
                assert(pre.map_values(|l: Lexeme| lex_view(l)) + (seq![lex_view(tok)] + rest)
                    =~= pre.push(tok).map_values(|l: Lexeme| lex_view(l)) + rest);
            },
            None => {},
        }
    }
}

/// Lowercase an ASCII letter byte; other bytes pass through.
fn lower(b: u8) -> (r: u8)
    ensures
        65 <= b <= 90 ==> r == b + 32,
        !(65 <= b <= 90) ==> r == b,
{
    if 65 <= b && b <= 90 {
        b + 32
    } else {
        b
    }
}

/// Lex raw text against the combined grammar: numbers, `+ - * / ^` and
/// parentheses, the dice operator `d`, `t`/`b` target and botch, `k`, `r`,
/// `e`, `c` with their mode letters, `g` with a die-kind letter, array
/// literals `[n, n, ...]`, and the merge operator `&`. Letters are
/// case-insensitive and whitespace is insignificant except inside arrays.
/// An unrecognized character fails with a symbol error carrying the rest
/// of the text from that character on.
#[verifier::rlimit(100)]
pub fn tokenize(text: &str) -> (r: Result<Vec<Lexeme>, RollError>)
    ensures
        r matches Ok(v) ==> forall|i: int| 0 <= i < v@.len() ==> (#[trigger] v@[i]).wf(),
        r matches Ok(v) ==> (text.is_ascii() && Some(
            v@.map_values(|l: Lexeme| lex_view(l)),
        ) == lex_from(text.spec_bytes(), 0)),
        r is Ok <==> (text.is_ascii() && lex_from(text.spec_bytes(), 0) is Some),
{
    if !text.is_ascii() {
        return Err(RollError::SymbolError(String::from_str(text)));
    }
    let bytes = text.as_bytes_vec();
    proof {
        broadcast use vstd::string::is_ascii_spec_bytes;

        assert(bytes@.len() == text@.len());
    }
    let n = bytes.len();
    let mut out: Vec<Lexeme> = Vec::new();
    let mut i: usize = 0;
    proof {
        assert(out@.map_values(|l: Lexeme| lex_view(l)) =~= Seq::<LexView>::empty());
        match lex_from(bytes@, 0) {
            Some(rest) => {
                assert(out@.map_values(|l: Lexeme| lex_view(l)) + rest =~= rest);
            },
            None => {},
        }
    }
    while i < n
        invariant
            text.is_ascii(),
            bytes@ == text.spec_bytes(),
            n == bytes@.len(),
            n == text@.len(),
            i <= n,
            forall|k: int| 0 <= k < out@.len() ==> (#[trigger] out@[k]).wf(),
            match lex_from(bytes@, i as int) {
                Some(rest) => lex_from(bytes@, 0) == Some(
                    out@.map_values(|l: Lexeme| lex_view(l)) + rest,
                ),
                None => lex_from(bytes@, 0) is None,
            },
        decreases n - i,
    {
        let b = lower(bytes[i]);
        if b == 32 || b == 9 || b == 10 || b == 13 {
            proof {
                assert(lex_from(bytes@, i as int) == lex_from(bytes@, i + 1));
            }
            i = i + 1;
        } else if 48 <= b && b <= 57 {
            let ghost i0 = i;
            let mut num: i128 = (b - 48) as i128;
            let mut den: i128 = 1;
            let mut ok = true;
            i = i + 1;
            proof {
                assert(digits_value(bytes@, i0 as int, i0 as int) == 0);
                assert(digits_value(bytes@, i0 as int, i0 + 1) == (bytes@[i0 as int] - 48));
            }
            while i < n && 48 <= bytes[i] && bytes[i] <= 57
                invariant
                    n == bytes@.len(),
                    i0 < i <= n,
                    num >= 0,
                    den == 1,
                    forall|k: int| i0 <= k < i ==> is_digit_spec(#[trigger] bytes@[k]),
                    ok ==> num == digits_value(bytes@, i0 as int, i as int),
                    !ok ==> digits_value(bytes@, i0 as int, i as int) > i128::MAX,
                decreases n - i,
            {
                proof {
                    lemma_digits_value_nonneg_pub(bytes@, i0 as int, i as int);
                    assert(digits_value(bytes@, i0 as int, i + 1) == digits_value(
                        bytes@,
                        i0 as int,
                        i as int,
                    ) * 10 + (bytes@[i as int] - 48));
                }
                match num.checked_mul(10) {
                    Some(m) => match m.checked_add((bytes[i] - 48) as i128) {
                        Some(v) => {
                            num = v;
                        },
                        None => {
                            ok = false;
                        },
                    },
                    None => {
                        ok = false;
                    },
                }
                i = i + 1;
            }
            let ghost e1 = i as int;
            proof {
                lemma_digits_end_unique(bytes@, i0 as int, e1);
            }
            let ghost had_dot = i < n && bytes@[i as int] == 46;
            let ghost f0 = i + 1;
            if i < n && bytes[i] == 46 {
                i = i + 1;
                proof {
                    vstd::arithmetic::power::lemma_pow0(10);
                    lemma_digits_value_nonneg_pub(bytes@, i0 as int, e1);
                }
                while i < n && 48 <= bytes[i] && bytes[i] <= 57
                    invariant
                        n == bytes@.len(),
                        i0 < f0 <= i <= n,
                        e1 == f0 - 1,
                        num >= 0,
                        den >= 1,
                        digits_value(bytes@, i0 as int, e1) >= 0,
                        forall|k: int| f0 <= k < i ==> is_digit_spec(#[trigger] bytes@[k]),
                        ok ==> num == digits_value(bytes@, i0 as int, e1)
                            * vstd::arithmetic::power::pow(10, (i - f0) as nat) + digits_value(
                            bytes@,
                            f0 as int,
                            i as int,
                        ) && den == vstd::arithmetic::power::pow(10, (i - f0) as nat),
                        !ok ==> digits_value(bytes@, i0 as int, e1)
                            * vstd::arithmetic::power::pow(10, (i - f0) as nat) + digits_value(
                            bytes@,
                            f0 as int,
                            i as int,
                        ) > i128::MAX || vstd::arithmetic::power::pow(10, (i - f0) as nat)
                            > i128::MAX,
                    decreases n - i,
                {
                    proof {
                        let a = digits_value(bytes@, i0 as int, e1);
                        let bfrac = digits_value(bytes@, f0 as int, i as int);
                        let pw = vstd::arithmetic::power::pow(10, (i - f0) as nat);
                        let d = bytes@[i as int] - 48;
                        lemma_digits_value_nonneg_pub(bytes@, f0 as int, i as int);
                        vstd::arithmetic::power::lemma_pow1(10);
                        vstd::arithmetic::power::lemma_pow_adds(10, (i - f0) as nat, 1);
                        vstd::arithmetic::power::lemma_pow_positive(10, (i - f0) as nat);
                        assert(digits_value(bytes@, f0 as int, i + 1) == bfrac * 10 + d);
                        assert((a * pw + bfrac) * 10 + d == a * (pw * 10) + (bfrac * 10 + d))
                            by (nonlinear_arith);
                        assert(a * (pw * 10) + (bfrac * 10 + d) >= a * pw + bfrac)
                            by (nonlinear_arith)
                            requires
                                a >= 0,
                                bfrac >= 0,
                                d >= 0,
                                pw >= 1,
                        ;
                    }
                    let step = match num.checked_mul(10) {
                        Some(m) => match m.checked_add((bytes[i] - 48) as i128) {
                            Some(v) => Some(v),
                            None => None,
                        },
                        None => None,
                    };
                    match step {
                        Some(v) => match den.checked_mul(10) {
                            Some(d) => {
                                num = v;
                                den = d;
                            },
                            None => {
                                ok = false;
                            },
                        },
                        None => {
                            ok = false;
                        },
                    }
                    i = i + 1;
                }
                proof {
                    lemma_digits_end_unique(bytes@, f0 as int, i as int);
                }
            }
            if !ok {
                proof {
                    assert(lex_from(bytes@, i0 as int) is None);
                }
                return Err(RollError::NumericParseError);
            }
            let ghost prev_out = out@;
            out.push(Lexeme::Num(Rational { num, den }));
            proof {
                assert(out@.drop_last() =~= prev_out);
                assert(lex_from(bytes@, i0 as int) == lex_cons(
                    bytes@,
                    lex_view(out@.last()),
                    i as int,
                    i0 as int,
                ));
                lemma_lex_step(bytes@, i0 as int, out@.last(), i as int, out@.drop_last());
                assert(out@.drop_last().push(out@.last()) =~= out@);
            }
        } else if b == 43 {
            let ghost i0 = i as int;
            let ghost prev_out = out@;
            out.push(Lexeme::Plus);
            i = i + 1;
            proof {
                assert(out@.drop_last() =~= prev_out);
                assert(lex_from(bytes@, i0) == lex_cons(bytes@, lex_view(out@.last()), i as int, i0));
                lemma_lex_step(bytes@, i0, out@.last(), i as int, out@.drop_last());
                assert(out@.drop_last().push(out@.last()) =~= out@);
            }
        } else if b == 45 {
            let ghost i0 = i as int;
            let ghost prev_out = out@;
            out.push(Lexeme::Minus);
            i = i + 1;
            proof {
                assert(out@.drop_last() =~= prev_out);
                assert(lex_from(bytes@, i0) == lex_cons(bytes@, lex_view(out@.last()), i as int, i0));
                lemma_lex_step(bytes@, i0, out@.last(), i as int, out@.drop_last());
                assert(out@.drop_last().push(out@.last()) =~= out@);
            }
        } else if b == 42 {
            let ghost i0 = i as int;
            let ghost prev_out = out@;
            out.push(Lexeme::Star);
            i = i + 1;
            proof {
                assert(out@.drop_last() =~= prev_out);
                assert(lex_from(bytes@, i0) == lex_cons(bytes@, lex_view(out@.last()), i as int, i0));
                lemma_lex_step(bytes@, i0, out@.last(), i as int, out@.drop_last());
                assert(out@.drop_last().push(out@.last()) =~= out@);
            }
        } else if b == 47 {
            let ghost i0 = i as int;
            let ghost prev_out = out@;
            out.push(Lexeme::Slash);
            i = i + 1;
            proof {
                assert(out@.drop_last() =~= prev_out);
                assert(lex_from(bytes@, i0) == lex_cons(bytes@, lex_view(out@.last()), i as int, i0));
                lemma_lex_step(bytes@, i0, out@.last(), i as int, out@.drop_last());
                assert(out@.drop_last().push(out@.last()) =~= out@);
            }
        } else if b == 94 {
            let ghost i0 = i as int;
            let ghost prev_out = out@;
            out.push(Lexeme::Caret);
            i = i + 1;
            proof {
                assert(out@.drop_last() =~= prev_out);
                assert(lex_from(bytes@, i0) == lex_cons(bytes@, lex_view(out@.last()), i as int, i0));
                lemma_lex_step(bytes@, i0, out@.last(), i as int, out@.drop_last());
                assert(out@.drop_last().push(out@.last()) =~= out@);
            }
        } else if b == 40 {
            let ghost i0 = i as int;
            let ghost prev_out = out@;
            out.push(Lexeme::LParen);
            i = i + 1;
            proof {
                assert(out@.drop_last() =~= prev_out);
                assert(lex_from(bytes@, i0) == lex_cons(bytes@, lex_view(out@.last()), i as int, i0));
                lemma_lex_step(bytes@, i0, out@.last(), i as int, out@.drop_last());
                assert(out@.drop_last().push(out@.last()) =~= out@);
            }
        } else if b == 41 {
            let ghost i0 = i as int;
            let ghost prev_out = out@;
            out.push(Lexeme::RParen);
            i = i + 1;
            proof {
                assert(out@.drop_last() =~= prev_out);
                assert(lex_from(bytes@, i0) == lex_cons(bytes@, lex_view(out@.last()), i as int, i0));
                lemma_lex_step(bytes@, i0, out@.last(), i as int, out@.drop_last());
                assert(out@.drop_last().push(out@.last()) =~= out@);
            }
        } else if b == 38 {
            let ghost i0 = i as int;
            let ghost prev_out = out@;
            out.push(Lexeme::Ampersand);
            i = i + 1;
            proof {
                assert(out@.drop_last() =~= prev_out);
                assert(lex_from(bytes@, i0) == lex_cons(bytes@, lex_view(out@.last()), i as int, i0));
                lemma_lex_step(bytes@, i0, out@.last(), i as int, out@.drop_last());
                assert(out@.drop_last().push(out@.last()) =~= out@);
            }
        } else if b == 100 {  // d
            let ghost i0 = i as int;
            let ghost prev_out = out@;
            out.push(Lexeme::DiceOp);
            i = i + 1;
            proof {
                assert(out@.drop_last() =~= prev_out);
                assert(lex_from(bytes@, i0) == lex_cons(bytes@, lex_view(out@.last()), i as int, i0));
                lemma_lex_step(bytes@, i0, out@.last(), i as int, out@.drop_last());
                assert(out@.drop_last().push(out@.last()) =~= out@);
            }
        } else if b == 116 {  // t
            let ghost i0 = i as int;
            let ghost prev_out = out@;
            out.push(Lexeme::Oper(OperLex::TargetNumber));
            i = i + 1;
            proof {
                assert(out@.drop_last() =~= prev_out);
                assert(lex_from(bytes@, i0) == lex_cons(bytes@, lex_view(out@.last()), i as int, i0));
                lemma_lex_step(bytes@, i0, out@.last(), i as int, out@.drop_last());
                assert(out@.drop_last().push(out@.last()) =~= out@);
            }
        } else if b == 98 {  // b
            let ghost i0 = i as int;
            let ghost prev_out = out@;
            out.push(Lexeme::Oper(OperLex::BotchNumber));
            i = i + 1;
            proof {
                assert(out@.drop_last() =~= prev_out);
                assert(lex_from(bytes@, i0) == lex_cons(bytes@, lex_view(out@.last()), i as int, i0));
                lemma_lex_step(bytes@, i0, out@.last(), i as int, out@.drop_last());
                assert(out@.drop_last().push(out@.last()) =~= out@);
            }
        } else if b == 107 {  // k, kh, kl, ke
            let next = if i + 1 < n {
                lower(bytes[i + 1])
            } else {
                0
            };
            if next == 104 {
                let ghost i0 = i as int;
                let ghost prev_out = out@;
                out.push(Lexeme::Oper(OperLex::KeepHigh));
                i = i + 2;
                proof {
                    assert(out@.drop_last() =~= prev_out);
                    assert(lex_from(bytes@, i0) == lex_cons(bytes@, lex_view(out@.last()), i as int, i0));
                    lemma_lex_step(bytes@, i0, out@.last(), i as int, out@.drop_last());
                    assert(out@.drop_last().push(out@.last()) =~= out@);
                }
            } else if next == 108 {
                let ghost i0 = i as int;
                let ghost prev_out = out@;
                out.push(Lexeme::Oper(OperLex::KeepLow));
                i = i + 2;
                proof {
                    assert(out@.drop_last() =~= prev_out);
                    assert(lex_from(bytes@, i0) == lex_cons(bytes@, lex_view(out@.last()), i as int, i0));
                    lemma_lex_step(bytes@, i0, out@.last(), i as int, out@.drop_last());
                    assert(out@.drop_last().push(out@.last()) =~= out@);
                }
            } else if next == 101 {
                let ghost i0 = i as int;
                let ghost prev_out = out@;
                out.push(Lexeme::Oper(OperLex::KeepExact));
                i = i + 2;
                proof {
                    assert(out@.drop_last() =~= prev_out);
                    assert(lex_from(bytes@, i0) == lex_cons(bytes@, lex_view(out@.last()), i as int, i0));
                    lemma_lex_step(bytes@, i0, out@.last(), i as int, out@.drop_last());
                    assert(out@.drop_last().push(out@.last()) =~= out@);
                }
            } else {
                let ghost i0 = i as int;
                let ghost prev_out = out@;
                out.push(Lexeme::Oper(OperLex::KeepHigh));
                i = i + 1;
                proof {
                    assert(out@.drop_last() =~= prev_out);
                    assert(lex_from(bytes@, i0) == lex_cons(bytes@, lex_view(out@.last()), i as int, i0));
                    lemma_lex_step(bytes@, i0, out@.last(), i as int, out@.drop_last());
                    assert(out@.drop_last().push(out@.last()) =~= out@);
                }
            }
        } else if b == 114 {  // r, ro, rr, rb, rw
            let next = if i + 1 < n {
                lower(bytes[i + 1])
            } else {
                0
            };
            if next == 111 {
                let ghost i0 = i as int;
                let ghost prev_out = out@;
                out.push(Lexeme::Oper(OperLex::RerollOnce));
                i = i + 2;
                proof {
                    assert(out@.drop_last() =~= prev_out);
                    assert(lex_from(bytes@, i0) == lex_cons(bytes@, lex_view(out@.last()), i as int, i0));
                    lemma_lex_step(bytes@, i0, out@.last(), i as int, out@.drop_last());
                    assert(out@.drop_last().push(out@.last()) =~= out@);
                }
            } else if next == 114 {
                let ghost i0 = i as int;
                let ghost prev_out = out@;
                out.push(Lexeme::Oper(OperLex::RerollRecursive));
                i = i + 2;
                proof {
                    assert(out@.drop_last() =~= prev_out);
                    assert(lex_from(bytes@, i0) == lex_cons(bytes@, lex_view(out@.last()), i as int, i0));
                    lemma_lex_step(bytes@, i0, out@.last(), i as int, out@.drop_last());
                    assert(out@.drop_last().push(out@.last()) =~= out@);
                }
            } else if next == 98 {
                let ghost i0 = i as int;
                let ghost prev_out = out@;
                out.push(Lexeme::Oper(OperLex::RerollBetter));
                i = i + 2;
                proof {
                    assert(out@.drop_last() =~= prev_out);
                    assert(lex_from(bytes@, i0) == lex_cons(bytes@, lex_view(out@.last()), i as int, i0));
                    lemma_lex_step(bytes@, i0, out@.last(), i as int, out@.drop_last());
                    assert(out@.drop_last().push(out@.last()) =~= out@);
                }
            } else if next == 119 {
                let ghost i0 = i as int;
                let ghost prev_out = out@;
                out.push(Lexeme::Oper(OperLex::RerollWorse));
                i = i + 2;
                proof {
                    assert(out@.drop_last() =~= prev_out);
                    assert(lex_from(bytes@, i0) == lex_cons(bytes@, lex_view(out@.last()), i as int, i0));
                    lemma_lex_step(bytes@, i0, out@.last(), i as int, out@.drop_last());
                    assert(out@.drop_last().push(out@.last()) =~= out@);
                }
            } else {
                let ghost i0 = i as int;
                let ghost prev_out = out@;
                out.push(Lexeme::Oper(OperLex::RerollOnce));
                i = i + 1;
                proof {
                    assert(out@.drop_last() =~= prev_out);
                    assert(lex_from(bytes@, i0) == lex_cons(bytes@, lex_view(out@.last()), i as int, i0));
                    lemma_lex_step(bytes@, i0, out@.last(), i as int, out@.drop_last());
                    assert(out@.drop_last().push(out@.last()) =~= out@);
                }
            }
        } else if b == 101 {  // e, eo, er, ea
            let next = if i + 1 < n {
                lower(bytes[i + 1])
            } else {
                0
            };
            if next == 111 {
                let ghost i0 = i as int;
                let ghost prev_out = out@;
                out.push(Lexeme::Oper(OperLex::ExplodeOnce));
                i = i + 2;
                proof {
                    assert(out@.drop_last() =~= prev_out);
                    assert(lex_from(bytes@, i0) == lex_cons(bytes@, lex_view(out@.last()), i as int, i0));
                    lemma_lex_step(bytes@, i0, out@.last(), i as int, out@.drop_last());
                    assert(out@.drop_last().push(out@.last()) =~= out@);
                }
            } else if next == 114 {
                let ghost i0 = i as int;
                let ghost prev_out = out@;
                out.push(Lexeme::Oper(OperLex::ExplodeRecursive));
                i = i + 2;
                proof {
                    assert(out@.drop_last() =~= prev_out);
                    assert(lex_from(bytes@, i0) == lex_cons(bytes@, lex_view(out@.last()), i as int, i0));
                    lemma_lex_step(bytes@, i0, out@.last(), i as int, out@.drop_last());
                    assert(out@.drop_last().push(out@.last()) =~= out@);
                }
            } else if next == 97 {
                let ghost i0 = i as int;
                let ghost prev_out = out@;
                out.push(Lexeme::Oper(OperLex::ExplodeAdditive));
                i = i + 2;
                proof {
                    assert(out@.drop_last() =~= prev_out);
                    assert(lex_from(bytes@, i0) == lex_cons(bytes@, lex_view(out@.last()), i as int, i0));
                    lemma_lex_step(bytes@, i0, out@.last(), i as int, out@.drop_last());
                    assert(out@.drop_last().push(out@.last()) =~= out@);
                }
            } else {
                let ghost i0 = i as int;
                let ghost prev_out = out@;
                out.push(Lexeme::Oper(OperLex::ExplodeOnce));
                i = i + 1;
                proof {
                    assert(out@.drop_last() =~= prev_out);
                    assert(lex_from(bytes@, i0) == lex_cons(bytes@, lex_view(out@.last()), i as int, i0));
                    lemma_lex_step(bytes@, i0, out@.last(), i as int, out@.drop_last());
                    assert(out@.drop_last().push(out@.last()) =~= out@);
                }
            }
        } else if b == 99 {  // c, ch, cl, cmax, cmin
            let next = if i + 1 < n {
                lower(bytes[i + 1])
            } else {
                0
            };
            if next == 104 {
                let ghost i0 = i as int;
                let ghost prev_out = out@;
                out.push(Lexeme::Oper(OperLex::CapMax));
                i = i + 2;
                proof {
                    assert(out@.drop_last() =~= prev_out);
                    assert(lex_from(bytes@, i0) == lex_cons(bytes@, lex_view(out@.last()), i as int, i0));
                    lemma_lex_step(bytes@, i0, out@.last(), i as int, out@.drop_last());
                    assert(out@.drop_last().push(out@.last()) =~= out@);
                }
            } else if next == 108 {
                let ghost i0 = i as int;
                let ghost prev_out = out@;
                out.push(Lexeme::Oper(OperLex::CapMin));
                i = i + 2;
                proof {
                    assert(out@.drop_last() =~= prev_out);
                    assert(lex_from(bytes@, i0) == lex_cons(bytes@, lex_view(out@.last()), i as int, i0));
                    lemma_lex_step(bytes@, i0, out@.last(), i as int, out@.drop_last());
                    assert(out@.drop_last().push(out@.last()) =~= out@);
                }
            } else if next == 109 && n - i > 3 {
                let a2 = lower(bytes[i + 2]);
                let a3 = lower(bytes[i + 3]);
                if a2 == 97 && a3 == 120 {
                    let ghost i0 = i as int;
                    let ghost prev_out = out@;
                     out.push(Lexeme::Oper(OperLex::CapMax));
                    i = i + 4;
                    proof {
                        assert(out@.drop_last() =~= prev_out);
                        assert(lex_from(bytes@, i0) == lex_cons(bytes@, lex_view(out@.last()), i as int, i0));
                        lemma_lex_step(bytes@, i0, out@.last(), i as int, out@.drop_last());
                        assert(out@.drop_last().push(out@.last()) =~= out@);
                    }
                } else if a2 == 105 && a3 == 110 {
                    let ghost i0 = i as int;
                    let ghost prev_out = out@;
                     out.push(Lexeme::Oper(OperLex::CapMin));
                    i = i + 4;
                    proof {
                        assert(out@.drop_last() =~= prev_out);
                        assert(lex_from(bytes@, i0) == lex_cons(bytes@, lex_view(out@.last()), i as int, i0));
                        lemma_lex_step(bytes@, i0, out@.last(), i as int, out@.drop_last());
                        assert(out@.drop_last().push(out@.last()) =~= out@);
                    }
                } else {
                    let ghost i0 = i as int;
                    let ghost prev_out = out@;
                     out.push(Lexeme::Oper(OperLex::CapMax));
                    i = i + 1;
                    proof {
                        assert(out@.drop_last() =~= prev_out);
                        assert(lex_from(bytes@, i0) == lex_cons(bytes@, lex_view(out@.last()), i as int, i0));
                        lemma_lex_step(bytes@, i0, out@.last(), i as int, out@.drop_last());
                        assert(out@.drop_last().push(out@.last()) =~= out@);
                    }
                }
            } else {
                let ghost i0 = i as int;
                let ghost prev_out = out@;
                out.push(Lexeme::Oper(OperLex::CapMax));
                i = i + 1;
                proof {
                    assert(out@.drop_last() =~= prev_out);
                    assert(lex_from(bytes@, i0) == lex_cons(bytes@, lex_view(out@.last()), i as int, i0));
                    lemma_lex_step(bytes@, i0, out@.last(), i as int, out@.drop_last());
                    assert(out@.drop_last().push(out@.last()) =~= out@);
                }
            }
        } else if b == 103 {  // g + die kind
            let next = if i + 1 < n {
                lower(bytes[i + 1])
            } else {
                0
            };
            if next == 98 {
                let ghost i0 = i as int;
                let ghost prev_out = out@;
                out.push(Lexeme::Oper(OperLex::GenBoost));
                i = i + 2;
                proof {
                    assert(out@.drop_last() =~= prev_out);
                    assert(lex_from(bytes@, i0) == lex_cons(bytes@, lex_view(out@.last()), i as int, i0));
                    lemma_lex_step(bytes@, i0, out@.last(), i as int, out@.drop_last());
                    assert(out@.drop_last().push(out@.last()) =~= out@);
                }
            } else if next == 115 {
                let ghost i0 = i as int;
                let ghost prev_out = out@;
                out.push(Lexeme::Oper(OperLex::GenSetback));
                i = i + 2;
                proof {
                    assert(out@.drop_last() =~= prev_out);
                    assert(lex_from(bytes@, i0) == lex_cons(bytes@, lex_view(out@.last()), i as int, i0));
                    lemma_lex_step(bytes@, i0, out@.last(), i as int, out@.drop_last());
                    assert(out@.drop_last().push(out@.last()) =~= out@);
                }
            } else if next == 97 {
                let ghost i0 = i as int;
                let ghost prev_out = out@;
                out.push(Lexeme::Oper(OperLex::GenAbility));
                i = i + 2;
                proof {
                    assert(out@.drop_last() =~= prev_out);
                    assert(lex_from(bytes@, i0) == lex_cons(bytes@, lex_view(out@.last()), i as int, i0));
                    lemma_lex_step(bytes@, i0, out@.last(), i as int, out@.drop_last());
                    assert(out@.drop_last().push(out@.last()) =~= out@);
                }
            } else if next == 100 {
                let ghost i0 = i as int;
                let ghost prev_out = out@;
                out.push(Lexeme::Oper(OperLex::GenDifficulty));
                i = i + 2;
                proof {
                    assert(out@.drop_last() =~= prev_out);
                    assert(lex_from(bytes@, i0) == lex_cons(bytes@, lex_view(out@.last()), i as int, i0));
                    lemma_lex_step(bytes@, i0, out@.last(), i as int, out@.drop_last());
                    assert(out@.drop_last().push(out@.last()) =~= out@);
                }
            } else if next == 112 {
                let ghost i0 = i as int;
                let ghost prev_out = out@;
                out.push(Lexeme::Oper(OperLex::GenProficiency));
                i = i + 2;
                proof {
                    assert(out@.drop_last() =~= prev_out);
                    assert(lex_from(bytes@, i0) == lex_cons(bytes@, lex_view(out@.last()), i as int, i0));
                    lemma_lex_step(bytes@, i0, out@.last(), i as int, out@.drop_last());
                    assert(out@.drop_last().push(out@.last()) =~= out@);
                }
            } else if next == 99 {
                let ghost i0 = i as int;
                let ghost prev_out = out@;
                out.push(Lexeme::Oper(OperLex::GenChallenge));
                i = i + 2;
                proof {
                    assert(out@.drop_last() =~= prev_out);
                    assert(lex_from(bytes@, i0) == lex_cons(bytes@, lex_view(out@.last()), i as int, i0));
                    lemma_lex_step(bytes@, i0, out@.last(), i as int, out@.drop_last());
                    assert(out@.drop_last().push(out@.last()) =~= out@);
                }
            } else {
                proof {
                    assert(lex_from(bytes@, i as int) is None);
                }
                return Err(symbol_tail(text, i));
            }
        } else if b == 91 {  // [ n, n, ... ]
            let ghost br0 = i as int;
            i = i + 1;
            let ghost a0 = i;
            let mut vals: Vec<u8> = Vec::new();
            let mut closed = false;
            let mut bad = false;
            while i < n && !closed && !bad
                invariant
                    n == bytes@.len(),
                    a0 <= i <= n,
                    (!closed && !bad) ==> match array_scan(bytes@, i as int) {
                        Some((rest, nxt)) => array_scan(bytes@, a0 as int) == Some(
                            (vals@ + rest, nxt),
                        ),
                        None => array_scan(bytes@, a0 as int) is None,
                    },
                    closed ==> array_scan(bytes@, a0 as int) == Some((vals@, i as int)),
                    bad ==> array_scan(bytes@, a0 as int) is None,
                decreases n - i, (if !closed && !bad { 1int } else { 0int }),
            {
                let c = bytes[i];
                if c == 32 || c == 9 {
                    i = i + 1;
                } else if c == 93 {
                    proof {
                        assert(array_scan(bytes@, i as int) == Some(
                            (Seq::<u8>::empty(), i + 1),
                        ));
                        assert(vals@ + Seq::<u8>::empty() =~= vals@);
                    }
                    closed = true;
                    i = i + 1;
                } else if c == 44 {
                    i = i + 1;
                } else if 48 <= c && c <= 57 {
                    let ghost i0 = i;
                    let mut v: u32 = (c - 48) as u32;
                    let mut over = false;
                    i = i + 1;
                    proof {
                        assert(digits_value(bytes@, i0 as int, i0 as int) == 0);
                        assert(digits_value(bytes@, i0 as int, i0 + 1) == (bytes@[i0 as int]
                            - 48));
                    }
                    while i < n && 48 <= bytes[i] && bytes[i] <= 57
                        invariant
                            n == bytes@.len(),
                            i0 < i <= n,
                            v <= 255 || over,
                            v <= 65535,
                            forall|k: int| i0 <= k < i ==> is_digit_spec(#[trigger] bytes@[k]),
                            !over ==> v == digits_value(bytes@, i0 as int, i as int),
                            over ==> digits_value(bytes@, i0 as int, i as int) > 255,
                        decreases n - i,
                    {
                        proof {
                            lemma_digits_value_nonneg_pub(bytes@, i0 as int, i as int);
                            assert(digits_value(bytes@, i0 as int, i + 1) == digits_value(
                                bytes@,
                                i0 as int,
                                i as int,
                            ) * 10 + (bytes@[i as int] - 48));
                        }
                        if v > 255 {
                            over = true;
                            v = 256;
                        } else {
                            v = v * 10 + (bytes[i] - 48) as u32;
                            if v > 255 {
                                over = true;
                                v = 256;
                            }
                        }
                        i = i + 1;
                    }
                    proof {
                        lemma_digits_end_unique(bytes@, i0 as int, i as int);
                        lemma_digits_end_bounds(bytes@, i0 as int);
                    }
                    if over {
                        bad = true;
                    } else {
                        let ghost prev_vals = vals@;
                        vals.push(v as u8);
                        proof {
                            assert(vals@.drop_last() =~= prev_vals);
                            match array_scan(bytes@, i as int) {
                                Some((rest, nxt)) => {
                                    assert(array_scan(bytes@, i0 as int) == Some(
                                        (seq![(v as u8)] + rest, nxt),
                                    ));
                                    assert(prev_vals + (seq![(v as u8)] + rest) =~= vals@
                                        + rest);
                                },
                                None => {},
                            }
                        }
                    }
                } else {
                    bad = true;
                }
            }
            if bad {
                proof {
                    assert(lex_from(bytes@, br0) is None);
                }
                return Err(RollError::NumericParseError);
            }
            if !closed {
                proof {
                    assert(array_scan(bytes@, n as int) is None);
                    assert(lex_from(bytes@, br0) is None);
                }
                return Err(RollError::MalformedExpressionError);
            }
            let ghost prev_out = out@;
            out.push(Lexeme::Array(vals));
            proof {
                assert(out@.drop_last() =~= prev_out);
                assert(lex_from(bytes@, br0) == lex_cons(
                    bytes@,
                    lex_view(out@.last()),
                    i as int,
                    br0,
                ));
                lemma_lex_step(bytes@, br0, out@.last(), i as int, out@.drop_last());
                assert(out@.drop_last().push(out@.last()) =~= out@);
            }
        } else {
            proof {
                assert(lex_from(bytes@, i as int) is None);
            }
            return Err(symbol_tail(text, i));
        }
    }
    proof {
        assert(lex_from(bytes@, n as int) == Some(Seq::<LexView>::empty()));
        match lex_from(bytes@, n as int) {
            Some(rest) => {
                assert(out@.map_values(|l: Lexeme| lex_view(l)) + rest =~= out@.map_values(
                    |l: Lexeme| lex_view(l),
                ));
            },
            None => {},
        }
    }
    Ok(out)
}

/// A symbol error carrying the text from position `i` on.
fn symbol_tail(text: &str, i: usize) -> (r: RollError)
    requires
        text.is_ascii(),
        i <= text@.len(),
{
    let tail = text.substring_ascii(i, text.unicode_len());
    RollError::SymbolError(String::from_str(tail))
}

} // verus!

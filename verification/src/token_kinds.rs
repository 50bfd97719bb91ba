//! The roll-token algebra: operand and operator variants of the dice
//! grammar. Each resolved variant owns both the arguments and the results
//! that produced it, so a terse description and a full per-die breakdown
//! can be rendered later without recomputation.

use vstd::prelude::*;
use crate::dice_errors::RollError;
use crate::die::Die;
use crate::pool::{Pool, MAX_POOL_DICE};
use crate::pool::{dice_ok, sum_results, sort_dice, filter_matching, count_matching, count_geq,
    count_leq, sum_successes, pools_concat};
use crate::rational::Rational;
use crate::roll_value::{RollValue, spec_add_values};
use crate::numtext::{u8_to_string, usize_to_string, i16_to_string, dec_digits, signed_dec};
use crate::pool::pool_text;
use crate::genesymbols::{GeneSymbol, boost_table, setback_table, ability_table, difficulty_table,
    proficiency_table, challenge_table};
use crate::value_kinds::{GenesysValue, rows_view, count_symbol, lemma_total_symbols_bound};

verus! {

/// The sum of a sequence of counts.
pub open spec fn sum_u8s(s: Seq<u8>) -> int
    decreases s.len(),
{
    if s.len() == 0 {
        0
    } else {
        sum_u8s(s.drop_last()) + s.last()
    }
}

/// The sum of the first `g` counts.
pub open spec fn prefix_sum(ns: Seq<u8>, g: int) -> int {
    sum_u8s(ns.subrange(0, g))
}

/// Prefix sums grow by one group at a time and never shrink.
pub proof fn lemma_prefix_sum_step(ns: Seq<u8>, g: int)
    requires
        0 <= g < ns.len(),
    ensures
        prefix_sum(ns, g + 1) == prefix_sum(ns, g) + ns[g],
        prefix_sum(ns, g) >= 0,
{
    assert(ns.subrange(0, g + 1).drop_last() =~= ns.subrange(0, g));
    assert(ns.subrange(0, g + 1).last() == ns[g]);
    lemma_sum_u8s_nonneg(ns.subrange(0, g));
}

proof fn lemma_sum_u8s_nonneg(s: Seq<u8>)
    ensures
        sum_u8s(s) >= 0,
    decreases s.len(),
{
    if s.len() > 0 {
        lemma_sum_u8s_nonneg(s.drop_last());
    }
}

/// Earlier prefixes sum to no more than later ones.
pub proof fn lemma_prefix_sum_mono(ns: Seq<u8>, a: int, b: int)
    requires
        0 <= a <= b <= ns.len(),
    ensures
        prefix_sum(ns, a) <= prefix_sum(ns, b),
    decreases b - a,
{
    if a < b {
        lemma_prefix_sum_step(ns, b - 1);
        lemma_prefix_sum_mono(ns, a, b - 1);
    }
}

/// An operator argument: one value or an array of values.
#[derive(Clone, Debug, PartialEq)]
pub enum Argument {
    Single(u8),
    Array(Vec<u8>),
}

impl Argument {
    /// The argument as the sequence of values it lists.
    pub open spec fn values(self) -> Seq<u8> {
        match self {
            Argument::Single(n) => seq![n],
            Argument::Array(v) => v@,
        }
    }

    /// The argument's values as a vector.
    pub fn to_values(&self) -> (r: Vec<u8>)
        ensures
            r@ == self.values(),
    {
        match self {
            Argument::Single(n) => {
                let mut v = Vec::<u8>::new();
                v.push(*n);
                proof {
                    assert(v@ =~= seq![*n]);
                }
                v
            },
            Argument::Array(vals) => {
                let mut v = Vec::<u8>::new();
                let mut i: usize = 0;
                while i < vals.len()
                    invariant
                        i <= vals@.len(),
                        v@ == vals@.subrange(0, i as int),
                    decreases vals@.len() - i,
                {
                    proof {
                        assert(vals@.subrange(0, i + 1) =~= vals@.subrange(0, i as int).push(
                            vals@[i as int],
                        ));
                    }
                    v.push(vals[i]);
                    i = i + 1;
                }
                proof {
                    assert(vals@.subrange(0, vals@.len() as int) =~= vals@);
                }
                v
            },
        }
    }

    /// A fresh copy of the argument.
    pub fn duplicate(&self) -> (r: Argument)
        ensures
            r.values() == self.values(),
            r is Single <==> self is Single,
    {
        match self {
            Argument::Single(n) => Argument::Single(*n),
            Argument::Array(vals) => {
                let copied = self.to_values();
                Argument::Array(copied)
            },
        }
    }

    /// The argument as text: exactly `argument_text`.
    pub fn render(&self) -> (r: String)
        ensures
            r@ == argument_text(*self),
    {
        proof {
            reveal_strlit("[");
            reveal_strlit(", ");
            reveal_strlit("]");
        }
        match self {
            Argument::Single(n) => u8_to_string(*n),
            Argument::Array(vals) => {
                let mut s = String::from_str("[");
                let mut i: usize = 0;
                proof {
                    assert(vals@.subrange(0, 0) =~= Seq::<u8>::empty());
                    assert(s@ =~= seq!['['] + values_text(vals@.subrange(0, 0)));
                }
                while i < vals.len()
                    invariant
                        i <= vals@.len(),
                        s@ == seq!['['] + values_text(vals@.subrange(0, i as int)),
                    decreases vals@.len() - i,
                {
                    proof {
                        reveal_strlit(", ");
                        assert(vals@.subrange(0, i + 1).drop_last() =~= vals@.subrange(
                            0,
                            i as int,
                        ));
                        assert(vals@.subrange(0, i + 1).last() == vals@[i as int]);
                    }
                    if i > 0 {
                        s.append(", ");
                    }
                    s.append(u8_to_string(vals[i]).as_str());
                    proof {
                        assert(s@ =~= seq!['['] + values_text(vals@.subrange(0, i + 1)));
                    }
                    i = i + 1;
                }
                s.append("]");
                proof {
                    assert(vals@.subrange(0, vals@.len() as int) =~= vals@);
                    assert(s@ =~= argument_text(*self));
                }
                s
            },
        }
    }
}

/// The comma-separated decimal values of an array argument.
pub open spec fn values_text(vals: Seq<u8>) -> Seq<char>
    decreases vals.len(),
{
    if vals.len() == 0 {
        Seq::empty()
    } else if vals.len() == 1 {
        dec_digits(vals[0] as nat)
    } else {
        values_text(vals.drop_last()) + seq![',', ' '] + dec_digits(vals.last() as nat)
    }
}

/// An argument as text: a bare number, or the bracketed array.
pub open spec fn argument_text(a: Argument) -> Seq<char> {
    match a {
        Argument::Single(n) => dec_digits(n as nat),
        Argument::Array(v) => seq!['['] + values_text(v@) + seq![']'],
    }
}

/// A recorded argument as text; an unresolved one shows as zero.
pub open spec fn opt_arg_text(a: Option<Argument>) -> Seq<char> {
    match a {
        Some(x) => argument_text(x),
        None => dec_digits(0),
    }
}

/// Roll `m` groups of fresh dice: group `g` holds `ns[g]` dice with
/// `ss[g]` sides each, laid out one group after another.
fn roll_groups(ns: &Vec<u8>, ss: &Vec<u8>, m: usize) -> (dice: Vec<Die>)
    requires
        m <= ns@.len(),
        m <= ss@.len(),
        forall|g: int| 0 <= g < m ==> 1 <= (#[trigger] ss@[g]),
        prefix_sum(ns@, m as int) <= 255,
    ensures
        dice@.len() == prefix_sum(ns@, m as int),
        forall|g: int, k: int|
            0 <= g < m && 0 <= k < ns@[g] ==> {
                &&& (#[trigger] dice@[prefix_sum(ns@, g) + k]).sides == ss@[g]
                &&& 1 <= dice@[prefix_sum(ns@, g) + k].result <= ss@[g]
            },
        dice_ok(dice@),
{
    let mut dice = Vec::<Die>::new();
    let mut g: usize = 0;
    proof {
        assert(ns@.subrange(0, 0) =~= Seq::<u8>::empty());
    }
    while g < m
        invariant
            m <= ns@.len(),
            m <= ss@.len(),
            forall|t: int| 0 <= t < m ==> 1 <= (#[trigger] ss@[t]),
            prefix_sum(ns@, m as int) <= 255,
            g <= m,
            dice@.len() == prefix_sum(ns@, g as int),
            forall|t: int, k: int|
                0 <= t < g && 0 <= k < ns@[t] ==> {
                    &&& (#[trigger] dice@[prefix_sum(ns@, t) + k]).sides == ss@[t]
                    &&& 1 <= dice@[prefix_sum(ns@, t) + k].result <= ss@[t]
                },
            dice_ok(dice@),
        decreases m - g,
    {
        proof {
            lemma_prefix_sum_step(ns@, g as int);
            lemma_prefix_sum_mono(ns@, g + 1, m as int);
        }
        let count = ns[g];
        let sides = ss[g];
        let mut k: u8 = 0;
        while k < count
            invariant
                1 <= sides,
                k <= count,
                dice@.len() == prefix_sum(ns@, g as int) + k,
                prefix_sum(ns@, g as int) >= 0,
                forall|t: int, kk: int|
                    0 <= t < g && 0 <= kk < ns@[t] ==> {
                        &&& (#[trigger] dice@[prefix_sum(ns@, t) + kk]).sides == ss@[t]
                        &&& 1 <= dice@[prefix_sum(ns@, t) + kk].result <= ss@[t]
                    },
                forall|kk: int|
                    0 <= kk < k ==> {
                        &&& (#[trigger] dice@[prefix_sum(ns@, g as int) + kk]).sides == sides
                        &&& 1 <= dice@[prefix_sum(ns@, g as int) + kk].result <= sides
                    },
                dice_ok(dice@),
                g < m,
                m <= ns@.len(),
                count == ns@[g as int],
                sides == ss@[g as int],
                forall|t: int| 0 <= t < m ==> 1 <= (#[trigger] ss@[t]),
                prefix_sum(ns@, m as int) <= 255,
            decreases count - k,
        {
            proof {
                lemma_prefix_sum_step(ns@, g as int);
                lemma_prefix_sum_mono(ns@, g + 1, m as int);
                lemma_prefix_sum_mono(ns@, 0, g as int);
                assert forall|t: int, kk: int| 0 <= t < g && 0 <= kk < ns@[t] implies
                    0 <= #[trigger] (prefix_sum(ns@, t) + kk) < prefix_sum(ns@, g as int) by {
                    lemma_prefix_sum_step(ns@, t);
                    lemma_prefix_sum_mono(ns@, t + 1, g as int);
                    lemma_prefix_sum_mono(ns@, 0, t);
                }
            }
            dice.push(Die::roll(sides));
            k = k + 1;
        }
        g = g + 1;
    }
    dice
}

/// The terse line of a resolved dice operand: `Rolled NdS`.
pub open spec fn dice_description_text(number: u8, sides: u8) -> Seq<char> {
    "Rolled "@ + dec_digits(number as nat) + "d"@ + dec_digits(sides as nat)
}

/// The breakdown of a resolved dice operand: `NdS -> [faces]`.
pub open spec fn dice_verbose_text(number: u8, sides: u8, dice: Seq<Die>) -> Seq<char> {
    dec_digits(number as nat) + "d"@ + dec_digits(sides as nat) + " -> "@ + pool_text(dice)
}

/// The dice operand: once applied, it owns the rolled pool.
#[derive(Clone, Debug, PartialEq)]
pub struct Dice {
    pub pool: Option<Pool>,
}

impl Dice {
    /// Whether the token has been resolved to a pool.
    pub open spec fn resolved(self) -> bool {
        self.pool is Some
    }

    /// The resolved pool keeps the pool invariant.
    pub open spec fn wf(self) -> bool {
        self.pool matches Some(p) ==> p.wf()
    }

    /// The value the resolved token stands for: the exact sum of its faces.
    pub open spec fn spec_value(self) -> Option<RollValue> {
        match self.pool {
            Some(p) => Some(
                RollValue::Numeric(Rational { num: sum_results(p@) as i128, den: 1 }),
            ),
            None => None,
        }
    }

    /// Build a pool from a count and a side number, either of which may be
    /// an array. A single count `n` with a single side number `s` rolls a
    /// simple pool of `n` dice. With an array on one side, the other value
    /// is enumerated against each entry; with two arrays, entries pair up
    /// (the longer array's tail is ignored). A side number of zero, or a
    /// request for more than 255 dice in all, is an argument error.
    pub fn apply(&self, left: Argument, right: Argument) -> (r: Result<Dice, RollError>)
        ensures
            r matches Ok(d) ==> d.resolved() && d.wf(),
            left matches Argument::Single(n) ==> (right matches Argument::Single(s) ==> {
                &&& (r is Ok <==> s >= 1)
                &&& (r matches Ok(d) ==> d.pool matches Some(p) && p@.len() == n && (forall|
                    j: int,
                |
                    0 <= j < p@.len() ==> (#[trigger] p@[j]).sides == s && 1 <= p@[j].result
                        <= s) && p.spec_number() == n && p.spec_sides() == s)
            }),
            left matches Argument::Single(n) ==> (right matches Argument::Array(ss) ==> {
                &&& (r is Ok <==> (forall|g: int| 0 <= g < ss@.len() ==> 1 <= (#[trigger] ss@[g]))
                    && n * ss@.len() <= 255)
                &&& (r matches Ok(d) ==> d.pool matches Some(p) && p@.len() == n * ss@.len() && (
                forall|g: int, k: int|
                    0 <= g < ss@.len() && 0 <= k < n ==> (#[trigger] p@[g * (n as int)
                        + k]).sides == ss@[g] && 1 <= p@[g * (n as int) + k].result <= ss@[g]))
            }),
            left matches Argument::Array(ns) ==> (right matches Argument::Single(s) ==> {
                &&& (r is Ok <==> (s >= 1 || ns@.len() == 0) && sum_u8s(ns@) <= 255)
                &&& (r matches Ok(d) ==> d.pool matches Some(p) && p@.len() == sum_u8s(ns@) && (
                forall|j: int|
                    0 <= j < p@.len() ==> (#[trigger] p@[j]).sides == s && 1 <= p@[j].result
                        <= s))
            }),
            left matches Argument::Array(ns) ==> (right matches Argument::Array(ss) ==> {
                let m = if ns@.len() <= ss@.len() {
                    ns@.len() as int
                } else {
                    ss@.len() as int
                };
                &&& (r is Ok <==> (forall|g: int| 0 <= g < m ==> 1 <= (#[trigger] ss@[g]))
                    && prefix_sum(ns@, m) <= 255)
                &&& (r matches Ok(d) ==> d.pool matches Some(p) && p@.len() == prefix_sum(ns@, m)
                    && (forall|g: int, k: int|
                    0 <= g < m && 0 <= k < ns@[g] ==> (#[trigger] p@[prefix_sum(ns@, g)
                        + k]).sides == ss@[g] && 1 <= p@[prefix_sum(ns@, g) + k].result
                        <= ss@[g]))
            }),
    {
        match (left, right) {
            (Argument::Single(number), Argument::Single(sides)) => {
                if sides < 1 {
                    return Err(RollError::ArgumentError);
                }
                Ok(Dice { pool: Some(Pool::new(number, sides)) })
            },
            (Argument::Single(number), Argument::Array(sides)) => {
                let n = number;
                let mut all_pos = true;
                let mut g: usize = 0;
                while g < sides.len()
                    invariant
                        g <= sides@.len(),
                        all_pos == (forall|t: int| 0 <= t < g ==> 1 <= (#[trigger] sides@[t])),
                    decreases sides@.len() - g,
                {
                    if sides[g] < 1 {
                        all_pos = false;
                    }
                    g = g + 1;
                }
                if !all_pos {
                    return Err(RollError::ArgumentError);
                }
                let fits: bool = if n == 0 {
                    true
                } else if sides.len() > 255 {
                    proof {
                        assert(n * sides@.len() > 255) by (nonlinear_arith)
                            requires
                                n >= 1,
                                sides@.len() > 255,
                        ;
                    }
                    false
                } else {
                    proof {
                        assert(n * sides@.len() <= 255 * 255) by (nonlinear_arith)
                            requires
                                n <= 255,
                                sides@.len() <= 255,
                        ;
                    }
                    n as u32 * sides.len() as u32 <= 255
                };
                if !fits {
                    return Err(RollError::ArgumentError);
                }
                let mut ns = Vec::<u8>::new();
                let mut i: usize = 0;
                while i < sides.len()
                    invariant
                        i <= sides@.len(),
                        ns@.len() == i,
                        forall|t: int| 0 <= t < i ==> (#[trigger] ns@[t]) == n,
                    decreases sides@.len() - i,
                {
                    ns.push(n);
                    i = i + 1;
                }
                proof {
                    lemma_repeat_sum_seq(ns@, n);
                    lemma_repeat_prefix(ns@, n);
                    vstd::arithmetic::mul::lemma_mul_is_commutative(ns@.len() as int, n as int);
                    assert(ns@.subrange(0, ns@.len() as int) =~= ns@);
                }
                let dice = roll_groups(&ns, &sides, sides.len());
                let total = dice.len();
                let pool = match Pool::from_dice(total as u8, max_entry(&sides), dice) {
                    Ok(p) => p,
                    Err(e) => return Err(e),
                };
                proof {
                    assert forall|g2: int, k2: int|
                        0 <= g2 < sides@.len() && 0 <= k2 < n implies (#[trigger] pool@[g2 * (
                    n as int) + k2]).sides == sides@[g2] && 1 <= pool@[g2 * (n as int)
                        + k2].result <= sides@[g2] by {
                        lemma_repeat_sum_seq(ns@.subrange(0, g2), n);
                        vstd::arithmetic::mul::lemma_mul_is_commutative(g2, n as int);
                        assert(prefix_sum(ns@, g2) == g2 * (n as int));
                        lemma_prefix_sum_step(ns@, g2);
                        lemma_prefix_sum_mono(ns@, g2 + 1, ns@.len() as int);
                        assert(pool@[prefix_sum(ns@, g2) + k2].sides == sides@[g2]);
                        assert(1 <= pool@[prefix_sum(ns@, g2) + k2].result <= sides@[g2]);
                    }
                    vstd::arithmetic::mul::lemma_mul_is_commutative(n as int, sides@.len() as int);
                }
                Ok(Dice { pool: Some(pool) })
            },
            (Argument::Array(numbers), Argument::Single(sides)) => {
                let s = sides;
                if s < 1 && numbers.len() > 0 {
                    return Err(RollError::ArgumentError);
                }
                let mut ss = Vec::<u8>::new();
                let mut i: usize = 0;
                while i < numbers.len()
                    invariant
                        i <= numbers@.len(),
                        ss@.len() == i,
                        numbers@.len() > 0 ==> s >= 1,
                        forall|t: int| 0 <= t < i ==> (#[trigger] ss@[t]) == s,
                    decreases numbers@.len() - i,
                {
                    ss.push(s);
                    i = i + 1;
                }
                let total = match checked_sum(&numbers) {
                    Some(t) => t,
                    None => return Err(RollError::ArgumentError),
                };
                proof {
                    assert(numbers@.subrange(0, numbers@.len() as int) =~= numbers@);
                }
                let dice = roll_groups(&numbers, &ss, numbers.len());
                proof {
                    assert forall|j: int|
                        0 <= j < dice@.len() implies (#[trigger] dice@[j]).sides == s && 1
                        <= dice@[j].result <= s by {
                        lemma_group_index(numbers@, j);
                        let (g, k) = choose|g: int, k: int|
                            0 <= g < numbers@.len() && 0 <= k < numbers@[g] && j == #[trigger] (
                            prefix_sum(numbers@, g) + k);
                        assert(dice@[prefix_sum(numbers@, g) + k].sides == ss@[g]);
                        assert(1 <= dice@[prefix_sum(numbers@, g) + k].result <= ss@[g]);
                    }
                }
                let pool = match Pool::from_dice(total as u8, s, dice) {
                    Ok(p) => p,
                    Err(e) => return Err(e),
                };
                Ok(Dice { pool: Some(pool) })
            },
            (Argument::Array(numbers), Argument::Array(sides)) => {
                let m: usize = if numbers.len() <= sides.len() {
                    numbers.len()
                } else {
                    sides.len()
                };
                let mut all_pos = true;
                let mut g: usize = 0;
                while g < m
                    invariant
                        m <= sides@.len(),
                        g <= m,
                        all_pos == (forall|t: int| 0 <= t < g ==> 1 <= (#[trigger] sides@[t])),
                    decreases m - g,
                {
                    if sides[g] < 1 {
                        all_pos = false;
                    }
                    g = g + 1;
                }
                if !all_pos {
                    return Err(RollError::ArgumentError);
                }
                let total = match checked_prefix_sum(&numbers, m) {
                    Some(t) => t,
                    None => return Err(RollError::ArgumentError),
                };
                let dice = roll_groups(&numbers, &sides, m);
                let pool = match Pool::from_dice(total as u8, max_entry(&sides), dice) {
                    Ok(p) => p,
                    Err(e) => return Err(e),
                };
                Ok(Dice { pool: Some(pool) })
            },
        }
    }


    /// The rolled pool; fails exactly when the token is unresolved.
    pub fn pool(self) -> (r: Result<Pool, RollError>)
        ensures
            self.pool matches Some(p) ==> r == Ok::<Pool, RollError>(p),
            !self.resolved() <==> r == Err::<Pool, RollError>(RollError::MissingPoolError),
    {
        match self.pool {
            Some(p) => Ok(p),
            None => Err(RollError::MissingPoolError),
        }
    }

    /// The pool's value: the exact sum of the showing faces.
    pub fn value(self) -> (r: Result<RollValue, RollError>)
        requires
            self.wf(),
        ensures
            self.pool matches Some(p) ==> (r matches Ok(v) && v matches RollValue::Numeric(q)
                && q.num == sum_results(p@) && q.den == 1),
            !self.resolved() <==> r == Err::<RollValue, RollError>(RollError::MissingPoolError),
            r is Ok <==> self.spec_value() is Some,
            r matches Ok(v) ==> Some(v) == self.spec_value(),
    {
        match self.pool {
            Some(p) => {
                let total = p.total();
                Ok(RollValue::Numeric(Rational::from_int(total as i64)))
            },
            None => Err(RollError::MissingPoolError),
        }
    }

    /// One line naming the requested count and sides: `Rolled 3d6`.
    pub fn description(&self) -> (r: String)
        ensures
            self.pool matches Some(p) ==> r@ == dice_description_text(
                p.spec_number(),
                p.spec_sides(),
            ),
            self.pool is None ==> r@ == "Unresolved dice expression"@,
    {
        proof {
            reveal_strlit("Rolled ");
            reveal_strlit("d");
            reveal_strlit("Unresolved dice expression");
        }
        match &self.pool {
            Some(p) => {
                let mut s = String::from_str("Rolled ");
                s.append(u8_to_string(p.number()).as_str());
                s.append("d");
                s.append(u8_to_string(p.sides()).as_str());
                proof {
                    assert(s@ =~= dice_description_text(p.spec_number(), p.spec_sides()));
                }
                s
            },
            None => String::from_str("Unresolved dice expression"),
        }
    }

    /// The dice code with every face rolled: `3d6 -> [2, 5, 4]`.
    pub fn verbose(&self) -> (r: String)
        ensures
            self.pool matches Some(p) ==> r@ == dice_verbose_text(
                p.spec_number(),
                p.spec_sides(),
                p@,
            ),
            self.pool is None ==> r@ == "Unresolved dice expression"@,
    {
        proof {
            reveal_strlit("d");
            reveal_strlit(" -> ");
            reveal_strlit("Unresolved dice expression");
        }
        match &self.pool {
            Some(p) => {
                let mut s = u8_to_string(p.number());
                s.append("d");
                s.append(u8_to_string(p.sides()).as_str());
                s.append(" -> ");
                s.append(p.render().as_str());
                proof {
                    assert(s@ =~= dice_verbose_text(p.spec_number(), p.spec_sides(), p@));
                }
                s
            },
            None => String::from_str("Unresolved dice expression"),
        }
    }
}

/// The largest entry of a vector (0 when empty).
fn max_entry(vals: &Vec<u8>) -> (r: u8)
    ensures
        forall|i: int| 0 <= i < vals@.len() ==> (#[trigger] vals@[i]) <= r,
{
    let mut m: u8 = 0;
    let mut i: usize = 0;
    while i < vals.len()
        invariant
            i <= vals@.len(),
            forall|k: int| 0 <= k < i ==> (#[trigger] vals@[k]) <= m,
        decreases vals@.len() - i,
    {
        if vals[i] > m {
            m = vals[i];
        }
        i = i + 1;
    }
    m
}

/// The sum of all entries if it stays within the pool bound.
fn checked_sum(vals: &Vec<u8>) -> (r: Option<usize>)
    ensures
        r matches Some(t) ==> t == sum_u8s(vals@) && t <= 255,
        r is None <==> sum_u8s(vals@) > 255,
{
    proof {
        assert(vals@.subrange(0, vals@.len() as int) =~= vals@);
    }
    checked_prefix_sum(vals, vals.len())
}

/// The sum of the first `m` entries if it stays within the pool bound.
fn checked_prefix_sum(vals: &Vec<u8>, m: usize) -> (r: Option<usize>)
    requires
        m <= vals@.len(),
    ensures
        r matches Some(t) ==> t == prefix_sum(vals@, m as int) && t <= 255,
        r is None <==> prefix_sum(vals@, m as int) > 255,
{
    let mut sum: usize = 0;
    let mut i: usize = 0;
    proof {
        assert(vals@.subrange(0, 0) =~= Seq::<u8>::empty());
    }
    while i < m
        invariant
            m <= vals@.len(),
            i <= m,
            sum == prefix_sum(vals@, i as int),
            sum <= 255,
        decreases m - i,
    {
        proof {
            lemma_prefix_sum_step(vals@, i as int);
        }
        sum = sum + vals[i] as usize;
        if sum > 255 {
            proof {
                lemma_prefix_sum_mono(vals@, i + 1, m as int);
            }
            return None;
        }
        i = i + 1;
    }
    proof {
        if m == vals@.len() {
            assert(vals@.subrange(0, m as int) =~= vals@);
        }
    }
    Some(sum)
}

/// The sum of a constant sequence is length times the constant.
proof fn lemma_repeat_sum_seq(ns: Seq<u8>, n: u8)
    requires
        forall|t: int| 0 <= t < ns.len() ==> (#[trigger] ns[t]) == n,
    ensures
        sum_u8s(ns) == ns.len() * n,
    decreases ns.len(),
{
    if ns.len() == 0 {
    } else {
        lemma_repeat_sum_seq(ns.drop_last(), n);
        assert(ns.len() * n == (ns.len() - 1) * n + n) by (nonlinear_arith);
    }
}

/// Prefix sums of a constant sequence are products.
proof fn lemma_repeat_prefix(ns: Seq<u8>, n: u8)
    requires
        forall|t: int| 0 <= t < ns.len() ==> (#[trigger] ns[t]) == n,
    ensures
        forall|g: int|
            0 <= g <= ns.len() ==> #[trigger] prefix_sum(ns, g) == g * n,
{
    assert forall|g: int| 0 <= g <= ns.len() implies #[trigger] prefix_sum(ns, g) == g * n by {
        lemma_repeat_sum_seq(ns.subrange(0, g), n);
    }
}

proof fn lemma_repeat_sum(n: u8, len: int)
    requires
        len >= 0,
    ensures
        n * len == len * n,
{
    vstd::arithmetic::mul::lemma_mul_is_commutative(n as int, len);
}

/// Every index of a grouped layout falls inside some group.
proof fn lemma_group_index(ns: Seq<u8>, j: int)
    requires
        0 <= j < prefix_sum(ns, ns.len() as int),
    ensures
        exists|g: int, k: int|
            0 <= g < ns.len() && 0 <= k < ns[g] && j == #[trigger] (prefix_sum(ns, g) + k),
    decreases ns.len(),
{
    assert(ns.subrange(0, ns.len() as int) =~= ns);
    if ns.len() > 0 {
        let m = ns.len() as int;
        lemma_prefix_sum_step(ns, m - 1);
        if j < prefix_sum(ns, m - 1) {
            lemma_group_index_sub(ns, j, m - 1);
        } else {
            let g = m - 1;
            let k = j - prefix_sum(ns, g);
            assert(0 <= k < ns[g]);
            assert(j == prefix_sum(ns, g) + k);
        }
    }
}

/// As `lemma_group_index`, within the first `m` groups.
proof fn lemma_group_index_sub(ns: Seq<u8>, j: int, m: int)
    requires
        0 <= m <= ns.len(),
        0 <= j < prefix_sum(ns, m),
    ensures
        exists|g: int, k: int|
            0 <= g < m && 0 <= k < ns[g] && j == #[trigger] (prefix_sum(ns, g) + k),
    decreases m,
{
    if m > 0 {
        lemma_prefix_sum_step(ns, m - 1);
        if j < prefix_sum(ns, m - 1) {
            lemma_group_index_sub(ns, j, m - 1);
        } else {
            let g = m - 1;
            let k = j - prefix_sum(ns, g);
            assert(0 <= k < ns[g]);
            assert(j == prefix_sum(ns, g) + k);
        }
    }
}

/// The six narrative die kinds: a conversion wrapping a resolved pool and,
/// once applied, the per-die symbol lists derived from it.
#[derive(Clone, Debug, PartialEq)]
pub enum GenesysDice {
    Boost { base: Option<Pool>, res: Vec<Vec<GeneSymbol>> },
    Setback { base: Option<Pool>, res: Vec<Vec<GeneSymbol>> },
    Ability { base: Option<Pool>, res: Vec<Vec<GeneSymbol>> },
    Difficulty { base: Option<Pool>, res: Vec<Vec<GeneSymbol>> },
    Proficiency { base: Option<Pool>, res: Vec<Vec<GeneSymbol>> },
    Challenge { base: Option<Pool>, res: Vec<Vec<GeneSymbol>> },
}

impl GenesysDice {
    /// The source pool, if resolved.
    pub open spec fn base_of(self) -> Option<Pool> {
        match self {
            GenesysDice::Boost { base, .. } => base,
            GenesysDice::Setback { base, .. } => base,
            GenesysDice::Ability { base, .. } => base,
            GenesysDice::Difficulty { base, .. } => base,
            GenesysDice::Proficiency { base, .. } => base,
            GenesysDice::Challenge { base, .. } => base,
        }
    }

    /// The derived per-die symbol lists.
    pub open spec fn rows_of(self) -> Seq<Seq<GeneSymbol>> {
        match self {
            GenesysDice::Boost { res, .. } => rows_view(res@),
            GenesysDice::Setback { res, .. } => rows_view(res@),
            GenesysDice::Ability { res, .. } => rows_view(res@),
            GenesysDice::Difficulty { res, .. } => rows_view(res@),
            GenesysDice::Proficiency { res, .. } => rows_view(res@),
            GenesysDice::Challenge { res, .. } => rows_view(res@),
        }
    }

    /// The per-face symbol table of this die kind.
    pub open spec fn table(self, face: int) -> Seq<GeneSymbol> {
        match self {
            GenesysDice::Boost { .. } => boost_table(face),
            GenesysDice::Setback { .. } => setback_table(face),
            GenesysDice::Ability { .. } => ability_table(face),
            GenesysDice::Difficulty { .. } => difficulty_table(face),
            GenesysDice::Proficiency { .. } => proficiency_table(face),
            GenesysDice::Challenge { .. } => challenge_table(face),
        }
    }

    /// Whether two values are the same die kind.
    pub open spec fn same_kind(self, other: GenesysDice) -> bool {
        ||| (self is Boost && other is Boost)
        ||| (self is Setback && other is Setback)
        ||| (self is Ability && other is Ability)
        ||| (self is Difficulty && other is Difficulty)
        ||| (self is Proficiency && other is Proficiency)
        ||| (self is Challenge && other is Challenge)
    }

    /// The value the token stands for: the exact tally of each symbol over
    /// the per-die symbol lists.
    pub open spec fn spec_value(self) -> Option<RollValue> {
        Some(
            RollValue::Genesys(
                GenesysValue {
                    successes: count_symbol(self.rows_of(), GeneSymbol::Success) as u32,
                    advantages: count_symbol(self.rows_of(), GeneSymbol::Advantage) as u32,
                    triumphs: count_symbol(self.rows_of(), GeneSymbol::Triumph) as u32,
                    failures: count_symbol(self.rows_of(), GeneSymbol::Failure) as u32,
                    threats: count_symbol(self.rows_of(), GeneSymbol::Threat) as u32,
                    despairs: count_symbol(self.rows_of(), GeneSymbol::Despair) as u32,
                },
            ),
        )
    }

    /// The resolved pool keeps the pool invariant and the rows are small
    /// enough to tally: at most one row per die, at most two symbols each.
    pub open spec fn wf(self) -> bool {
        &&& (self.base_of() matches Some(p) ==> p.wf())
        &&& self.rows_of().len() <= 255
        &&& forall|i: int| 0 <= i < self.rows_of().len() ==> (#[trigger] self.rows_of()[i]).len() <= 2
    }

    /// Convert every die of `pool` through this kind's per-face table and
    /// keep both the pool and the symbol lists.
    pub fn apply(&self, pool: Pool) -> (r: Result<GenesysDice, RollError>)
        requires
            pool.wf(),
        ensures
            r is Ok,
            r matches Ok(g) ==> {
                &&& g.same_kind(*self)
                &&& g.base_of() == Some(pool)
                &&& g.rows_of().len() == pool@.len()
                &&& (forall|i: int|
                    0 <= i < pool@.len() ==> (#[trigger] g.rows_of()[i]) == self.table(
                        pool@[i].result as int,
                    ))
                &&& g.wf()
            },
    {
        let mut res: Vec<Vec<GeneSymbol>> = Vec::new();
        let dice = pool.dice();
        let mut i: usize = 0;
        while i < dice.len()
            invariant
                dice@ == pool@,
                i <= pool@.len(),
                rows_view(res@).len() == i,
                forall|k: int|
                    0 <= k < i ==> (#[trigger] rows_view(res@)[k]) == self.table(
                        pool@[k].result as int,
                    ),
                forall|k: int| 0 <= k < i ==> (#[trigger] rows_view(res@)[k]).len() <= 2,
            decreases pool@.len() - i,
        {
            let ghost old_res = res@;
            let row = match self {
                GenesysDice::Boost { .. } => GeneSymbol::boost(dice[i]),
                GenesysDice::Setback { .. } => GeneSymbol::setback(dice[i]),
                GenesysDice::Ability { .. } => GeneSymbol::ability(dice[i]),
                GenesysDice::Difficulty { .. } => GeneSymbol::difficulty(dice[i]),
                GenesysDice::Proficiency { .. } => GeneSymbol::proficiency(dice[i]),
                GenesysDice::Challenge { .. } => GeneSymbol::challenge(dice[i]),
            };
            res.push(row);
            proof {
                assert(rows_view(res@) =~= rows_view(old_res).push(res@.last()@));
            }
            i = i + 1;
        }
        let base = Some(pool);
        match self {
            GenesysDice::Boost { .. } => Ok(GenesysDice::Boost { base, res }),
            GenesysDice::Setback { .. } => Ok(GenesysDice::Setback { base, res }),
            GenesysDice::Ability { .. } => Ok(GenesysDice::Ability { base, res }),
            GenesysDice::Difficulty { .. } => Ok(GenesysDice::Difficulty { base, res }),
            GenesysDice::Proficiency { .. } => Ok(GenesysDice::Proficiency { base, res }),
            GenesysDice::Challenge { .. } => Ok(GenesysDice::Challenge { base, res }),
        }
    }

    /// The source pool; fails exactly when the token is unresolved.
    pub fn pool(self) -> (r: Result<Pool, RollError>)
        ensures
            self.base_of() matches Some(p) ==> r == Ok::<Pool, RollError>(p),
            self.base_of() is None <==> r == Err::<Pool, RollError>(RollError::NotResolvedError),
    {
        match self {
            GenesysDice::Boost { base, .. } => base.ok_or(RollError::NotResolvedError),
            GenesysDice::Setback { base, .. } => base.ok_or(RollError::NotResolvedError),
            GenesysDice::Ability { base, .. } => base.ok_or(RollError::NotResolvedError),
            GenesysDice::Difficulty { base, .. } => base.ok_or(RollError::NotResolvedError),
            GenesysDice::Proficiency { base, .. } => base.ok_or(RollError::NotResolvedError),
            GenesysDice::Challenge { base, .. } => base.ok_or(RollError::NotResolvedError),
        }
    }

    /// The symbol tally: each count is exactly how often that symbol occurs
    /// over the per-die symbol lists.
    pub fn value(&self) -> (r: Result<RollValue, RollError>)
        requires
            self.wf(),
        ensures
            r is Ok,
            r matches Ok(v) ==> (v matches RollValue::Genesys(gv) && {
                &&& gv.successes == count_symbol(self.rows_of(), GeneSymbol::Success)
                &&& gv.advantages == count_symbol(self.rows_of(), GeneSymbol::Advantage)
                &&& gv.triumphs == count_symbol(self.rows_of(), GeneSymbol::Triumph)
                &&& gv.failures == count_symbol(self.rows_of(), GeneSymbol::Failure)
                &&& gv.threats == count_symbol(self.rows_of(), GeneSymbol::Threat)
                &&& gv.despairs == count_symbol(self.rows_of(), GeneSymbol::Despair)
            }),
            r matches Ok(v) ==> Some(v) == self.spec_value(),
    {
        proof {
            lemma_total_symbols_bound(self.rows_of(), 2);
        }
        match self {
            GenesysDice::Boost { res, .. } => Ok(RollValue::Genesys(GenesysValue::new(res))),
            GenesysDice::Setback { res, .. } => Ok(RollValue::Genesys(GenesysValue::new(res))),
            GenesysDice::Ability { res, .. } => Ok(RollValue::Genesys(GenesysValue::new(res))),
            GenesysDice::Difficulty { res, .. } => Ok(
                RollValue::Genesys(GenesysValue::new(res)),
            ),
            GenesysDice::Proficiency { res, .. } => Ok(
                RollValue::Genesys(GenesysValue::new(res)),
            ),
            GenesysDice::Challenge { res, .. } => Ok(RollValue::Genesys(GenesysValue::new(res))),
        }
    }

    /// One line naming the die kind converted to.
    pub fn description(&self) -> (r: String)
        ensures
            self is Boost ==> r@ == "Convert numeric results to boost die values"@,
            self is Setback ==> r@ == "Convert numeric results to setback die values"@,
            self is Ability ==> r@ == "Convert numeric results to ability die values"@,
            self is Difficulty ==> r@ == "Convert numeric results to difficulty die values"@,
            self is Proficiency ==> r@ == "Convert numeric results to proficiency die values"@,
            self is Challenge ==> r@ == "Convert numeric results to challenge die values"@,
    {
        proof {
            reveal_strlit("Convert numeric results to boost die values");
            reveal_strlit("Convert numeric results to setback die values");
            reveal_strlit("Convert numeric results to ability die values");
            reveal_strlit("Convert numeric results to difficulty die values");
            reveal_strlit("Convert numeric results to proficiency die values");
            reveal_strlit("Convert numeric results to challenge die values");
        }
        match self {
            GenesysDice::Boost { .. } => String::from_str(
                "Convert numeric results to boost die values",
            ),
            GenesysDice::Setback { .. } => String::from_str(
                "Convert numeric results to setback die values",
            ),
            GenesysDice::Ability { .. } => String::from_str(
                "Convert numeric results to ability die values",
            ),
            GenesysDice::Difficulty { .. } => String::from_str(
                "Convert numeric results to difficulty die values",
            ),
            GenesysDice::Proficiency { .. } => String::from_str(
                "Convert numeric results to proficiency die values",
            ),
            GenesysDice::Challenge { .. } => String::from_str(
                "Convert numeric results to challenge die values",
            ),
        }
    }

    /// The source pool and the symbols each die produced.
    pub fn verbose(&self) -> String {
        proof {
            reveal_strlit(" -> ");
            reveal_strlit("Unresolved conversion");
        }
        let (base, res) = match self {
            GenesysDice::Boost { base, res } => (base, res),
            GenesysDice::Setback { base, res } => (base, res),
            GenesysDice::Ability { base, res } => (base, res),
            GenesysDice::Difficulty { base, res } => (base, res),
            GenesysDice::Proficiency { base, res } => (base, res),
            GenesysDice::Challenge { base, res } => (base, res),
        };
        match base {
            Some(pool) => {
                let mut s = pool.render();
                s.append(" -> ");
                s.append(symbols_text(res).as_str());
                s
            },
            None => String::from_str("Unresolved conversion"),
        }
    }
}

/// The symbol lists as text: `[[Success], [], [Advantage, Advantage]]`.
fn symbols_text(res: &Vec<Vec<GeneSymbol>>) -> String {
    proof {
        reveal_strlit("[");
        reveal_strlit(", ");
        reveal_strlit("]");
    }
    let mut s = String::from_str("[");
    let mut i: usize = 0;
    while i < res.len()
        invariant
            i <= res@.len(),
        decreases res@.len() - i,
    {
        if i > 0 {
            s.append(", ");
        }
        s.append("[");
        let row = &res[i];
        let mut j: usize = 0;
        while j < row.len()
            invariant
                j <= row@.len(),
            decreases row@.len() - j,
        {
            if j > 0 {
                s.append(", ");
            }
            s.append(symbol_text(row[j]).as_str());
            j = j + 1;
        }
        s.append("]");
        i = i + 1;
    }
    s.append("]");
    s
}

/// One symbol's name.
fn symbol_text(sym: GeneSymbol) -> String {
    proof {
        reveal_strlit("Success");
        reveal_strlit("Advantage");
        reveal_strlit("Triumph");
        reveal_strlit("Failure");
        reveal_strlit("Threat");
        reveal_strlit("Despair");
    }
    match sym {
        GeneSymbol::Success => String::from_str("Success"),
        GeneSymbol::Advantage => String::from_str("Advantage"),
        GeneSymbol::Triumph => String::from_str("Triumph"),
        GeneSymbol::Failure => String::from_str("Failure"),
        GeneSymbol::Threat => String::from_str("Threat"),
        GeneSymbol::Despair => String::from_str("Despair"),
    }
}

/// The terse line of a cap operator.
pub open spec fn cap_description_text(c: Cap) -> Seq<char> {
    match c {
        Cap::Max { arg, .. } => "Cap all dice at "@ + opt_arg_text(arg),
        Cap::Min { arg, .. } => "Raise all dice to at least "@ + opt_arg_text(arg),
    }
}

/// The terse line of a keep operator.
pub open spec fn keep_description_text(k: Keep) -> Seq<char> {
    match k {
        Keep::Exact { arg, .. } => "Keep all dice showing "@ + opt_arg_text(arg),
        Keep::High { arg, .. } => "Keep highest "@ + opt_arg_text(arg) + " di(c)e"@,
        Keep::Low { arg, .. } => "Keep lowest "@ + opt_arg_text(arg) + " di(c)e"@,
    }
}

/// The terse line of a reroll operator.
pub open spec fn reroll_description_text(k: Reroll) -> Seq<char> {
    "Reroll all dice showing "@ + opt_arg_text(k.arg_of()) + (match k {
        Reroll::Better { .. } => " and keep the better result"@,
        Reroll::Once { .. } => " once"@,
        Reroll::Recursive { .. } => " until none appear"@,
        Reroll::Worse { .. } => " and keep the worse result"@,
    })
}

/// The breakdown line of a resolved reroll: how many dice were redrawn,
/// the fresh draws, and the final pool.
pub open spec fn reroll_verbose_text(rp: Seq<Die>, res: Seq<Die>) -> Seq<char> {
    "Reroll "@ + dec_digits(rp.len()) + " di(c)e -> "@ + pool_text(rp) + ", result: "@
        + pool_text(res)
}

/// The terse line of an explode operator.
pub open spec fn explode_description_text(e: Explode) -> Seq<char> {
    match e {
        Explode::Additive { arg, .. } => "For all dice showing "@ + opt_arg_text(arg)
            + ", roll another one and add results"@,
        Explode::Once { arg, .. } => "Explode dice showing "@ + opt_arg_text(arg) + " once"@,
        Explode::Recursive { arg, .. } => "Explode dice showing "@ + opt_arg_text(arg)
            + " indefinitely"@,
    }
}

/// One line of the explosion trace for a non-empty generation.
pub open spec fn explode_gen_line(p: Seq<Die>) -> Seq<char> {
    "Explode "@ + dec_digits(p.len()) + " di(c)e -> "@ + pool_text(p) + "\n"@
}

/// The explosion trace over generations 1 up to `upto`, skipping the empty
/// ones.
pub open spec fn explode_gens_text(gens: Seq<Pool>, upto: int) -> Seq<char>
    decreases upto,
{
    if upto <= 1 {
        Seq::empty()
    } else {
        explode_gens_text(gens, upto - 1) + (if gens[upto - 1]@.len() > 0 {
            explode_gen_line(gens[upto - 1]@)
        } else {
            Seq::empty()
        })
    }
}

/// Whether any generation 1 up to `upto` holds a die.
pub open spec fn explode_any(gens: Seq<Pool>, upto: int) -> bool {
    exists|g: int| 1 <= g < upto && (#[trigger] gens[g])@.len() > 0
}

/// The terse line of a target or botch operator.
pub open spec fn target_description_text(t: Target) -> Seq<char> {
    match t {
        Target::Success { arg, .. } => match arg {
            Some(Argument::Single(n)) => "Count one success per die showing "@ + dec_digits(
                n as nat,
            ) + " or higher"@,
            Some(Argument::Array(v)) => "Count successes: "@ + argument_text(
                Argument::Array(v),
            ),
            None => "Unresolved target operator"@,
        },
        Target::Botch { arg, .. } => match arg {
            Some(Argument::Single(n)) => "Subtract one success per die showing "@ + dec_digits(
                n as nat,
            ) + " or lower"@,
            Some(Argument::Array(v)) => "Subtract successes: "@ + argument_text(
                Argument::Array(v),
            ),
            None => "Unresolved target operator"@,
        },
    }
}

/// The cap operator: clamp every die's face to at most (`Max`) or at least
/// (`Min`) the argument.
#[derive(Clone, Debug, PartialEq)]
pub enum Cap {
    Max { arg: Option<Argument>, res: Option<Pool> },
    Min { arg: Option<Argument>, res: Option<Pool> },
}

impl Cap {
    /// The recorded argument.
    pub open spec fn arg_of(self) -> Option<Argument> {
        match self {
            Cap::Max { arg, .. } => arg,
            Cap::Min { arg, .. } => arg,
        }
    }

    /// The clamped pool, if resolved.
    pub open spec fn res_of(self) -> Option<Pool> {
        match self {
            Cap::Max { res, .. } => res,
            Cap::Min { res, .. } => res,
        }
    }

    /// The resolved pool keeps the pool invariant.
    pub open spec fn wf(self) -> bool {
        self.res_of() matches Some(p) ==> p.wf()
    }

    /// The value the resolved token stands for: the sum of the clamped faces.
    pub open spec fn spec_value(self) -> Option<RollValue> {
        match self.res_of() {
            Some(p) => Some(
                RollValue::Numeric(Rational { num: sum_results(p@) as i128, den: 1 }),
            ),
            None => None,
        }
    }

    /// Clamp every die of the operand's pool at the argument, which must be
    /// one value of at least 1.
    pub fn apply(&self, token: crate::roll_token::RollToken, argument: Argument) -> (r: Result<
        Cap,
        RollError,
    >)
        requires
            token.wf(),
        ensures
            r matches Ok(c) ==> c.wf() && (c is Max <==> self is Max),
            r is Ok <==> (argument matches Argument::Single(v) && v >= 1 && token.spec_pool()
                is Some),
            token.spec_pool() is None ==> r == Err::<Cap, RollError>(token.spec_pool_err()),
            r matches Ok(c) ==> (argument matches Argument::Single(v)
                && token.spec_pool() matches Some(ds) && c.res_of() matches Some(p) && p@.len()
                == ds.len() && (forall|i: int|
                0 <= i < ds.len() ==> {
                    &&& (#[trigger] p@[i]).sides == ds[i].sides
                    &&& p@[i].result == if self is Max {
                        if ds[i].result > v {
                            v
                        } else {
                            ds[i].result
                        }
                    } else {
                        if ds[i].result < v {
                            v
                        } else {
                            ds[i].result
                        }
                    }
                }) && c.arg_of() == Some(Argument::Single(v))),
    {
        let pool = match token.pool() {
            Ok(p) => p,
            Err(e) => return Err(e),
        };
        match argument {
            Argument::Single(v) => {
                if v < 1 {
                    return Err(RollError::ArgumentError);
                }
                match self {
                    Cap::Max { .. } => {
                        let res = pool.cap_max(v);
                        Ok(Cap::Max { arg: Some(Argument::Single(v)), res: Some(res) })
                    },
                    Cap::Min { .. } => {
                        let res = pool.cap_min(v);
                        Ok(Cap::Min { arg: Some(Argument::Single(v)), res: Some(res) })
                    },
                }
            },
            Argument::Array(_) => Err(RollError::ArgumentError),
        }
    }

    /// The clamped pool; fails exactly when the token is unresolved.
    pub fn pool(self) -> (r: Result<Pool, RollError>)
        ensures
            self.res_of() matches Some(p) ==> r == Ok::<Pool, RollError>(p),
            self.res_of() is None <==> r == Err::<Pool, RollError>(RollError::NotResolvedError),
    {
        match self {
            Cap::Max { res, .. } => res.ok_or(RollError::NotResolvedError),
            Cap::Min { res, .. } => res.ok_or(RollError::NotResolvedError),
        }
    }

    /// The clamped pool's value: the exact sum of the showing faces.
    pub fn value(&self) -> (r: Result<RollValue, RollError>)
        requires
            self.wf(),
        ensures
            self.res_of() matches Some(p) ==> (r matches Ok(v) && v matches RollValue::Numeric(q)
                && q.num == sum_results(p@) && q.den == 1),
            self.res_of() is None <==> r == Err::<RollValue, RollError>(
                RollError::NotResolvedError,
            ),
            r is Ok <==> self.spec_value() is Some,
            r matches Ok(v) ==> Some(v) == self.spec_value(),
    {
        let p = match self {
            Cap::Max { res, .. } => res,
            Cap::Min { res, .. } => res,
        };
        match p {
            Some(pool) => {
                let total = pool.total();
                Ok(RollValue::Numeric(Rational::from_int(total as i64)))
            },
            None => Err(RollError::NotResolvedError),
        }
    }

    /// One line naming the clamp direction and argument.
    pub fn description(&self) -> (r: String)
        ensures
            r@ == cap_description_text(*self),
    {
        proof {
            reveal_strlit("Cap all dice at ");
            reveal_strlit("Raise all dice to at least ");
            reveal_strlit("0");
        }
        match self {
            Cap::Max { arg, .. } => {
                let mut s = String::from_str("Cap all dice at ");
                s.append(arg_text(arg).as_str());
                proof {
                    assert(s@ =~= cap_description_text(*self));
                }
                s
            },
            Cap::Min { arg, .. } => {
                let mut s = String::from_str("Raise all dice to at least ");
                s.append(arg_text(arg).as_str());
                proof {
                    assert(s@ =~= cap_description_text(*self));
                }
                s
            },
        }
    }

    /// The clamp and the resulting pool.
    pub fn verbose(&self) -> (r: String)
        ensures
            self.res_of() matches Some(p) ==> r@ == cap_description_text(*self) + " -> "@
                + pool_text(p@),
            self.res_of() is None ==> r@ == "Unresolved cap operator"@,
    {
        proof {
            reveal_strlit(" -> ");
            reveal_strlit("Unresolved cap operator");
        }
        let res = match self {
            Cap::Max { res, .. } => res,
            Cap::Min { res, .. } => res,
        };
        match res {
            Some(pool) => {
                let mut s = self.description();
                s.append(" -> ");
                s.append(pool.render().as_str());
                proof {
                    assert(s@ =~= cap_description_text(*self) + " -> "@ + pool_text(
                        self.res_of()->0@,
                    ));
                }
                s
            },
            None => String::from_str("Unresolved cap operator"),
        }
    }
}

/// The recorded argument as text, `0` when unresolved.
fn arg_text(arg: &Option<Argument>) -> (r: String)
    ensures
        r@ == opt_arg_text(*arg),
{
    proof {
        reveal_strlit("0");
    }
    match arg {
        Some(a) => a.render(),
        None => {
            let z = String::from_str("0");
            proof {
                assert(z@ =~= dec_digits(0));
            }
            z
        },
    }
}

/// The keep operator: discard all but a selected subset of the pool.
#[derive(Clone, Debug, PartialEq)]
pub enum Keep {
    Exact { arg: Option<Argument>, res: Option<Pool> },
    Low { arg: Option<Argument>, res: Option<Pool> },
    High { arg: Option<Argument>, res: Option<Pool> },
}

impl Keep {
    /// The recorded argument.
    pub open spec fn arg_of(self) -> Option<Argument> {
        match self {
            Keep::Exact { arg, .. } => arg,
            Keep::Low { arg, .. } => arg,
            Keep::High { arg, .. } => arg,
        }
    }

    /// The kept pool, if resolved.
    pub open spec fn res_of(self) -> Option<Pool> {
        match self {
            Keep::Exact { res, .. } => res,
            Keep::Low { res, .. } => res,
            Keep::High { res, .. } => res,
        }
    }

    /// The resolved pool keeps the pool invariant.
    pub open spec fn wf(self) -> bool {
        self.res_of() matches Some(p) ==> p.wf()
    }

    /// The value the resolved token stands for: the sum of the kept faces.
    pub open spec fn spec_value(self) -> Option<RollValue> {
        match self.res_of() {
            Some(p) => Some(
                RollValue::Numeric(Rational { num: sum_results(p@) as i128, den: 1 }),
            ),
            None => None,
        }
    }

    /// Keep dice from the operand's pool. `Exact` keeps every die whose
    /// face is listed in the argument; `High` and `Low` sort ascending and
    /// keep the top or bottom count, which must be a single value (an
    /// argument past the pool size keeps the whole pool).
    pub fn apply(&self, pool: Pool, argument: Argument) -> (r: Result<Keep, RollError>)
        requires
            pool.wf(),
        ensures
            r matches Ok(k) ==> k.wf() && (k is Exact <==> self is Exact) && (k is High <==> self
                is High) && (k is Low <==> self is Low),
            self is Exact ==> r is Ok,
            self is Exact ==> (r matches Ok(k) ==> k.res_of() matches Some(p) && p@
                == filter_matching(pool@, argument.values())),
            self is High ==> (r is Ok <==> argument.values().len() == 1),
            self is High ==> (r matches Ok(k) ==> k.res_of() matches Some(p) && p@ == sort_dice(
                pool@,
            ).subrange(
                pool@.len() - Pool::keep_count(argument.values()[0], pool@.len()),
                pool@.len() as int,
            )),
            self is Low ==> (r is Ok <==> argument.values().len() == 1),
            self is Low ==> (r matches Ok(k) ==> k.res_of() matches Some(p) && p@ == sort_dice(
                pool@,
            ).subrange(0, Pool::keep_count(argument.values()[0], pool@.len()) as int)),
            r is Err ==> r == Err::<Keep, RollError>(RollError::ArgumentError),
            r matches Ok(k) ==> (k.arg_of() matches Some(a) && a.values() == argument.values()),
    {
        match self {
            Keep::Exact { .. } => {
                let vals = argument.to_values();
                let res = pool.keep_exact(&vals);
                Ok(Keep::Exact { arg: Some(argument), res: Some(res) })
            },
            Keep::High { .. } => {
                let amount: u8 = match &argument {
                    Argument::Single(n) => *n,
                    Argument::Array(a) => {
                        if a.len() == 1 {
                            a[0]
                        } else {
                            return Err(RollError::ArgumentError);
                        }
                    },
                };
                let res = pool.keep_highest(amount);
                Ok(Keep::High { arg: Some(argument), res: Some(res) })
            },
            Keep::Low { .. } => {
                let amount: u8 = match &argument {
                    Argument::Single(n) => *n,
                    Argument::Array(a) => {
                        if a.len() == 1 {
                            a[0]
                        } else {
                            return Err(RollError::ArgumentError);
                        }
                    },
                };
                let res = pool.keep_lowest(amount);
                Ok(Keep::Low { arg: Some(argument), res: Some(res) })
            },
        }
    }

    /// The kept pool; fails exactly when the token is unresolved.
    pub fn pool(self) -> (r: Result<Pool, RollError>)
        ensures
            self.res_of() matches Some(p) ==> r == Ok::<Pool, RollError>(p),
            self.res_of() is None <==> r == Err::<Pool, RollError>(RollError::NotResolvedError),
    {
        match self {
            Keep::Exact { res, .. } => res.ok_or(RollError::NotResolvedError),
            Keep::High { res, .. } => res.ok_or(RollError::NotResolvedError),
            Keep::Low { res, .. } => res.ok_or(RollError::NotResolvedError),
        }
    }

    /// The kept pool's value: the exact sum of the showing faces.
    pub fn value(&self) -> (r: Result<RollValue, RollError>)
        requires
            self.wf(),
        ensures
            self.res_of() matches Some(p) ==> (r matches Ok(v) && v matches RollValue::Numeric(q)
                && q.num == sum_results(p@) && q.den == 1),
            self.res_of() is None <==> r == Err::<RollValue, RollError>(
                RollError::NotResolvedError,
            ),
            r is Ok <==> self.spec_value() is Some,
            r matches Ok(v) ==> Some(v) == self.spec_value(),
    {
        let p = match self {
            Keep::Exact { res, .. } => res,
            Keep::High { res, .. } => res,
            Keep::Low { res, .. } => res,
        };
        match p {
            Some(pool) => {
                let total = pool.total();
                Ok(RollValue::Numeric(Rational::from_int(total as i64)))
            },
            None => Err(RollError::NotResolvedError),
        }
    }

    /// One line naming the keep rule and argument.
    pub fn description(&self) -> (r: String)
        ensures
            r@ == keep_description_text(*self),
    {
        proof {
            reveal_strlit("Keep all dice showing ");
            reveal_strlit("Keep highest ");
            reveal_strlit("Keep lowest ");
            reveal_strlit(" di(c)e");
        }
        match self {
            Keep::Exact { arg, .. } => {
                let mut s = String::from_str("Keep all dice showing ");
                s.append(arg_text(arg).as_str());
                proof {
                    assert(s@ =~= keep_description_text(*self));
                }
                s
            },
            Keep::High { arg, .. } => {
                let mut s = String::from_str("Keep highest ");
                s.append(arg_text(arg).as_str());
                s.append(" di(c)e");
                proof {
                    assert(s@ =~= keep_description_text(*self));
                }
                s
            },
            Keep::Low { arg, .. } => {
                let mut s = String::from_str("Keep lowest ");
                s.append(arg_text(arg).as_str());
                s.append(" di(c)e");
                proof {
                    assert(s@ =~= keep_description_text(*self));
                }
                s
            },
        }
    }

    /// How many dice were kept and what they show.
    pub fn verbose(&self) -> (r: String)
        ensures
            self is Exact ==> (self.res_of() matches Some(p) ==> r@ == "Keep "@ + dec_digits(
                p@.len(),
            ) + " dice -> "@ + pool_text(p@)),
            self is Low ==> (self.res_of() matches Some(p) ==> r@ == "Keep "@ + dec_digits(
                p@.len(),
            ) + " lowest -> "@ + pool_text(p@)),
            self is High ==> (self.res_of() matches Some(p) ==> r@ == "Keep "@ + dec_digits(
                p@.len(),
            ) + " highest -> "@ + pool_text(p@)),
            self.res_of() is None ==> r@ == "Unresolved keep operator"@,
    {
        proof {
            reveal_strlit("Keep ");
            reveal_strlit(" dice -> ");
            reveal_strlit(" lowest -> ");
            reveal_strlit(" highest -> ");
            reveal_strlit("Unresolved keep operator");
        }
        match self {
            Keep::Exact { res, .. } => match res {
                Some(pool) => {
                    let mut s = String::from_str("Keep ");
                    s.append(usize_to_string(pool.total_number()).as_str());
                    s.append(" dice -> ");
                    s.append(pool.render().as_str());
                    proof {
                        assert(s@ =~= "Keep "@ + dec_digits(pool@.len()) + " dice -> "@
                            + pool_text(pool@));
                    }
                    s
                },
                None => String::from_str("Unresolved keep operator"),
            },
            Keep::Low { res, .. } => match res {
                Some(pool) => {
                    let mut s = String::from_str("Keep ");
                    s.append(usize_to_string(pool.total_number()).as_str());
                    s.append(" lowest -> ");
                    s.append(pool.render().as_str());
                    proof {
                        assert(s@ =~= "Keep "@ + dec_digits(pool@.len()) + " lowest -> "@
                            + pool_text(pool@));
                    }
                    s
                },
                None => String::from_str("Unresolved keep operator"),
            },
            Keep::High { res, .. } => match res {
                Some(pool) => {
                    let mut s = String::from_str("Keep ");
                    s.append(usize_to_string(pool.total_number()).as_str());
                    s.append(" highest -> ");
                    s.append(pool.render().as_str());
                    proof {
                        assert(s@ =~= "Keep "@ + dec_digits(pool@.len()) + " highest -> "@
                            + pool_text(pool@));
                    }
                    s
                },
                None => String::from_str("Unresolved keep operator"),
            },
        }
    }
}

/// The reroll operator: redraw matching dice under one of four policies.
#[derive(Clone, Debug, PartialEq)]
pub enum Reroll {
    Better { arg: Option<Argument>, res: Option<Pool>, rerolls: Option<Pool> },
    Once { arg: Option<Argument>, res: Option<Pool>, rerolls: Option<Pool> },
    Recursive { arg: Option<Argument>, res: Option<Pool>, rerolls: Option<Pool> },
    Worse { arg: Option<Argument>, res: Option<Pool>, rerolls: Option<Pool> },
}

impl Reroll {
    /// The recorded argument.
    pub open spec fn arg_of(self) -> Option<Argument> {
        match self {
            Reroll::Better { arg, .. } => arg,
            Reroll::Once { arg, .. } => arg,
            Reroll::Recursive { arg, .. } => arg,
            Reroll::Worse { arg, .. } => arg,
        }
    }

    /// The rerolled pool, if resolved.
    pub open spec fn res_of(self) -> Option<Pool> {
        match self {
            Reroll::Better { res, .. } => res,
            Reroll::Once { res, .. } => res,
            Reroll::Recursive { res, .. } => res,
            Reroll::Worse { res, .. } => res,
        }
    }

    /// The pool of fresh draws, if resolved.
    pub open spec fn rerolls_of(self) -> Option<Pool> {
        match self {
            Reroll::Better { rerolls, .. } => rerolls,
            Reroll::Once { rerolls, .. } => rerolls,
            Reroll::Recursive { rerolls, .. } => rerolls,
            Reroll::Worse { rerolls, .. } => rerolls,
        }
    }

    /// Resolved pools keep the pool invariant.
    pub open spec fn wf(self) -> bool {
        &&& (self.res_of() matches Some(p) ==> p.wf())
        &&& (self.rerolls_of() matches Some(p) ==> p.wf())
    }

    /// The value the resolved token stands for: the sum after rerolling.
    pub open spec fn spec_value(self) -> Option<RollValue> {
        match self.res_of() {
            Some(p) => Some(
                RollValue::Numeric(Rational { num: sum_results(p@) as i128, den: 1 }),
            ),
            None => None,
        }
    }

    /// Reroll the matching dice of the operand's pool. `Once` redraws each
    /// matching die exactly once — never twice, even if the new face still
    /// matches — and keeps the new result unconditionally; `Recursive`
    /// redraws until the face no longer matches (at most `sides` attempts
    /// per die); `Better` and `Worse` redraw once and keep, per die, the
    /// higher or lower of old and new. Dice that do not match are left
    /// untouched, and the recorded reroll pool holds exactly one die per
    /// matching die.
    pub fn apply(&self, pool: Pool, argument: Argument) -> (r: Result<Reroll, RollError>)
        requires
            pool.wf(),
        ensures
            r is Ok,
            r matches Ok(k) ==> {
                &&& k.wf()
                &&& (k is Better <==> self is Better)
                &&& (k is Once <==> self is Once)
                &&& (k is Recursive <==> self is Recursive)
                &&& (k is Worse <==> self is Worse)
                &&& (k.arg_of() matches Some(a) && a.values() == argument.values())
                &&& k.res_of() matches Some(np) && np@.len() == pool@.len()
                &&& (forall|i: int|
                    0 <= i < pool@.len() && !argument.values().contains(pool@[i].result) ==> (
                    #[trigger] k.res_of()->0@[i]) == pool@[i])
                &&& (forall|i: int|
                    0 <= i < pool@.len() && argument.values().contains(pool@[i].result) ==> (
                    #[trigger] k.res_of()->0@[i]).sides == pool@[i].sides)
                &&& k.rerolls_of() matches Some(rp) && rp@.len() == count_matching(
                    pool@,
                    argument.values(),
                )
            },
            self is Once ==> (r matches Ok(k) ==> (forall|i: int|
                0 <= i < pool@.len() && argument.values().contains(pool@[i].result) ==> 1 <= (
                #[trigger] k.res_of()->0@[i]).result <= pool@[i].sides)),
            self is Recursive ==> (r matches Ok(k) ==> (forall|i: int|
                0 <= i < pool@.len() && argument.values().contains(pool@[i].result) ==> 1 <= (
                #[trigger] k.res_of()->0@[i]).result <= pool@[i].sides)),
            self is Better ==> (r matches Ok(k) ==> (forall|i: int|
                0 <= i < pool@.len() && argument.values().contains(pool@[i].result) ==> (
                #[trigger] k.res_of()->0@[i]).result >= pool@[i].result)),
            self is Worse ==> (r matches Ok(k) ==> (forall|i: int|
                0 <= i < pool@.len() && argument.values().contains(pool@[i].result) ==> (
                #[trigger] k.res_of()->0@[i]).result <= pool@[i].result)),
            (self is Once || self is Recursive) ==> (r matches Ok(k) ==> (forall|i: int|
                0 <= i < pool@.len() && argument.values().contains(pool@[i].result) ==> (
                #[trigger] k.res_of()->0@[i]) == k.rerolls_of()->0@[count_matching(
                    pool@.subrange(0, i),
                    argument.values(),
                )])),
            self is Better ==> (r matches Ok(k) ==> (forall|i: int|
                0 <= i < pool@.len() && argument.values().contains(pool@[i].result) ==> {
                    &&& (#[trigger] k.rerolls_of()->0@[count_matching(
                        pool@.subrange(0, i),
                        argument.values(),
                    )]).sides == pool@[i].sides
                    &&& k.res_of()->0@[i].result == (if k.rerolls_of()->0@[count_matching(
                        pool@.subrange(0, i),
                        argument.values(),
                    )].result > pool@[i].result {
                        k.rerolls_of()->0@[count_matching(
                            pool@.subrange(0, i),
                            argument.values(),
                        )].result
                    } else {
                        pool@[i].result
                    })
                })),
            self is Worse ==> (r matches Ok(k) ==> (forall|i: int|
                0 <= i < pool@.len() && argument.values().contains(pool@[i].result) ==> {
                    &&& (#[trigger] k.rerolls_of()->0@[count_matching(
                        pool@.subrange(0, i),
                        argument.values(),
                    )]).sides == pool@[i].sides
                    &&& k.res_of()->0@[i].result == (if k.rerolls_of()->0@[count_matching(
                        pool@.subrange(0, i),
                        argument.values(),
                    )].result < pool@[i].result {
                        k.rerolls_of()->0@[count_matching(
                            pool@.subrange(0, i),
                            argument.values(),
                        )].result
                    } else {
                        pool@[i].result
                    })
                })),
    {
        let vals = argument.to_values();
        match self {
            Reroll::Better { .. } => {
                let (np, rp) = pool.rerolled_better(&vals);
                Ok(Reroll::Better { arg: Some(argument), res: Some(np), rerolls: Some(rp) })
            },
            Reroll::Once { .. } => {
                let (np, rp) = pool.rerolled_once(&vals);
                Ok(Reroll::Once { arg: Some(argument), res: Some(np), rerolls: Some(rp) })
            },
            Reroll::Recursive { .. } => {
                let (np, rp) = pool.rerolled_recursive(&vals);
                Ok(Reroll::Recursive { arg: Some(argument), res: Some(np), rerolls: Some(rp) })
            },
            Reroll::Worse { .. } => {
                let (np, rp) = pool.rerolled_worse(&vals);
                Ok(Reroll::Worse { arg: Some(argument), res: Some(np), rerolls: Some(rp) })
            },
        }
    }

    /// The rerolled pool; fails exactly when the token is unresolved.
    pub fn pool(self) -> (r: Result<Pool, RollError>)
        ensures
            self.res_of() matches Some(p) ==> r == Ok::<Pool, RollError>(p),
            self.res_of() is None <==> r == Err::<Pool, RollError>(RollError::NotResolvedError),
    {
        match self {
            Reroll::Better { res, .. } => res.ok_or(RollError::NotResolvedError),
            Reroll::Once { res, .. } => res.ok_or(RollError::NotResolvedError),
            Reroll::Recursive { res, .. } => res.ok_or(RollError::NotResolvedError),
            Reroll::Worse { res, .. } => res.ok_or(RollError::NotResolvedError),
        }
    }

    /// The rerolled pool's value: the exact sum of the showing faces.
    pub fn value(&self) -> (r: Result<RollValue, RollError>)
        requires
            self.wf(),
        ensures
            self.res_of() matches Some(p) ==> (r matches Ok(v) && v matches RollValue::Numeric(q)
                && q.num == sum_results(p@) && q.den == 1),
            self.res_of() is None <==> r == Err::<RollValue, RollError>(
                RollError::NotResolvedError,
            ),
            r is Ok <==> self.spec_value() is Some,
            r matches Ok(v) ==> Some(v) == self.spec_value(),
    {
        let p = match self {
            Reroll::Better { res, .. } => res,
            Reroll::Once { res, .. } => res,
            Reroll::Recursive { res, .. } => res,
            Reroll::Worse { res, .. } => res,
        };
        match p {
            Some(pool) => {
                let total = pool.total();
                Ok(RollValue::Numeric(Rational::from_int(total as i64)))
            },
            None => Err(RollError::NotResolvedError),
        }
    }

    /// One line naming the reroll rule and argument.
    pub fn description(&self) -> (r: String)
        ensures
            r@ == reroll_description_text(*self),
    {
        proof {
            reveal_strlit("Reroll all dice showing ");
            reveal_strlit(" and keep the better result");
            reveal_strlit(" once");
            reveal_strlit(" until none appear");
            reveal_strlit(" and keep the worse result");
        }
        match self {
            Reroll::Better { arg, .. } => {
                let mut s = String::from_str("Reroll all dice showing ");
                s.append(arg_text(arg).as_str());
                s.append(" and keep the better result");
                proof {
                    assert(s@ =~= reroll_description_text(*self));
                }
                s
            },
            Reroll::Once { arg, .. } => {
                let mut s = String::from_str("Reroll all dice showing ");
                s.append(arg_text(arg).as_str());
                s.append(" once");
                proof {
                    assert(s@ =~= reroll_description_text(*self));
                }
                s
            },
            Reroll::Recursive { arg, .. } => {
                let mut s = String::from_str("Reroll all dice showing ");
                s.append(arg_text(arg).as_str());
                s.append(" until none appear");
                proof {
                    assert(s@ =~= reroll_description_text(*self));
                }
                s
            },
            Reroll::Worse { arg, .. } => {
                let mut s = String::from_str("Reroll all dice showing ");
                s.append(arg_text(arg).as_str());
                s.append(" and keep the worse result");
                proof {
                    assert(s@ =~= reroll_description_text(*self));
                }
                s
            },
        }
    }

    /// How many dice were redrawn, the fresh draws, and the final pool.
    pub fn verbose(&self) -> (r: String)
        ensures
            self.res_of() matches Some(p) ==> (self.rerolls_of() matches Some(rp) ==> r@
                == reroll_verbose_text(rp@, p@)),
            (self.res_of() is None || self.rerolls_of() is None) ==> r@
                == "Unresolved reroll operator"@,
    {
        proof {
            reveal_strlit("Reroll ");
            reveal_strlit(" di(c)e -> ");
            reveal_strlit(", result: ");
            reveal_strlit("Unresolved reroll operator");
        }
        let (res, rerolls) = match self {
            Reroll::Better { res, rerolls, .. } => (res, rerolls),
            Reroll::Once { res, rerolls, .. } => (res, rerolls),
            Reroll::Recursive { res, rerolls, .. } => (res, rerolls),
            Reroll::Worse { res, rerolls, .. } => (res, rerolls),
        };
        match (res, rerolls) {
            (Some(pool), Some(rp)) => {
                let mut s = String::from_str("Reroll ");
                s.append(usize_to_string(rp.total_number()).as_str());
                s.append(" di(c)e -> ");
                s.append(rp.render().as_str());
                s.append(", result: ");
                s.append(pool.render().as_str());
                proof {
                    assert(s@ =~= reroll_verbose_text(rp@, pool@));
                }
                s
            },
            _ => String::from_str("Unresolved reroll operator"),
        }
    }
}

/// One step of concatenating pool dice: one more pool appends its dice.
pub proof fn lemma_pools_concat_step(ps: Seq<Pool>, i: int)
    requires
        0 <= i < ps.len(),
    ensures
        pools_concat(ps.subrange(0, i + 1)) == pools_concat(ps.subrange(0, i)) + ps[i]@,
{
    assert(ps.subrange(0, i + 1).drop_last() =~= ps.subrange(0, i));
    assert(ps.subrange(0, i + 1).last() == ps[i]);
    assert(pools_concat(ps.subrange(0, i + 1)) =~= pools_concat(ps.subrange(0, i)) + ps[i]@);
}

/// A prefix of the pools holds no more dice than all of them.
pub proof fn lemma_pools_concat_mono(ps: Seq<Pool>, a: int, b: int)
    requires
        0 <= a <= b <= ps.len(),
    ensures
        pools_concat(ps.subrange(0, a)).len() <= pools_concat(ps.subrange(0, b)).len(),
    decreases b - a,
{
    if a < b {
        lemma_pools_concat_step(ps, b - 1);
        lemma_pools_concat_mono(ps, a, b - 1);
    }
}

/// The explode operator: matching dice spawn extra dice, once, recursively,
/// or additively onto their own running value.
#[derive(Clone, Debug, PartialEq)]
pub enum Explode {
    Additive { arg: Option<Argument>, res: Vec<Pool> },
    Once { arg: Option<Argument>, res: Vec<Pool> },
    Recursive { arg: Option<Argument>, res: Vec<Pool> },
}

impl Explode {
    /// The recorded argument.
    pub open spec fn arg_of(self) -> Option<Argument> {
        match self {
            Explode::Additive { arg, .. } => arg,
            Explode::Once { arg, .. } => arg,
            Explode::Recursive { arg, .. } => arg,
        }
    }

    /// The recorded generations, base pool first.
    pub open spec fn res_of(self) -> Seq<Pool> {
        match self {
            Explode::Additive { res, .. } => res@,
            Explode::Once { res, .. } => res@,
            Explode::Recursive { res, .. } => res@,
        }
    }

    /// The dice the resolved token stands for: for `Once` the base and the
    /// one extra generation, for `Recursive` all generations together, for
    /// `Additive` the accumulated final pool. `None` when unresolved, or
    /// when `Once` recorded more generations than its semantics allow.
    pub open spec fn spec_pool(self) -> Option<Seq<Die>> {
        match self {
            Explode::Additive { res, .. } => if res@.len() == 0 {
                None
            } else {
                Some(res@.last()@)
            },
            Explode::Once { res, .. } => if res@.len() == 0 {
                None
            } else if res@.len() == 1 {
                Some(res@[0]@)
            } else if res@.len() == 2 {
                Some(res@[0]@ + res@[1]@)
            } else {
                None
            },
            Explode::Recursive { res, .. } => if res@.len() == 0 {
                None
            } else {
                Some(pools_concat(res@))
            },
        }
    }

    /// The error an unresolved or inconsistent token reports from `pool`:
    /// no generations means no pool; otherwise only a once-explosion with
    /// too many generations can fail, the internal inconsistency.
    pub open spec fn spec_pool_err(self) -> RollError {
        if self.res_of().len() == 0 {
            RollError::MissingPoolError
        } else {
            RollError::GenerationOverflow
        }
    }

    /// The value the resolved token stands for: the sum of `spec_pool`.
    pub open spec fn spec_value(self) -> Option<RollValue> {
        match self.spec_pool() {
            Some(ds) => Some(
                RollValue::Numeric(Rational { num: sum_results(ds) as i128, den: 1 }),
            ),
            None => None,
        }
    }

    /// Every recorded pool keeps the pool invariant, and for the appending
    /// variants all generations together stay within the pool bound.
    pub open spec fn wf(self) -> bool {
        &&& (forall|g: int| 0 <= g < self.res_of().len() ==> (#[trigger] self.res_of()[g]).wf())
        &&& (self is Once || self is Recursive) ==> pools_concat(self.res_of()).len() <= 255
    }

    /// Explode the operand's pool at the argument's faces. The generation
    /// list always starts with the base pool; explosion stops at the
    /// 255-dice pool bound, the explicit safety bound that keeps a pool of
    /// always-matching dice finite.
    pub fn apply(&self, pool: Pool, argument: Argument) -> (r: Result<Explode, RollError>)
        requires
            pool.wf(),
        ensures
            r is Ok,
            r matches Ok(e) ==> {
                &&& e.wf()
                &&& (e is Additive <==> self is Additive)
                &&& (e is Once <==> self is Once)
                &&& (e is Recursive <==> self is Recursive)
                &&& (e.arg_of() matches Some(a) && a.values() == argument.values())
                &&& e.res_of().len() >= 1
                &&& e.res_of()[0]@ == pool@
                &&& e.spec_pool() is Some
            },
            self is Once ==> (r matches Ok(e) ==> e.res_of().len() <= 2),
            self is Recursive ==> (r matches Ok(e) ==> e.res_of().len() <= 256),
            self is Once ==> (r matches Ok(e) ==> (e.res_of().len() == 2 <==> (count_matching(
                pool@,
                argument.values(),
            ) > 0 && pool@.len() < 255))),
            self is Once ==> (r matches Ok(e) ==> (e.res_of().len() == 2 ==> e.res_of()[1]@.len()
                == (if count_matching(pool@, argument.values()) <= 255 - pool@.len() {
                count_matching(pool@, argument.values())
            } else {
                255 - pool@.len()
            }))),
            self is Once ==> (r matches Ok(e) ==> (e.res_of().len() == 2 ==> forall|j: int|
                0 <= j < e.res_of()[1]@.len() ==> (#[trigger] e.res_of()[1]@[j]).sides
                    == filter_matching(pool@, argument.values())[j].sides)),
            self is Additive ==> (r matches Ok(e) ==> {
                &&& e.res_of().len() == 3
                &&& e.res_of()[2]@.len() == pool@.len()
                &&& (forall|i: int|
                    0 <= i < pool@.len() ==> (#[trigger] e.res_of()[2]@[i]).sides
                        == pool@[i].sides && e.res_of()[2]@[i].result >= pool@[i].result)
                &&& (forall|i: int|
                    0 <= i < pool@.len() && !argument.values().contains(pool@[i].result) ==> (
                    #[trigger] e.res_of()[2]@[i]) == pool@[i])
                &&& sum_results(e.res_of()[2]@) == sum_results(pool@) + sum_results(
                    e.res_of()[1]@,
                )
                &&& (e.res_of()[1]@.len() == 0 ==> forall|i: int|
                    0 <= i < pool@.len() && argument.values().contains(
                        (#[trigger] pool@[i]).result,
                    ) ==> pool@[i].result + pool@[i].sides > 255)
            }),
    {
        let vals = argument.to_values();
        match self {
            Explode::Additive { .. } => {
                let res = pool.explode_additive_matching(&vals);
                proof {
                    assert(res@.last() == res@[2]);
                }
                Ok(Explode::Additive { arg: Some(argument), res })
            },
            Explode::Once { .. } => {
                let res = pool.explode_matching(&vals, false);
                Ok(Explode::Once { arg: Some(argument), res })
            },
            Explode::Recursive { .. } => {
                let res = pool.explode_matching(&vals, true);
                Ok(Explode::Recursive { arg: Some(argument), res })
            },
        }
    }

    /// The pool the resolved token stands for; see `spec_pool`. An
    /// unresolved token has no pool, and a `Once` token with more than two
    /// generations reports the internal inconsistency.
    pub fn pool(self) -> (r: Result<Pool, RollError>)
        requires
            self.wf(),
        ensures
            r matches Ok(p) ==> Some(p@) == self.spec_pool() && p.wf(),
            r is Err <==> self.spec_pool() is None,
            r matches Err(e) ==> e == self.spec_pool_err(),
    {
        self.pool_ref()
    }

    /// As `pool`, reading the token without consuming it.
    fn pool_ref(&self) -> (r: Result<Pool, RollError>)
        requires
            self.wf(),
        ensures
            r matches Ok(p) ==> Some(p@) == self.spec_pool() && p.wf(),
            r is Err <==> self.spec_pool() is None,
            r matches Err(e) ==> e == self.spec_pool_err(),
    {
        match self {
            Explode::Additive { res, .. } => {
                if res.len() == 0 {
                    Err(RollError::MissingPoolError)
                } else {
                    proof {
                        assert(res@.last() == res@[res@.len() - 1]);
                    }
                    Ok(res[res.len() - 1].duplicate())
                }
            },
            Explode::Once { res, .. } => {
                if res.len() == 0 {
                    Err(RollError::MissingPoolError)
                } else if res.len() == 1 {
                    Ok(res[0].duplicate())
                } else if res.len() == 2 {
                    proof {
                        let ps = res@;
                        assert(ps.subrange(0, 0) =~= Seq::<Pool>::empty());
                        lemma_pools_concat_step(ps, 0);
                        lemma_pools_concat_step(ps, 1);
                        assert(ps.subrange(0, 2) =~= ps);
                        assert(pools_concat(ps) =~= ps[0]@ + ps[1]@);
                    }
                    Ok(res[0].add(&res[1]))
                } else {
                    Err(RollError::GenerationOverflow)
                }
            },
            Explode::Recursive { res, .. } => {
                if res.len() == 0 {
                    Err(RollError::MissingPoolError)
                } else {
                    let ghost ps = res@;
                    proof {
                        assert(ps.subrange(0, 0) =~= Seq::<Pool>::empty());
                        lemma_pools_concat_step(ps, 0);
                        assert(ps.subrange(0, 1) =~= seq![ps[0]]);
                    }
                    let mut acc = res[0].duplicate();
                    let mut i: usize = 1;
                    while i < res.len()
                        invariant
                            ps == res@,
                            forall|g: int| 0 <= g < ps.len() ==> (#[trigger] ps[g]).wf(),
                            pools_concat(ps).len() <= 255,
                            1 <= i <= ps.len(),
                            acc@ == pools_concat(ps.subrange(0, i as int)),
                            acc.wf(),
                        decreases ps.len() - i,
                    {
                        proof {
                            lemma_pools_concat_step(ps, i as int);
                            lemma_pools_concat_mono(ps, i + 1, ps.len() as int);
                            assert(ps.subrange(0, ps.len() as int) =~= ps);
                        }
                        acc = acc.add(&res[i]);
                        i = i + 1;
                    }
                    proof {
                        assert(ps.subrange(0, ps.len() as int) =~= ps);
                    }
                    Ok(acc)
                }
            },
        }
    }

    /// The pool's value: the exact sum of the faces of `spec_pool`.
    pub fn value(&self) -> (r: Result<RollValue, RollError>)
        requires
            self.wf(),
        ensures
            r matches Ok(v) ==> (v matches RollValue::Numeric(q) && self.spec_pool() matches Some(
                ds,
            ) && q.num == sum_results(ds) && q.den == 1),
            r is Err <==> self.spec_pool() is None,
            r matches Err(e) ==> e == self.spec_pool_err(),
            r is Ok <==> self.spec_value() is Some,
            r matches Ok(v) ==> Some(v) == self.spec_value(),
    {
        let pool = match self.pool_ref() {
            Ok(p) => p,
            Err(e) => return Err(e),
        };
        let total = pool.total();
        Ok(RollValue::Numeric(Rational::from_int(total as i64)))
    }

    /// One line naming the explosion rule and argument.
    pub fn description(&self) -> (r: String)
        ensures
            r@ == explode_description_text(*self),
    {
        proof {
            reveal_strlit("For all dice showing ");
            reveal_strlit(", roll another one and add results");
            reveal_strlit("Explode dice showing ");
            reveal_strlit(" once");
            reveal_strlit(" indefinitely");
        }
        match self {
            Explode::Additive { arg, .. } => {
                let mut s = String::from_str("For all dice showing ");
                s.append(arg_text(arg).as_str());
                s.append(", roll another one and add results");
                proof {
                    assert(s@ =~= explode_description_text(*self));
                }
                s
            },
            Explode::Once { arg, .. } => {
                let mut s = String::from_str("Explode dice showing ");
                s.append(arg_text(arg).as_str());
                s.append(" once");
                proof {
                    assert(s@ =~= explode_description_text(*self));
                }
                s
            },
            Explode::Recursive { arg, .. } => {
                let mut s = String::from_str("Explode dice showing ");
                s.append(arg_text(arg).as_str());
                s.append(" indefinitely");
                proof {
                    assert(s@ =~= explode_description_text(*self));
                }
                s
            },
        }
    }

    /// The per-generation trace of the explosion: one line per non-empty
    /// generation, then the combined total; or the base pool alone when
    /// nothing exploded.
    pub fn verbose(&self) -> (r: String)
        requires
            self.wf(),
        ensures
            self.res_of().len() == 0 ==> r@ == "Unresolved explode operator"@,
            self.res_of().len() > 0 ==> {
                let last = if self is Additive && self.res_of().len() >= 2 {
                    self.res_of().len() - 1
                } else {
                    self.res_of().len() as int
                };
                if explode_any(self.res_of(), last) {
                    r@ == explode_gens_text(self.res_of(), last) + "Total: "@ + (
                    match self.spec_pool() {
                        Some(ds) => pool_text(ds),
                        None => pool_text(self.res_of()[0]@),
                    })
                } else {
                    r@ == "No exploded dice -> "@ + pool_text(self.res_of()[0]@)
                }
            },
    {
        proof {
            reveal_strlit("Explode ");
            reveal_strlit(" di(c)e -> ");
            reveal_strlit("\n");
            reveal_strlit("No exploded dice -> ");
            reveal_strlit("Total: ");
            reveal_strlit("Unresolved explode operator");
        }
        let res: &Vec<Pool> = match self {
            Explode::Additive { res, .. } => res,
            Explode::Once { res, .. } => res,
            Explode::Recursive { res, .. } => res,
        };
        if res.len() == 0 {
            return String::from_str("Unresolved explode operator");
        }
        let mut summary = String::new();
        let mut any = false;
        let mut g: usize = 1;
        let last: usize = match self {
            Explode::Additive { .. } => if res.len() >= 2 {
                res.len() - 1
            } else {
                1
            },
            Explode::Once { .. } => res.len(),
            Explode::Recursive { .. } => res.len(),
        };
        proof {
            assert(summary@ =~= explode_gens_text(res@, 1));
        }
        while g < last
            invariant
                res@ == self.res_of(),
                1 <= last <= res@.len(),
                1 <= g <= last,
                summary@ == explode_gens_text(res@, g as int),
                any == explode_any(res@, g as int),
            decreases last - g,
        {
            proof {
                reveal_strlit("Explode ");
                reveal_strlit(" di(c)e -> ");
                reveal_strlit("\n");
                assert(explode_any(res@, g + 1) == (explode_any(res@, g as int) || res@[
                    g as int
                ]@.len() > 0)) by {
                    if explode_any(res@, g + 1) {
                        let w = choose|w: int| 1 <= w < g + 1 && (#[trigger] res@[w])@.len() > 0;
                        if w < g {
                            assert(explode_any(res@, g as int));
                        }
                    }
                    if explode_any(res@, g as int) {
                        let w = choose|w: int| 1 <= w < g && (#[trigger] res@[w])@.len() > 0;
                        assert(1 <= w < g + 1 && res@[w]@.len() > 0);
                    }
                }
            }
            if res[g].total_number() > 0 {
                any = true;
                summary.append("Explode ");
                summary.append(usize_to_string(res[g].total_number()).as_str());
                summary.append(" di(c)e -> ");
                summary.append(res[g].render().as_str());
                summary.append("\n");
                proof {
                    assert(summary@ =~= explode_gens_text(res@, g + 1));
                }
            } else {
                proof {
                    assert(summary@ =~= explode_gens_text(res@, g + 1));
                }
            }
            g = g + 1;
        }
        if !any {
            let mut s = String::from_str("No exploded dice -> ");
            s.append(res[0].render().as_str());
            proof {
                assert(s@ =~= "No exploded dice -> "@ + pool_text(res@[0]@));
            }
            s
        } else {
            let mut s = summary;
            s.append("Total: ");
            match self.pool_ref() {
                Ok(p) => {
                    s.append(p.render().as_str());
                    proof {
                        assert(s@ =~= explode_gens_text(res@, last as int) + "Total: "@
                            + pool_text(self.spec_pool()->0));
                    }
                },
                Err(_) => {
                    s.append(res[0].render().as_str());
                    proof {
                        assert(s@ =~= explode_gens_text(res@, last as int) + "Total: "@
                            + pool_text(res@[0]@));
                    }
                },
            }
            s
        }
    }
}

/// A per-face table of length `mm` holding `arr` at positions `lo` up to
/// `hi` and zero elsewhere.
pub open spec fn aligned_table(arr: Seq<u8>, lo: int, hi: int, mm: int) -> Seq<u8> {
    Seq::new(mm as nat, |j: int| if lo <= j < hi {
        arr[j - lo]
    } else {
        0u8
    })
}

/// The target and botch operator: convert a pool into a signed success
/// count, seeded from any prior target or botch token in the chain.
#[derive(Clone, Debug, PartialEq)]
pub enum Target {
    Success { arg: Option<Argument>, pool: Option<Pool>, sux: i16 },
    Botch { arg: Option<Argument>, pool: Option<Pool>, sux: i16 },
}

impl Target {
    /// The recorded argument (for arrays, the padded per-face table).
    pub open spec fn arg_of(self) -> Option<Argument> {
        match self {
            Target::Success { arg, .. } => arg,
            Target::Botch { arg, .. } => arg,
        }
    }

    /// The counted pool, if resolved.
    pub open spec fn pool_of(self) -> Option<Pool> {
        match self {
            Target::Success { pool, .. } => pool,
            Target::Botch { pool, .. } => pool,
        }
    }

    /// The accumulated signed success count.
    pub open spec fn sux_of(self) -> i16 {
        match self {
            Target::Success { sux, .. } => sux,
            Target::Botch { sux, .. } => sux,
        }
    }

    /// The resolved pool keeps the pool invariant.
    pub open spec fn wf(self) -> bool {
        self.pool_of() matches Some(p) ==> p.wf()
    }

    /// The value the token stands for: its accumulated success count.
    pub open spec fn spec_value(self) -> Option<RollValue> {
        Some(RollValue::Successes(self.sux_of()))
    }

    /// The accumulated signed success count.
    pub fn sux(&self) -> (r: i16)
        ensures
            r == self.sux_of(),
    {
        match self {
            Target::Success { sux, .. } => *sux,
            Target::Botch { sux, .. } => *sux,
        }
    }

    /// Count successes over the operand's pool, on top of any success count
    /// the operand itself already carries. A single threshold counts dice
    /// at or above it (`Success`), or subtracts dice at or below it
    /// (`Botch`). An array is a per-face success table: for `Success` it is
    /// aligned to the highest faces, for `Botch` to the lowest, padded with
    /// zeros, and the padded table is recorded as the argument. A count
    /// past the machine range of the counter is an overflow error.
    pub fn apply(&self, token: crate::roll_token::RollToken, argument: Argument) -> (r: Result<
        Target,
        RollError,
    >)
        requires
            token.wf(),
        ensures
            r matches Ok(t) ==> t.wf() && (t is Success <==> self is Success),
            r is Err ==> (token.spec_pool() is None || r == Err::<Target, RollError>(
                RollError::OverflowError,
            )),
            token.spec_pool() is None ==> r == Err::<Target, RollError>(token.spec_pool_err()),
            self is Success ==> (argument matches Argument::Single(th) ==> (r matches Ok(t)
                ==> token.spec_pool() matches Some(ds) && {
                &&& t.pool_of() matches Some(p) && p@ == ds
                &&& t.sux_of() == crate::roll_token::base_sux(token) + count_geq(ds, th)
                &&& t.arg_of() == Some(Argument::Single(th))
            })),
            self is Success ==> (argument matches Argument::Single(th) ==> (r is Ok <==> (
            token.spec_pool() matches Some(ds) && i16::MIN <= crate::roll_token::base_sux(token)
                + count_geq(ds, th) <= i16::MAX))),
            self is Botch ==> (argument matches Argument::Single(th) ==> (r matches Ok(t)
                ==> token.spec_pool() matches Some(ds) && {
                &&& t.pool_of() matches Some(p) && p@ == ds
                &&& t.sux_of() == crate::roll_token::base_sux(token) - count_leq(ds, th)
                &&& t.arg_of() == Some(Argument::Single(th))
            })),
            self is Botch ==> (argument matches Argument::Single(th) ==> (r is Ok <==> (
            token.spec_pool() matches Some(ds) && i16::MIN <= crate::roll_token::base_sux(token)
                - count_leq(ds, th) <= i16::MAX))),
            self is Success ==> (argument matches Argument::Array(arr) ==> (r matches Ok(t)
                ==> token.spec_pool() matches Some(ds) && {
                let m = crate::pool::max_sides(ds);
                let mm = if m >= crate::pool::max_result(ds) {
                    m
                } else {
                    crate::pool::max_result(ds)
                };
                let lo = if arr@.len() <= m {
                    m - arr@.len()
                } else {
                    0
                };
                let tns = aligned_table(arr@, lo, m, mm);
                &&& t.pool_of() matches Some(p) && p@ == ds
                &&& t.sux_of() == crate::roll_token::base_sux(token) + sum_successes(ds, tns)
                &&& (t.arg_of() matches Some(a2) && a2 matches Argument::Array(tv) && tv@ == tns)
            })),
            self is Botch ==> (argument matches Argument::Array(arr) ==> (r matches Ok(t)
                ==> token.spec_pool() matches Some(ds) && {
                let m = crate::pool::max_sides(ds);
                let mm = if m >= crate::pool::max_result(ds) {
                    m
                } else {
                    crate::pool::max_result(ds)
                };
                let hi = if arr@.len() <= m {
                    arr@.len() as int
                } else {
                    m
                };
                let tns = aligned_table(arr@, 0, hi, mm);
                &&& t.pool_of() matches Some(p) && p@ == ds
                &&& t.sux_of() == crate::roll_token::base_sux(token) - sum_successes(ds, tns)
                &&& (t.arg_of() matches Some(a2) && a2 matches Argument::Array(tv) && tv@ == tns)
            })),
    {
        let base: i16 = match &token {
            crate::roll_token::RollToken::Operator(Operator::Target(t)) => t.sux(),
            _ => 0,
        };
        let pool = match token.pool() {
            Ok(p) => p,
            Err(e) => return Err(e),
        };
        match argument {
            Argument::Single(threshold) => {
                match self {
                    Target::Success { .. } => {
                        let count = pool.count_dice_over(threshold);
                        proof {
                            crate::pool::lemma_count_geq_bound(pool@, threshold);
                        }
                        let total: i64 = base as i64 + count as i64;
                        if total < i16::MIN as i64 || total > i16::MAX as i64 {
                            return Err(RollError::OverflowError);
                        }
                        Ok(Target::Success {
                            arg: Some(Argument::Single(threshold)),
                            pool: Some(pool),
                            sux: total as i16,
                        })
                    },
                    Target::Botch { .. } => {
                        let count = pool.count_dice_under(threshold);
                        proof {
                            crate::pool::lemma_count_geq_bound(pool@, threshold);
                        }
                        let total: i64 = base as i64 - count as i64;
                        if total < i16::MIN as i64 || total > i16::MAX as i64 {
                            return Err(RollError::OverflowError);
                        }
                        Ok(Target::Botch {
                            arg: Some(Argument::Single(threshold)),
                            pool: Some(pool),
                            sux: total as i16,
                        })
                    },
                }
            },
            Argument::Array(arr) => {
                let m = pool.sides_max();
                let rm = pool.result_max();
                let mm: usize = if m >= rm {
                    m as usize
                } else {
                    rm as usize
                };
                let is_success = match self {
                    Target::Success { .. } => true,
                    Target::Botch { .. } => false,
                };
                let (lo, hi): (usize, usize) = if is_success {
                    if arr.len() <= m as usize {
                        (m as usize - arr.len(), m as usize)
                    } else {
                        (0, m as usize)
                    }
                } else {
                    if arr.len() <= m as usize {
                        (0, arr.len())
                    } else {
                        (0, m as usize)
                    }
                };
                let mut tns: Vec<u8> = Vec::new();
                let mut j: usize = 0;
                while j < mm
                    invariant
                        lo <= hi,
                        hi - lo <= arr@.len(),
                        j <= mm,
                        tns@.len() == j,
                        forall|t: int|
                            0 <= t < j ==> (#[trigger] tns@[t]) == if lo <= t < hi {
                                arr@[t - lo]
                            } else {
                                0u8
                            },
                    decreases mm - j,
                {
                    if lo <= j && j < hi {
                        tns.push(arr[j - lo]);
                    } else {
                        tns.push(0);
                    }
                    j = j + 1;
                }
                proof {
                    assert(tns@ =~= aligned_table(arr@, lo as int, hi as int, mm as int));
                }
                let counted = pool.count_successes(&tns);
                let total: i64 = if is_success {
                    base as i64 + counted as i64
                } else {
                    base as i64 - counted as i64
                };
                if total < i16::MIN as i64 || total > i16::MAX as i64 {
                    return Err(RollError::OverflowError);
                }
                match self {
                    Target::Success { .. } => Ok(Target::Success {
                        arg: Some(Argument::Array(tns)),
                        pool: Some(pool),
                        sux: total as i16,
                    }),
                    Target::Botch { .. } => Ok(Target::Botch {
                        arg: Some(Argument::Array(tns)),
                        pool: Some(pool),
                        sux: total as i16,
                    }),
                }
            },
        }
    }

    /// The counted pool; fails exactly when the token is unresolved.
    pub fn pool(self) -> (r: Result<Pool, RollError>)
        ensures
            self.pool_of() matches Some(p) ==> r == Ok::<Pool, RollError>(p),
            self.pool_of() is None <==> r == Err::<Pool, RollError>(RollError::MissingPoolError),
    {
        match self {
            Target::Success { pool, .. } => pool.ok_or(RollError::MissingPoolError),
            Target::Botch { pool, .. } => pool.ok_or(RollError::MissingPoolError),
        }
    }

    /// The accumulated success count as a value.
    pub fn value(&self) -> (r: RollValue)
        ensures
            r == RollValue::Successes(self.sux_of()),
    {
        match self {
            Target::Success { sux, .. } => RollValue::Successes(*sux),
            Target::Botch { sux, .. } => RollValue::Successes(*sux),
        }
    }

    /// One line naming the counting rule.
    pub fn description(&self) -> (r: String)
        ensures
            r@ == target_description_text(*self),
    {
        proof {
            reveal_strlit("Count one success per die showing ");
            reveal_strlit(" or higher");
            reveal_strlit("Count successes: ");
            reveal_strlit("Subtract one success per die showing ");
            reveal_strlit(" or lower");
            reveal_strlit("Subtract successes: ");
            reveal_strlit("Unresolved target operator");
        }
        match self {
            Target::Success { arg, .. } => match arg {
                Some(Argument::Single(n)) => {
                    let mut s = String::from_str("Count one success per die showing ");
                    s.append(u8_to_string(*n).as_str());
                    s.append(" or higher");
                    proof {
                        assert(s@ =~= target_description_text(*self));
                    }
                    s
                },
                Some(Argument::Array(_)) => {
                    let mut s = String::from_str("Count successes: ");
                    s.append(arg_text(arg).as_str());
                    proof {
                        assert(s@ =~= target_description_text(*self));
                    }
                    s
                },
                None => String::from_str("Unresolved target operator"),
            },
            Target::Botch { arg, .. } => match arg {
                Some(Argument::Single(n)) => {
                    let mut s = String::from_str("Subtract one success per die showing ");
                    s.append(u8_to_string(*n).as_str());
                    s.append(" or lower");
                    proof {
                        assert(s@ =~= target_description_text(*self));
                    }
                    s
                },
                Some(Argument::Array(_)) => {
                    let mut s = String::from_str("Subtract successes: ");
                    s.append(arg_text(arg).as_str());
                    proof {
                        assert(s@ =~= target_description_text(*self));
                    }
                    s
                },
                None => String::from_str("Unresolved target operator"),
            },
        }
    }

    /// The counted pool, the counting rule, and the success count.
    pub fn verbose(&self) -> (r: String)
        ensures
            self.pool_of() matches Some(p) ==> r@ == pool_text(p@) + " -> "@
                + target_description_text(*self) + " = "@ + signed_dec(self.sux_of() as int)
                + " success(es)"@,
            self.pool_of() is None ==> r@ == "Unresolved target operator"@,
    {
        proof {
            reveal_strlit(" -> ");
            reveal_strlit(" = ");
            reveal_strlit(" success(es)");
            reveal_strlit("Unresolved target operator");
        }
        let pool = match self {
            Target::Success { pool, .. } => pool,
            Target::Botch { pool, .. } => pool,
        };
        match pool {
            Some(p) => {
                let mut s = p.render();
                s.append(" -> ");
                s.append(self.description().as_str());
                s.append(" = ");
                s.append(i16_to_string(self.sux()).as_str());
                s.append(" success(es)");
                proof {
                    assert(s@ =~= pool_text(p@) + " -> "@ + target_description_text(*self)
                        + " = "@ + signed_dec(self.sux_of() as int) + " success(es)"@);
                }
                s
            },
            None => String::from_str("Unresolved target operator"),
        }
    }
}

/// The merge operand: concatenates two resolved rolls, pools and values.
pub struct Merge {
    pub left: Option<Box<crate::roll_token::RollToken>>,
    pub right: Option<Box<crate::roll_token::RollToken>>,
}

impl Merge {
    /// Both operands, once resolved, keep their invariants.
    pub open spec fn wf(self) -> bool
        decreases self,
    {
        &&& (self.left matches Some(b) ==> (*b).wf())
        &&& (self.right matches Some(b) ==> (*b).wf())
    }

    /// The merged dice: both operands' dice in order, when both resolve a
    /// pool and together they stay within the pool bound.
    pub open spec fn spec_pool(self) -> Option<Seq<Die>>
        decreases self,
    {
        match (self.left, self.right) {
            (Some(l), Some(r)) => match ((*l).spec_pool(), (*r).spec_pool()) {
                (Some(a), Some(b)) => if a.len() + b.len() <= 255 {
                    Some(a + b)
                } else {
                    None
                },
                _ => None,
            },
            _ => None,
        }
    }

    /// The error `pool` reports when the merge has none: a missing operand
    /// is unresolved; an operand's own failure passes through unchanged;
    /// two pools past the joint bound are an argument error.
    pub open spec fn spec_pool_err(self) -> RollError
        decreases self,
    {
        match (self.left, self.right) {
            (Some(l), Some(r)) => if (*l).spec_pool() is None {
                (*l).spec_pool_err()
            } else if (*r).spec_pool() is None {
                (*r).spec_pool_err()
            } else {
                RollError::ArgumentError
            },
            _ => RollError::NotResolvedError,
        }
    }

    /// The merged value: the type-checked combination of both operands'
    /// values, when both resolve one and the kinds agree.
    pub open spec fn spec_value(self) -> Option<RollValue>
        decreases self,
    {
        match (self.left, self.right) {
            (Some(l), Some(r)) => match ((*l).spec_value(), (*r).spec_value()) {
                (Some(a), Some(b)) => spec_add_values(a, b),
                _ => None,
            },
            _ => None,
        }
    }

    /// Record the two operands.
    pub fn apply(&self, left: crate::roll_token::RollToken, right: crate::roll_token::RollToken)
        -> (r: Result<Merge, RollError>)
        ensures
            r matches Ok(m) ==> {
                &&& m.left matches Some(b) && *b == left
                &&& m.right matches Some(b2) && *b2 == right
            },
            r is Ok,
    {
        Ok(Merge { left: Some(Box::new(left)), right: Some(Box::new(right)) })
    }

    /// The concatenation of the two operands' pools. Fails when either
    /// operand is missing or has no pool, or the merge would pass the pool
    /// bound.
    pub fn pool(self) -> (r: Result<Pool, RollError>)
        requires
            self.wf(),
        ensures
            r matches Ok(p) ==> Some(p@) == self.spec_pool() && p.wf(),
            r is Err <==> self.spec_pool() is None,
            r matches Err(e) ==> e == self.spec_pool_err(),
        decreases self,
    {
        let left = match self.left {
            Some(b) => *b,
            None => return Err(RollError::NotResolvedError),
        };
        let right = match self.right {
            Some(b) => *b,
            None => return Err(RollError::NotResolvedError),
        };
        let left_pool = match left.pool() {
            Ok(p) => p,
            Err(e) => return Err(e),
        };
        let right_pool = match right.pool() {
            Ok(p) => p,
            Err(e) => return Err(e),
        };
        if left_pool.total_number() > MAX_POOL_DICE - right_pool.total_number() {
            return Err(RollError::ArgumentError);
        }
        Ok(left_pool.add(&right_pool))
    }

    /// The type-checked combination of the two operands' values: exactly
    /// `spec_value` on success. A missing operand is unresolved; operands
    /// whose values carry different kinds fail with the kind-mismatch
    /// error, never a silent coercion; a component past its machine range
    /// is an overflow error. The operands themselves are only read.
    pub fn value(&self) -> (r: Result<RollValue, RollError>)
        requires
            self.wf(),
        ensures
            r matches Ok(v) ==> v.wf(),
            r is Ok <==> self.spec_value() is Some,
            r matches Ok(v) ==> Some(v) == self.spec_value(),
            (self.left is None || self.right is None) ==> r == Err::<RollValue, RollError>(
                RollError::NotResolvedError,
            ),
            self.left matches Some(l) ==> (self.right matches Some(rt) ==> ((
            (*l).spec_value() matches Some(a) && (*rt).spec_value() matches Some(b)
                && !a.same_kind(b)) ==> r == Err::<RollValue, RollError>(
                RollError::KindMismatchError,
            ))),
        decreases *self,
    {
        let left = match &self.left {
            Some(b) => b,
            None => return Err(RollError::NotResolvedError),
        };
        let right = match &self.right {
            Some(b) => b,
            None => return Err(RollError::NotResolvedError),
        };
        let left_value = match left.value() {
            Ok(v) => v,
            Err(e) => return Err(e),
        };
        let right_value = match right.value() {
            Ok(v) => v,
            Err(e) => return Err(e),
        };
        left_value.add(right_value)
    }

    /// Merges render through their operands, not on their own.
    pub fn description(&self) -> (r: String)
        ensures
            r@ == "Merge two rolls into one"@,
    {
        String::from_str("Merge two rolls into one")
    }

    /// Merges render through their operands, not on their own.
    pub fn verbose(&self) -> (r: String)
        ensures
            r@ == "Merge two rolls into one"@,
    {
        String::from_str("Merge two rolls into one")
    }
}

/// The combination operands: ways of joining two resolved rolls.
pub enum Combination {
    Merge(Merge),
}

impl Combination {
    /// The wrapped combination keeps its invariant.
    pub open spec fn wf(self) -> bool
        decreases self,
    {
        match self {
            Combination::Merge(m) => m.wf(),
        }
    }

    /// The combined dice; see `Merge::spec_pool`.
    pub open spec fn spec_pool(self) -> Option<Seq<Die>>
        decreases self,
    {
        match self {
            Combination::Merge(m) => m.spec_pool(),
        }
    }

    /// The error `pool` reports; see `Merge::spec_pool_err`.
    pub open spec fn spec_pool_err(self) -> RollError
        decreases self,
    {
        match self {
            Combination::Merge(m) => m.spec_pool_err(),
        }
    }

    /// The combined value; see `Merge::spec_value`.
    pub open spec fn spec_value(self) -> Option<RollValue>
        decreases self,
    {
        match self {
            Combination::Merge(m) => m.spec_value(),
        }
    }

    /// Record the two operands.
    pub fn apply(&self, left: crate::roll_token::RollToken, right: crate::roll_token::RollToken)
        -> (r: Result<Combination, RollError>)
        ensures
            r matches Ok(c) ==> (c matches Combination::Merge(m) ==> {
                &&& m.left matches Some(b) && *b == left
                &&& m.right matches Some(b2) && *b2 == right
            }),
            r matches Ok(c) ==> c is Merge,
            r is Ok,
    {
        match self {
            Combination::Merge(merge) => match merge.apply(left, right) {
                Ok(m) => Ok(Combination::Merge(m)),
                Err(e) => Err(e),
            },
        }
    }

    /// The combined pool; see `Merge::pool`.
    pub fn pool(self) -> (r: Result<Pool, RollError>)
        requires
            self.wf(),
        ensures
            r matches Ok(p) ==> Some(p@) == self.spec_pool() && p.wf(),
            r is Err <==> self.spec_pool() is None,
            r matches Err(e) ==> e == self.spec_pool_err(),
        decreases self,
    {
        match self {
            Combination::Merge(merge) => merge.pool(),
        }
    }

    /// The combined value; see `Merge::value`.
    pub fn value(&self) -> (r: Result<RollValue, RollError>)
        requires
            self.wf(),
        ensures
            r matches Ok(v) ==> v.wf(),
            r is Ok <==> self.spec_value() is Some,
            r matches Ok(v) ==> Some(v) == self.spec_value(),
        decreases *self,
    {
        match self {
            Combination::Merge(merge) => merge.value(),
        }
    }

    /// One line describing the combination.
    pub fn description(&self) -> String {
        match self {
            Combination::Merge(merge) => merge.description(),
        }
    }

    /// The combination's breakdown.
    pub fn verbose(&self) -> String {
        match self {
            Combination::Merge(merge) => merge.verbose(),
        }
    }
}

/// The conversions: reading a pool's faces in another value system.
#[derive(Clone, Debug, PartialEq)]
pub enum Conversion {
    Genesys(GenesysDice),
}

impl Conversion {
    /// The wrapped conversion keeps its invariant.
    pub open spec fn wf(self) -> bool {
        match self {
            Conversion::Genesys(g) => g.wf(),
        }
    }

    /// The source pool's dice, if resolved.
    pub open spec fn spec_pool(self) -> Option<Seq<Die>> {
        match self {
            Conversion::Genesys(g) => match g.base_of() {
                Some(p) => Some(p@),
                None => None,
            },
        }
    }

    /// The error `pool` reports when the token is unresolved.
    pub open spec fn spec_pool_err(self) -> RollError {
        RollError::NotResolvedError
    }

    /// The converted value; see `GenesysDice::spec_value`.
    pub open spec fn spec_value(self) -> Option<RollValue> {
        match self {
            Conversion::Genesys(g) => g.spec_value(),
        }
    }

    /// Convert the operand's pool through the die kind's per-face table.
    pub fn apply(&self, token: crate::roll_token::RollToken) -> (r: Result<Conversion, RollError>)
        requires
            token.wf(),
        ensures
            r is Ok <==> token.spec_pool() is Some,
            r matches Err(e) ==> e == token.spec_pool_err(),
            self matches Conversion::Genesys(g) ==> (r matches Ok(c) ==> (
            c matches Conversion::Genesys(g2) && token.spec_pool() matches Some(ds) && {
                &&& g2.same_kind(*g)
                &&& g2.base_of() matches Some(p) && p@ == ds
                &&& g2.rows_of().len() == ds.len()
                &&& (forall|i: int|
                    0 <= i < ds.len() ==> (#[trigger] g2.rows_of()[i]) == g.table(
                        ds[i].result as int,
                    ))
                &&& g2.wf()
            })),
    {
        match self {
            Conversion::Genesys(g_dice) => {
                let pool = match token.pool() {
                    Ok(p) => p,
                    Err(e) => return Err(e),
                };
                match g_dice.apply(pool) {
                    Ok(g2) => Ok(Conversion::Genesys(g2)),
                    Err(e) => Err(e),
                }
            },
        }
    }

    /// The source pool; fails exactly when the token is unresolved.
    pub fn pool(self) -> (r: Result<Pool, RollError>)
        ensures
            r matches Ok(p) ==> Some(p@) == self.spec_pool(),
            r is Err <==> self.spec_pool() is None,
            r matches Err(e) ==> e == self.spec_pool_err(),
    {
        match self {
            Conversion::Genesys(g_dice) => g_dice.pool(),
        }
    }

    /// The symbol tally; see `GenesysDice::value`.
    pub fn value(&self) -> (r: Result<RollValue, RollError>)
        requires
            self.wf(),
        ensures
            r is Ok,
            self matches Conversion::Genesys(g) ==> (r matches Ok(v) ==> (
            v matches RollValue::Genesys(gv) && {
                &&& gv.successes == count_symbol(g.rows_of(), GeneSymbol::Success)
                &&& gv.advantages == count_symbol(g.rows_of(), GeneSymbol::Advantage)
                &&& gv.triumphs == count_symbol(g.rows_of(), GeneSymbol::Triumph)
                &&& gv.failures == count_symbol(g.rows_of(), GeneSymbol::Failure)
                &&& gv.threats == count_symbol(g.rows_of(), GeneSymbol::Threat)
                &&& gv.despairs == count_symbol(g.rows_of(), GeneSymbol::Despair)
            })),
            r matches Ok(v) ==> Some(v) == self.spec_value(),
    {
        match self {
            Conversion::Genesys(g_dice) => g_dice.value(),
        }
    }

    /// One line describing the conversion.
    pub fn description(&self) -> String {
        match self {
            Conversion::Genesys(g_dice) => g_dice.description(),
        }
    }

    /// The conversion's breakdown.
    pub fn verbose(&self) -> String {
        match self {
            Conversion::Genesys(g_dice) => g_dice.verbose(),
        }
    }
}

/// The dice-domain operators.
#[derive(Clone, Debug, PartialEq)]
pub enum Operator {
    Cap(Cap),
    Explode(Explode),
    Keep(Keep),
    Reroll(Reroll),
    Target(Target),
}

impl Operator {
    /// The wrapped operator keeps its invariant.
    pub open spec fn wf(self) -> bool {
        match self {
            Operator::Cap(c) => c.wf(),
            Operator::Explode(e) => e.wf(),
            Operator::Keep(k) => k.wf(),
            Operator::Reroll(k) => k.wf(),
            Operator::Target(t) => t.wf(),
        }
    }

    /// The error `pool` reports when the operator has no resolved pool.
    pub open spec fn spec_pool_err(self) -> RollError {
        match self {
            Operator::Cap(_) => RollError::NotResolvedError,
            Operator::Explode(e) => e.spec_pool_err(),
            Operator::Keep(_) => RollError::NotResolvedError,
            Operator::Reroll(_) => RollError::NotResolvedError,
            Operator::Target(_) => RollError::MissingPoolError,
        }
    }

    /// The operator's value: a target or botch yields its success count,
    /// the others the sum of their resolved pool.
    pub open spec fn spec_value(self) -> Option<RollValue> {
        match self {
            Operator::Cap(c) => c.spec_value(),
            Operator::Explode(e) => e.spec_value(),
            Operator::Keep(k) => k.spec_value(),
            Operator::Reroll(k) => k.spec_value(),
            Operator::Target(t) => t.spec_value(),
        }
    }

    /// The operator's resolved pool, if any.
    pub open spec fn spec_pool(self) -> Option<Seq<Die>> {
        match self {
            Operator::Cap(c) => match c.res_of() {
                Some(p) => Some(p@),
                None => None,
            },
            Operator::Explode(e) => e.spec_pool(),
            Operator::Keep(k) => match k.res_of() {
                Some(p) => Some(p@),
                None => None,
            },
            Operator::Reroll(k) => match k.res_of() {
                Some(p) => Some(p@),
                None => None,
            },
            Operator::Target(t) => match t.pool_of() {
                Some(p) => Some(p@),
                None => None,
            },
        }
    }

    /// Apply the operator to its operand's pool and the argument. Each
    /// wrapped operator's own `apply` carries the exact semantics; this
    /// dispatcher restates, per variant, what the result's resolved pool is
    /// in terms of the operand's pool, and that an operand without a pool
    /// fails with that operand's own error before any work happens.
    pub fn apply(&self, token: crate::roll_token::RollToken, argument: Argument) -> (r: Result<
        Operator,
        RollError,
    >)
        requires
            token.wf(),
        ensures
            r matches Ok(o) ==> {
                &&& o.wf()
                &&& (o is Cap <==> self is Cap)
                &&& (o is Explode <==> self is Explode)
                &&& (o is Keep <==> self is Keep)
                &&& (o is Reroll <==> self is Reroll)
                &&& (o is Target <==> self is Target)
            },
            token.spec_pool() is None ==> r == Err::<Operator, RollError>(token.spec_pool_err()),
            r is Ok ==> token.spec_pool() is Some,
            self matches Operator::Keep(k) ==> (token.spec_pool() is Some ==> (r is Ok <==> (k
                is Exact || argument.values().len() == 1))),
            self matches Operator::Keep(k) ==> (r matches Ok(o) ==> (o matches Operator::Keep(k2)
                ==> (token.spec_pool() matches Some(ds) && {
                &&& (k2 is Exact <==> k is Exact)
                &&& (k2 is High <==> k is High)
                &&& (k2 is Low <==> k is Low)
                &&& (k is Exact ==> (k2.res_of() matches Some(p) && p@ == filter_matching(
                    ds,
                    argument.values(),
                )))
                &&& (k is High ==> (k2.res_of() matches Some(p2) && p2@ == sort_dice(
                    ds,
                ).subrange(
                    ds.len() - Pool::keep_count(argument.values()[0], ds.len()),
                    ds.len() as int,
                )))
                &&& (k is Low ==> (k2.res_of() matches Some(p3) && p3@ == sort_dice(ds).subrange(
                    0,
                    Pool::keep_count(argument.values()[0], ds.len()) as int,
                )))
            }))),
            self is Reroll ==> (token.spec_pool() is Some ==> r is Ok),
            self matches Operator::Reroll(rk) ==> (r matches Ok(o) ==> (o matches Operator::Reroll(
                r2,
            ) ==> (token.spec_pool() matches Some(ds) && {
                &&& (r2 is Once <==> rk is Once)
                &&& (r2 is Recursive <==> rk is Recursive)
                &&& (r2 is Better <==> rk is Better)
                &&& (r2 is Worse <==> rk is Worse)
                &&& r2.res_of() matches Some(np) && np@.len() == ds.len()
                &&& r2.rerolls_of() matches Some(rp) && rp@.len() == count_matching(
                    ds,
                    argument.values(),
                )
                &&& (forall|i: int|
                    0 <= i < ds.len() && !argument.values().contains(ds[i].result) ==> (
                    #[trigger] r2.res_of()->0@[i]) == ds[i])
                &&& ((rk is Once || rk is Recursive) ==> forall|i: int|
                    0 <= i < ds.len() && argument.values().contains(ds[i].result) ==> (
                    #[trigger] r2.res_of()->0@[i]) == r2.rerolls_of()->0@[count_matching(
                        ds.subrange(0, i),
                        argument.values(),
                    )])
                &&& (rk is Better ==> forall|i: int|
                    0 <= i < ds.len() && argument.values().contains(ds[i].result) ==> (
                    #[trigger] r2.res_of()->0@[i]).result == (if r2.rerolls_of()->0@[
                        count_matching(ds.subrange(0, i), argument.values())
                    ].result > ds[i].result {
                        r2.rerolls_of()->0@[count_matching(
                            ds.subrange(0, i),
                            argument.values(),
                        )].result
                    } else {
                        ds[i].result
                    }))
                &&& (rk is Worse ==> forall|i: int|
                    0 <= i < ds.len() && argument.values().contains(ds[i].result) ==> (
                    #[trigger] r2.res_of()->0@[i]).result == (if r2.rerolls_of()->0@[
                        count_matching(ds.subrange(0, i), argument.values())
                    ].result < ds[i].result {
                        r2.rerolls_of()->0@[count_matching(
                            ds.subrange(0, i),
                            argument.values(),
                        )].result
                    } else {
                        ds[i].result
                    }))
            }))),
            self is Explode ==> (token.spec_pool() is Some ==> r is Ok),
            self matches Operator::Explode(ex) ==> (r matches Ok(o) ==> (o matches
                Operator::Explode(e2) ==> (token.spec_pool() matches Some(ds) && {
                &&& (e2 is Once <==> ex is Once)
                &&& (e2 is Recursive <==> ex is Recursive)
                &&& (e2 is Additive <==> ex is Additive)
                &&& e2.res_of().len() >= 1
                &&& e2.res_of()[0]@ == ds
                &&& e2.spec_pool() is Some
                &&& (ex is Once ==> (e2.res_of().len() == 2 <==> (count_matching(
                    ds,
                    argument.values(),
                ) > 0 && ds.len() < 255)))
                &&& (ex is Additive ==> e2.res_of().len() == 3 && sum_results(e2.res_of()[2]@)
                    == sum_results(ds) + sum_results(e2.res_of()[1]@))
            }))),
            self matches Operator::Cap(c) ==> (token.spec_pool() is Some ==> (r is Ok <==> (
            argument matches Argument::Single(v) && v >= 1))),
            self matches Operator::Cap(c) ==> (r matches Ok(o) ==> (o matches Operator::Cap(c2)
                ==> (argument matches Argument::Single(v) && token.spec_pool() matches Some(ds)
                && c2.res_of() matches Some(p) && p@.len() == ds.len() && (forall|i: int|
                0 <= i < ds.len() ==> {
                    &&& (#[trigger] p@[i]).sides == ds[i].sides
                    &&& p@[i].result == if c is Max {
                        if ds[i].result > v {
                            v
                        } else {
                            ds[i].result
                        }
                    } else {
                        if ds[i].result < v {
                            v
                        } else {
                            ds[i].result
                        }
                    }
                })))),
            self matches Operator::Target(t) ==> (r matches Ok(o) ==> (o matches Operator::Target(
                t2,
            ) ==> (token.spec_pool() matches Some(ds) && {
                &&& (t2 is Success <==> t is Success)
                &&& t2.pool_of() matches Some(p) && p@ == ds
                &&& (t is Success ==> (argument matches Argument::Single(th)
                    ==> t2.sux_of() == crate::roll_token::base_sux(token) + count_geq(ds, th)))
                &&& (t is Botch ==> (argument matches Argument::Single(th)
                    ==> t2.sux_of() == crate::roll_token::base_sux(token) - count_leq(ds, th)))
            }))),
    {
        match self {
            Operator::Cap(cap) => match cap.apply(token, argument) {
                Ok(c) => Ok(Operator::Cap(c)),
                Err(e) => Err(e),
            },
            Operator::Explode(explode) => {
                let pool = match token.pool() {
                    Ok(p) => p,
                    Err(e) => return Err(e),
                };
                match explode.apply(pool, argument) {
                    Ok(x) => Ok(Operator::Explode(x)),
                    Err(e) => Err(e),
                }
            },
            Operator::Keep(keep) => {
                let pool = match token.pool() {
                    Ok(p) => p,
                    Err(e) => return Err(e),
                };
                match keep.apply(pool, argument) {
                    Ok(x) => Ok(Operator::Keep(x)),
                    Err(e) => Err(e),
                }
            },
            Operator::Reroll(reroll) => {
                let pool = match token.pool() {
                    Ok(p) => p,
                    Err(e) => return Err(e),
                };
                match reroll.apply(pool, argument) {
                    Ok(x) => Ok(Operator::Reroll(x)),
                    Err(e) => Err(e),
                }
            },
            Operator::Target(target) => match target.apply(token, argument) {
                Ok(x) => Ok(Operator::Target(x)),
                Err(e) => Err(e),
            },
        }
    }

    /// The operator's resolved pool.
    pub fn pool(self) -> (r: Result<Pool, RollError>)
        requires
            self.wf(),
        ensures
            r matches Ok(p) ==> Some(p@) == self.spec_pool() && p.wf(),
            r is Err <==> self.spec_pool() is None,
            r matches Err(e) ==> e == self.spec_pool_err(),
    {
        match self {
            Operator::Cap(cap) => cap.pool(),
            Operator::Explode(explode) => explode.pool(),
            Operator::Keep(keep) => keep.pool(),
            Operator::Reroll(reroll) => reroll.pool(),
            Operator::Target(target) => target.pool(),
        }
    }

    /// The operator's value; a target or botch yields its success count,
    /// the others the sum of their resolved pool.
    pub fn value(&self) -> (r: Result<RollValue, RollError>)
        requires
            self.wf(),
        ensures
            r matches Ok(v) ==> v.wf(),
            r is Ok <==> self.spec_value() is Some,
            r matches Ok(v) ==> Some(v) == self.spec_value(),
            self matches Operator::Target(t) ==> r == Ok::<RollValue, RollError>(
                RollValue::Successes(t.sux_of()),
            ),
    {
        match self {
            Operator::Cap(cap) => cap.value(),
            Operator::Explode(explode) => explode.value(),
            Operator::Keep(keep) => keep.value(),
            Operator::Reroll(reroll) => reroll.value(),
            Operator::Target(target) => Ok(target.value()),
        }
    }

    /// One line describing the operator.
    pub fn description(&self) -> String {
        match self {
            Operator::Cap(cap) => cap.description(),
            Operator::Explode(explode) => explode.description(),
            Operator::Keep(keep) => keep.description(),
            Operator::Reroll(reroll) => reroll.description(),
            Operator::Target(target) => target.description(),
        }
    }

    /// The operator's breakdown.
    pub fn verbose(&self) -> String
        requires
            self.wf(),
    {
        match self {
            Operator::Cap(cap) => cap.verbose(),
            Operator::Explode(explode) => explode.verbose(),
            Operator::Keep(keep) => keep.verbose(),
            Operator::Reroll(reroll) => reroll.verbose(),
            Operator::Target(target) => target.verbose(),
        }
    }
}

} // verus!

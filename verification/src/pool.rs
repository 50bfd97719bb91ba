//! An ordered collection of dice rolled for one dice expression.
//!
//! A pool records the originally requested count and side number together
//! with the dice themselves; keep, reroll and explode operations derive new
//! pools, so `dice().len()` may differ from `number()` after a
//! transformation. Pools are bounded at 255 dice; the bound doubles as the
//! explicit safety bound that keeps recursive explosion finite.

use vstd::prelude::*;
use vstd::seq_lib::lemma_multiset_commutative;
use vstd::multiset::Multiset;
use crate::die::Die;
use crate::dice_errors::RollError;

verus! {

/// The largest number of dice one pool may hold.
pub const MAX_POOL_DICE: usize = 255;

/// A die as every pool operation keeps it: at least one side, showing at
/// least 1. (Additive explosion and capping may push a result above the
/// side count, but never below 1.)
pub open spec fn die_ok(d: Die) -> bool {
    1 <= d.result && 1 <= d.sides
}

/// All dice of a sequence are in the state `die_ok` describes.
pub open spec fn dice_ok(s: Seq<Die>) -> bool {
    forall|i: int| 0 <= i < s.len() ==> die_ok(#[trigger] s[i])
}

/// The sum of the showing faces.
pub open spec fn sum_results(s: Seq<Die>) -> int
    decreases s.len(),
{
    if s.len() == 0 {
        0
    } else {
        sum_results(s.drop_last()) + s.last().result
    }
}

/// Ascending by showing face, ties in either order.
pub open spec fn sorted_by_result(s: Seq<Die>) -> bool {
    forall|i: int, j: int| 0 <= i <= j < s.len() ==> (#[trigger] s[i]).result <= (#[trigger] s[j]).result
}

/// Where a stable ascending insertion puts `d` into `s`: after every leading
/// element whose face does not exceed `d`'s.
pub open spec fn insert_pos(s: Seq<Die>, d: Die) -> int
    decreases s.len(),
{
    if s.len() == 0 {
        0
    } else if s[0].result <= d.result {
        1 + insert_pos(s.drop_first(), d)
    } else {
        0
    }
}

/// Stable ascending insertion of `d` into `s`.
pub open spec fn sorted_insert(s: Seq<Die>, d: Die) -> Seq<Die>
    decreases s.len(),
{
    if s.len() == 0 {
        seq![d]
    } else if s[0].result <= d.result {
        seq![s[0]] + sorted_insert(s.drop_first(), d)
    } else {
        seq![d] + s
    }
}

/// Stable ascending insertion sort by showing face.
pub open spec fn sort_dice(s: Seq<Die>) -> Seq<Die>
    decreases s.len(),
{
    if s.len() == 0 {
        Seq::empty()
    } else {
        sorted_insert(sort_dice(s.drop_last()), s.last())
    }
}

/// The dice of `s` whose face is listed in `vals`, kept in order.
pub open spec fn filter_matching(s: Seq<Die>, vals: Seq<u8>) -> Seq<Die>
    decreases s.len(),
{
    if s.len() == 0 {
        Seq::empty()
    } else {
        filter_matching(s.drop_last(), vals) + if vals.contains(s.last().result) {
            seq![s.last()]
        } else {
            Seq::empty()
        }
    }
}

/// How many dice of `s` show a face listed in `vals`.
pub open spec fn count_matching(s: Seq<Die>, vals: Seq<u8>) -> int {
    filter_matching(s, vals).len() as int
}

/// How many dice of `s` show `t` or more.
pub open spec fn count_geq(s: Seq<Die>, t: u8) -> int
    decreases s.len(),
{
    if s.len() == 0 {
        0
    } else {
        count_geq(s.drop_last(), t) + if s.last().result >= t {
            1int
        } else {
            0int
        }
    }
}

/// How many dice of `s` show `t` or less.
pub open spec fn count_leq(s: Seq<Die>, t: u8) -> int
    decreases s.len(),
{
    if s.len() == 0 {
        0
    } else {
        count_leq(s.drop_last(), t) + if s.last().result <= t {
            1int
        } else {
            0int
        }
    }
}

/// The sum over the dice of the per-face table entry for the showing face.
pub open spec fn sum_successes(s: Seq<Die>, tns: Seq<u8>) -> int
    decreases s.len(),
{
    if s.len() == 0 {
        0
    } else {
        sum_successes(s.drop_last(), tns) + tns[s.last().result - 1]
    }
}

/// The largest face shown among the dice.
pub open spec fn max_result(s: Seq<Die>) -> int
    decreases s.len(),
{
    if s.len() == 0 {
        0
    } else if s.last().result >= max_result(s.drop_last()) {
        s.last().result as int
    } else {
        max_result(s.drop_last())
    }
}

/// The largest side count among the dice.
pub open spec fn max_sides(s: Seq<Die>) -> int
    decreases s.len(),
{
    if s.len() == 0 {
        0
    } else if s.last().sides >= max_sides(s.drop_last()) {
        s.last().sides as int
    } else {
        max_sides(s.drop_last())
    }
}

/// `sorted_insert(s, d)` is `s` split at `insert_pos(s, d)` with `d` in the
/// middle; the position is the first whose element's face exceeds `d`'s.
pub proof fn lemma_sorted_insert_form(s: Seq<Die>, d: Die)
    ensures
        0 <= insert_pos(s, d) <= s.len(),
        sorted_insert(s, d) =~= s.subrange(0, insert_pos(s, d)) + seq![d] + s.subrange(
            insert_pos(s, d),
            s.len() as int,
        ),
        forall|k: int| 0 <= k < insert_pos(s, d) ==> (#[trigger] s[k]).result <= d.result,
        insert_pos(s, d) < s.len() ==> s[insert_pos(s, d)].result > d.result,
    decreases s.len(),
{
    if s.len() == 0 {
        assert(sorted_insert(s, d) =~= s.subrange(0, 0) + seq![d] + s.subrange(0, 0));
    } else if s[0].result <= d.result {
        lemma_sorted_insert_form(s.drop_first(), d);
        let j = insert_pos(s, d);
        assert(s.drop_first().subrange(0, j - 1) =~= s.subrange(1, j));
        assert(s.drop_first().subrange(j - 1, s.len() - 1) =~= s.subrange(j, s.len() as int));
        assert(sorted_insert(s, d) =~= s.subrange(0, j) + seq![d] + s.subrange(
            j,
            s.len() as int,
        ));
        assert forall|k: int| 0 <= k < j implies (#[trigger] s[k]).result <= d.result by {
            if k >= 1 {
                assert(s.drop_first()[k - 1] == s[k]);
                assert(s.drop_first()[k - 1].result <= d.result);
            }
        }
    } else {
        assert(sorted_insert(s, d) =~= s.subrange(0, 0) + seq![d] + s.subrange(
            0,
            s.len() as int,
        ));
    }
}

/// What insertion sort guarantees: same length, same dice as a multiset,
/// ascending order, and well-formed dice stay well-formed.
pub proof fn lemma_sort_dice_props(s: Seq<Die>)
    ensures
        sort_dice(s).len() == s.len(),
        sort_dice(s).to_multiset() =~= s.to_multiset(),
        sorted_by_result(sort_dice(s)),
        dice_ok(s) ==> dice_ok(sort_dice(s)),
    decreases s.len(),
{
    broadcast use vstd::seq_lib::group_to_multiset_ensures;

    if s.len() == 0 {
    } else {
        lemma_sort_dice_props(s.drop_last());
        let prev = sort_dice(s.drop_last());
        let d = s.last();
        lemma_sorted_insert_form(prev, d);
        let j = insert_pos(prev, d);
        let ins = sorted_insert(prev, d);
        // Length.
        assert(ins.len() == prev.len() + 1);
        // Multiset: prev split at j, with d inserted between the halves.
        let a = prev.subrange(0, j);
        let b = prev.subrange(j, prev.len() as int);
        assert(prev =~= a + b);
        lemma_multiset_commutative(a, b);
        lemma_multiset_commutative(a + seq![d], b);
        lemma_multiset_commutative(a, seq![d]);
        assert(seq![d] =~= Seq::<Die>::empty().push(d));
        assert(seq![d].to_multiset() =~= Multiset::<Die>::empty().insert(d));
        assert(ins.to_multiset() =~= prev.to_multiset().insert(d)) by {
            broadcast use vstd::multiset::group_multiset_axioms;

            assert(ins =~= (a + seq![d]) + b);
        }
        assert(s =~= s.drop_last().push(d));
        assert(s.to_multiset() =~= s.drop_last().to_multiset().insert(d));
        // Order: the split point separates faces at or below d from above.
        assert(sorted_by_result(ins)) by {
            assert(forall|k: int| 0 <= k < j ==> ins[k] == (#[trigger] a[k]));
            assert(forall|k: int|
                j + 1 <= k < ins.len() ==> ins[k] == (#[trigger] b[k - j - 1]));
            assert(forall|k: int|
                j < k < ins.len() ==> d.result <= (#[trigger] ins[k]).result) by {
                assert(forall|k: int|
                    j <= k < prev.len() ==> d.result <= (#[trigger] prev[k]).result);
            }
        }
        // Well-formed dice: every die of the sorted sequence occurs in s.
        if dice_ok(s) {
            assert(dice_ok(ins)) by {
                assert forall|i: int| 0 <= i < ins.len() implies die_ok(#[trigger] ins[i]) by {
                    assert(ins.to_multiset().count(ins[i]) > 0);
                    assert(s.to_multiset().count(ins[i]) > 0);
                    assert(s.contains(ins[i]));
                    let w = choose|w: int| 0 <= w < s.len() && s[w] == ins[i];
                    assert(die_ok(s[w]));
                }
            }
        }
    }
}

/// The scan that stops at the first face above `d`'s finds `insert_pos`.
proof fn lemma_insert_pos_unique(s: Seq<Die>, d: Die, j: int)
    requires
        0 <= j <= s.len(),
        forall|k: int| 0 <= k < j ==> (#[trigger] s[k]).result <= d.result,
        j < s.len() ==> s[j].result > d.result,
    ensures
        j == insert_pos(s, d),
    decreases s.len(),
{
    if s.len() == 0 {
    } else if s[0].result <= d.result {
        assert(j >= 1);
        lemma_insert_pos_unique(s.drop_first(), d, j - 1);
    } else {
        assert(j == 0);
    }
}

/// Sort a vector of dice ascending by showing face, stably.
fn sort_dice_exec(dice: &Vec<Die>) -> (out: Vec<Die>)
    ensures
        out@ == sort_dice(dice@),
{
    let mut out: Vec<Die> = Vec::new();
    let mut i: usize = 0;
    proof {
        assert(dice@.subrange(0, 0) =~= Seq::<Die>::empty());
    }
    while i < dice.len()
        invariant
            i <= dice@.len(),
            out@ == sort_dice(dice@.subrange(0, i as int)),
            out@.len() == i,
        decreases dice@.len() - i,
    {
        let d = dice[i];
        let mut j: usize = 0;
        while j < out.len() && out[j].result <= d.result
            invariant
                j <= out@.len(),
                forall|k: int| 0 <= k < j ==> (#[trigger] out@[k]).result <= d.result,
            decreases out@.len() - j,
        {
            j = j + 1;
        }
        proof {
            lemma_insert_pos_unique(out@, d, j as int);
            lemma_sorted_insert_form(out@, d);
        }
        let ghost prev = out@;
        out.insert(j, d);
        proof {
            assert(out@ =~= prev.subrange(0, j as int) + seq![d] + prev.subrange(
                j as int,
                prev.len() as int,
            ));
            assert(out@ == sorted_insert(prev, d));
            assert(dice@.subrange(0, i + 1).drop_last() =~= dice@.subrange(0, i as int));
            assert(dice@.subrange(0, i + 1).last() == dice@[i as int]);
        }
        i = i + 1;
    }
    proof {
        assert(dice@.subrange(0, dice@.len() as int) =~= dice@);
    }
    out
}

/// The set of dice rolled for one dice expression, with the requested count
/// and side number it was made from.
#[derive(Clone, Debug, PartialEq)]
pub struct Pool {
    number: u8,
    sides: u8,
    dice: Vec<Die>,
}

impl View for Pool {
    type V = Seq<Die>;

    closed spec fn view(&self) -> Seq<Die> {
        self.dice@
    }
}

impl Pool {
    /// Every pool operation keeps this invariant: at most 255 dice, each
    /// with at least one side and showing at least 1.
    pub open spec fn wf(&self) -> bool {
        self@.len() <= 255 && dice_ok(self@)
    }

    /// The count of dice originally requested.
    pub closed spec fn spec_number(&self) -> u8 {
        self.number
    }

    /// The side number originally requested.
    pub closed spec fn spec_sides(&self) -> u8 {
        self.sides
    }

    /// Roll a fresh pool: exactly `number` dice, each with `sides` sides and
    /// an independently drawn face in `1..=sides`.
    pub fn new(number: u8, sides: u8) -> (p: Pool)
        requires
            1 <= sides,
        ensures
            p@.len() == number,
            forall|i: int|
                0 <= i < p@.len() ==> (#[trigger] p@[i]).sides == sides && 1 <= p@[i].result
                    <= sides,
            p.spec_number() == number,
            p.spec_sides() == sides,
            p.wf(),
    {
        let mut dice = Vec::<Die>::new();
        let mut i: u8 = 0;
        while i < number
            invariant
                1 <= sides,
                i <= number,
                dice@.len() == i,
                forall|k: int|
                    0 <= k < dice@.len() ==> (#[trigger] dice@[k]).sides == sides
                        && 1 <= dice@[k].result <= sides,
            decreases number - i,
        {
            let die = Die::roll(sides);
            dice.push(die);
            i = i + 1;
        }
        Pool { number, sides, dice }
    }

    /// A pool made of the given dice, recording the given provenance. Fails
    /// exactly when the dice break the pool invariant.
    pub fn from_dice(number: u8, sides: u8, dice: Vec<Die>) -> (r: Result<Pool, RollError>)
        ensures
            r matches Ok(p) ==> {
                &&& p@ == dice@
                &&& p.spec_number() == number
                &&& p.spec_sides() == sides
                &&& p.wf()
            },
            r is Ok <==> dice@.len() <= 255 && dice_ok(dice@),
            r is Err ==> r == Err::<Pool, RollError>(RollError::ArgumentError),
    {
        if dice.len() > MAX_POOL_DICE {
            return Err(RollError::ArgumentError);
        }
        let mut i: usize = 0;
        while i < dice.len()
            invariant
                i <= dice@.len(),
                forall|k: int| 0 <= k < i ==> die_ok(#[trigger] dice@[k]),
            decreases dice@.len() - i,
        {
            if dice[i].result < 1 || dice[i].sides < 1 {
                return Err(RollError::ArgumentError);
            }
            i = i + 1;
        }
        Ok(Pool { number, sides, dice })
    }

    /// The dice of the pool, in roll order.
    pub fn dice(&self) -> (r: &Vec<Die>)
        ensures
            r@ == self@,
    {
        &self.dice
    }

    /// The count of dice originally requested. After keep or explode
    /// operations the pool may hold a different number of dice.
    pub fn number(&self) -> (r: u8)
        ensures
            r == self.spec_number(),
    {
        self.number
    }

    /// The side number originally requested.
    pub fn sides(&self) -> (r: u8)
        ensures
            r == self.spec_sides(),
    {
        self.sides
    }

    /// How many dice the pool currently holds.
    pub fn total_number(&self) -> (r: usize)
        ensures
            r == self@.len(),
    {
        self.dice.len()
    }

    /// The pool's value: the sum of the showing faces.
    pub fn total(&self) -> (r: u16)
        requires
            self.wf(),
        ensures
            r == sum_results(self@),
    {
        self.sum_sides()
    }

    /// The sum of the showing faces of all dice.
    fn sum_sides(&self) -> (r: u16)
        requires
            self.wf(),
        ensures
            r == sum_results(self@),
    {
        let mut sum: u16 = 0;
        let mut i: usize = 0;
        while i < self.dice.len()
            invariant
                self.wf(),
                i <= self@.len(),
                sum == sum_results(self@.subrange(0, i as int)),
                sum <= 255 * i,
            decreases self@.len() - i,
        {
            proof {
                assert(self@.subrange(0, i + 1).drop_last() =~= self@.subrange(0, i as int));
            }
            sum = sum + self.dice[i].result as u16;
            i = i + 1;
        }
        proof {
            assert(self@.subrange(0, self@.len() as int) =~= self@);
        }
        sum
    }

    /// The largest side count among the dice (0 for an empty pool).
    pub fn sides_max(&self) -> (r: u8)
        ensures
            r == max_sides(self@),
            forall|i: int| 0 <= i < self@.len() ==> (#[trigger] self@[i]).sides <= r,
    {
        let mut m: u8 = 0;
        let mut i: usize = 0;
        while i < self.dice.len()
            invariant
                i <= self@.len(),
                m == max_sides(self@.subrange(0, i as int)),
                forall|k: int| 0 <= k < i ==> (#[trigger] self@[k]).sides <= m,
            decreases self@.len() - i,
        {
            proof {
                assert(self@.subrange(0, i + 1).drop_last() =~= self@.subrange(0, i as int));
            }
            if self.dice[i].sides > m {
                m = self.dice[i].sides;
            }
            i = i + 1;
        }
        proof {
            assert(self@.subrange(0, self@.len() as int) =~= self@);
        }
        m
    }

    /// How many of `argument` to keep: past the pool size, the whole pool.
    pub open spec fn keep_count(argument: u8, len: nat) -> nat {
        if argument > len {
            len
        } else {
            argument as nat
        }
    }

    /// Sort the pool ascending and keep the highest `argument` dice; an
    /// argument beyond the pool size keeps the whole pool. The result is
    /// exactly the tail of the stable ascending sort.
    pub fn keep_highest(&self, argument: u8) -> (r: Pool)
        requires
            self.wf(),
        ensures
            r@ == sort_dice(self@).subrange(
                self@.len() - Pool::keep_count(argument, self@.len()),
                self@.len() as int,
            ),
            r.spec_number() == self.spec_number(),
            r.spec_sides() == self.spec_sides(),
            r.wf(),
    {
        proof {
            lemma_sort_dice_props(self@);
        }
        let sorted = sort_dice_exec(&self.dice);
        let n = self.dice.len();
        let keep: usize = if argument as usize > n {
            n
        } else {
            argument as usize
        };
        let mut kept = Vec::<Die>::new();
        let mut i: usize = n - keep;
        while i < n
            invariant
                n == sorted@.len(),
                keep <= n,
                n - keep <= i <= n,
                kept@ == sorted@.subrange(n - keep, i as int),
            decreases n - i,
        {
            proof {
                assert(sorted@.subrange(n - keep, i + 1) =~= sorted@.subrange(
                    n - keep,
                    i as int,
                ).push(sorted@[i as int]));
            }
            kept.push(sorted[i]);
            i = i + 1;
        }
        Pool { number: self.number, sides: self.sides, dice: kept }
    }

    /// Sort the pool ascending and keep the lowest `argument` dice; an
    /// argument beyond the pool size keeps the whole pool. The result is
    /// exactly the head of the stable ascending sort.
    pub fn keep_lowest(&self, argument: u8) -> (r: Pool)
        requires
            self.wf(),
        ensures
            r@ == sort_dice(self@).subrange(
                0,
                Pool::keep_count(argument, self@.len()) as int,
            ),
            r.spec_number() == self.spec_number(),
            r.spec_sides() == self.spec_sides(),
            r.wf(),
    {
        proof {
            lemma_sort_dice_props(self@);
        }
        let sorted = sort_dice_exec(&self.dice);
        let n = self.dice.len();
        let keep: usize = if argument as usize > n {
            n
        } else {
            argument as usize
        };
        let mut kept = Vec::<Die>::new();
        let mut i: usize = 0;
        while i < keep
            invariant
                n == sorted@.len(),
                keep <= n,
                i <= keep,
                kept@ == sorted@.subrange(0, i as int),
            decreases keep - i,
        {
            proof {
                assert(sorted@.subrange(0, i + 1) =~= sorted@.subrange(0, i as int).push(
                    sorted@[i as int],
                ));
            }
            kept.push(sorted[i]);
            i = i + 1;
        }
        Pool { number: self.number, sides: self.sides, dice: kept }
    }

    /// Keep every die whose face is listed in `vals`, in order.
    pub fn keep_exact(&self, vals: &Vec<u8>) -> (r: Pool)
        requires
            self.wf(),
        ensures
            r@ == filter_matching(self@, vals@),
            r.spec_number() == self.spec_number(),
            r.spec_sides() == self.spec_sides(),
            r.wf(),
    {
        proof {
            lemma_filter_matching_props(self@, vals@);
        }
        let mut kept = Vec::<Die>::new();
        let mut i: usize = 0;
        while i < self.dice.len()
            invariant
                i <= self@.len(),
                kept@ == filter_matching(self@.subrange(0, i as int), vals@),
            decreases self@.len() - i,
        {
            proof {
                assert(self@.subrange(0, i + 1).drop_last() =~= self@.subrange(0, i as int));
                assert(self@.subrange(0, i + 1).last() == self@[i as int]);
            }
            if contains_val(vals, self.dice[i].result) {
                kept.push(self.dice[i]);
                proof {
                    assert(kept@ =~= filter_matching(self@.subrange(0, i as int), vals@)
                        + seq![self@[i as int]]);
                }
            } else {
                proof {
                    assert(kept@ =~= filter_matching(self@.subrange(0, i as int), vals@)
                        + Seq::<Die>::empty());
                }
            }
            i = i + 1;
        }
        proof {
            assert(self@.subrange(0, self@.len() as int) =~= self@);
        }
        Pool { number: self.number, sides: self.sides, dice: kept }
    }

    /// How many dice show `threshold` or more.
    pub fn count_dice_over(&self, threshold: u8) -> (r: usize)
        ensures
            r == count_geq(self@, threshold),
    {
        proof {
            lemma_count_geq_bound(self@, threshold);
        }
        let mut count: usize = 0;
        let mut i: usize = 0;
        while i < self.dice.len()
            invariant
                i <= self@.len(),
                count == count_geq(self@.subrange(0, i as int), threshold),
                count <= i,
            decreases self@.len() - i,
        {
            proof {
                assert(self@.subrange(0, i + 1).drop_last() =~= self@.subrange(0, i as int));
            }
            if self.dice[i].result >= threshold {
                count = count + 1;
            }
            i = i + 1;
        }
        proof {
            assert(self@.subrange(0, self@.len() as int) =~= self@);
        }
        count
    }

    /// How many dice show `threshold` or less.
    pub fn count_dice_under(&self, threshold: u8) -> (r: usize)
        ensures
            r == count_leq(self@, threshold),
    {
        let mut count: usize = 0;
        let mut i: usize = 0;
        while i < self.dice.len()
            invariant
                i <= self@.len(),
                count == count_leq(self@.subrange(0, i as int), threshold),
                count <= i,
            decreases self@.len() - i,
        {
            proof {
                assert(self@.subrange(0, i + 1).drop_last() =~= self@.subrange(0, i as int));
            }
            if self.dice[i].result <= threshold {
                count = count + 1;
            }
            i = i + 1;
        }
        proof {
            assert(self@.subrange(0, self@.len() as int) =~= self@);
        }
        count
    }

    /// Sum, over every die, the per-face success table entry for its face:
    /// entry `result - 1` of `tns`. The table must cover every face shown.
    pub fn count_successes(&self, tns: &Vec<u8>) -> (r: u16)
        requires
            self.wf(),
            forall|i: int| 0 <= i < self@.len() ==> (#[trigger] self@[i]).result <= tns@.len(),
        ensures
            r == sum_successes(self@, tns@),
    {
        let mut sum: u16 = 0;
        let mut i: usize = 0;
        while i < self.dice.len()
            invariant
                self.wf(),
                forall|k: int|
                    0 <= k < self@.len() ==> (#[trigger] self@[k]).result <= tns@.len(),
                i <= self@.len(),
                sum == sum_successes(self@.subrange(0, i as int), tns@),
                sum <= 255 * i,
            decreases self@.len() - i,
    {
            proof {
                assert(self@.subrange(0, i + 1).drop_last() =~= self@.subrange(0, i as int));
                assert(self@.subrange(0, i + 1).last() == self@[i as int]);
            }
            sum = sum + self.dice[i].count_successes(tns) as u16;
            i = i + 1;
        }
        proof {
            assert(self@.subrange(0, self@.len() as int) =~= self@);
        }
        sum
    }

    /// Concatenate two pools. The requested count adds (saturating at 255);
    /// the requested side number is the larger of the two.
    pub fn add(&self, other: &Pool) -> (r: Pool)
        requires
            self.wf(),
            other.wf(),
            self@.len() + other@.len() <= 255,
        ensures
            r@ == self@ + other@,
            r.wf(),
            r.spec_sides() == if self.spec_sides() >= other.spec_sides() {
                self.spec_sides()
            } else {
                other.spec_sides()
            },
    {
        let number = if self.number as u16 + other.number as u16 > 255 {
            255u8
        } else {
            self.number + other.number
        };
        let sides = if self.sides >= other.sides {
            self.sides
        } else {
            other.sides
        };
        let mut dice = self.dice.clone();
        let mut i: usize = 0;
        proof {
            assert(dice@ =~= self@ + other@.subrange(0, 0));
        }
        while i < other.dice.len()
            invariant
                i <= other@.len(),
                dice@ == self@ + other@.subrange(0, i as int),
            decreases other@.len() - i,
        {
            dice.push(other.dice[i]);
            proof {
                assert(self@ + other@.subrange(0, i + 1) =~= (self@ + other@.subrange(
                    0,
                    i as int,
                )).push(other@[i as int]));
            }
            i = i + 1;
        }
        proof {
            assert(other@.subrange(0, other@.len() as int) =~= other@);
        }
        Pool { number, sides, dice }
    }

    /// Clamp every face at most `cap` (at least 1, so faces stay valid).
    pub fn cap_max(&self, cap: u8) -> (r: Pool)
        requires
            self.wf(),
            1 <= cap,
        ensures
            r@.len() == self@.len(),
            forall|i: int|
                0 <= i < self@.len() ==> {
                    &&& (#[trigger] r@[i]).sides == self@[i].sides
                    &&& r@[i].result == if self@[i].result > cap {
                        cap
                    } else {
                        self@[i].result
                    }
                },
            r.spec_number() == self.spec_number(),
            r.spec_sides() == self.spec_sides(),
            r.wf(),
    {
        let mut dice = Vec::<Die>::new();
        let mut i: usize = 0;
        while i < self.dice.len()
            invariant
                self.wf(),
                1 <= cap,
                i <= self@.len(),
                dice@.len() == i,
                forall|k: int|
                    0 <= k < i ==> {
                        &&& (#[trigger] dice@[k]).sides == self@[k].sides
                        &&& dice@[k].result == if self@[k].result > cap {
                            cap
                        } else {
                            self@[k].result
                        }
                        &&& die_ok(dice@[k])
                    },
            decreases self@.len() - i,
        {
            let d = self.dice[i];
            let result = if d.result > cap {
                cap
            } else {
                d.result
            };
            dice.push(Die { sides: d.sides, result });
            i = i + 1;
        }
        Pool { number: self.number, sides: self.sides, dice }
    }

    /// Raise every face to at least `floor`.
    pub fn cap_min(&self, floor: u8) -> (r: Pool)
        requires
            self.wf(),
            1 <= floor,
        ensures
            r@.len() == self@.len(),
            forall|i: int|
                0 <= i < self@.len() ==> {
                    &&& (#[trigger] r@[i]).sides == self@[i].sides
                    &&& r@[i].result == if self@[i].result < floor {
                        floor
                    } else {
                        self@[i].result
                    }
                },
            r.spec_number() == self.spec_number(),
            r.spec_sides() == self.spec_sides(),
            r.wf(),
    {
        let mut dice = Vec::<Die>::new();
        let mut i: usize = 0;
        while i < self.dice.len()
            invariant
                self.wf(),
                1 <= floor,
                i <= self@.len(),
                dice@.len() == i,
                forall|k: int|
                    0 <= k < i ==> {
                        &&& (#[trigger] dice@[k]).sides == self@[k].sides
                        &&& dice@[k].result == if self@[k].result < floor {
                            floor
                        } else {
                            self@[k].result
                        }
                        &&& die_ok(dice@[k])
                    },
            decreases self@.len() - i,
        {
            let d = self.dice[i];
            let result = if d.result < floor {
                floor
            } else {
                d.result
            };
            dice.push(Die { sides: d.sides, result });
            i = i + 1;
        }
        Pool { number: self.number, sides: self.sides, dice }
    }
}

/// Law: for any `k` up to the pool size, `keep_lowest(n - k)` and
/// `keep_highest(k)` partition the sorted pool. By their contracts the two
/// calls return exactly `sort_dice(s).subrange(0, n - k)` and
/// `sort_dice(s).subrange(n - k, n)`; those two pieces concatenate back to
/// the whole sorted sequence, which holds the same dice as the original
/// pool as a multiset — so the two kept pools share no die and together
/// cover the pool.
pub proof fn lemma_keep_partition(s: Seq<Die>, k: int)
    requires
        0 <= k <= s.len(),
    ensures
        sort_dice(s).subrange(0, s.len() - k) + sort_dice(s).subrange(
            s.len() - k,
            s.len() as int,
        ) =~= sort_dice(s),
        sort_dice(s).to_multiset() =~= s.to_multiset(),
        sort_dice(s).len() == s.len(),
{
    lemma_sort_dice_props(s);
}

/// The dice of a list of pools, concatenated in order.
pub open spec fn pools_concat(ps: Seq<Pool>) -> Seq<Die>
    decreases ps.len(),
{
    if ps.len() == 0 {
        Seq::empty()
    } else {
        pools_concat(ps.drop_last()) + ps.last()@
    }
}

impl Pool {
    /// A pool with the same dice and provenance.
    pub fn duplicate(&self) -> (r: Pool)
        ensures
            r@ == self@,
            r.spec_number() == self.spec_number(),
            r.spec_sides() == self.spec_sides(),
    {
        Pool { number: self.number, sides: self.sides, dice: copy_dice(&self.dice) }
    }

    /// Redraw every die in place.
    pub fn reroll_all(&mut self)
        requires
            old(self).wf(),
        ensures
            final(self)@.len() == old(self)@.len(),
            forall|i: int|
                0 <= i < final(self)@.len() ==> {
                    &&& (#[trigger] final(self)@[i]).sides == old(self)@[i].sides
                    &&& 1 <= final(self)@[i].result <= final(self)@[i].sides
                },
            final(self).spec_number() == old(self).spec_number(),
            final(self).spec_sides() == old(self).spec_sides(),
            final(self).wf(),
    {
        let mut i: usize = 0;
        while i < self.dice.len()
            invariant
                i <= self.dice@.len(),
                self.dice@.len() == old(self)@.len(),
                self.number == old(self).spec_number(),
                self.sides == old(self).spec_sides(),
                forall|k: int|
                    i <= k < self.dice@.len() ==> (#[trigger] self.dice@[k]) == old(self)@[k],
                forall|k: int|
                    0 <= k < i ==> {
                        &&& (#[trigger] self.dice@[k]).sides == old(self)@[k].sides
                        &&& 1 <= self.dice@[k].result <= self.dice@[k].sides
                    },
                dice_ok(old(self)@),
            decreases self.dice@.len() - i,
        {
            let mut d = self.dice[i];
            d.reroll();
            self.dice.set(i, d);
            i = i + 1;
        }
    }

    /// Redraw, in place, every die showing exactly `n`.
    pub fn reroll_n(&mut self, n: u8)
        requires
            old(self).wf(),
        ensures
            final(self)@.len() == old(self)@.len(),
            forall|i: int|
                0 <= i < final(self)@.len() && old(self)@[i].result != n ==> (#[trigger] final(self)@[i]) == old(self)@[i],
            forall|i: int|
                0 <= i < final(self)@.len() && old(self)@[i].result == n ==> {
                    &&& (#[trigger] final(self)@[i]).sides == old(self)@[i].sides
                    &&& 1 <= final(self)@[i].result <= final(self)@[i].sides
                },
            final(self).spec_number() == old(self).spec_number(),
            final(self).spec_sides() == old(self).spec_sides(),
            final(self).wf(),
    {
        let mut i: usize = 0;
        while i < self.dice.len()
            invariant
                i <= self.dice@.len(),
                self.dice@.len() == old(self)@.len(),
                self.number == old(self).spec_number(),
                self.sides == old(self).spec_sides(),
                forall|k: int|
                    i <= k < self.dice@.len() ==> (#[trigger] self.dice@[k]) == old(self)@[k],
                forall|k: int|
                    0 <= k < i && old(self)@[k].result != n ==> (#[trigger] self.dice@[k]) == old(self)@[k],
                forall|k: int|
                    0 <= k < i && old(self)@[k].result == n ==> {
                        &&& (#[trigger] self.dice@[k]).sides == old(self)@[k].sides
                        &&& 1 <= self.dice@[k].result <= self.dice@[k].sides
                    },
                dice_ok(old(self)@),
            decreases self.dice@.len() - i,
        {
            if self.dice[i].result == n {
                let mut d = self.dice[i];
                d.reroll();
                self.dice.set(i, d);
            }
            i = i + 1;
        }
    }

    /// Redraw, in place, every die showing `n` or less.
    fn reroll_n_or_less(&mut self, n: u8)
        requires
            old(self).wf(),
        ensures
            final(self)@.len() == old(self)@.len(),
            forall|i: int|
                0 <= i < final(self)@.len() && old(self)@[i].result > n ==> (#[trigger] final(self)@[i]) == old(self)@[i],
            forall|i: int|
                0 <= i < final(self)@.len() && old(self)@[i].result <= n ==> {
                    &&& (#[trigger] final(self)@[i]).sides == old(self)@[i].sides
                    &&& 1 <= final(self)@[i].result <= final(self)@[i].sides
                },
            final(self).spec_number() == old(self).spec_number(),
            final(self).spec_sides() == old(self).spec_sides(),
            final(self).wf(),
    {
        let mut i: usize = 0;
        while i < self.dice.len()
            invariant
                i <= self.dice@.len(),
                self.dice@.len() == old(self)@.len(),
                self.number == old(self).spec_number(),
                self.sides == old(self).spec_sides(),
                forall|k: int|
                    i <= k < self.dice@.len() ==> (#[trigger] self.dice@[k]) == old(self)@[k],
                forall|k: int|
                    0 <= k < i && old(self)@[k].result > n ==> (#[trigger] self.dice@[k]) == old(self)@[k],
                forall|k: int|
                    0 <= k < i && old(self)@[k].result <= n ==> {
                        &&& (#[trigger] self.dice@[k]).sides == old(self)@[k].sides
                        &&& 1 <= self.dice@[k].result <= self.dice@[k].sides
                    },
                dice_ok(old(self)@),
            decreases self.dice@.len() - i,
        {
            if self.dice[i].result <= n {
                let mut d = self.dice[i];
                d.reroll();
                self.dice.set(i, d);
            }
            i = i + 1;
        }
    }

    /// Redraw, in place, every die showing `n` or more.
    fn reroll_n_or_higher(&mut self, n: u8)
        requires
            old(self).wf(),
        ensures
            final(self)@.len() == old(self)@.len(),
            forall|i: int|
                0 <= i < final(self)@.len() && old(self)@[i].result < n ==> (#[trigger] final(self)@[i]) == old(self)@[i],
            forall|i: int|
                0 <= i < final(self)@.len() && old(self)@[i].result >= n ==> {
                    &&& (#[trigger] final(self)@[i]).sides == old(self)@[i].sides
                    &&& 1 <= final(self)@[i].result <= final(self)@[i].sides
                },
            final(self).spec_number() == old(self).spec_number(),
            final(self).spec_sides() == old(self).spec_sides(),
            final(self).wf(),
    {
        let mut i: usize = 0;
        while i < self.dice.len()
            invariant
                i <= self.dice@.len(),
                self.dice@.len() == old(self)@.len(),
                self.number == old(self).spec_number(),
                self.sides == old(self).spec_sides(),
                forall|k: int|
                    i <= k < self.dice@.len() ==> (#[trigger] self.dice@[k]) == old(self)@[k],
                forall|k: int|
                    0 <= k < i && old(self)@[k].result < n ==> (#[trigger] self.dice@[k]) == old(self)@[k],
                forall|k: int|
                    0 <= k < i && old(self)@[k].result >= n ==> {
                        &&& (#[trigger] self.dice@[k]).sides == old(self)@[k].sides
                        &&& 1 <= self.dice@[k].result <= self.dice@[k].sides
                    },
                dice_ok(old(self)@),
            decreases self.dice@.len() - i,
        {
            if self.dice[i].result >= n {
                let mut d = self.dice[i];
                d.reroll();
                self.dice.set(i, d);
            }
            i = i + 1;
        }
    }

    /// Reroll, once, every die whose face is listed in `vals`, keeping the
    /// new result unconditionally. The first pool returned is the outcome;
    /// the second holds exactly one freshly drawn die per matching die, in
    /// order — no die is ever redrawn twice, even if its new face matches.
    pub fn rerolled_once(&self, vals: &Vec<u8>) -> (r: (Pool, Pool))
        requires
            self.wf(),
        ensures
            r.0@.len() == self@.len(),
            forall|i: int|
                0 <= i < self@.len() && !vals@.contains(self@[i].result) ==> (#[trigger] r.0@[i])
                    == self@[i],
            forall|i: int|
                0 <= i < self@.len() && vals@.contains(self@[i].result) ==> {
                    &&& (#[trigger] r.0@[i]).sides == self@[i].sides
                    &&& 1 <= r.0@[i].result <= r.0@[i].sides
                },
            r.1@.len() == count_matching(self@, vals@),
            forall|i: int|
                0 <= i < self@.len() && vals@.contains(self@[i].result) ==> (#[trigger] r.0@[i])
                    == r.1@[count_matching(self@.subrange(0, i), vals@)],
            r.0.spec_number() == self.spec_number(),
            r.0.spec_sides() == self.spec_sides(),
            r.0.wf(),
            r.1.wf(),
    {
        proof {
            lemma_filter_matching_props(self@, vals@);
        }
        let mut out = Vec::<Die>::new();
        let mut rer = Vec::<Die>::new();
        let mut i: usize = 0;
        while i < self.dice.len()
            invariant
                self.wf(),
                i <= self@.len(),
                out@.len() == i,
                forall|k: int|
                    0 <= k < i && !vals@.contains(self@[k].result) ==> (#[trigger] out@[k])
                        == self@[k],
                forall|k: int|
                    0 <= k < i && vals@.contains(self@[k].result) ==> {
                        &&& (#[trigger] out@[k]).sides == self@[k].sides
                        &&& 1 <= out@[k].result <= out@[k].sides
                    },
                forall|k: int|
                    0 <= k < i && vals@.contains(self@[k].result) ==> (#[trigger] out@[k])
                        == rer@[count_matching(self@.subrange(0, k), vals@)],
                rer@.len() == count_matching(self@.subrange(0, i as int), vals@),
                dice_ok(rer@),
                rer@.len() <= i,
            decreases self@.len() - i,
        {
            proof {
                assert(self@.subrange(0, i + 1).drop_last() =~= self@.subrange(0, i as int));
                assert(self@.subrange(0, i + 1).last() == self@[i as int]);
                assert forall|k: int|
                    0 <= k < i && vals@.contains(self@[k].result) implies count_matching(
                    self@.subrange(0, k),
                    vals@,
                ) < count_matching(self@.subrange(0, i as int), vals@) by {
                    lemma_count_matching_step(self@, vals@, k);
                    lemma_count_matching_mono(self@, vals@, k + 1, i as int);
                }
            }
            let d = self.dice[i];
            if contains_val(vals, d.result) {
                let nd = Die::roll(d.sides);
                out.push(nd);
                rer.push(nd);
            } else {
                out.push(d);
            }
            i = i + 1;
        }
        proof {
            assert(self@.subrange(0, self@.len() as int) =~= self@);
        }
        let outcome = Pool { number: self.number, sides: self.sides, dice: out };
        let rerolls = Pool { number: rer.len() as u8, sides: self.sides, dice: rer };
        (outcome, rerolls)
    }

    /// Reroll every matching die once and keep, per die, the higher of the
    /// original and the new result. The second pool holds the fresh draws.
    pub fn rerolled_better(&self, vals: &Vec<u8>) -> (r: (Pool, Pool))
        requires
            self.wf(),
        ensures
            r.0@.len() == self@.len(),
            forall|i: int|
                0 <= i < self@.len() && !vals@.contains(self@[i].result) ==> (#[trigger] r.0@[i])
                    == self@[i],
            forall|i: int|
                0 <= i < self@.len() && vals@.contains(self@[i].result) ==> {
                    &&& (#[trigger] r.0@[i]).sides == self@[i].sides
                    &&& r.0@[i].result >= self@[i].result
                    &&& (r.0@[i].result == self@[i].result || r.0@[i].result <= self@[i].sides)
                },
            r.1@.len() == count_matching(self@, vals@),
            forall|i: int|
                0 <= i < self@.len() && vals@.contains(self@[i].result) ==> {
                    &&& (#[trigger] r.1@[count_matching(self@.subrange(0, i), vals@)]).sides
                        == self@[i].sides
                    &&& r.0@[i].result == (if r.1@[count_matching(self@.subrange(0, i), vals@)].result
                        > self@[i].result {
                        r.1@[count_matching(self@.subrange(0, i), vals@)].result
                    } else {
                        self@[i].result
                    })
                },
            r.0.spec_number() == self.spec_number(),
            r.0.spec_sides() == self.spec_sides(),
            r.0.wf(),
            r.1.wf(),
    {
        proof {
            lemma_filter_matching_props(self@, vals@);
        }
        let mut out = Vec::<Die>::new();
        let mut rer = Vec::<Die>::new();
        let mut i: usize = 0;
        while i < self.dice.len()
            invariant
                self.wf(),
                i <= self@.len(),
                out@.len() == i,
                forall|k: int|
                    0 <= k < i && !vals@.contains(self@[k].result) ==> (#[trigger] out@[k])
                        == self@[k],
                forall|k: int|
                    0 <= k < i && vals@.contains(self@[k].result) ==> {
                        &&& (#[trigger] out@[k]).sides == self@[k].sides
                        &&& out@[k].result >= self@[k].result
                        &&& (out@[k].result == self@[k].result || out@[k].result <= self@[k].sides)
                    },
                forall|k: int|
                    0 <= k < i && vals@.contains(self@[k].result) ==> {
                        &&& (#[trigger] rer@[count_matching(self@.subrange(0, k), vals@)]).sides
                            == self@[k].sides
                        &&& out@[k].result == (if rer@[count_matching(
                            self@.subrange(0, k),
                            vals@,
                        )].result > self@[k].result {
                            rer@[count_matching(self@.subrange(0, k), vals@)].result
                        } else {
                            self@[k].result
                        })
                    },
                dice_ok(out@),
                rer@.len() == count_matching(self@.subrange(0, i as int), vals@),
                dice_ok(rer@),
                rer@.len() <= i,
            decreases self@.len() - i,
        {
            proof {
                assert(self@.subrange(0, i + 1).drop_last() =~= self@.subrange(0, i as int));
                assert(self@.subrange(0, i + 1).last() == self@[i as int]);
                assert forall|k: int|
                    0 <= k < i && vals@.contains(self@[k].result) implies count_matching(
                    self@.subrange(0, k),
                    vals@,
                ) < count_matching(self@.subrange(0, i as int), vals@) by {
                    lemma_count_matching_step(self@, vals@, k);
                    lemma_count_matching_mono(self@, vals@, k + 1, i as int);
                }
            }
            let d = self.dice[i];
            if contains_val(vals, d.result) {
                let nd = Die::roll(d.sides);
                rer.push(nd);
                if nd.result > d.result {
                    out.push(Die { sides: d.sides, result: nd.result });
                } else {
                    out.push(d);
                }
            } else {
                out.push(d);
            }
            i = i + 1;
        }
        proof {
            assert(self@.subrange(0, self@.len() as int) =~= self@);
        }
        let outcome = Pool { number: self.number, sides: self.sides, dice: out };
        let rerolls = Pool { number: rer.len() as u8, sides: self.sides, dice: rer };
        (outcome, rerolls)
    }

    /// Reroll every matching die once and keep, per die, the lower of the
    /// original and the new result. The second pool holds the fresh draws.
    pub fn rerolled_worse(&self, vals: &Vec<u8>) -> (r: (Pool, Pool))
        requires
            self.wf(),
        ensures
            r.0@.len() == self@.len(),
            forall|i: int|
                0 <= i < self@.len() && !vals@.contains(self@[i].result) ==> (#[trigger] r.0@[i])
                    == self@[i],
            forall|i: int|
                0 <= i < self@.len() && vals@.contains(self@[i].result) ==> {
                    &&& (#[trigger] r.0@[i]).sides == self@[i].sides
                    &&& r.0@[i].result <= self@[i].result
                    &&& 1 <= r.0@[i].result
                },
            r.1@.len() == count_matching(self@, vals@),
            forall|i: int|
                0 <= i < self@.len() && vals@.contains(self@[i].result) ==> {
                    &&& (#[trigger] r.1@[count_matching(self@.subrange(0, i), vals@)]).sides
                        == self@[i].sides
                    &&& r.0@[i].result == (if r.1@[count_matching(self@.subrange(0, i), vals@)].result
                        < self@[i].result {
                        r.1@[count_matching(self@.subrange(0, i), vals@)].result
                    } else {
                        self@[i].result
                    })
                },
            r.0.spec_number() == self.spec_number(),
            r.0.spec_sides() == self.spec_sides(),
            r.0.wf(),
            r.1.wf(),
    {
        proof {
            lemma_filter_matching_props(self@, vals@);
        }
        let mut out = Vec::<Die>::new();
        let mut rer = Vec::<Die>::new();
        let mut i: usize = 0;
        while i < self.dice.len()
            invariant
                self.wf(),
                i <= self@.len(),
                out@.len() == i,
                forall|k: int|
                    0 <= k < i && !vals@.contains(self@[k].result) ==> (#[trigger] out@[k])
                        == self@[k],
                forall|k: int|
                    0 <= k < i && vals@.contains(self@[k].result) ==> {
                        &&& (#[trigger] out@[k]).sides == self@[k].sides
                        &&& out@[k].result <= self@[k].result
                        &&& 1 <= out@[k].result
                    },
                forall|k: int|
                    0 <= k < i && vals@.contains(self@[k].result) ==> {
                        &&& (#[trigger] rer@[count_matching(self@.subrange(0, k), vals@)]).sides
                            == self@[k].sides
                        &&& out@[k].result == (if rer@[count_matching(
                            self@.subrange(0, k),
                            vals@,
                        )].result < self@[k].result {
                            rer@[count_matching(self@.subrange(0, k), vals@)].result
                        } else {
                            self@[k].result
                        })
                    },
                dice_ok(out@),
                rer@.len() == count_matching(self@.subrange(0, i as int), vals@),
                dice_ok(rer@),
                rer@.len() <= i,
            decreases self@.len() - i,
        {
            proof {
                assert(self@.subrange(0, i + 1).drop_last() =~= self@.subrange(0, i as int));
                assert(self@.subrange(0, i + 1).last() == self@[i as int]);
                assert forall|k: int|
                    0 <= k < i && vals@.contains(self@[k].result) implies count_matching(
                    self@.subrange(0, k),
                    vals@,
                ) < count_matching(self@.subrange(0, i as int), vals@) by {
                    lemma_count_matching_step(self@, vals@, k);
                    lemma_count_matching_mono(self@, vals@, k + 1, i as int);
                }
            }
            let d = self.dice[i];
            if contains_val(vals, d.result) {
                let nd = Die::roll(d.sides);
                rer.push(nd);
                if nd.result < d.result {
                    out.push(Die { sides: d.sides, result: nd.result });
                } else {
                    out.push(d);
                }
            } else {
                out.push(d);
            }
            i = i + 1;
        }
        proof {
            assert(self@.subrange(0, self@.len() as int) =~= self@);
        }
        let outcome = Pool { number: self.number, sides: self.sides, dice: out };
        let rerolls = Pool { number: rer.len() as u8, sides: self.sides, dice: rer };
        (outcome, rerolls)
    }

    /// Reroll every matching die repeatedly until its face no longer
    /// matches, redrawing each die at most `sides` times as the explicit
    /// safety bound (a die whose every face matches would otherwise never
    /// settle). The second pool holds the last draw of each matching die.
    pub fn rerolled_recursive(&self, vals: &Vec<u8>) -> (r: (Pool, Pool))
        requires
            self.wf(),
        ensures
            r.0@.len() == self@.len(),
            forall|i: int|
                0 <= i < self@.len() && !vals@.contains(self@[i].result) ==> (#[trigger] r.0@[i])
                    == self@[i],
            forall|i: int|
                0 <= i < self@.len() && vals@.contains(self@[i].result) ==> {
                    &&& (#[trigger] r.0@[i]).sides == self@[i].sides
                    &&& 1 <= r.0@[i].result <= r.0@[i].sides
                },
            r.1@.len() == count_matching(self@, vals@),
            forall|i: int|
                0 <= i < self@.len() && vals@.contains(self@[i].result) ==> (#[trigger] r.0@[i])
                    == r.1@[count_matching(self@.subrange(0, i), vals@)],
            r.0.spec_number() == self.spec_number(),
            r.0.spec_sides() == self.spec_sides(),
            r.0.wf(),
            r.1.wf(),
    {
        proof {
            lemma_filter_matching_props(self@, vals@);
        }
        let mut out = Vec::<Die>::new();
        let mut rer = Vec::<Die>::new();
        let mut i: usize = 0;
        while i < self.dice.len()
            invariant
                self.wf(),
                i <= self@.len(),
                out@.len() == i,
                forall|k: int|
                    0 <= k < i && !vals@.contains(self@[k].result) ==> (#[trigger] out@[k])
                        == self@[k],
                forall|k: int|
                    0 <= k < i && vals@.contains(self@[k].result) ==> {
                        &&& (#[trigger] out@[k]).sides == self@[k].sides
                        &&& 1 <= out@[k].result <= out@[k].sides
                    },
                forall|k: int|
                    0 <= k < i && vals@.contains(self@[k].result) ==> (#[trigger] out@[k])
                        == rer@[count_matching(self@.subrange(0, k), vals@)],
                dice_ok(out@),
                rer@.len() == count_matching(self@.subrange(0, i as int), vals@),
                dice_ok(rer@),
                rer@.len() <= i,
            decreases self@.len() - i,
        {
            proof {
                assert(self@.subrange(0, i + 1).drop_last() =~= self@.subrange(0, i as int));
                assert(self@.subrange(0, i + 1).last() == self@[i as int]);
                assert forall|k: int|
                    0 <= k < i && vals@.contains(self@[k].result) implies count_matching(
                    self@.subrange(0, k),
                    vals@,
                ) < count_matching(self@.subrange(0, i as int), vals@) by {
                    lemma_count_matching_step(self@, vals@, k);
                    lemma_count_matching_mono(self@, vals@, k + 1, i as int);
                }
            }
            let d = self.dice[i];
            if contains_val(vals, d.result) {
                let mut nd = Die::roll(d.sides);
                let mut attempts: u8 = 1;
                while attempts < d.sides && contains_val(vals, nd.result)
                    invariant
                        1 <= d.sides,
                        nd.sides == d.sides,
                        1 <= nd.result <= nd.sides,
                        attempts <= d.sides,
                    decreases d.sides - attempts,
                {
                    nd = Die::roll(d.sides);
                    attempts = attempts + 1;
                }
                out.push(nd);
                rer.push(nd);
            } else {
                out.push(d);
            }
            i = i + 1;
        }
        proof {
            assert(self@.subrange(0, self@.len() as int) =~= self@);
        }
        let outcome = Pool { number: self.number, sides: self.sides, dice: out };
        let rerolls = Pool { number: rer.len() as u8, sides: self.sides, dice: rer };
        (outcome, rerolls)
    }
}

impl Pool {
    /// Explode the pool: every die whose face is listed in `vals` spawns one
    /// fresh die with the same side count; with `recursive`, newly spawned
    /// dice keep spawning while they match. The result lists the
    /// generations, base pool first. Explosion stops once the generations
    /// together hold 255 dice — the explicit safety bound that keeps a pool
    /// of always-matching dice finite.
    pub fn explode_matching(&self, vals: &Vec<u8>, recursive: bool) -> (r: Vec<Pool>)
        requires
            self.wf(),
        ensures
            r@.len() >= 1,
            r@[0]@ == self@,
            r@[0].spec_number() == self.spec_number(),
            r@[0].spec_sides() == self.spec_sides(),
            forall|g: int| 0 <= g < r@.len() ==> (#[trigger] r@[g]).wf(),
            forall|g: int| 1 <= g < r@.len() ==> (#[trigger] r@[g])@.len() >= 1,
            forall|g: int, i: int|
                1 <= g < r@.len() && 0 <= i < r@[g]@.len() ==> 1 <= (#[trigger] r@[g]@[i]).result
                    <= r@[g]@[i].sides,
            pools_concat(r@).len() <= 255,
            r@.len() <= 256,
            !recursive ==> r@.len() <= 2,
            (!recursive && r@.len() == 2) ==> r@[1]@.len() == (if count_matching(self@, vals@)
                <= 255 - self@.len() {
                count_matching(self@, vals@)
            } else {
                255 - self@.len()
            }),
            (!recursive && r@.len() == 2) ==> forall|j: int|
                0 <= j < r@[1]@.len() ==> (#[trigger] r@[1]@[j]).sides == filter_matching(
                    self@,
                    vals@,
                )[j].sides,
            !recursive ==> (r@.len() == 2 <==> (count_matching(self@, vals@) > 0 && self@.len()
                < 255)),
    {
        let mut res: Vec<Pool> = Vec::new();
        res.push(self.duplicate());
        let mut total: usize = self.dice.len();
        let mut current: Vec<Die> = copy_dice(&self.dice);
        let mut go: bool = true;
        let ghost mut is_base = true;
        proof {
            let e = Seq::<Pool>::empty();
            assert(pools_concat(e) =~= Seq::<Die>::empty());
            assert(res@.drop_last() =~= e);
            assert(pools_concat(res@) =~= pools_concat(res@.drop_last()) + res@.last()@);
            assert(pools_concat(res@) =~= self@);
        }
        while go
            invariant
                self.wf(),
                dice_ok(current@),
                total <= 255,
                self@.len() <= total,
                res@.len() >= 1,
                res@[0]@ == self@,
                res@[0].spec_number() == self.spec_number(),
                res@[0].spec_sides() == self.spec_sides(),
                forall|g: int| 0 <= g < res@.len() ==> (#[trigger] res@[g]).wf(),
                forall|g: int| 1 <= g < res@.len() ==> (#[trigger] res@[g])@.len() >= 1,
                forall|g: int, i: int|
                    1 <= g < res@.len() && 0 <= i < res@[g]@.len() ==> 1 <= (#[trigger] res@[g]@[i]).result <= res@[g]@[i].sides,
                pools_concat(res@).len() == total,
                res@.len() <= 1 + total - self@.len(),
                is_base <==> res@.len() == 1,
                is_base ==> current@ == self@ && total == self@.len(),
                !recursive ==> res@.len() <= 2,
                (!recursive && !is_base) ==> !go,
                (!recursive && res@.len() == 2) ==> res@[1]@.len() == (if count_matching(
                    self@,
                    vals@,
                ) <= 255 - self@.len() {
                    count_matching(self@, vals@)
                } else {
                    255 - self@.len()
                }),
                (!recursive && res@.len() == 2) ==> forall|j: int|
                    0 <= j < res@[1]@.len() ==> (#[trigger] res@[1]@[j]).sides == filter_matching(
                        self@,
                        vals@,
                    )[j].sides,
                (!go && res@.len() == 1) ==> (count_matching(self@, vals@) == 0 || self@.len()
                    >= 255),
            decreases 255 - total, (if go { 1int } else { 0int }),
        {
            let ghost start_total = total;
            let mut gen: Vec<Die> = Vec::new();
            let mut i: usize = 0;
            while i < current.len()
                invariant
                    dice_ok(current@),
                    i <= current@.len(),
                    total == start_total + gen@.len(),
                    total <= 255,
                    gen@.len() == (if count_matching(current@.subrange(0, i as int), vals@)
                        <= 255 - start_total {
                        count_matching(current@.subrange(0, i as int), vals@)
                    } else {
                        255 - start_total
                    }),
                    forall|j: int|
                        0 <= j < gen@.len() ==> (#[trigger] gen@[j]).sides == filter_matching(
                            current@.subrange(0, i as int),
                            vals@,
                        )[j].sides,
                    forall|k: int|
                        0 <= k < gen@.len() ==> 1 <= (#[trigger] gen@[k]).result <= gen@[k].sides,
                decreases current@.len() - i,
            {
                proof {
                    assert(current@.subrange(0, i + 1).drop_last() =~= current@.subrange(
                        0,
                        i as int,
                    ));
                    assert(current@.subrange(0, i + 1).last() == current@[i as int]);
                    lemma_count_matching_step(current@, vals@, i as int);
                }
                if total < MAX_POOL_DICE && contains_val(vals, current[i].result) {
                    let nd = Die::roll(current[i].sides);
                    gen.push(nd);
                    total = total + 1;
                }
                i = i + 1;
            }
            proof {
                assert(current@.subrange(0, current@.len() as int) =~= current@);
            }
            if gen.len() == 0 {
                go = false;
            } else {
                let genlen = gen.len();
                let next = copy_dice(&gen);
                let ghost old_res = res@;
                res.push(Pool { number: genlen as u8, sides: self.sides, dice: gen });
                proof {
                    assert(res@.drop_last() =~= old_res);
                    assert(pools_concat(res@) =~= pools_concat(old_res) + res@.last()@);
                    is_base = false;
                }
                current = next;
                if !recursive {
                    go = false;
                }
            }
        }
        res
    }

    /// Explode every die showing exactly `n`; see `explode_matching`.
    pub fn explode_n(&self, n: u8, recursive: bool) -> (r: Result<Vec<Pool>, RollError>)
        requires
            self.wf(),
        ensures
            r matches Ok(gens) ==> {
                &&& gens@.len() >= 1
                &&& gens@[0]@ == self@
                &&& (forall|g: int| 0 <= g < gens@.len() ==> (#[trigger] gens@[g]).wf())
                &&& (forall|g: int| 1 <= g < gens@.len() ==> (#[trigger] gens@[g])@.len() >= 1)
                &&& pools_concat(gens@).len() <= 255
                &&& gens@.len() <= 256
                &&& (!recursive ==> gens@.len() <= 2)
                &&& ((!recursive && gens@.len() == 2) ==> gens@[1]@.len() <= count_matching(
                    self@,
                    seq![n],
                ))
                &&& ((!recursive && gens@.len() == 1) ==> (count_matching(self@, seq![n]) == 0
                    || self@.len() >= 255))
            },
            r is Ok,
    {
        let mut vals: Vec<u8> = Vec::new();
        vals.push(n);
        proof {
            assert(vals@ =~= seq![n]);
        }
        Ok(self.explode_matching(&vals, recursive))
    }

    /// Explode every die whose face is listed in `vals`; see
    /// `explode_matching`.
    pub fn explode_specific(&self, vals: &Vec<u8>, recursive: bool) -> (r: Result<
        Vec<Pool>,
        RollError,
    >)
        requires
            self.wf(),
        ensures
            r matches Ok(gens) ==> {
                &&& gens@.len() >= 1
                &&& gens@[0]@ == self@
                &&& (forall|g: int| 0 <= g < gens@.len() ==> (#[trigger] gens@[g]).wf())
                &&& (forall|g: int| 1 <= g < gens@.len() ==> (#[trigger] gens@[g])@.len() >= 1)
                &&& pools_concat(gens@).len() <= 255
                &&& gens@.len() <= 256
                &&& (!recursive ==> gens@.len() <= 2)
            },
            r is Ok,
    {
        Ok(self.explode_matching(vals, recursive))
    }

    /// Additive explosion: every matching die rolls an extra die and adds
    /// the new face to its own running value, and keeps doing so while the
    /// face last rolled matches. The result holds the base pool, the pool
    /// of every extra die rolled, and the accumulated final pool. A die
    /// whose running value would pass 255, and any chain past 255 recorded
    /// extras, stops instead — the explicit bound that keeps chains of
    /// always-matching dice finite.
    pub fn explode_additive_matching(&self, vals: &Vec<u8>) -> (r: Vec<Pool>)
        requires
            self.wf(),
        ensures
            r@.len() == 3,
            r@[0]@ == self@,
            r@[0].spec_number() == self.spec_number(),
            r@[0].spec_sides() == self.spec_sides(),
            forall|g: int| 0 <= g < r@.len() ==> (#[trigger] r@[g]).wf(),
            r@[2]@.len() == self@.len(),
            forall|i: int|
                0 <= i < self@.len() ==> {
                    &&& (#[trigger] r@[2]@[i]).sides == self@[i].sides
                    &&& r@[2]@[i].result >= self@[i].result
                },
            forall|i: int|
                0 <= i < self@.len() && !vals@.contains(self@[i].result) ==> (#[trigger] r@[2]@[i]) == self@[i],
            sum_results(r@[2]@) == sum_results(self@) + sum_results(r@[1]@),
            r@[1]@.len() == 0 ==> forall|i: int|
                0 <= i < self@.len() && vals@.contains((#[trigger] self@[i]).result)
                    ==> self@[i].result + self@[i].sides > 255,
            r@[2].spec_number() == self.spec_number(),
            r@[2].spec_sides() == self.spec_sides(),
    {
        let mut finals: Vec<Die> = Vec::new();
        let mut extras: Vec<Die> = Vec::new();
        let mut i: usize = 0;
        proof {
            assert(self@.subrange(0, 0) =~= Seq::<Die>::empty());
        }
        while i < self.dice.len()
            invariant
                self.wf(),
                i <= self@.len(),
                finals@.len() == i,
                forall|k: int|
                    0 <= k < i ==> {
                        &&& (#[trigger] finals@[k]).sides == self@[k].sides
                        &&& finals@[k].result >= self@[k].result
                    },
                forall|k: int|
                    0 <= k < i && !vals@.contains(self@[k].result) ==> (#[trigger] finals@[k])
                        == self@[k],
                sum_results(finals@) == sum_results(self@.subrange(0, i as int)) + sum_results(
                    extras@,
                ),
                extras@.len() == 0 ==> forall|k: int|
                    0 <= k < i && vals@.contains((#[trigger] self@[k]).result) ==> self@[k].result
                        + self@[k].sides > 255,
                dice_ok(finals@),
                extras@.len() <= 255,
                dice_ok(extras@),
            decreases self@.len() - i,
        {
            let d = self.dice[i];
            let mut cur = d;
            let mut lastface = d.result;
            let mut matching = contains_val(vals, lastface);
            let ghost init_match = vals@.contains(d.result);
            let ghost extras0 = extras@;
            while matching && extras.len() < MAX_POOL_DICE
                invariant
                    1 <= d.sides,
                    cur.sides == d.sides,
                    cur.result >= d.result,
                    1 <= cur.result,
                    extras@.len() <= 255,
                    dice_ok(extras@),
                    !init_match ==> cur == d && !matching,
                    extras0.len() <= extras@.len(),
                    extras0 == extras@.subrange(0, extras0.len() as int),
                    cur.result - d.result == sum_results(extras@) - sum_results(extras0),
                    (extras@.len() == extras0.len() && init_match && !matching) ==> d.result
                        + d.sides > 255,
                    extras@.len() == extras0.len() ==> cur == d,
                decreases 255 - cur.result, (if matching { 1int } else { 0int }),
            {
                let nd = Die::roll(d.sides);
                match cur.result.checked_add(nd.result) {
                    Some(v) => {
                        proof {
                            assert(extras@.push(nd).drop_last() =~= extras@);
                            assert(extras@.push(nd).subrange(0, extras0.len() as int)
                                =~= extras@.subrange(0, extras0.len() as int));
                        }
                        cur = Die { sides: d.sides, result: v };
                        lastface = nd.result;
                        extras.push(nd);
                        matching = contains_val(vals, nd.result);
                    },
                    None => {
                        matching = false;
                    },
                }
            }
            proof {
                assert(self@.subrange(0, i + 1).drop_last() =~= self@.subrange(0, i as int));
                assert(self@.subrange(0, i + 1).last() == self@[i as int]);
                assert(finals@.push(cur).drop_last() =~= finals@);
            }
            finals.push(cur);
            i = i + 1;
        }
        proof {
            assert(self@.subrange(0, self@.len() as int) =~= self@);
        }
        let extras_len = extras.len();
        let base = self.duplicate();
        let extras_pool = Pool { number: extras_len as u8, sides: self.sides, dice: extras };
        let final_pool = Pool { number: self.number, sides: self.sides, dice: finals };
        let mut res: Vec<Pool> = Vec::new();
        res.push(base);
        res.push(extras_pool);
        res.push(final_pool);
        res
    }

    /// Additive explosion of every die showing exactly `n`.
    pub fn explode_n_additive(&self, n: u8, _recursive: bool) -> (r: Result<
        Vec<Pool>,
        RollError,
    >)
        requires
            self.wf(),
        ensures
            r matches Ok(gens) ==> {
                &&& gens@.len() == 3
                &&& gens@[0]@ == self@
                &&& (forall|g: int| 0 <= g < gens@.len() ==> (#[trigger] gens@[g]).wf())
                &&& gens@[2]@.len() == self@.len()
            },
            r is Ok,
    {
        let mut vals: Vec<u8> = Vec::new();
        vals.push(n);
        Ok(self.explode_additive_matching(&vals))
    }

    /// Additive explosion of every die whose face is listed in `vals`.
    pub fn explode_specific_additive(&self, vals: &Vec<u8>, _recursive: bool) -> (r: Result<
        Vec<Pool>,
        RollError,
    >)
        requires
            self.wf(),
        ensures
            r matches Ok(gens) ==> {
                &&& gens@.len() == 3
                &&& gens@[0]@ == self@
                &&& (forall|g: int| 0 <= g < gens@.len() ==> (#[trigger] gens@[g]).wf())
                &&& gens@[2]@.len() == self@.len()
            },
            r is Ok,
    {
        Ok(self.explode_additive_matching(vals))
    }
}

/// The comma-separated decimal faces of the dice, in order.
pub open spec fn faces_text(s: Seq<Die>) -> Seq<char>
    decreases s.len(),
{
    if s.len() == 0 {
        Seq::empty()
    } else if s.len() == 1 {
        crate::numtext::dec_digits(s[0].result as nat)
    } else {
        faces_text(s.drop_last()) + seq![',', ' '] + crate::numtext::dec_digits(
            s.last().result as nat,
        )
    }
}

/// The faces in brackets: `[3, 5, 1]`.
pub open spec fn pool_text(s: Seq<Die>) -> Seq<char> {
    seq!['['] + faces_text(s) + seq![']']
}

impl Pool {
    /// The showing faces as text: exactly `pool_text` of the dice.
    pub fn render(&self) -> (r: String)
        ensures
            r@ == pool_text(self@),
    {
        proof {
            reveal_strlit("[");
            reveal_strlit(", ");
            reveal_strlit("]");
        }
        let mut s = String::from_str("[");
        let mut i: usize = 0;
        proof {
            assert(self@.subrange(0, 0) =~= Seq::<Die>::empty());
            assert(s@ =~= seq!['['] + faces_text(self@.subrange(0, 0)));
        }
        while i < self.dice.len()
            invariant
                i <= self.dice@.len(),
                s@ == seq!['['] + faces_text(self@.subrange(0, i as int)),
            decreases self.dice@.len() - i,
        {
            proof {
                reveal_strlit(", ");
                assert(self@.subrange(0, i + 1).drop_last() =~= self@.subrange(0, i as int));
                assert(self@.subrange(0, i + 1).last() == self@[i as int]);
            }
            if i > 0 {
                s.append(", ");
            }
            s.append(crate::numtext::u8_to_string(self.dice[i].result).as_str());
            proof {
                assert(s@ =~= seq!['['] + faces_text(self@.subrange(0, i + 1)));
            }
            i = i + 1;
        }
        s.append("]");
        proof {
            assert(self@.subrange(0, self@.len() as int) =~= self@);
            assert(s@ =~= pool_text(self@));
        }
        s
    }

    /// The largest face shown among the dice (0 for an empty pool).
    pub fn result_max(&self) -> (r: u8)
        ensures
            r == max_result(self@),
            forall|i: int| 0 <= i < self@.len() ==> (#[trigger] self@[i]).result <= r,
    {
        let mut m: u8 = 0;
        let mut i: usize = 0;
        while i < self.dice.len()
            invariant
                i <= self@.len(),
                m == max_result(self@.subrange(0, i as int)),
                forall|k: int| 0 <= k < i ==> (#[trigger] self@[k]).result <= m,
            decreases self@.len() - i,
        {
            proof {
                assert(self@.subrange(0, i + 1).drop_last() =~= self@.subrange(0, i as int));
            }
            if self.dice[i].result > m {
                m = self.dice[i].result;
            }
            i = i + 1;
        }
        proof {
            assert(self@.subrange(0, self@.len() as int) =~= self@);
        }
        m
    }
}

/// A fresh vector with the same dice.
fn copy_dice(dice: &Vec<Die>) -> (out: Vec<Die>)
    ensures
        out@ == dice@,
{
    let mut out = Vec::<Die>::new();
    let mut i: usize = 0;
    while i < dice.len()
        invariant
            i <= dice@.len(),
            out@ == dice@.subrange(0, i as int),
        decreases dice@.len() - i,
    {
        proof {
            assert(dice@.subrange(0, i + 1) =~= dice@.subrange(0, i as int).push(
                dice@[i as int],
            ));
        }
        out.push(dice[i]);
        i = i + 1;
    }
    proof {
        assert(dice@.subrange(0, dice@.len() as int) =~= dice@);
    }
    out
}

/// Whether `v` occurs in the vector.
pub fn contains_val(vals: &Vec<u8>, v: u8) -> (r: bool)
    ensures
        r == vals@.contains(v),
{
    let mut i: usize = 0;
    while i < vals.len()
        invariant
            i <= vals@.len(),
            forall|k: int| 0 <= k < i ==> vals@[k] != v,
        decreases vals@.len() - i,
    {
        if vals[i] == v {
            return true;
        }
        i = i + 1;
    }
    false
}

/// The filtered sequence is at most as long as the original, keeps the order
/// of matching dice, and keeps well-formed dice well-formed.
pub proof fn lemma_filter_matching_props(s: Seq<Die>, vals: Seq<u8>)
    ensures
        filter_matching(s, vals).len() <= s.len(),
        dice_ok(s) ==> dice_ok(filter_matching(s, vals)),
        forall|i: int|
            0 <= i < filter_matching(s, vals).len() ==> vals.contains(
                (#[trigger] filter_matching(s, vals)[i]).result,
            ),
    decreases s.len(),
{
    if s.len() == 0 {
    } else {
        lemma_filter_matching_props(s.drop_last(), vals);
        assert(forall|i: int|
            0 <= i < s.drop_last().len() ==> s.drop_last()[i] == (#[trigger] s[i]));
    }
}

/// One more die extends the matching filter by that die exactly when its
/// face is listed.
pub proof fn lemma_count_matching_step(s: Seq<Die>, vals: Seq<u8>, i: int)
    requires
        0 <= i < s.len(),
    ensures
        count_matching(s.subrange(0, i + 1), vals) == count_matching(s.subrange(0, i), vals) + (
        if vals.contains(s[i].result) {
            1int
        } else {
            0int
        }),
        filter_matching(s.subrange(0, i + 1), vals) == filter_matching(s.subrange(0, i), vals)
            + (if vals.contains(s[i].result) {
            seq![s[i]]
        } else {
            Seq::<Die>::empty()
        }),
{
    assert(s.subrange(0, i + 1).drop_last() =~= s.subrange(0, i));
    assert(s.subrange(0, i + 1).last() == s[i]);
}

/// Earlier prefixes match no more dice than later ones.
pub proof fn lemma_count_matching_mono(s: Seq<Die>, vals: Seq<u8>, a: int, b: int)
    requires
        0 <= a <= b <= s.len(),
    ensures
        count_matching(s.subrange(0, a), vals) <= count_matching(s.subrange(0, b), vals),
    decreases b - a,
{
    if a < b {
        lemma_count_matching_step(s, vals, b - 1);
        lemma_count_matching_mono(s, vals, a, b - 1);
    }
}

/// Fewer dice show a face at or above a threshold than there are dice.
pub proof fn lemma_count_geq_bound(s: Seq<Die>, t: u8)
    ensures
        0 <= count_geq(s, t) <= s.len(),
        0 <= count_leq(s, t) <= s.len(),
    decreases s.len(),
{
    if s.len() > 0 {
        lemma_count_geq_bound(s.drop_last(), t);
    }
}

} // verus!

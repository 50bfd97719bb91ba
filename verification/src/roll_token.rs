//! One node of a resolved roll: an operand or operator of the dice grammar.

use vstd::prelude::*;
use crate::dice_errors::RollError;
use crate::die::Die;
use crate::pool::Pool;
use crate::roll_value::RollValue;
use crate::token_kinds::{Combination, Conversion, Dice, Operator};

verus! {

/// A resolved or unresolved node of the roll-token algebra.
pub enum RollToken {
    Dice(Dice),
    Combination(Combination),
    Conversion(Conversion),
    Operator(Operator),
}

/// The success count a token already carries: the accumulated counter of a
/// target or botch token, and zero for every other token. Target and botch
/// tokens compose additively across one expression by seeding from it.
pub open spec fn base_sux(t: RollToken) -> int {
    match t {
        RollToken::Operator(Operator::Target(tg)) => tg.sux_of() as int,
        _ => 0,
    }
}

impl RollToken {
    /// Every resolved pool in the token keeps the pool invariant.
    pub open spec fn wf(self) -> bool
        decreases self,
    {
        match self {
            RollToken::Dice(d) => d.wf(),
            RollToken::Combination(c) => c.wf(),
            RollToken::Conversion(c) => c.wf(),
            RollToken::Operator(o) => o.wf(),
        }
    }

    /// The dice the token stands for, if it is resolved: its own pool for
    /// operands and operators, the concatenation of both sides for a merge.
    pub open spec fn spec_pool(self) -> Option<Seq<Die>>
        decreases self,
    {
        match self {
            RollToken::Dice(d) => match d.pool {
                Some(p) => Some(p@),
                None => None,
            },
            RollToken::Combination(c) => c.spec_pool(),
            RollToken::Conversion(c) => c.spec_pool(),
            RollToken::Operator(o) => o.spec_pool(),
        }
    }

    /// The error `pool` reports when the token stands for no dice: missing
    /// or unresolved operands name themselves, and a merge passes its
    /// operands' failures through unchanged.
    pub open spec fn spec_pool_err(self) -> RollError
        decreases self,
    {
        match self {
            RollToken::Dice(_) => RollError::MissingPoolError,
            RollToken::Combination(c) => c.spec_pool_err(),
            RollToken::Conversion(c) => c.spec_pool_err(),
            RollToken::Operator(o) => o.spec_pool_err(),
        }
    }

    /// The value the token stands for, if it is resolved: an exact face
    /// sum for dice-valued tokens, the success count for targets, the
    /// symbol tally for conversions, and the type-checked combination for
    /// merges.
    pub open spec fn spec_value(self) -> Option<RollValue>
        decreases self,
    {
        match self {
            RollToken::Dice(d) => d.spec_value(),
            RollToken::Combination(c) => c.spec_value(),
            RollToken::Conversion(c) => c.spec_value(),
            RollToken::Operator(o) => o.spec_value(),
        }
    }

    /// The token's resolved pool; fails exactly when `spec_pool` is absent.
    pub fn pool(self) -> (r: Result<Pool, RollError>)
        requires
            self.wf(),
        ensures
            r matches Ok(p) ==> Some(p@) == self.spec_pool() && p.wf(),
            r is Err <==> self.spec_pool() is None,
            r matches Err(e) ==> e == self.spec_pool_err(),
        decreases self,
    {
        match self {
            RollToken::Dice(d) => {
                let r = d.pool();
                proof {
                    if r is Ok {
                        assert(r->Ok_0.wf());
                    }
                }
                r
            },
            RollToken::Combination(c) => c.pool(),
            RollToken::Conversion(c) => {
                let r = c.pool();
                proof {
                    if r is Ok {
                        assert(r->Ok_0.wf());
                    }
                }
                r
            },
            RollToken::Operator(o) => o.pool(),
        }
    }

    /// The token's value: a number, a success count, or a symbol tally. A
    /// target or botch token yields exactly its accumulated success count;
    /// a resolved dice operand yields exactly the sum of its faces.
    pub fn value(&self) -> (r: Result<RollValue, RollError>)
        requires
            self.wf(),
        ensures
            r matches Ok(v) ==> v.wf(),
            r is Ok <==> self.spec_value() is Some,
            r matches Ok(v) ==> Some(v) == self.spec_value(),
            self matches RollToken::Operator(o) ==> (o matches Operator::Target(t) ==> r
                == Ok::<RollValue, RollError>(RollValue::Successes(t.sux_of()))),
            self matches RollToken::Dice(d) ==> (d.pool matches Some(p) ==> (r matches Ok(v)
                && v matches RollValue::Numeric(q) && q.num == crate::pool::sum_results(p@)
                && q.den == 1)),
        decreases *self,
    {
        match self {
            RollToken::Dice(d) => {
                let owned = Dice { pool: clone_pool_opt(&d.pool) };
                owned.value()
            },
            RollToken::Combination(c) => c.value(),
            RollToken::Conversion(c) => c.value(),
            RollToken::Operator(o) => o.value(),
        }
    }

    /// One line describing the token's operation.
    pub fn description(&self) -> String {
        match self {
            RollToken::Dice(d) => d.description(),
            RollToken::Combination(c) => c.description(),
            RollToken::Conversion(c) => c.description(),
            RollToken::Operator(o) => o.description(),
        }
    }

    /// The token's full breakdown.
    pub fn verbose(&self) -> String
        requires
            self.wf(),
    {
        match self {
            RollToken::Dice(d) => d.verbose(),
            RollToken::Combination(c) => c.verbose(),
            RollToken::Conversion(c) => c.verbose(),
            RollToken::Operator(o) => o.verbose(),
        }
    }
}

/// A fresh copy of an optional pool.
fn clone_pool_opt(p: &Option<Pool>) -> (r: Option<Pool>)
    ensures
        r is Some <==> p is Some,
        r matches Some(q) ==> (p matches Some(orig) && q@ == orig@ && q.spec_number()
            == orig.spec_number() && q.spec_sides() == orig.spec_sides()),
{
    match p {
        Some(pool) => Some(pool.duplicate()),
        None => None,
    }
}

} // verus!

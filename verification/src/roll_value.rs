//! The tagged value a resolved roll produces: a number, a signed success
//! count, or a tally of narrative symbols.

use vstd::prelude::*;
use crate::dice_errors::RollError;
use crate::rational::Rational;
use crate::value_kinds::GenesysValue;
use crate::numtext::{i128_to_string, i16_to_string, signed_dec};
use crate::value_kinds::tally_text;

verus! {

/// A resolved roll's value.
#[derive(Clone, Copy, Debug, PartialEq)]
pub enum RollValue {
    /// A plain number, kept as an exact fraction.
    Numeric(Rational),
    /// A signed success count from target or botch counting.
    Successes(i16),
    /// A narrative symbol tally.
    Genesys(GenesysValue),
}

/// The exact combination of two same-kind values, when every component
/// stays within its machine range: numbers add as fractions, success
/// counts add, symbol tallies add element-wise. `None` for two different
/// kinds, and for a component past its range.
pub open spec fn spec_add_values(a: RollValue, b: RollValue) -> Option<RollValue> {
    match (a, b) {
        (RollValue::Numeric(x), RollValue::Numeric(y)) => if i128::MIN <= x.num * y.den
            <= i128::MAX && i128::MIN <= y.num * x.den <= i128::MAX && i128::MIN <= x.num * y.den
            + y.num * x.den <= i128::MAX && i128::MIN <= x.den * y.den <= i128::MAX {
            Some(
                RollValue::Numeric(
                    Rational {
                        num: (x.num * y.den + y.num * x.den) as i128,
                        den: (x.den * y.den) as i128,
                    },
                ),
            )
        } else {
            None
        },
        (RollValue::Successes(x), RollValue::Successes(y)) => if i16::MIN <= x + y <= i16::MAX {
            Some(RollValue::Successes((x + y) as i16))
        } else {
            None
        },
        (RollValue::Genesys(x), RollValue::Genesys(y)) => if x.successes + y.successes
            <= u32::MAX && x.advantages + y.advantages <= u32::MAX && x.triumphs + y.triumphs
            <= u32::MAX && x.failures + y.failures <= u32::MAX && x.threats + y.threats
            <= u32::MAX && x.despairs + y.despairs <= u32::MAX {
            Some(
                RollValue::Genesys(
                    GenesysValue {
                        successes: (x.successes + y.successes) as u32,
                        advantages: (x.advantages + y.advantages) as u32,
                        triumphs: (x.triumphs + y.triumphs) as u32,
                        failures: (x.failures + y.failures) as u32,
                        threats: (x.threats + y.threats) as u32,
                        despairs: (x.despairs + y.despairs) as u32,
                    },
                ),
            )
        } else {
            None
        },
        _ => None,
    }
}

impl RollValue {
    /// Whether the numeric payload is well-formed.
    pub open spec fn wf(self) -> bool {
        self matches RollValue::Numeric(q) ==> q.wf()
    }

    /// Whether two values carry the same kind of result.
    pub open spec fn same_kind(self, other: RollValue) -> bool {
        ||| (self is Numeric && other is Numeric)
        ||| (self is Successes && other is Successes)
        ||| (self is Genesys && other is Genesys)
    }

    /// Combine two values of the same kind: numbers add exactly, success
    /// counts add, symbol tallies add element-wise. Two values of different
    /// kinds fail with a kind-mismatch error — never a silent coercion; a
    /// sum past the machine range fails with an overflow error.
    pub fn add(self, other: RollValue) -> (r: Result<RollValue, RollError>)
        requires
            self.wf(),
            other.wf(),
        ensures
            !self.same_kind(other) <==> r == Err::<RollValue, RollError>(
                RollError::KindMismatchError,
            ),
            self matches RollValue::Numeric(a) ==> (other matches RollValue::Numeric(b) ==> (
            r matches Ok(v) ==> {
                &&& v matches RollValue::Numeric(q)
                &&& q.num == a.num * b.den + b.num * a.den
                &&& q.den == a.den * b.den
                &&& q.wf()
            })),
            self matches RollValue::Successes(a) ==> (other matches RollValue::Successes(b)
                ==> r == if i16::MIN <= a + b <= i16::MAX {
                Ok::<RollValue, RollError>(RollValue::Successes((a + b) as i16))
            } else {
                Err::<RollValue, RollError>(RollError::OverflowError)
            }),
            self matches RollValue::Genesys(a) ==> (other matches RollValue::Genesys(b) ==> (
            r matches Ok(v) ==> {
                &&& v matches RollValue::Genesys(g)
                &&& g.successes == a.successes + b.successes
                &&& g.advantages == a.advantages + b.advantages
                &&& g.triumphs == a.triumphs + b.triumphs
                &&& g.failures == a.failures + b.failures
                &&& g.threats == a.threats + b.threats
                &&& g.despairs == a.despairs + b.despairs
            })),
            r is Err ==> (r == Err::<RollValue, RollError>(RollError::KindMismatchError) || r
                == Err::<RollValue, RollError>(RollError::OverflowError)),
            r matches Ok(v) ==> v.wf() && v.same_kind(self),
            r is Ok <==> spec_add_values(self, other) is Some,
            r matches Ok(v) ==> Some(v) == spec_add_values(self, other),
    {
        match (self, other) {
            (RollValue::Numeric(a), RollValue::Numeric(b)) => match a.add(b) {
                Ok(q) => Ok(RollValue::Numeric(q)),
                Err(_) => Err(RollError::OverflowError),
            },
            (RollValue::Successes(a), RollValue::Successes(b)) => match a.checked_add(b) {
                Some(v) => Ok(RollValue::Successes(v)),
                None => Err(RollError::OverflowError),
            },
            (RollValue::Genesys(a), RollValue::Genesys(b)) => match a.checked_add(&b) {
                Some(v) => Ok(RollValue::Genesys(v)),
                None => Err(RollError::OverflowError),
            },
            _ => Err(RollError::KindMismatchError),
        }
    }

    /// The value as an exact number: numbers are themselves, success counts
    /// become whole numbers, and a symbol tally has no numeric reading.
    pub fn to_decimal(&self) -> (r: Result<Rational, RollError>)
        requires
            self.wf(),
        ensures
            *self matches RollValue::Numeric(q) ==> r == Ok::<Rational, RollError>(q),
            *self matches RollValue::Successes(s) ==> (r matches Ok(q) && q.num == s && q.den
                == 1),
            *self is Genesys <==> r == Err::<Rational, RollError>(RollError::KindMismatchError),
            r matches Ok(q) ==> q.wf(),
    {
        match self {
            RollValue::Numeric(q) => Ok(*q),
            RollValue::Successes(s) => Ok(Rational::from_int(*s as i64)),
            RollValue::Genesys(_) => Err(RollError::KindMismatchError),
        }
    }

    /// The value as text: a whole number plainly, another fraction as
    /// `numerator/denominator`, a success count with its unit, a tally by
    /// symbol names — exactly `value_text`.
    pub fn render(&self) -> (r: String)
        ensures
            r@ == value_text(*self),
    {
        proof {
            reveal_strlit("/");
            reveal_strlit(" success(es)");
        }
        match self {
            RollValue::Numeric(q) => {
                if q.den == 1 {
                    i128_to_string(q.num)
                } else {
                    let mut s = i128_to_string(q.num);
                    s.append("/");
                    s.append(i128_to_string(q.den).as_str());
                    proof {
                        assert(s@ =~= value_text(*self));
                    }
                    s
                }
            },
            RollValue::Successes(n) => {
                let mut s = i16_to_string(*n);
                s.append(" success(es)");
                proof {
                    assert(s@ =~= value_text(*self));
                }
                s
            },
            RollValue::Genesys(g) => g.render(),
        }
    }
}

/// A value as text: a whole number plainly, another fraction as
/// `numerator/denominator`, a success count with its unit, a tally by
/// symbol names.
pub open spec fn value_text(v: RollValue) -> Seq<char> {
    match v {
        RollValue::Numeric(q) => if q.den == 1 {
            signed_dec(q.num as int)
        } else {
            signed_dec(q.num as int) + seq!['/'] + signed_dec(q.den as int)
        },
        RollValue::Successes(n) => signed_dec(n as int) + " success(es)"@,
        RollValue::Genesys(g) => tally_text(g),
    }
}

} // verus!

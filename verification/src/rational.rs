//! Exact rational numbers for the arithmetic evaluator.
//!
//! The evaluator works on exact fractions rather than machine floats, so
//! every arithmetic step carries a precise contract. Values are kept as a
//! numerator and a positive denominator; fractions are not reduced, and two
//! values are the same number exactly when they cross-multiply equally.

use vstd::prelude::*;
use vstd::arithmetic::power::pow;
use crate::dice_errors::MathError;

verus! {

/// An exact fraction `num / den` with `den >= 1`.
#[derive(Clone, Copy, Debug, PartialEq, Eq, Structural)]
pub struct Rational {
    pub num: i128,
    pub den: i128,
}

impl Rational {
    /// Well-formed: the denominator is positive.
    pub open spec fn wf(self) -> bool {
        self.den >= 1
    }

    /// The fraction `n / 1`.
    pub fn from_int(n: i64) -> (r: Rational)
        ensures
            r.num == n,
            r.den == 1,
            r.wf(),
    {
        Rational { num: n as i128, den: 1 }
    }

    /// Exact sum. Returns the fraction with numerator
    /// `a.num * b.den + b.num * a.den` over `a.den * b.den`; it succeeds
    /// exactly when those products and their sum stay within the machine
    /// range, and fails with an overflow error otherwise.
    pub fn add(self, other: Rational) -> (r: Result<Rational, MathError>)
        requires
            self.wf(),
            other.wf(),
        ensures
            r matches Ok(v) ==> {
                &&& v.num == self.num * other.den + other.num * self.den
                &&& v.den == self.den * other.den
                &&& v.wf()
            },
            r is Ok <==> {
                &&& i128::MIN <= self.num * other.den <= i128::MAX
                &&& i128::MIN <= other.num * self.den <= i128::MAX
                &&& i128::MIN <= self.num * other.den + other.num * self.den <= i128::MAX
                &&& i128::MIN <= self.den * other.den <= i128::MAX
            },
            r is Err ==> r == Err::<Rational, MathError>(MathError::Overflow),
    {
        let m1 = match self.num.checked_mul(other.den) {
            Some(v) => v,
            None => return Err(MathError::Overflow),
        };
        let m2 = match other.num.checked_mul(self.den) {
            Some(v) => v,
            None => return Err(MathError::Overflow),
        };
        let num = match m1.checked_add(m2) {
            Some(v) => v,
            None => return Err(MathError::Overflow),
        };
        let den = match self.den.checked_mul(other.den) {
            Some(v) => v,
            None => return Err(MathError::Overflow),
        };
        proof {
            vstd::arithmetic::mul::lemma_mul_strictly_positive(self.den as int, other.den as int);
        }
        Ok(Rational { num, den })
    }

    /// Exact difference, with the same overflow behaviour as `add`.
    pub fn sub(self, other: Rational) -> (r: Result<Rational, MathError>)
        requires
            self.wf(),
            other.wf(),
        ensures
            r matches Ok(v) ==> {
                &&& v.num == self.num * other.den - other.num * self.den
                &&& v.den == self.den * other.den
                &&& v.wf()
            },
            r is Ok <==> {
                &&& i128::MIN <= self.num * other.den <= i128::MAX
                &&& i128::MIN <= other.num * self.den <= i128::MAX
                &&& i128::MIN <= self.num * other.den - other.num * self.den <= i128::MAX
                &&& i128::MIN <= self.den * other.den <= i128::MAX
            },
            r is Err ==> r == Err::<Rational, MathError>(MathError::Overflow),
    {
        let m1 = match self.num.checked_mul(other.den) {
            Some(v) => v,
            None => return Err(MathError::Overflow),
        };
        let m2 = match other.num.checked_mul(self.den) {
            Some(v) => v,
            None => return Err(MathError::Overflow),
        };
        let num = match m1.checked_sub(m2) {
            Some(v) => v,
            None => return Err(MathError::Overflow),
        };
        let den = match self.den.checked_mul(other.den) {
            Some(v) => v,
            None => return Err(MathError::Overflow),
        };
        proof {
            vstd::arithmetic::mul::lemma_mul_strictly_positive(self.den as int, other.den as int);
        }
        Ok(Rational { num, den })
    }

    /// Exact product.
    pub fn mul(self, other: Rational) -> (r: Result<Rational, MathError>)
        requires
            self.wf(),
            other.wf(),
        ensures
            r matches Ok(v) ==> {
                &&& v.num == self.num * other.num
                &&& v.den == self.den * other.den
                &&& v.wf()
            },
            r is Ok <==> {
                &&& i128::MIN <= self.num * other.num <= i128::MAX
                &&& i128::MIN <= self.den * other.den <= i128::MAX
            },
            r is Err ==> r == Err::<Rational, MathError>(MathError::Overflow),
    {
        let num = match self.num.checked_mul(other.num) {
            Some(v) => v,
            None => return Err(MathError::Overflow),
        };
        let den = match self.den.checked_mul(other.den) {
            Some(v) => v,
            None => return Err(MathError::Overflow),
        };
        proof {
            vstd::arithmetic::mul::lemma_mul_strictly_positive(self.den as int, other.den as int);
        }
        Ok(Rational { num, den })
    }

    /// Exact quotient. Division by a zero value is an error; otherwise the
    /// result `r` satisfies `r * other == self` as fractions:
    /// `r.num * (self.den * other.num) == (self.num * other.den) * r.den`.
    pub fn div(self, other: Rational) -> (r: Result<Rational, MathError>)
        requires
            self.wf(),
            other.wf(),
        ensures
            r matches Ok(v) ==> {
                &&& v.num * (self.den * other.num) == (self.num * other.den) * v.den
                &&& v.wf()
                &&& (other.num > 0 ==> v.num == self.num * other.den && v.den == self.den
                    * other.num)
                &&& (other.num < 0 ==> v.num == -(self.num * other.den) && v.den == -(self.den
                    * other.num))
            },
            other.num == 0 <==> r == Err::<Rational, MathError>(MathError::DivisionByZero),
            other.num != 0 ==> (r is Ok <==> {
                &&& i128::MIN <= self.num * other.den <= i128::MAX
                &&& i128::MIN <= self.den * other.num <= i128::MAX
                &&& (self.den * other.num < 0 ==> i128::MIN <= -(self.num * other.den)
                    <= i128::MAX && i128::MIN <= -(self.den * other.num) <= i128::MAX)
            }),
            r is Err ==> (r == Err::<Rational, MathError>(MathError::DivisionByZero)
                || r == Err::<Rational, MathError>(MathError::Overflow)),
    {
        if other.num == 0 {
            return Err(MathError::DivisionByZero);
        }
        let num = match self.num.checked_mul(other.den) {
            Some(v) => v,
            None => return Err(MathError::Overflow),
        };
        let den = match self.den.checked_mul(other.num) {
            Some(v) => v,
            None => return Err(MathError::Overflow),
        };
        proof {
            assert((den < 0) == (other.num < 0)) by (nonlinear_arith)
                requires
                    den == self.den * other.num,
                    self.den >= 1,
                    other.num != 0,
            ;
        }
        if den < 0 {
            let nn = match 0i128.checked_sub(num) {
                Some(v) => v,
                None => return Err(MathError::Overflow),
            };
            let nd = match 0i128.checked_sub(den) {
                Some(v) => v,
                None => return Err(MathError::Overflow),
            };
            proof {
                assert((-num) * (self.den * other.num) == (self.num * other.den) * (-den))
                    by (nonlinear_arith)
                    requires
                        num == self.num * other.den,
                        den == self.den * other.num,
                ;
            }
            Ok(Rational { num: nn, den: nd })
        } else {
            proof {
                vstd::arithmetic::mul::lemma_mul_nonzero(self.den as int, other.num as int);
                assert(num * (self.den * other.num) == (self.num * other.den) * den)
                    by (nonlinear_arith)
                    requires
                        num == self.num * other.den,
                        den == self.den * other.num,
                ;
            }
            Ok(Rational { num, den })
        }
    }

    /// The whole number this fraction denotes, if it denotes one that fits
    /// the range of `i64`: the returned `k` satisfies `k * den == num`
    /// exactly, and `None` comes back exactly when no such `k` exists.
    pub fn to_integer(&self) -> (r: Option<i64>)
        requires
            self.wf(),
        ensures
            r matches Some(k) ==> k * self.den == self.num,
            r is None ==> forall|k: int|
                i64::MIN <= k <= i64::MAX ==> #[trigger] (k * self.den) != self.num,
    {
        let a: u128 = if self.num >= 0 {
            self.num as u128
        } else {
            (-(self.num + 1)) as u128 + 1
        };
        let d: u128 = self.den as u128;
        let q = a / d;
        let rem = a % d;
        proof {
            vstd::arithmetic::div_mod::lemma_fundamental_div_mod(a as int, d as int);
        }
        if rem != 0 {
            proof {
                assert forall|k: int| i64::MIN <= k <= i64::MAX implies #[trigger] (k * self.den) != self.num
                by {
                    if k * self.den == self.num {
                        // Then |num| is an exact multiple of den, so the
                        // remainder of a = |num| by den would be zero.
                        let ka = if self.num >= 0 { k } else { -k };
                        assert(ka * (d as int) == a as int) by (nonlinear_arith)
                            requires
                                k * (self.den as int) == self.num as int,
                                d == self.den,
                                self.num >= 0 ==> (ka == k && a == self.num),
                                self.num < 0 ==> (ka == -k && a as int == -(self.num as int)),
                        ;
                        vstd::arithmetic::div_mod::lemma_fundamental_div_mod_converse_mod(
                            a as int, d as int, ka, 0);
                    }
                }
            }
            return None;
        }
        // a == d * q exactly.
        if self.num >= 0 {
            if q <= i64::MAX as u128 {
                let k = q as i64;
                proof {
                    assert(k * self.den == self.num) by (nonlinear_arith)
                        requires
                            a as int == d as int * (q as int),
                            k == q,
                            d == self.den,
                            a == self.num,
                    ;
                }
                Some(k)
            } else {
                proof {
                    lemma_quotient_unique(a as int, d as int, q as int);
                    assert forall|k: int| i64::MIN <= k <= i64::MAX implies #[trigger] (k * self.den) != self.num
                    by {
                        if k * self.den == self.num {
                            assert(k * (d as int) == a as int);
                        }
                    }
                }
                None
            }
        } else {
            if q <= (i64::MAX as u128) + 1 {
                // -q >= i64::MIN.
                let k = (-(q as i128)) as i64;
                proof {
                    assert(k * self.den == self.num) by (nonlinear_arith)
                        requires
                            a as int == d as int * (q as int),
                            k as int == -(q as int),
                            d == self.den,
                            a as int == -(self.num as int),
                    ;
                }
                Some(k)
            } else {
                proof {
                    lemma_quotient_unique(a as int, d as int, q as int);
                    assert forall|k: int| i64::MIN <= k <= i64::MAX implies #[trigger] (k * self.den) != self.num
                    by {
                        if k * self.den == self.num {
                            assert((-k) * (d as int) == a as int) by (nonlinear_arith)
                                requires
                                    k * (self.den as int) == self.num as int,
                                    d == self.den,
                                    a as int == -(self.num as int),
                            ;
                        }
                    }
                }
                None
            }
        }
    }

    /// Raise to a non-negative whole power by repeated exact multiplication:
    /// the result is `num^e / den^e`. Overflow of the machine range is an
    /// error.
    fn pow_nonneg(self, e: u32) -> (r: Result<Rational, MathError>)
        requires
            self.wf(),
        ensures
            r matches Ok(v) ==> {
                &&& v.num == pow(self.num as int, e as nat)
                &&& v.den == pow(self.den as int, e as nat)
                &&& v.wf()
            },
            r is Err ==> r == Err::<Rational, MathError>(MathError::Overflow),
            (forall|j: nat|
                j <= e ==> -i128::MAX <= #[trigger] pow(self.num as int, j) <= i128::MAX
                    && -i128::MAX <= pow(self.den as int, j) <= i128::MAX) ==> r is Ok,
    {
        proof {
            vstd::arithmetic::power::lemma_pow0(self.num as int);
            vstd::arithmetic::power::lemma_pow0(self.den as int);
        }
        let mut acc = Rational { num: 1, den: 1 };
        let mut i: u32 = 0;
        while i < e
            invariant
                self.wf(),
                acc.num == pow(self.num as int, i as nat),
                acc.den == pow(self.den as int, i as nat),
                acc.wf(),
                i <= e,
            decreases e - i,
        {
            proof {
                vstd::arithmetic::power::lemma_pow1(self.num as int);
                vstd::arithmetic::power::lemma_pow1(self.den as int);
                vstd::arithmetic::power::lemma_pow_adds(self.num as int, i as nat, 1);
                vstd::arithmetic::power::lemma_pow_adds(self.den as int, i as nat, 1);
            }
            let num = match acc.num.checked_mul(self.num) {
                Some(v) => v,
                None => return Err(MathError::Overflow),
            };
            let den = match acc.den.checked_mul(self.den) {
                Some(v) => v,
                None => return Err(MathError::Overflow),
            };
            proof {
                vstd::arithmetic::power::lemma_pow1(self.num as int);
                vstd::arithmetic::power::lemma_pow1(self.den as int);
                vstd::arithmetic::power::lemma_pow_adds(self.num as int, i as nat, 1);
                vstd::arithmetic::power::lemma_pow_adds(self.den as int, i as nat, 1);
                vstd::arithmetic::mul::lemma_mul_strictly_positive(acc.den as int, self.den as int);
            }
            acc = Rational { num, den };
            i = i + 1;
        }
        Ok(acc)
    }

    /// Raise to a whole power. A negative exponent inverts the base first,
    /// which fails with a division-by-zero error when the base is zero.
    /// For `e >= 0` the result is exactly `num^e / den^e`; for `e < 0` it is
    /// exactly `den^(-e) / num^(-e)` up to sign normalization.
    pub fn pow_int(self, e: i64) -> (r: Result<Rational, MathError>)
        requires
            self.wf(),
        ensures
            r matches Ok(v) ==> v.wf(),
            e >= 0 ==> (r matches Ok(v) ==> {
                &&& v.num == pow(self.num as int, e as nat)
                &&& v.den == pow(self.den as int, e as nat)
            }),
            e < 0 ==> (r matches Ok(v) ==> v.num * pow(self.num as int, (-e) as nat) == pow(
                self.den as int,
                (-e) as nat,
            ) * v.den),
            e < 0 ==> (r matches Ok(v) ==> {
                &&& (pow(self.num as int, (-e) as nat) < 0 ==> v.num == -pow(
                    self.den as int,
                    (-e) as nat,
                ) && v.den == -pow(self.num as int, (-e) as nat))
                &&& (pow(self.num as int, (-e) as nat) >= 0 ==> v.num == pow(
                    self.den as int,
                    (-e) as nat,
                ) && v.den == pow(self.num as int, (-e) as nat))
            }),
            e < 0 && self.num == 0 ==> r == Err::<Rational, MathError>(MathError::DivisionByZero),
            r is Err ==> (r == Err::<Rational, MathError>(MathError::DivisionByZero)
                || r == Err::<Rational, MathError>(MathError::Overflow)),
            (e >= 0 && e <= u32::MAX && (forall|j: nat|
                j <= e ==> -i128::MAX <= #[trigger] pow(self.num as int, j) <= i128::MAX
                    && -i128::MAX <= pow(self.den as int, j) <= i128::MAX)) ==> r is Ok,
            (e < 0 && self.num != 0 && self.num != i128::MIN && -e <= u32::MAX && (forall|j: nat|
                j <= -e ==> -i128::MAX <= #[trigger] pow(self.num as int, j) <= i128::MAX
                    && -i128::MAX <= pow(self.den as int, j) <= i128::MAX)) ==> r is Ok,
    {
        if e >= 0 {
            if e > u32::MAX as i64 {
                // Any base other than 0 or +/-1 overflows far below this
                // exponent; those bases are caught inside pow_nonneg anyway
                // once the machine range is exceeded.
                return Err(MathError::Overflow);
            }
            self.pow_nonneg(e as u32)
        } else {
            if self.num == 0 {
                return Err(MathError::DivisionByZero);
            }
            let m: u32 = if e >= -(u32::MAX as i64) {
                (-e) as u32
            } else {
                return Err(MathError::Overflow);
            };
            let inv = if self.num < 0 {
                if self.num == i128::MIN {
                    return Err(MathError::Overflow);
                }
                Rational { num: -self.den, den: -self.num }
            } else {
                Rational { num: self.den, den: self.num }
            };
            let ghost bounded = forall|j: nat|
                j <= m ==> -i128::MAX <= #[trigger] pow(self.num as int, j) <= i128::MAX
                    && -i128::MAX <= pow(self.den as int, j) <= i128::MAX;
            proof {
                if bounded {
                    assert forall|j: nat|
                        j <= m implies -i128::MAX <= #[trigger] pow(inv.num as int, j)
                        <= i128::MAX && -i128::MAX <= pow(inv.den as int, j) <= i128::MAX by {
                        if self.num < 0 {
                            lemma_pow_neg(self.den as int, j);
                            lemma_pow_neg(self.num as int, j);
                            lemma_pow_neg(-(self.num as int), j);
                        }
                    }
                }
            }
            let powed = match inv.pow_nonneg(m) {
                Ok(v) => v,
                Err(err) => return Err(err),
            };
            proof {
                lemma_pow_neg_flip(self.den as int, self.num as int, m as nat);
                if self.num < 0 {
                    lemma_pow_neg(self.den as int, m as nat);
                    lemma_pow_neg(self.num as int, m as nat);
                    lemma_pow_neg(-(self.num as int), m as nat);
                    vstd::arithmetic::power::lemma_pow_positive(-(self.num as int), m as nat);
                    vstd::arithmetic::power::lemma_pow_positive(self.den as int, m as nat);
                } else {
                    vstd::arithmetic::power::lemma_pow_positive(self.num as int, m as nat);
                }
            }
            Ok(powed)
        }
    }
}

/// `(-x)^m` is `x^m` for even `m` and `-(x^m)` for odd `m`.
proof fn lemma_pow_neg(x: int, m: nat)
    ensures
        m % 2 == 0 ==> pow(-x, m) == pow(x, m),
        m % 2 == 1 ==> pow(-x, m) == -pow(x, m),
    decreases m,
{
    if m == 0 {
        vstd::arithmetic::power::lemma_pow0(x);
        vstd::arithmetic::power::lemma_pow0(-x);
    } else {
        lemma_pow_neg(x, (m - 1) as nat);
        reveal(pow);
        if m % 2 == 0 {
            assert((m - 1) % 2 == 1);
            assert((-x) * (-pow(x, (m - 1) as nat)) == x * pow(x, (m - 1) as nat))
                by (nonlinear_arith);
        } else {
            assert((m - 1) % 2 == 0);
            assert((-x) * pow(x, (m - 1) as nat) == -(x * pow(x, (m - 1) as nat)))
                by (nonlinear_arith);
        }
    }
}

/// A multiple of `d` equal to `d * q` can only be the multiple by `q`.
proof fn lemma_quotient_unique(a: int, d: int, q: int)
    requires
        d >= 1,
        a == d * q,
    ensures
        forall|k: int| #[trigger] (k * d) == a ==> k == q,
{
    assert forall|k: int| #[trigger] (k * d) == a implies k == q by {
        assert(k == q) by (nonlinear_arith)
            requires
                k * d == a,
                a == d * q,
                d >= 1,
        ;
    }
}

/// `(-a)^m * b^m == a^m * (-b)^m`: flipping the sign of both parts of a
/// fraction leaves its powers denoting the same number.
#[verifier::rlimit(50)]
proof fn lemma_pow_neg_flip(a: int, b: int, m: nat)
    ensures
        pow(-a, m) * pow(b, m) == pow(a, m) * pow(-b, m),
    decreases m,
{
    if m == 0 {
        vstd::arithmetic::power::lemma_pow0(a);
        vstd::arithmetic::power::lemma_pow0(b);
        vstd::arithmetic::power::lemma_pow0(-a);
        vstd::arithmetic::power::lemma_pow0(-b);
    } else {
        lemma_pow_neg_flip(a, b, (m - 1) as nat);
        let x = pow(-a, (m - 1) as nat);
        let y = pow(b, (m - 1) as nat);
        let z = pow(a, (m - 1) as nat);
        let w = pow(-b, (m - 1) as nat);
        reveal(pow);
        assert(pow(-a, m) == (-a) * x);
        assert(pow(b, m) == b * y);
        assert(pow(a, m) == a * z);
        assert(pow(-b, m) == (-b) * w);
        assert(((-a) * x) * (b * y) == (a * z) * ((-b) * w)) by (nonlinear_arith)
            requires
                x * y == z * w,
        ;
    }
}

} // verus!

//! Deterministic fixed-point decimal arithmetic for the pool.
//!
//! A `Decimal` stores a signed count of picos (units of `10^-12`), so a value
//! of one is `DEC_ONE` picos. Multiplication and division truncate toward
//! zero, the rounding mode the pool's pricing relies on: amounts are never
//! rounded in the trader's favor. Every well-formed value is bounded by
//! `DEC_MAX` picos in magnitude; an operation whose exact truncated result
//! would leave that range reports failure instead of wrapping, and the pool
//! surfaces such failures as arithmetic errors.

use vstd::prelude::*;

verus! {

use vstd::arithmetic::div_mod::{
    lemma_fundamental_div_mod, lemma_hoist_over_denominator, lemma_mod_bound,
};
use vstd::math::abs;

/// Picos in one whole unit: the fixed-point scale.
pub const DEC_ONE: i128 = 1_000_000_000_000;

/// Largest magnitude, in picos, that a well-formed `Decimal` may hold
/// (`10^14` whole units).
pub const DEC_MAX: i128 = 100_000_000_000_000_000_000_000_000;

/// Quotient of `DEC_MAX` and one unit: the largest whole-unit count.
pub const DEC_MAX_UNITS: i128 = 100_000_000_000_000;

/// A magnitude is representable exactly when it stays within `DEC_MAX`.
pub open spec fn in_range(a: int) -> bool {
    -(DEC_MAX as int) <= a <= DEC_MAX as int
}

/// Integer division truncating toward zero, the rounding of every
/// fixed-point product and quotient here.
pub open spec fn trunc_div(a: int, b: int) -> int
    recommends
        b != 0,
{
    if (a >= 0) == (b >= 0) {
        abs(a) as int / abs(b) as int
    } else {
        -(abs(a) as int / abs(b) as int)
    }
}

/// The exact fixed-point product in picos: `a * b` scaled back down by one
/// unit, truncated toward zero.
pub open spec fn dec_mul(a: int, b: int) -> int {
    trunc_div(a * b, DEC_ONE as int)
}

/// The exact fixed-point quotient in picos: `a` scaled up by one unit and
/// divided by `b`, truncated toward zero.
pub open spec fn dec_div(a: int, b: int) -> int
    recommends
        b != 0,
{
    trunc_div(a * (DEC_ONE as int), b)
}

/// A fixed-point decimal: `picos / 10^12` as a real quantity.
#[derive(Clone, Copy, Debug, PartialEq, Eq, Structural)]
pub struct Decimal {
    pub picos: i128,
}

impl View for Decimal {
    type V = int;

    open spec fn view(&self) -> int {
        self.picos as int
    }
}

/// The magnitude of `a` as an unsigned value; total on all of `i128`.
fn mag(a: i128) -> (m: u128)
    ensures
        m == abs(a as int),
{
    if a >= 0 {
        a as u128
    } else {
        ((-1 - a) as u128) + 1
    }
}

/// Truncating signed division by a positive divisor.
pub fn div_trunc_i128(a: i128, b: i128) -> (r: i128)
    requires
        b > 0,
        a != i128::MIN,
    ensures
        r as int == trunc_div(a as int, b as int),
{
    let am: u128 = mag(a);
    let bm: u128 = mag(b);
    let q: u128 = am / bm;
    proof {
        vstd::arithmetic::div_mod::lemma_div_nonincreasing(am as int, bm as int);
    }
    if a >= 0 {
        q as i128
    } else {
        -(q as i128)
    }
}

/// Splits a nonnegative scaled product around the scale `k`: the whole and
/// fractional parts of each factor combine into the truncated product.
proof fn lemma_muldiv_split(a: int, b: int, k: int)
    requires
        a >= 0,
        b >= 0,
        k > 0,
    ensures
        (a * b) / k == ((a / k) * (b / k)) * k + (a / k) * (b % k) + (b / k) * (a % k) + ((a % k)
            * (b % k)) / k,
{
    let qa = a / k;
    let ra = a % k;
    let qb = b / k;
    let rb = b % k;
    lemma_fundamental_div_mod(a, k);
    lemma_fundamental_div_mod(b, k);
    lemma_mod_bound(a, k);
    lemma_mod_bound(b, k);
    let x = (qa * qb) * k + qa * rb + qb * ra;
    assert(a * b == ra * rb + x * k) by (nonlinear_arith)
        requires
            a == k * qa + ra,
            b == k * qb + rb,
            x == (qa * qb) * k + qa * rb + qb * ra,
    ;
    lemma_hoist_over_denominator(ra * rb, x, k as nat);
}

/// The magnitude of a product is the product of the magnitudes.
proof fn lemma_abs_mul(a: int, b: int)
    ensures
        abs(a * b) == abs(a) * abs(b),
{
    if a >= 0 {
        if b >= 0 {
            assert(a * b >= 0 && a * b == a * b) by (nonlinear_arith)
                requires
                    a >= 0,
                    b >= 0,
            ;
        } else {
            assert(a * b <= 0 && -(a * b) == a * -b) by (nonlinear_arith)
                requires
                    a >= 0,
                    b < 0,
            ;
        }
    } else {
        if b >= 0 {
            assert(a * b <= 0 && -(a * b) == -a * b) by (nonlinear_arith)
                requires
                    a < 0,
                    b >= 0,
            ;
        } else {
            assert(a * b >= 0 && a * b == -a * -b) by (nonlinear_arith)
                requires
                    a < 0,
                    b < 0,
            ;
        }
    }
}

impl Decimal {
    /// A value is well formed when its magnitude stays within `DEC_MAX`.
    pub open spec fn wf(&self) -> bool {
        in_range(self@)
    }

    /// Wraps a pico count, refusing magnitudes beyond `DEC_MAX`.
    pub fn from_picos(picos: i128) -> (r: Option<Decimal>)
        ensures
            r is Some <==> in_range(picos as int),
            r matches Some(d) ==> d@ == picos as int && d.wf(),
    {
        if -DEC_MAX <= picos && picos <= DEC_MAX {
            Some(Decimal { picos })
        } else {
            None
        }
    }

    /// Wraps a whole-unit count, refusing magnitudes beyond `DEC_MAX`.
    pub fn from_units(units: i64) -> (r: Option<Decimal>)
        ensures
            r is Some <==> in_range(units as int * DEC_ONE as int),
            r matches Some(d) ==> d@ == units as int * DEC_ONE as int && d.wf(),
    {
        if -DEC_MAX_UNITS <= (units as i128) && (units as i128) <= DEC_MAX_UNITS {
            Some(Decimal { picos: (units as i128) * DEC_ONE })
        } else {
            None
        }
    }

    /// The pico count, for callers outside the proof world.
    pub fn picos(&self) -> (r: i128)
        ensures
            r as int == self@,
    {
        self.picos
    }

    /// Checked addition: exact, refusing results beyond `DEC_MAX`.
    pub fn checked_add(self, rhs: Decimal) -> (r: Option<Decimal>)
        requires
            self.wf(),
            rhs.wf(),
        ensures
            r is Some <==> in_range(self@ + rhs@),
            r matches Some(d) ==> d@ == self@ + rhs@ && d.wf(),
    {
        let s: i128 = self.picos + rhs.picos;
        if -DEC_MAX <= s && s <= DEC_MAX {
            Some(Decimal { picos: s })
        } else {
            None
        }
    }

    /// Checked subtraction: exact, refusing results beyond `DEC_MAX`.
    pub fn checked_sub(self, rhs: Decimal) -> (r: Option<Decimal>)
        requires
            self.wf(),
            rhs.wf(),
        ensures
            r is Some <==> in_range(self@ - rhs@),
            r matches Some(d) ==> d@ == self@ - rhs@ && d.wf(),
    {
        let s: i128 = self.picos - rhs.picos;
        if -DEC_MAX <= s && s <= DEC_MAX {
            Some(Decimal { picos: s })
        } else {
            None
        }
    }

    /// Checked fixed-point multiplication, truncating toward zero.
    pub fn checked_mul(self, rhs: Decimal) -> (r: Option<Decimal>)
        requires
            self.wf(),
            rhs.wf(),
        ensures
            r is Some <==> in_range(dec_mul(self@, rhs@)),
            r matches Some(d) ==> d@ == dec_mul(self@, rhs@) && d.wf(),
    {
        let k: u128 = DEC_ONE as u128;
        let am: u128 = mag(self.picos);
        let bm: u128 = mag(rhs.picos);
        let qa: u128 = am / k;
        let ra: u128 = am % k;
        let qb: u128 = bm / k;
        let rb: u128 = bm % k;
        proof {
            lemma_muldiv_split(am as int, bm as int, k as int);
            lemma_abs_mul(self@, rhs@);
            assert(qa <= DEC_MAX_UNITS && qb <= DEC_MAX_UNITS) by {
                vstd::arithmetic::div_mod::lemma_div_is_ordered(
                    am as int,
                    DEC_MAX as int,
                    k as int,
                );
                vstd::arithmetic::div_mod::lemma_div_is_ordered(
                    bm as int,
                    DEC_MAX as int,
                    k as int,
                );
            }
            assert(qa * qb <= (DEC_MAX_UNITS as int) * (DEC_MAX_UNITS as int))
                by (nonlinear_arith)
                requires
                    0 <= qa <= DEC_MAX_UNITS,
                    0 <= qb <= DEC_MAX_UNITS,
            ;
        }
        let whole: u128 = qa * qb;
        if whole > (DEC_MAX_UNITS as u128) {
            proof {
                assert((am as int * bm as int) / (k as int) > DEC_MAX as int) by (nonlinear_arith)
                    requires
                        (am as int * bm as int) / (k as int) == ((qa as int * qb as int) * k as int)
                            + (qa as int * rb as int) + (qb as int * ra as int) + ((ra as int
                            * rb as int) / k as int),
                        qa as int * qb as int > DEC_MAX_UNITS as int,
                        k == DEC_ONE as u128,
                        0 <= qa as int * rb as int,
                        0 <= qb as int * ra as int,
                        0 <= (ra as int * rb as int) / k as int,
                ;
            }
            return None;
        }
        proof {
            assert(0 <= qa as int * rb as int <= DEC_MAX as int && 0 <= qb as int * ra as int
                <= DEC_MAX as int && 0 <= ra as int * rb as int <= DEC_MAX as int)
                by (nonlinear_arith)
                requires
                    0 <= qa <= DEC_MAX_UNITS,
                    0 <= qb <= DEC_MAX_UNITS,
                    0 <= ra < DEC_ONE,
                    0 <= rb < DEC_ONE,
                    DEC_MAX == DEC_MAX_UNITS * DEC_ONE,
            ;
        }
        let t1: u128 = whole * k;
        let t2: u128 = qa * rb;
        let t3: u128 = qb * ra;
        let t4: u128 = (ra * rb) / k;
        let total: u128 = t1 + t2 + t3 + t4;
        if total > (DEC_MAX as u128) {
            return None;
        }
        let neg: bool = (self.picos < 0) != (rhs.picos < 0);
        proof {
            if !neg {
                assert(self@ * rhs@ >= 0) by (nonlinear_arith)
                    requires
                        (self@ < 0) == (rhs@ < 0),
                ;
            } else {
                assert(self@ * rhs@ <= 0) by (nonlinear_arith)
                    requires
                        (self@ < 0) != (rhs@ < 0),
                ;
            }
        }
        let v: i128 = total as i128;
        if neg {
            Some(Decimal { picos: -v })
        } else {
            Some(Decimal { picos: v })
        }
    }

    /// Checked fixed-point division, truncating toward zero; refuses a zero
    /// divisor and results beyond `DEC_MAX`.
    pub fn checked_div(self, rhs: Decimal) -> (r: Option<Decimal>)
        requires
            self.wf(),
            rhs.wf(),
        ensures
            r is Some <==> rhs@ != 0 && in_range(dec_div(self@, rhs@)),
            r matches Some(d) ==> d@ == dec_div(self@, rhs@) && d.wf(),
    {
        if rhs.picos == 0 {
            return None;
        }
        let k: u128 = DEC_ONE as u128;
        let am: u128 = mag(self.picos);
        let bm: u128 = mag(rhs.picos);
        let num: u128 = am * k;
        let q: u128 = num / bm;
        proof {
            lemma_abs_mul(self@, DEC_ONE as int);
            if self.picos >= 0 {
                assert(self@ * (DEC_ONE as int) >= 0) by (nonlinear_arith)
                    requires
                        self@ >= 0,
                ;
            } else {
                assert(self@ * (DEC_ONE as int) <= 0) by (nonlinear_arith)
                    requires
                        self@ <= 0,
                ;
            }
        }
        if q > (DEC_MAX as u128) {
            return None;
        }
        let neg: bool = (self.picos < 0) != (rhs.picos < 0);
        let v: i128 = q as i128;
        if neg {
            Some(Decimal { picos: -v })
        } else {
            Some(Decimal { picos: v })
        }
    }
}

} // verus!

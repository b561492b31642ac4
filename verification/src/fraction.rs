//! A ratio between `0` and `1`, used for royalties and platform fees.

use vstd::prelude::*;

verus! {

use vstd::arithmetic::div_mod::{lemma_fundamental_div_mod, lemma_fundamental_div_mod_converse};

/// Faults of a malformed [`Fraction`].
#[derive(Clone, Copy, Debug, PartialEq, Eq, Structural)]
pub enum CorePanics {
    /// The denominator of a `Fraction` is `0`.
    ZeroDenominatorFraction,
    /// The `Fraction` is greater than `1`.
    FractionGreaterThanOne,
}

/// Represents a number between `0` and `1`.
/// It is meant to be used as a percentage to compute both fees and royalties.
/// As with usual fractions, the `den`ominator cannot be `0`; moreover `num`
/// must be less than or equal to `den`.
#[derive(Clone, Copy, Debug, PartialEq, Eq, Structural)]
pub struct Fraction {
    /// The *numerator* of this `Fraction`.
    pub num: u32,
    /// The *denominator* of this `Fraction`.
    pub den: u32,
}

/// Splits a 128-bit value into two 64-bit halves.
pub const POW64: u128 = 0x1_0000_0000_0000_0000;

impl Fraction {
    /// A fraction is valid when its denominator is non-zero and it does not
    /// exceed `1`.
    pub open spec fn valid(self) -> bool {
        self.den != 0 && self.num <= self.den
    }

    /// The mathematical value of `self × value`, rounded towards zero.
    pub open spec fn spec_mult(self, value: u128) -> int {
        ((self.num as int) * (value as int)) / (self.den as int)
    }

    /// Checks that this `Fraction` is valid, reporting the first violated
    /// condition: a zero denominator, or a numerator above the denominator.
    pub fn check(&self) -> (r: Result<(), CorePanics>)
        ensures
            r is Ok <==> self.valid(),
            self.den == 0 <==> r == Err::<(), CorePanics>(CorePanics::ZeroDenominatorFraction),
            self.den != 0 && self.num > self.den <==> r == Err::<(), CorePanics>(
                CorePanics::FractionGreaterThanOne,
            ),
    {
        if self.den == 0 {
            Err(CorePanics::ZeroDenominatorFraction)
        } else if self.num > self.den {
            Err(CorePanics::FractionGreaterThanOne)
        } else {
            Ok(())
        }
    }

    /// Multiplies this `Fraction` by the given `value`, rounding towards
    /// zero.  The 160-bit intermediate product is handled in two 64-bit
    /// limbs.
    pub fn mult(&self, value: u128) -> (r: u128)
        requires
            self.valid(),
        ensures
            r == self.spec_mult(value),
            r <= value,
    {
        let n = self.num as u128;
        let d = self.den as u128;
        let v_hi = value / POW64;
        let v_lo = value % POW64;
        proof {
            lemma_fundamental_div_mod(value as int, POW64 as int);
            assert(v_hi < POW64 && v_lo < POW64);
        }
        assert(n * v_lo < POW64 * POW64 && n * v_hi < POW64 * POW64 && n * v_hi
            < 0x1_0000_0000_0000_0000_0000_0000u128) by (nonlinear_arith)
            requires
                n < 0x1_0000_0000u128,
                v_lo < POW64,
                v_hi < POW64,
        ;
        let p_lo = n * v_lo;
        let p_hi = n * v_hi;
        // The full product: n * value == p_hi * 2^64 + p_lo.
        let ghost p: int = (n as int) * (value as int);
        proof {
            assert(p == p_hi * POW64 + p_lo) by (nonlinear_arith)
                requires
                    p == (n as int) * (value as int),
                    value == POW64 * v_hi + v_lo,
                    p_lo == n * v_lo,
                    p_hi == n * v_hi,
            ;
        }
        // Renormalise so the low limb fits in 64 bits.
        let hi = p_hi + p_lo / POW64;
        let lo = p_lo % POW64;
        proof {
            lemma_fundamental_div_mod(p_lo as int, POW64 as int);
            assert(p == hi * POW64 + lo) by (nonlinear_arith)
                requires
                    p == p_hi * POW64 + p_lo,
                    p_lo == POW64 * (p_lo as int / POW64 as int) + lo,
                    hi == p_hi + p_lo as int / POW64 as int,
            ;
        }
        // Long division of (hi, lo) by d.
        let q_hi = hi / d;
        let r_hi = hi % d;
        proof {
            lemma_fundamental_div_mod(hi as int, d as int);
        }
        assert(r_hi * POW64 < POW64 * POW64) by (nonlinear_arith)
            requires
                r_hi < 0x1_0000_0000u128,
        ;
        let s = r_hi * POW64 + lo;
        let q_lo = s / d;
        let ghost rem: int = (s as int) % (d as int);
        proof {
            lemma_fundamental_div_mod(s as int, d as int);
            // p == d * (q_hi * 2^64 + q_lo) + rem, with 0 <= rem < d.
            assert(p == (q_hi * POW64 + q_lo) * d + rem) by (nonlinear_arith)
                requires
                    p == hi * POW64 + lo,
                    hi == d * q_hi + r_hi,
                    s == r_hi * POW64 + lo,
                    s == d * q_lo + rem,
            ;
            lemma_fundamental_div_mod_converse(p, d as int, q_hi * POW64 + q_lo, rem);
            // Since num <= den, the quotient is at most `value`.
            assert(p <= (d as int) * (value as int)) by (nonlinear_arith)
                requires
                    p == (n as int) * (value as int),
                    n <= d,
            ;
            assert((d as int) * (value as int) / (d as int) == value) by (nonlinear_arith)
                requires
                    d > 0,
            ;
            vstd::arithmetic::div_mod::lemma_div_is_ordered(
                p,
                (d as int) * (value as int),
                d as int,
            );
            assert(q_hi * POW64 + q_lo == p / (d as int) <= value);
            assert(self.spec_mult(value) == p / (d as int));
        }
        q_hi * POW64 + q_lo
    }
}

/// The share that a valid fraction takes of `v` never exceeds `v`.
pub proof fn lemma_mult_le(f: Fraction, v: u128)
    requires
        f.valid(),
    ensures
        0 <= f.spec_mult(v) <= v,
{
    let n = f.num as int;
    let d = f.den as int;
    let p = n * (v as int);
    assert(0 <= p <= d * (v as int)) by (nonlinear_arith)
        requires
            p == n * (v as int),
            0 <= n <= d,
            0 <= v as int,
    ;
    assert(d * (v as int) / d == v) by (nonlinear_arith)
        requires
            d > 0,
    ;
    vstd::arithmetic::div_mod::lemma_div_is_ordered(0, p, d);
    vstd::arithmetic::div_mod::lemma_div_is_ordered(p, d * (v as int), d);
}

/// Whether two fractions sum to strictly less than `1`, stated over the
/// cross-multiplied integers so it is meaningful for any denominators.
pub open spec fn sum_lt_one(a: Fraction, b: Fraction) -> bool {
    (a.num as int) * (b.den as int) + (b.num as int) * (a.den as int) < (a.den as int) * (
    b.den as int)
}

/// A fraction that, together with a valid one, sums to strictly less than
/// `1` is itself valid.
pub proof fn lemma_sum_lt_one_valid(a: Fraction, b: Fraction)
    requires
        b.valid(),
        sum_lt_one(a, b),
    ensures
        a.valid(),
{
    let an = a.num as int;
    let ad = a.den as int;
    let bn = b.num as int;
    let bd = b.den as int;
    assert(ad != 0) by (nonlinear_arith)
        requires
            an * bd + bn * ad < ad * bd,
            an >= 0,
            bn >= 0,
            bd >= 0,
    ;
    assert(an <= ad) by (nonlinear_arith)
        requires
            an * bd + bn * ad < ad * bd,
            an >= 0,
            bn >= 0,
            ad > 0,
            bd > 0,
    ;
}

/// When two valid fractions sum to strictly less than `1`, their shares of
/// any `v` leave a non-negative remainder.
pub proof fn lemma_shares_leave_remainder(a: Fraction, b: Fraction, v: u128)
    requires
        a.valid(),
        b.valid(),
        sum_lt_one(a, b),
    ensures
        a.spec_mult(v) + b.spec_mult(v) <= v,
{
    let ad = a.den as int;
    let bd = b.den as int;
    let an = a.num as int;
    let bn = b.num as int;
    let vv = v as int;
    let r1 = a.spec_mult(v);
    let r2 = b.spec_mult(v);
    lemma_fundamental_div_mod(an * vv, ad);
    lemma_fundamental_div_mod(bn * vv, bd);
    assert(r1 * ad <= an * vv) by (nonlinear_arith)
        requires
            an * vv == ad * r1 + (an * vv) % ad,
            0 <= (an * vv) % ad,
    ;
    assert(r2 * bd <= bn * vv) by (nonlinear_arith)
        requires
            bn * vv == bd * r2 + (bn * vv) % bd,
            0 <= (bn * vv) % bd,
    ;
    assert(0 <= an * vv && 0 <= bn * vv) by (nonlinear_arith)
        requires
            0 <= an && 0 <= bn && 0 <= vv,
    ;
    vstd::arithmetic::div_mod::lemma_div_is_ordered(0, an * vv, ad);
    vstd::arithmetic::div_mod::lemma_div_is_ordered(0, bn * vv, bd);
    assert(r1 + r2 <= vv) by (nonlinear_arith)
        requires
            r1 * ad <= an * vv,
            r2 * bd <= bn * vv,
            an * bd + bn * ad <= ad * bd - 1,
            ad > 0,
            bd > 0,
            vv >= 0,
            r1 >= 0,
            r2 >= 0,
    ;
}

} // verus!

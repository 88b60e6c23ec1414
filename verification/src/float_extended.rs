//! Extended-exponent float: a double mantissa (as bits) paired with a signed
//! binary exponent, representing `mantissa * 2^exponent`. Canonical form has
//! `|mantissa|` in `[1, 2)` or a zero mantissa with exponent zero; `reduce`
//! restores it. The exponent saturates at `EXP_CAP`, far beyond any zoom a
//! render reaches.

use vstd::prelude::*;
use vstd::arithmetic::power2::pow2;
use crate::fp;
use crate::fp::{expf, frac, sgn, is_zero_bits, is_finite_bits, FRAC_MASK, SIGN_MASK};

verus! {

/// Saturation bound for the extended exponent.
pub const EXP_CAP: i64 = 0x1000_0000_0000;

#[derive(Clone, Copy, PartialEq, Eq, Structural, Debug)]
pub struct FloatExtended {
    /// IEEE 754 bit pattern of the mantissa double.
    pub mantissa: u64,
    /// Binary exponent applied on top of the mantissa.
    pub exponent: i64,
}

/// Exponent arithmetic saturates here instead of wrapping.
pub open spec fn sat(x: int) -> int {
    if x > EXP_CAP {
        EXP_CAP as int
    } else if x < -EXP_CAP {
        -EXP_CAP as int
    } else {
        x
    }
}

/// Position of the highest set bit of `x` (zero for `x == 0`).
pub open spec fn msb_pos(x: u64) -> nat
    decreases x,
{
    if x < 2 {
        0
    } else {
        1 + msb_pos(x / 2)
    }
}

/// Canonical form: a finite mantissa is either zero with exponent zero or
/// has its biased exponent field pinned to 1023, so `|mantissa|` lies in
/// `[1, 2)`; the exponent is within the saturation bound.
pub open spec fn is_canonical(fe: FloatExtended) -> bool {
    -EXP_CAP <= fe.exponent <= EXP_CAP && if is_finite_bits(fe.mantissa) {
        (is_zero_bits(fe.mantissa) && fe.exponent == 0) || expf(fe.mantissa) == 1023
    } else {
        true
    }
}

/// The reduction function: what `reduce` computes.
pub open spec fn spec_reduce(fe: FloatExtended) -> FloatExtended {
    let m = fe.mantissa;
    if !is_finite_bits(m) {
        FloatExtended { mantissa: m, exponent: sat(fe.exponent as int) as i64 }
    } else if is_zero_bits(m) {
        FloatExtended { mantissa: m & SIGN_MASK, exponent: 0 }
    } else if expf(m) >= 1 {
        FloatExtended {
            mantissa: (m & (SIGN_MASK | FRAC_MASK)) | (1023u64 << 52),
            exponent: sat(fe.exponent + expf(m) - 1023) as i64,
        }
    } else {
        let p = msb_pos(frac(m));
        FloatExtended {
            mantissa: (m & SIGN_MASK) | (1023u64 << 52) | ((frac(m) << ((52 - p) as u64))
                & FRAC_MASK),
            exponent: sat(fe.exponent + p - 1074) as i64,
        }
    }
}

impl FloatExtended {
    /// Builds the raw pair without renormalizing.
    pub fn new(mantissa: u64, exponent: i64) -> (r: FloatExtended)
        ensures
            r.mantissa == mantissa && r.exponent == exponent,
    {
        FloatExtended { mantissa, exponent }
    }

    /// A canonical zero.
    pub fn zero() -> (r: FloatExtended)
        ensures
            r == (FloatExtended { mantissa: 0u64, exponent: 0i64 }),
            is_canonical(r),
    {
        proof {
            assert(expf(0) == 0 && frac(0) == 0) by (bit_vector);
        }
        FloatExtended { mantissa: 0, exponent: 0 }
    }

    /// Renormalizes to canonical form.
    pub fn reduce(&mut self)
        ensures
            *final(self) == spec_reduce(*old(self)),
            is_canonical(*final(self)),
    {
        let m = self.mantissa;
        let ef: u64 = (m >> 52) & 0x7ff;
        let fr: u64 = m & FRAC_MASK;
        proof {
            assert(ef == expf(m) && fr == frac(m) && ef <= 0x7ff && fr < 0x10_0000_0000_0000)
                by (bit_vector)
                requires ef == (m >> 52) & 0x7ff && fr == m & FRAC_MASK;
        }
        if ef == 0x7ff {
            self.exponent = sat_exec(self.exponent, 0);
        } else if ef == 0 && fr == 0 {
            self.mantissa = m & SIGN_MASK;
            self.exponent = 0;
            proof {
                assert(expf(m & SIGN_MASK) == 0 && frac(m & SIGN_MASK) == 0) by (bit_vector);
            }
        } else if ef >= 1 {
            let nm: u64 = (m & (SIGN_MASK | FRAC_MASK)) | (1023u64 << 52);
            proof {
                assert(expf(nm) == 1023) by (bit_vector)
                    requires nm == (m & (SIGN_MASK | FRAC_MASK)) | (1023u64 << 52);
            }
            self.mantissa = nm;
            self.exponent = sat_exec(self.exponent, (ef as i64) - 1023);
        } else {
            let p = msb_exec(fr);
            let sh: u64 = (52 - p) as u64;
            let nm: u64 = (m & SIGN_MASK) | (1023u64 << 52) | ((fr << sh) & FRAC_MASK);
            proof {
                assert(expf(nm) == 1023) by (bit_vector)
                    requires sh <= 52 && nm == (m & SIGN_MASK) | (1023u64 << 52) | ((fr << sh)
                        & FRAC_MASK);
            }
            self.mantissa = nm;
            self.exponent = sat_exec(self.exponent, (p as i64) - 1074);
        }
    }

    /// `reduce` applied to a copy.
    pub fn reduced(&self) -> (r: FloatExtended)
        ensures
            r == spec_reduce(*self),
            is_canonical(r),
    {
        let mut c = *self;
        c.reduce();
        c
    }
}

/// Reduction is idempotent: renormalizing a canonical value changes nothing.
pub proof fn lemma_reduce_idempotent(x: FloatExtended)
    ensures
        spec_reduce(spec_reduce(x)) == spec_reduce(x),
{
    let r = spec_reduce(x);
    lemma_reduce_canonical(x);
    let m = r.mantissa;
    if !is_finite_bits(m) {
    } else if is_zero_bits(m) {
        assert((m & SIGN_MASK) == m) by (bit_vector)
            requires (m >> 52) & 0x7ff == 0 && m & FRAC_MASK == 0;
    } else {
        assert(expf(m) == 1023 ==> (m & (SIGN_MASK | FRAC_MASK)) | (1023u64 << 52) == m)
            by (bit_vector);
    }
}

/// The output of reduction is canonical.
pub proof fn lemma_reduce_canonical(x: FloatExtended)
    ensures
        is_canonical(spec_reduce(x)),
{
    let m = x.mantissa;
    if is_finite_bits(m) && !is_zero_bits(m) && expf(m) == 0 {
        let fr = frac(m);
        assert(fr < 0x10_0000_0000_0000) by (bit_vector)
            requires fr == m & FRAC_MASK;
        lemma_msb_bounds(fr);
        let p = msb_pos(fr);
        assert(p <= 51);
        let sh: u64 = (52 - p) as u64;
        let nm: u64 = (m & SIGN_MASK) | (1023u64 << 52) | ((fr << sh) & FRAC_MASK);
        assert(expf(nm) == 1023) by (bit_vector)
            requires sh <= 52 && nm == (m & SIGN_MASK) | (1023u64 << 52) | ((fr << sh)
                & FRAC_MASK);
    } else if is_finite_bits(m) && !is_zero_bits(m) {
        let nm: u64 = (m & (SIGN_MASK | FRAC_MASK)) | (1023u64 << 52);
        assert(expf(nm) == 1023) by (bit_vector)
            requires nm == (m & (SIGN_MASK | FRAC_MASK)) | (1023u64 << 52);
    } else if is_finite_bits(m) {
        assert(expf(m & SIGN_MASK) == 0 && frac(m & SIGN_MASK) == 0) by (bit_vector);
    }
}

/// Bound on the highest set bit from a bound on the value.
pub proof fn lemma_msb_le(x: u64, b: nat)
    requires
        x < vstd::arithmetic::power2::pow2(b + 1),
    ensures
        msb_pos(x) <= b,
    decreases x,
{
    if x >= 2 {
        vstd::arithmetic::power2::lemma_pow2_unfold(b + 1);
        vstd::arithmetic::power2::lemma_pow2_pos(b);
        vstd::arithmetic::power2::lemma2_to64();
        assert(pow2(b + 1) == 2 * pow2(b));
        assert(b >= 1);
        vstd::arithmetic::power2::lemma_pow2_unfold(b);
        assert(x / 2 < pow2(((b - 1) as nat) + 1));
        lemma_msb_le(x / 2, (b - 1) as nat);
    }
}

pub proof fn lemma_msb_bounds(x: u64)
    ensures
        msb_pos(x) <= 63,
        x < 0x10_0000_0000_0000 ==> msb_pos(x) <= 51,
{
    vstd::arithmetic::power2::lemma2_to64();
    vstd::arithmetic::power2::lemma2_to64_rest();
    lemma_msb_le(x, 63);
    if x < 0x10_0000_0000_0000 {
        lemma_msb_le(x, 51);
    }
}

/// Saturating add of an extended exponent and a small adjustment.
fn sat_exec(e: i64, d: i64) -> (r: i64)
    requires
        -1100 <= d <= 1100,
    ensures
        r == sat(e + d),
{
    match e.checked_add(d) {
        Some(s) => {
            if s > EXP_CAP {
                EXP_CAP
            } else if s < -EXP_CAP {
                -EXP_CAP
            } else {
                s
            }
        },
        None => {
            if e > 0 {
                EXP_CAP
            } else {
                -EXP_CAP
            }
        },
    }
}

/// Shift `sig` right by `sh`, rounding to nearest, ties to even.
pub open spec fn spec_rne_shift(sig: u64, sh: u64) -> u64 {
    let base = sig >> sh;
    let rem = sig & (((1u64 << sh) - 1) as u64);
    let half = (1u64 << ((sh - 1) as u64)) as u64;
    if rem > half || (rem == half && base & 1 == 1) {
        (base + 1) as u64
    } else {
        base
    }
}

/// The double whose value is `value(m) * 2^k`, rounded to nearest, ties to
/// even, with overflow to infinity and underflow to zero. NaN and infinity
/// pass through.
pub open spec fn spec_scale_pow2(m: u64, k: int) -> u64 {
    if !is_finite_bits(m) || is_zero_bits(m) {
        m
    } else {
        let sig = if expf(m) >= 1 {
            (0x10_0000_0000_0000u64 | frac(m)) as u64
        } else {
            (frac(m) << ((52 - msb_pos(frac(m))) as u64)) as u64
        };
        let q: int = if expf(m) >= 1 {
            expf(m) - 1023
        } else {
            msb_pos(frac(m)) - 1074
        };
        let s = m & SIGN_MASK;
        let nq = q + k;
        if nq > 1023 {
            s | fp::EXP_MASK
        } else if nq >= -1022 {
            s | (((nq + 1023) as u64) << 52) | ((sig & FRAC_MASK) as u64)
        } else if nq >= -1076 {
            s | spec_rne_shift(sig, (-1022 - nq) as u64)
        } else {
            s
        }
    }
}

/// Multiplies a double (as bits) by `2^k` exactly as IEEE 754 scaling would,
/// in plain bit arithmetic.
pub fn scale_pow2(m: u64, k: i64) -> (r: u64)
    requires
        -0x4000_0000_0000_0000 < k < 0x4000_0000_0000_0000,
    ensures
        r == spec_scale_pow2(m, k as int),
{
    let ef: u64 = (m >> 52) & 0x7ff;
    let fr: u64 = m & FRAC_MASK;
    let s: u64 = m & SIGN_MASK;
    proof {
        assert(ef == expf(m) && fr == frac(m) && s == (m & SIGN_MASK) && fr
            < 0x10_0000_0000_0000 && ef <= 0x7ff) by (bit_vector)
            requires ef == (m >> 52) & 0x7ff && fr == m & FRAC_MASK && s == m & SIGN_MASK;
    }
    if ef == 0x7ff || (ef == 0 && fr == 0) {
        return m;
    }
    let sig: u64;
    let q: i64;
    if ef >= 1 {
        sig = 0x10_0000_0000_0000u64 | fr;
        q = (ef as i64) - 1023;
    } else {
        let p = msb_exec(fr);
        let sh: u64 = 52 - p;
        sig = fr << sh;
        q = (p as i64) - 1074;
        proof {
            lemma_msb_bounds(fr);
        }
    }
    let nq: i64 = q + k;
    if nq > 1023 {
        proof {
            assert(s | 0x7FF0_0000_0000_0000u64 == (s | fp::EXP_MASK)) by (bit_vector);
        }
        s | 0x7FF0_0000_0000_0000u64
    } else if nq >= -1022 {
        let eb: u64 = (nq + 1023) as u64;
        s | (eb << 52) | (sig & FRAC_MASK)
    } else if nq >= -1076 {
        let sh: u64 = (-1022 - nq) as u64;
        proof {
            assert(1 <= sh < 64);
            assert((1u64 << sh) >= 1 && (sig >> sh) < 0xFFFF_FFFF_FFFF_FFFF) by (bit_vector)
                requires 1 <= sh < 64;
        }
        let base: u64 = sig >> sh;
        let rem: u64 = sig & ((1u64 << sh) - 1);
        let half: u64 = 1u64 << (sh - 1);
        if rem > half || (rem == half && base & 1 == 1) {
            s | (base + 1)
        } else {
            s | base
        }
    } else {
        s
    }
}

impl FloatExtended {
    /// Collapses the pair back to a plain double, saturating to infinity or
    /// zero where the exponent leaves double range.
    pub fn to_double_bits(&self) -> (r: u64)
        ensures
            ({
                let c = spec_reduce(*self);
                r == spec_scale_pow2(c.mantissa, c.exponent as int)
            }),
    {
        let c = self.reduced();
        scale_pow2(c.mantissa, c.exponent)
    }

    /// Widens a double into canonical extended form. Collapsing the result
    /// returns the original bits: the round trip is the identity.
    pub fn from_double_bits(b: u64) -> (r: FloatExtended)
        ensures
            r == spec_reduce(FloatExtended { mantissa: b, exponent: 0i64 }),
            is_canonical(r),
            spec_scale_pow2(r.mantissa, r.exponent as int) == b,
    {
        proof {
            lemma_round_trip(b);
        }
        FloatExtended { mantissa: b, exponent: 0 }.reduced()
    }

    /// Negation: an exact sign flip of the mantissa.
    pub fn neg(&self) -> (r: FloatExtended)
        ensures
            r == (FloatExtended { mantissa: self.mantissa ^ SIGN_MASK, exponent: self.exponent }),
    {
        FloatExtended { mantissa: fp::f64_neg(self.mantissa), exponent: self.exponent }
    }

    /// Sum under the documented alignment rule: the operand with the smaller
    /// exponent is rescaled onto the larger one's exponent, and is absorbed
    /// outright when the exponents differ by more than 53.
    pub fn add(&self, o: &FloatExtended) -> (r: FloatExtended)
        ensures
            r == spec_fe_add(*self, *o),
            is_canonical(r),
    {
        let ra = self.reduced();
        let rb = o.reduced();
        if ra.exponent >= rb.exponent {
            let d = ra.exponent - rb.exponent;
            if d > 53 {
                ra
            } else {
                let sm = scale_pow2(rb.mantissa, -d);
                FloatExtended { mantissa: fp::f64_add(ra.mantissa, sm), exponent: ra.exponent }
                    .reduced()
            }
        } else {
            let d = rb.exponent - ra.exponent;
            if d > 53 {
                rb
            } else {
                let sm = scale_pow2(ra.mantissa, -d);
                FloatExtended { mantissa: fp::f64_add(rb.mantissa, sm), exponent: rb.exponent }
                    .reduced()
            }
        }
    }

    /// Difference: the sum with the negated second operand.
    pub fn sub(&self, o: &FloatExtended) -> (r: FloatExtended)
        ensures
            r == spec_fe_add(
                *self,
                FloatExtended { mantissa: o.mantissa ^ SIGN_MASK, exponent: o.exponent },
            ),
            is_canonical(r),
    {
        self.add(&o.neg())
    }

    /// Product: mantissas multiply in double precision, exponents add with
    /// saturation, and the result is renormalized.
    pub fn mul(&self, o: &FloatExtended) -> (r: FloatExtended)
        ensures
            r == spec_fe_mul(*self, *o),
            is_canonical(r),
    {
        let m = fp::f64_mul(self.mantissa, o.mantissa);
        let e = sat_sum_exec(self.exponent, o.exponent);
        FloatExtended { mantissa: m, exponent: e }.reduced()
    }

    /// Quotient: mantissas divide in double precision, exponents subtract
    /// with saturation, and the result is renormalized.
    pub fn div(&self, o: &FloatExtended) -> (r: FloatExtended)
        ensures
            r == spec_fe_div(*self, *o),
            is_canonical(r),
    {
        let m = fp::f64_div(self.mantissa, o.mantissa);
        let e = sat_diff_exec(self.exponent, o.exponent);
        FloatExtended { mantissa: m, exponent: e }.reduced()
    }

    /// Strictly-less comparison of the represented values, on reduced forms;
    /// false when a mantissa is NaN.
    pub fn lt(&self, o: &FloatExtended) -> (r: bool)
        ensures
            r == spec_fe_lt(spec_reduce(*self), spec_reduce(*o)),
    {
        let a = self.reduced();
        let b = o.reduced();
        let ca = sign_class_exec(a.mantissa);
        let cb = sign_class_exec(b.mantissa);
        if ca != cb {
            ca < cb
        } else if ca == 1 {
            false
        } else if a.exponent != b.exponent {
            if ca == 2 {
                a.exponent < b.exponent
            } else {
                a.exponent > b.exponent
            }
        } else {
            fp::f64_lt(a.mantissa, b.mantissa)
        }
    }
}

/// Sign class of a mantissa: 0 for negative, 1 for zero or NaN, 2 for
/// positive.
pub open spec fn sign_class(m: u64) -> int {
    if is_zero_bits(m) || (expf(m) == 0x7ff && frac(m) != 0) {
        1
    } else if sgn(m) == 1 {
        0
    } else {
        2
    }
}

fn sign_class_exec(m: u64) -> (r: u64)
    ensures
        r == sign_class(m),
{
    let ef: u64 = (m >> 52) & 0x7ff;
    let fr: u64 = m & FRAC_MASK;
    let sg: u64 = m >> 63;
    proof {
        assert(ef == expf(m) && fr == frac(m) && sg == sgn(m)) by (bit_vector)
            requires ef == (m >> 52) & 0x7ff && fr == m & FRAC_MASK && sg == m >> 63;
    }
    if (ef == 0 && fr == 0) || (ef == 0x7ff && fr != 0) {
        1
    } else if sg == 1 {
        0
    } else {
        2
    }
}

/// Value order on canonical extended floats: sign class first, then the
/// exponent, then the mantissa under the double ordering.
pub open spec fn spec_fe_lt(a: FloatExtended, b: FloatExtended) -> bool {
    let ca = sign_class(a.mantissa);
    let cb = sign_class(b.mantissa);
    if ca != cb {
        ca < cb
    } else if ca == 1 {
        false
    } else if a.exponent != b.exponent {
        if ca == 2 {
            a.exponent < b.exponent
        } else {
            a.exponent > b.exponent
        }
    } else {
        fp::f64_lt_bits(a.mantissa, b.mantissa)
    }
}

/// What `add` computes.
pub open spec fn spec_fe_add(x: FloatExtended, y: FloatExtended) -> FloatExtended {
    let ra = spec_reduce(x);
    let rb = spec_reduce(y);
    if ra.exponent >= rb.exponent {
        let d: int = ra.exponent - rb.exponent;
        if d > 53 {
            ra
        } else {
            spec_reduce(
                FloatExtended {
                    mantissa: fp::f64_add_bits(ra.mantissa, spec_scale_pow2(rb.mantissa, -d)),
                    exponent: ra.exponent,
                },
            )
        }
    } else {
        let d: int = rb.exponent - ra.exponent;
        if d > 53 {
            rb
        } else {
            spec_reduce(
                FloatExtended {
                    mantissa: fp::f64_add_bits(rb.mantissa, spec_scale_pow2(ra.mantissa, -d)),
                    exponent: rb.exponent,
                },
            )
        }
    }
}

/// What `mul` computes.
pub open spec fn spec_fe_mul(x: FloatExtended, y: FloatExtended) -> FloatExtended {
    spec_reduce(
        FloatExtended {
            mantissa: fp::f64_mul_bits(x.mantissa, y.mantissa),
            exponent: sat(x.exponent + y.exponent) as i64,
        },
    )
}

/// What `div` computes.
pub open spec fn spec_fe_div(x: FloatExtended, y: FloatExtended) -> FloatExtended {
    spec_reduce(
        FloatExtended {
            mantissa: fp::f64_div_bits(x.mantissa, y.mantissa),
            exponent: sat(x.exponent - y.exponent) as i64,
        },
    )
}

/// Saturating sum of two extended exponents.
pub fn sat_sum_exec(a: i64, b: i64) -> (r: i64)
    ensures
        r == sat(a + b),
{
    match a.checked_add(b) {
        Some(s) => {
            if s > EXP_CAP {
                EXP_CAP
            } else if s < -EXP_CAP {
                -EXP_CAP
            } else {
                s
            }
        },
        None => {
            if a > 0 {
                EXP_CAP
            } else {
                -EXP_CAP
            }
        },
    }
}

/// Saturating difference of two extended exponents.
pub fn sat_diff_exec(a: i64, b: i64) -> (r: i64)
    ensures
        r == sat(a - b),
{
    match a.checked_sub(b) {
        Some(s) => {
            if s > EXP_CAP {
                EXP_CAP
            } else if s < -EXP_CAP {
                -EXP_CAP
            } else {
                s
            }
        },
        None => {
            if b < 0 {
                EXP_CAP
            } else {
                -EXP_CAP
            }
        },
    }
}


/// Renormalizing a canonical value is the identity.
pub proof fn lemma_reduce_of_canonical(x: FloatExtended)
    requires
        is_canonical(x),
    ensures
        spec_reduce(x) == x,
{
    let m = x.mantissa;
    if !is_finite_bits(m) {
    } else if is_zero_bits(m) {
        assert((m & SIGN_MASK) == m) by (bit_vector)
            requires (m >> 52) & 0x7ff == 0 && m & FRAC_MASK == 0;
    } else {
        assert(expf(m) == 1023 ==> (m & (SIGN_MASK | FRAC_MASK)) | (1023u64 << 52) == m)
            by (bit_vector);
    }
}

/// Scaling by `2^0` is the identity on a canonical mantissa.
pub proof fn lemma_scale_zero_of_canonical(m: u64)
    requires
        is_finite_bits(m) ==> is_zero_bits(m) || expf(m) == 1023,
    ensures
        spec_scale_pow2(m, 0) == m,
{
    if is_finite_bits(m) && !is_zero_bits(m) {
        let sig = (0x10_0000_0000_0000u64 | frac(m)) as u64;
        assert((m & SIGN_MASK) | ((1023u64) << 52) | ((sig & FRAC_MASK) as u64) == m
            && sig & FRAC_MASK == frac(m)) by (bit_vector)
            requires (m >> 52) & 0x7ff == 1023 && sig == 0x10_0000_0000_0000u64 | (m
                & FRAC_MASK);
    }
}

/// The product of two extended floats at exponent zero represents the
/// IEEE 754 double product of their mantissas exactly, whenever that
/// product is a normal double: with exponents in range the widening costs
/// nothing at all.
pub proof fn lemma_mul_agrees_with_double(a: FloatExtended, b: FloatExtended)
    requires
        a.exponent == 0,
        b.exponent == 0,
        fp::is_normal_bits(fp::f64_mul_bits(a.mantissa, b.mantissa)),
    ensures
        ({
            let r = spec_fe_mul(a, b);
            let p = fp::f64_mul_bits(a.mantissa, b.mantissa);
            fp::val_num(r.mantissa) == fp::val_num(p) && fp::val_scale(r.mantissa) + r.exponent
                == fp::val_scale(p)
        }),
{
    let p = fp::f64_mul_bits(a.mantissa, b.mantissa);
    lemma_reduce_normal_keeps_value(p);
}

/// The sum of two canonical extended floats at exponent zero represents
/// the IEEE 754 double sum of their mantissas exactly, whenever that sum
/// is a normal double.
pub proof fn lemma_add_agrees_with_double(a: FloatExtended, b: FloatExtended)
    requires
        is_canonical(a),
        is_canonical(b),
        a.exponent == 0,
        b.exponent == 0,
        fp::is_normal_bits(fp::f64_add_bits(a.mantissa, b.mantissa)),
    ensures
        ({
            let r = spec_fe_add(a, b);
            let s = fp::f64_add_bits(a.mantissa, b.mantissa);
            fp::val_num(r.mantissa) == fp::val_num(s) && fp::val_scale(r.mantissa) + r.exponent
                == fp::val_scale(s)
        }),
{
    lemma_reduce_of_canonical(a);
    lemma_reduce_of_canonical(b);
    lemma_scale_zero_of_canonical(a.mantissa);
    lemma_scale_zero_of_canonical(b.mantissa);
    let s = fp::f64_add_bits(a.mantissa, b.mantissa);
    lemma_reduce_normal_keeps_value(s);
}

/// Reduction of a normal double at exponent zero keeps the represented
/// value: the fraction and sign are untouched and the scale moves into the
/// extended exponent.
proof fn lemma_reduce_normal_keeps_value(p: u64)
    requires
        fp::is_normal_bits(p),
    ensures
        ({
            let r = spec_reduce(FloatExtended { mantissa: p, exponent: 0i64 });
            fp::val_num(r.mantissa) == fp::val_num(p) && fp::val_scale(r.mantissa) + r.exponent
                == fp::val_scale(p)
        }),
{
    let nm: u64 = (p & (SIGN_MASK | FRAC_MASK)) | (1023u64 << 52);
    assert(expf(nm) == 1023 && frac(nm) == frac(p) && sgn(nm) == sgn(p) && (expf(p) >= 1 ==> !(
        (p >> 52) & 0x7ff == 0 && p & FRAC_MASK == 0))) by (bit_vector)
        requires nm == (p & (SIGN_MASK | FRAC_MASK)) | (1023u64 << 52);
}

/// The magnitude sits between consecutive powers of two at its highest bit.
pub proof fn lemma_msb_range(x: u64)
    requires
        x >= 1,
    ensures
        pow2(msb_pos(x)) <= x < pow2(msb_pos(x) + 1),
    decreases x,
{
    vstd::arithmetic::power2::lemma2_to64();
    if x >= 2 {
        lemma_msb_range(x / 2);
        vstd::arithmetic::power2::lemma_pow2_unfold(msb_pos(x));
        vstd::arithmetic::power2::lemma_pow2_unfold(msb_pos(x) + 1);
    }
}

/// The double-to-extended-to-double round trip returns every bit pattern
/// unchanged: widening loses nothing.
pub proof fn lemma_round_trip(b: u64)
    ensures
        ({
            let c = spec_reduce(FloatExtended { mantissa: b, exponent: 0i64 });
            spec_scale_pow2(c.mantissa, c.exponent as int) == b
        }),
{
    let c = spec_reduce(FloatExtended { mantissa: b, exponent: 0i64 });
    if !is_finite_bits(b) {
    } else if is_zero_bits(b) {
        assert((b & SIGN_MASK) == b && expf(b & SIGN_MASK) == 0 && frac(b & SIGN_MASK) == 0)
            by (bit_vector)
            requires (b >> 52) & 0x7ff == 0 && b & FRAC_MASK == 0;
    } else if expf(b) >= 1 {
        let nm = c.mantissa;
        let ef = expf(b);
        assert(expf(nm) == 1023 && frac(nm) == frac(b) && (nm & SIGN_MASK) == (b & SIGN_MASK)
            && ef <= 0x7fe && !((nm >> 52) & 0x7ff == 0 && nm & FRAC_MASK == 0)) by (bit_vector)
            requires nm == (b & (SIGN_MASK | FRAC_MASK)) | (1023u64 << 52) && ef == (b >> 52)
                & 0x7ff && ef >= 1 && ef != 0x7ff;
        assert(c.exponent == ef - 1023);
        let sig = (0x10_0000_0000_0000u64 | frac(nm)) as u64;
        assert((b & SIGN_MASK) | ((ef as u64) << 52) | ((sig & FRAC_MASK) as u64) == b)
            by (bit_vector)
            requires sig == 0x10_0000_0000_0000u64 | (b & FRAC_MASK) && ef == (b >> 52)
                & 0x7ff && 1 <= ef <= 0x7fe;
    } else {
        let fr = frac(b);
        assert(fr < 0x10_0000_0000_0000 && fr >= 1) by (bit_vector)
            requires fr == b & FRAC_MASK && !((b >> 52) & 0x7ff == 0 && b & FRAC_MASK == 0)
                && (b >> 52) & 0x7ff == 0;
        lemma_msb_bounds(fr);
        lemma_msb_range(fr);
        let p = msb_pos(fr);
        let pu: u64 = p as u64;
        let sh: u64 = (52 - p) as u64;
        vstd::arithmetic::power2::lemma2_to64();
        vstd::arithmetic::power2::lemma2_to64_rest();
        assert(pow2((pu + 1) as nat) <= pow2(52)) by {
            if pu + 1 < 52 {
                vstd::arithmetic::power2::lemma_pow2_strictly_increases((pu + 1) as nat, 52);
            }
        };
        vstd::bits::lemma_u64_shl_is_mul(1u64, pu);
        vstd::bits::lemma_u64_shl_is_mul(1u64, (pu + 1) as u64);
        assert((1u64 << pu) <= fr < (1u64 << ((pu + 1) as u64)));
        let nm = c.mantissa;
        assert(expf(nm) == 1023 && (nm & SIGN_MASK) == (b & SIGN_MASK) && frac(nm) == ((fr << sh)
            & FRAC_MASK) && !((nm >> 52) & 0x7ff == 0 && nm & FRAC_MASK == 0)) by (bit_vector)
            requires nm == (b & SIGN_MASK) | (1023u64 << 52) | ((fr << sh) & FRAC_MASK)
                && sh <= 52;
        assert(c.exponent == p - 1074);
        let sig = (0x10_0000_0000_0000u64 | frac(nm)) as u64;
        // the significand is exactly the fraction shifted up, so shifting it
        // back down rounds nothing away
        assert(sig == (fr << sh) && ((fr << sh) >> sh) == fr && ((fr << sh) & (((1u64 << sh)
            - 1) as u64)) == 0 && ((b & SIGN_MASK) | fr) == b) by (bit_vector)
            requires sig == 0x10_0000_0000_0000u64 | ((fr << sh) & FRAC_MASK) && (1u64 << ((pu
                + 1) as u64)) > fr && (1u64 << pu) <= fr && sh == 52 - pu && pu <= 51
                && fr == b & FRAC_MASK && (b >> 52) & 0x7ff == 0;
        let nq: int = c.exponent as int;
        assert(nq == p - 1074 && -1076 <= nq < -1022);
        assert((-1022 - nq) as u64 == sh);
        assert((1u64 << (((sh - 1) as u64)) as u64) >= 1) by (bit_vector)
            requires 1 <= sh <= 52;
        assert(spec_rne_shift(sig, sh) == fr);
        assert(spec_scale_pow2(nm, nq) == ((nm & SIGN_MASK) | fr));
    }
}

/// `m1 * 2^s1 == m2 * 2^s2`, stated over integers by shifting onto the
/// smaller scale.
pub open spec fn vals_eq(m1: int, s1: int, m2: int, s2: int) -> bool {
    if s1 >= s2 {
        m1 * (pow2((s1 - s2) as nat) as int) == m2
    } else {
        m1 == m2 * (pow2((s2 - s1) as nat) as int)
    }
}

/// Renormalizing a finite value preserves what it denotes: the reduced pair
/// represents `val_num * 2^(val_scale + exponent)` of the input, exactly,
/// whenever the exponent is far enough from the saturation bound.
pub proof fn lemma_reduce_keeps_value(x: FloatExtended)
    requires
        is_finite_bits(x.mantissa),
        -EXP_CAP + 1100 <= x.exponent <= EXP_CAP - 1100,
    ensures
        ({
            let r = spec_reduce(x);
            vals_eq(
                fp::val_num(x.mantissa),
                fp::val_scale(x.mantissa) + x.exponent,
                fp::val_num(r.mantissa),
                fp::val_scale(r.mantissa) + r.exponent,
            )
        }),
{
    let b = x.mantissa;
    let r = spec_reduce(x);
    vstd::arithmetic::power2::lemma2_to64();
    vstd::arithmetic::power2::lemma2_to64_rest();
    assert(expf(b) <= 0x7ff) by (bit_vector);
    if is_zero_bits(b) {
        assert(frac(b & SIGN_MASK) == 0 && expf(b & SIGN_MASK) == 0 && frac(b) == 0)
            by (bit_vector)
            requires (b >> 52) & 0x7ff == 0 && b & FRAC_MASK == 0;
        let s1 = fp::val_scale(b) + x.exponent;
        let s2 = fp::val_scale(r.mantissa) + r.exponent;
        if s1 >= s2 {
            assert(0int * (pow2((s1 - s2) as nat) as int) == 0) by (nonlinear_arith);
        } else {
            assert(0int * (pow2((s2 - s1) as nat) as int) == 0) by (nonlinear_arith);
        }
        assert(fp::val_num(b) == 0 && fp::val_num(r.mantissa) == 0);
        assert(vals_eq(
            fp::val_num(b),
            fp::val_scale(b) + x.exponent,
            fp::val_num(r.mantissa),
            fp::val_scale(r.mantissa) + r.exponent,
        ));
    } else if expf(b) >= 1 {
        let nm = r.mantissa;
        assert(expf(nm) == 1023 && frac(nm) == frac(b) && sgn(nm) == sgn(b)) by (bit_vector)
            requires nm == (b & (SIGN_MASK | FRAC_MASK)) | (1023u64 << 52);
        assert(fp::val_num(nm) == fp::val_num(b));
        assert(fp::val_scale(nm) + r.exponent == fp::val_scale(b) + x.exponent);
        assert(fp::val_num(b) * (pow2(0) as int) == fp::val_num(b)) by (nonlinear_arith)
            requires pow2(0) == 1;
        assert(vals_eq(
            fp::val_num(b),
            fp::val_scale(b) + x.exponent,
            fp::val_num(r.mantissa),
            fp::val_scale(r.mantissa) + r.exponent,
        ));
    } else {
        let fr = frac(b);
        assert(fr < 0x10_0000_0000_0000 && fr >= 1 && sgn(b & SIGN_MASK) == sgn(b))
            by (bit_vector)
            requires fr == b & FRAC_MASK && !((b >> 52) & 0x7ff == 0 && b & FRAC_MASK == 0)
                && (b >> 52) & 0x7ff == 0;
        lemma_msb_bounds(fr);
        lemma_msb_range(fr);
        let p = msb_pos(fr);
        let pu: u64 = p as u64;
        let sh: u64 = (52 - p) as u64;
        assert(pow2((pu + 1) as nat) <= pow2(52)) by {
            if pu + 1 < 52 {
                vstd::arithmetic::power2::lemma_pow2_strictly_increases((pu + 1) as nat, 52);
            }
        };
        vstd::bits::lemma_u64_shl_is_mul(1u64, pu);
        vstd::bits::lemma_u64_shl_is_mul(1u64, (pu + 1) as u64);
        let nm = r.mantissa;
        // the significand is the fraction shifted up: same magnitude at the
        // shifted scale
        assert(expf(nm) == 1023 && sgn(nm) == sgn(b) && (0x10_0000_0000_0000u64 | frac(nm))
            == (fr << sh)) by (bit_vector)
            requires nm == (b & SIGN_MASK) | (1023u64 << 52) | ((fr << sh) & FRAC_MASK)
                && (1u64 << ((pu + 1) as u64)) > fr && (1u64 << pu) <= fr && sh == 52 - pu
                && pu <= 51;
        assert(pow2(sh as nat) <= pow2(52)) by {
            if (sh as nat) < 52 {
                vstd::arithmetic::power2::lemma_pow2_strictly_increases(sh as nat, 52);
            }
        };
        vstd::arithmetic::power2::lemma_pow2_adds((pu + 1) as nat, sh as nat);
        vstd::arithmetic::power2::lemma_pow2_pos(sh as nat);
        assert(fr * (pow2(sh as nat) as int) < pow2(53)) by (nonlinear_arith)
            requires fr < pow2((pu + 1) as nat) && (pow2((pu + 1) as nat) as int) * (pow2(
                sh as nat) as int) == pow2(53) as int && pow2(sh as nat) >= 1;
        vstd::bits::lemma_u64_shl_is_mul(fr, sh);
        assert((fr << sh) as int == fr * (pow2(sh as nat) as int));
        assert(fp::val_scale(b) + x.exponent - (fp::val_scale(nm) + r.exponent) == sh);
        assert(frac(nm) < 0x10_0000_0000_0000) by (bit_vector)
            requires frac(nm) == nm & FRAC_MASK;
        assert((0x10_0000_0000_0000u64 | frac(nm)) == 0x10_0000_0000_0000 + frac(nm))
            by (bit_vector)
            requires frac(nm) < 0x10_0000_0000_0000;
        assert(0x10_0000_0000_0000int + frac(nm) == (fr << sh) as int);
        if sgn(b) == 1 {
            assert(fp::val_num(b) == -(fr as int));
            assert(fp::val_num(nm) == -((fr << sh) as int));
            assert((-(fr as int)) * (pow2(sh as nat) as int) == -(fr * (pow2(
                sh as nat) as int))) by (nonlinear_arith);
        } else {
            assert(fp::val_num(b) == fr as int);
            assert(fp::val_num(nm) == (fr << sh) as int);
        }
        assert(vals_eq(
            fp::val_num(b),
            fp::val_scale(b) + x.exponent,
            fp::val_num(r.mantissa),
            fp::val_scale(r.mantissa) + r.exponent,
        ));
    }
}

/// Highest set bit of a nonzero value.
pub fn msb_exec(x: u64) -> (r: u64)
    requires
        x != 0,
    ensures
        r == msb_pos(x),
        r <= 63,
        x < 0x10_0000_0000_0000 ==> r <= 51,
{
    let mut v: u64 = x;
    let mut r: u64 = 0;
    proof {
        lemma_msb_bounds(x);
    }
    while v >= 2
        invariant
            v >= 1,
            msb_pos(x) == r + msb_pos(v),
            r <= 63,
            x < 0x10_0000_0000_0000 ==> r <= 51,
            v <= x,
        decreases v,
    {
        proof {
            lemma_msb_bounds(x);
            if v >= 2 {
                assert(msb_pos(v) == 1 + msb_pos(v / 2));
                assert(msb_pos(v) >= 1);
            }
        }
        v = v / 2;
        r = r + 1;
        proof {
            if r > 63 {
                assert(msb_pos(x) >= r);
                assert(false);
            }
            if x < 0x10_0000_0000_0000 && r > 51 {
                assert(msb_pos(x) >= r);
                assert(false);
            }
        }
    }
    r
}

} // verus!

//! Double-precision and extended-exponent complex numbers, components
//! carried as IEEE 754 bit patterns.

use vstd::prelude::*;
use crate::fp;
use crate::fp::{expf, frac, is_zero_bits, is_finite_bits, FRAC_MASK, SIGN_MASK,
    f64_add_bits, f64_mul_bits};
use crate::float_extended::{FloatExtended, sat, spec_scale_pow2, scale_pow2, sat_sum_exec,
    msb_exec, msb_pos, lemma_msb_bounds, EXP_CAP};

verus! {

pub const ONE_BITS: u64 = 0x3FF0_0000_0000_0000;
pub const TWO_BITS: u64 = 0x4000_0000_0000_0000;

/// A plain double complex, components as bit patterns.
#[derive(Clone, Copy, PartialEq, Eq, Structural, Debug)]
pub struct ComplexFixed {
    pub re: u64,
    pub im: u64,
}

/// Real part of a complex product.
pub open spec fn spec_cf_mul_re(a: ComplexFixed, b: ComplexFixed) -> u64 {
    f64_add_bits(f64_mul_bits(a.re, b.re), f64_mul_bits(a.im, b.im) ^ SIGN_MASK)
}

/// Imaginary part of a complex product.
pub open spec fn spec_cf_mul_im(a: ComplexFixed, b: ComplexFixed) -> u64 {
    f64_add_bits(f64_mul_bits(a.re, b.im), f64_mul_bits(a.im, b.re))
}

impl ComplexFixed {
    pub fn new(re: u64, im: u64) -> (r: ComplexFixed)
        ensures
            r.re == re && r.im == im,
    {
        ComplexFixed { re, im }
    }

    /// Component-wise double sum.
    pub fn add(&self, o: &ComplexFixed) -> (r: ComplexFixed)
        ensures
            r.re == f64_add_bits(self.re, o.re),
            r.im == f64_add_bits(self.im, o.im),
    {
        ComplexFixed { re: fp::f64_add(self.re, o.re), im: fp::f64_add(self.im, o.im) }
    }

    /// Component-wise double difference, via exact negation.
    pub fn sub(&self, o: &ComplexFixed) -> (r: ComplexFixed)
        ensures
            r.re == f64_add_bits(self.re, o.re ^ SIGN_MASK),
            r.im == f64_add_bits(self.im, o.im ^ SIGN_MASK),
    {
        ComplexFixed {
            re: fp::f64_add(self.re, fp::f64_neg(o.re)),
            im: fp::f64_add(self.im, fp::f64_neg(o.im)),
        }
    }

    /// Complex product in double precision.
    pub fn mul(&self, o: &ComplexFixed) -> (r: ComplexFixed)
        ensures
            r.re == spec_cf_mul_re(*self, *o),
            r.im == spec_cf_mul_im(*self, *o),
    {
        let rr = fp::f64_mul(self.re, o.re);
        let ii = fp::f64_mul(self.im, o.im);
        let ri = fp::f64_mul(self.re, o.im);
        let ir = fp::f64_mul(self.im, o.re);
        ComplexFixed { re: fp::f64_add(rr, fp::f64_neg(ii)), im: fp::f64_add(ri, ir) }
    }

    /// Squared magnitude `re^2 + im^2` in double precision.
    pub fn norm_sqr(&self) -> (r: u64)
        ensures
            r == f64_add_bits(f64_mul_bits(self.re, self.re), f64_mul_bits(self.im, self.im)),
    {
        fp::f64_add(fp::f64_mul(self.re, self.re), fp::f64_mul(self.im, self.im))
    }

    /// Scales both components by the double `2.0`.
    pub fn double(&self) -> (r: ComplexFixed)
        ensures
            r.re == f64_mul_bits(TWO_BITS, self.re),
            r.im == f64_mul_bits(TWO_BITS, self.im),
    {
        ComplexFixed { re: fp::f64_mul(TWO_BITS, self.re), im: fp::f64_mul(TWO_BITS, self.im) }
    }
}

/// An extended-exponent complex: two double mantissas sharing one binary
/// exponent. Canonical form has `max(|re|, |im|)` in `[1, 2)` or both
/// components zero.
#[derive(Clone, Copy, PartialEq, Eq, Structural, Debug)]
pub struct ComplexExtended {
    pub re: u64,
    pub im: u64,
    pub exponent: i64,
}

/// Unbiased binary exponent of a nonzero finite double.
pub open spec fn dexp(m: u64) -> int {
    if expf(m) >= 1 {
        expf(m) - 1023
    } else {
        msb_pos(frac(m)) - 1074
    }
}

/// What `ComplexExtended::reduce` computes: both components are rescaled by
/// the one power of two that brings the larger into `[1, 2)`.
pub open spec fn spec_ce_reduce(c: ComplexExtended) -> ComplexExtended {
    if !is_finite_bits(c.re) || !is_finite_bits(c.im) {
        ComplexExtended { re: c.re, im: c.im, exponent: sat(c.exponent as int) as i64 }
    } else if is_zero_bits(c.re) && is_zero_bits(c.im) {
        ComplexExtended { re: c.re, im: c.im, exponent: 0i64 }
    } else {
        let q: int = if is_zero_bits(c.im) {
            dexp(c.re)
        } else if is_zero_bits(c.re) {
            dexp(c.im)
        } else if dexp(c.re) >= dexp(c.im) {
            dexp(c.re)
        } else {
            dexp(c.im)
        };
        ComplexExtended {
            re: spec_scale_pow2(c.re, -q),
            im: spec_scale_pow2(c.im, -q),
            exponent: sat(c.exponent + q) as i64,
        }
    }
}

/// Unbiased exponent of a nonzero finite double, in executable form.
fn dexp_exec(m: u64) -> (r: i64)
    requires
        is_finite_bits(m),
        !is_zero_bits(m),
    ensures
        r == dexp(m),
        -1074 <= r <= 1023,
{
    let ef: u64 = (m >> 52) & 0x7ff;
    let fr: u64 = m & FRAC_MASK;
    proof {
        assert(ef == expf(m) && fr == frac(m) && ef <= 0x7ff && fr < 0x10_0000_0000_0000)
            by (bit_vector)
            requires ef == (m >> 52) & 0x7ff && fr == m & FRAC_MASK;
    }
    if ef >= 1 {
        (ef as i64) - 1023
    } else {
        let p = msb_exec(fr);
        proof {
            lemma_msb_bounds(fr);
        }
        (p as i64) - 1074
    }
}

impl ComplexExtended {
    pub fn new(v: ComplexFixed, exponent: i64) -> (r: ComplexExtended)
        ensures
            r.re == v.re && r.im == v.im && r.exponent == exponent,
    {
        ComplexExtended { re: v.re, im: v.im, exponent }
    }

    pub fn new2(re: u64, im: u64, exponent: i64) -> (r: ComplexExtended)
        ensures
            r.re == re && r.im == im && r.exponent == exponent,
    {
        ComplexExtended { re, im, exponent }
    }

    pub fn zero() -> (r: ComplexExtended)
        ensures
            r == (ComplexExtended { re: 0u64, im: 0u64, exponent: 0i64 }),
    {
        ComplexExtended { re: 0, im: 0, exponent: 0 }
    }

    /// Renormalizes so that the larger component's magnitude lies in
    /// `[1, 2)`, or both are zero with exponent zero.
    pub fn reduce(&mut self)
        ensures
            *final(self) == spec_ce_reduce(*old(self)),
    {
        let fin_re = is_finite_exec(self.re);
        let fin_im = is_finite_exec(self.im);
        if !fin_re || !fin_im {
            self.exponent = sat_sum_exec(self.exponent, 0);
            return;
        }
        let z_re = is_zero_exec(self.re);
        let z_im = is_zero_exec(self.im);
        if z_re && z_im {
            self.exponent = 0;
            return;
        }
        let q: i64 = if z_im {
            dexp_exec(self.re)
        } else if z_re {
            dexp_exec(self.im)
        } else {
            let qr = dexp_exec(self.re);
            let qi = dexp_exec(self.im);
            if qr >= qi {
                qr
            } else {
                qi
            }
        };
        self.re = scale_pow2(self.re, -q);
        self.im = scale_pow2(self.im, -q);
        self.exponent = sat_sum_exec(self.exponent, q);
    }

    pub fn reduced(&self) -> (r: ComplexExtended)
        ensures
            r == spec_ce_reduce(*self),
    {
        let mut c = *self;
        c.reduce();
        c
    }

    /// Sum under the same alignment rule as the extended float: the operand
    /// with the smaller exponent is rescaled, or absorbed when the exponents
    /// differ by more than 53.
    pub fn add(&self, o: &ComplexExtended) -> (r: ComplexExtended)
        ensures
            r == spec_ce_add(*self, *o),
    {
        let ra = self.reduced();
        let rb = o.reduced();
        if ra.exponent >= rb.exponent {
            let d = ra.exponent - rb.exponent;
            if d > 53 {
                ra
            } else {
                ComplexExtended {
                    re: fp::f64_add(ra.re, scale_pow2(rb.re, -d)),
                    im: fp::f64_add(ra.im, scale_pow2(rb.im, -d)),
                    exponent: ra.exponent,
                }.reduced()
            }
        } else {
            let d = rb.exponent - ra.exponent;
            if d > 53 {
                rb
            } else {
                ComplexExtended {
                    re: fp::f64_add(rb.re, scale_pow2(ra.re, -d)),
                    im: fp::f64_add(rb.im, scale_pow2(ra.im, -d)),
                    exponent: rb.exponent,
                }.reduced()
            }
        }
    }

    /// Difference via exact component negation.
    pub fn sub(&self, o: &ComplexExtended) -> (r: ComplexExtended)
        ensures
            r == spec_ce_add(
                *self,
                ComplexExtended {
                    re: o.re ^ SIGN_MASK,
                    im: o.im ^ SIGN_MASK,
                    exponent: o.exponent,
                },
            ),
    {
        let n = ComplexExtended {
            re: fp::f64_neg(o.re),
            im: fp::f64_neg(o.im),
            exponent: o.exponent,
        };
        self.add(&n)
    }

    /// Complex product: mantissa arithmetic in double precision, exponents
    /// added with saturation, then renormalized.
    pub fn mul(&self, o: &ComplexExtended) -> (r: ComplexExtended)
        ensures
            r == spec_ce_mul(*self, *o),
    {
        let a = ComplexFixed { re: self.re, im: self.im };
        let b = ComplexFixed { re: o.re, im: o.im };
        let p = a.mul(&b);
        ComplexExtended {
            re: p.re,
            im: p.im,
            exponent: sat_sum_exec(self.exponent, o.exponent),
        }.reduced()
    }

    /// Squared magnitude as an extended float.
    pub fn norm_square(&self) -> (r: FloatExtended)
        ensures
            r == crate::float_extended::spec_reduce(
                FloatExtended {
                    mantissa: f64_add_bits(
                        f64_mul_bits(self.re, self.re),
                        f64_mul_bits(self.im, self.im),
                    ),
                    exponent: sat(2 * self.exponent) as i64,
                },
            ),
    {
        let m = fp::f64_add(fp::f64_mul(self.re, self.re), fp::f64_mul(self.im, self.im));
        let e = sat_sum_exec(self.exponent, self.exponent);
        FloatExtended { mantissa: m, exponent: e }.reduced()
    }

    /// Collapses to a plain double complex, saturating out-of-range
    /// exponents.
    pub fn to_fixed(&self) -> (r: ComplexFixed)
        ensures
            r == spec_cf_of_ce(*self),
    {
        let c = self.reduced();
        ComplexFixed { re: scale_pow2(c.re, c.exponent), im: scale_pow2(c.im, c.exponent) }
    }
}

/// What `ComplexExtended::add` computes.
pub open spec fn spec_ce_add(x: ComplexExtended, y: ComplexExtended) -> ComplexExtended {
    let ra = spec_ce_reduce(x);
    let rb = spec_ce_reduce(y);
    if ra.exponent >= rb.exponent {
        let d: int = ra.exponent - rb.exponent;
        if d > 53 {
            ra
        } else {
            spec_ce_reduce(
                ComplexExtended {
                    re: f64_add_bits(ra.re, spec_scale_pow2(rb.re, -d)),
                    im: f64_add_bits(ra.im, spec_scale_pow2(rb.im, -d)),
                    exponent: ra.exponent,
                },
            )
        }
    } else {
        let d: int = rb.exponent - ra.exponent;
        if d > 53 {
            rb
        } else {
            spec_ce_reduce(
                ComplexExtended {
                    re: f64_add_bits(rb.re, spec_scale_pow2(ra.re, -d)),
                    im: f64_add_bits(rb.im, spec_scale_pow2(ra.im, -d)),
                    exponent: rb.exponent,
                },
            )
        }
    }
}

/// What `ComplexExtended::mul` computes.
pub open spec fn spec_ce_mul(x: ComplexExtended, y: ComplexExtended) -> ComplexExtended {
    let a = ComplexFixed { re: x.re, im: x.im };
    let b = ComplexFixed { re: y.re, im: y.im };
    spec_ce_reduce(
        ComplexExtended {
            re: spec_cf_mul_re(a, b),
            im: spec_cf_mul_im(a, b),
            exponent: sat(x.exponent + y.exponent) as i64,
        },
    )
}

fn is_finite_exec(m: u64) -> (r: bool)
    ensures
        r == is_finite_bits(m),
{
    let ef: u64 = (m >> 52) & 0x7ff;
    proof {
        assert(ef == expf(m)) by (bit_vector)
            requires ef == (m >> 52) & 0x7ff;
    }
    ef != 0x7ff
}

fn is_zero_exec(m: u64) -> (r: bool)
    ensures
        r == is_zero_bits(m),
{
    let ef: u64 = (m >> 52) & 0x7ff;
    let fr: u64 = m & FRAC_MASK;
    proof {
        assert(ef == expf(m) && fr == frac(m)) by (bit_vector)
            requires ef == (m >> 52) & 0x7ff && fr == m & FRAC_MASK;
    }
    ef == 0 && fr == 0
}

/// The double-complex image of an extended complex: reduce, then scale
/// each component by the shared exponent.
pub open spec fn spec_cf_of_ce(c: ComplexExtended) -> ComplexFixed {
    let r = spec_ce_reduce(c);
    ComplexFixed {
        re: spec_scale_pow2(r.re, r.exponent as int),
        im: spec_scale_pow2(r.im, r.exponent as int),
    }
}

/// Component-wise sum, as the double ops compute it.
pub open spec fn spec_cf_add(a: ComplexFixed, b: ComplexFixed) -> ComplexFixed {
    ComplexFixed { re: f64_add_bits(a.re, b.re), im: f64_add_bits(a.im, b.im) }
}

/// The complex product, as the double ops compute it.
pub open spec fn spec_cf_mul(a: ComplexFixed, b: ComplexFixed) -> ComplexFixed {
    ComplexFixed { re: spec_cf_mul_re(a, b), im: spec_cf_mul_im(a, b) }
}

/// Both components doubled.
pub open spec fn spec_cf_double(a: ComplexFixed) -> ComplexFixed {
    ComplexFixed { re: f64_mul_bits(TWO_BITS, a.re), im: f64_mul_bits(TWO_BITS, a.im) }
}

/// `re^2 + im^2` in double precision.
pub open spec fn spec_cf_norm_sqr(a: ComplexFixed) -> u64 {
    f64_add_bits(f64_mul_bits(a.re, a.re), f64_mul_bits(a.im, a.im))
}

} // verus!

//! The perturbation inner loop: advances each pixel's deviation from the
//! reference orbit with the recurrence `d' = 2*Z*d + d^2 + c_d`, flagging
//! escape and glitches. The whole per-pixel run is pinned to a functional
//! specification over the recorded reference.

use vstd::prelude::*;
use crate::complex::{ComplexFixed, ComplexExtended, spec_cf_add, spec_cf_mul, spec_cf_double,
    spec_cf_norm_sqr, spec_ce_mul, spec_ce_add, spec_ce_reduce, ONE_BITS};
use crate::float_extended::spec_scale_pow2;
use crate::fp::f64_lt_bits;
use crate::reference::ReferenceOrbit;

verus! {

/// Bit pattern of the double `1e20`, the squared escape radius.
pub const ESC2_BITS: u64 = 0x4415_AF1D_78B5_8C40;

/// Bit pattern of the double `1e-3`, the glitch tolerance factor.
pub const GLITCH_TOL_BITS: u64 = 0x3F50_624D_D2F1_A9FC;

/// One pixel's working state.
#[derive(Clone, Copy, PartialEq, Eq, Structural, Debug)]
pub struct PixelData {
    pub image_x: usize,
    pub image_y: usize,
    /// Current global iteration count.
    pub iteration: u64,
    /// Displacement from the image centre; set once.
    pub delta_centre: ComplexExtended,
    /// Displacement from the current reference centre.
    pub delta_reference: ComplexExtended,
    /// Perturbed value at the start iteration.
    pub delta_start: ComplexExtended,
    /// Current perturbed value, in the reference frame.
    pub delta_current: ComplexFixed,
    /// First derivative for distance estimation.
    pub derivative_current: ComplexFixed,
    pub glitched: bool,
    pub escaped: bool,
}

/// The next deviation: `d*(2*Z + d) + c_d` in double precision.
pub open spec fn spec_step_delta(z: ComplexFixed, d: ComplexFixed, cd: ComplexFixed)
    -> ComplexFixed {
    spec_cf_add(spec_cf_mul(d, spec_cf_add(spec_cf_double(z), d)), cd)
}

/// The next derivative: `2*(Z + d)*der + 1` in double precision.
pub open spec fn spec_step_deriv(z: ComplexFixed, d: ComplexFixed, der: ComplexFixed)
    -> ComplexFixed {
    spec_cf_add(
        spec_cf_mul(spec_cf_double(spec_cf_add(z, d)), der),
        ComplexFixed { re: ONE_BITS, im: 0u64 },
    )
}

/// Escape: `|Z + d|^2 > 1e20` in double precision.
pub open spec fn spec_escape(znd: ComplexFixed) -> bool {
    f64_lt_bits(ESC2_BITS, spec_cf_norm_sqr(znd))
}

/// Glitch: `|Z + d|^2 < 1e-3 * |d|^2`, the lost-significance criterion.
pub open spec fn spec_glitch(znd: ComplexFixed, d: ComplexFixed) -> bool {
    f64_lt_bits(
        spec_cf_norm_sqr(znd),
        crate::fp::f64_mul_bits(GLITCH_TOL_BITS, spec_cf_norm_sqr(d)),
    )
}

/// The rebased step, carried out in extended precision when the reference
/// image underflows doubles: `(Z*d)*2 + d^2 + c_d`, then collapsed. The
/// second component says whether the result stayed in double range.
pub open spec fn spec_rebased_step(ze: ComplexExtended, d: ComplexFixed, cd: ComplexFixed)
    -> (ComplexFixed, bool) {
    let dce = ComplexExtended { re: d.re, im: d.im, exponent: 0i64 };
    let cdce = ComplexExtended { re: cd.re, im: cd.im, exponent: 0i64 };
    let s = spec_ce_mul(ze, dce);
    let tot = spec_ce_add(spec_ce_add(spec_ce_add(s, s), spec_ce_mul(dce, dce)), cdce);
    let ok = -1000 <= tot.exponent <= 1000;
    let c = spec_ce_reduce(tot);
    (
        ComplexFixed {
            re: spec_scale_pow2(c.re, c.exponent as int),
            im: spec_scale_pow2(c.im, c.exponent as int),
        },
        ok,
    )
}

/// The full per-pixel run: from `p`, keep stepping against the recorded
/// reference until escape, glitch or the iteration cap.
pub open spec fn spec_advance(
    zl: Seq<ComplexFixed>,
    ze: Seq<ComplexExtended>,
    rb: Seq<bool>,
    start: int,
    cd: ComplexFixed,
    p: PixelData,
    cap: u64,
) -> PixelData
    decreases cap - p.iteration,
{
    if p.escaped || p.glitched || p.iteration >= cap || p.iteration < start || p.iteration + 1
        - start >= zl.len() {
        p
    } else {
        let n = p.iteration;
        let idx = n - start;
        let (dnew, ok) = if rb[idx] {
            spec_rebased_step(ze[idx], p.delta_current, cd)
        } else {
            (spec_step_delta(zl[idx], p.delta_current, cd), true)
        };
        let dernew = spec_step_deriv(zl[idx], p.delta_current, p.derivative_current);
        if !ok {
            PixelData { iteration: (n + 1) as u64, glitched: true, ..p }
        } else {
            let znd = spec_cf_add(zl[idx + 1], dnew);
            let stepped = PixelData {
                iteration: (n + 1) as u64,
                delta_current: dnew,
                derivative_current: dernew,
                ..p
            };
            if spec_escape(znd) {
                PixelData { escaped: true, ..stepped }
            } else if spec_glitch(znd, dnew) {
                PixelData { glitched: true, ..stepped }
            } else {
                spec_advance(zl, ze, rb, start, cd, stepped, cap)
            }
        }
    }
}

/// The run never decreases the iteration count, leaves finished pixels
/// alone, and never raises both flags at once.
pub proof fn lemma_advance_props(
    zl: Seq<ComplexFixed>,
    ze: Seq<ComplexExtended>,
    rb: Seq<bool>,
    start: int,
    cd: ComplexFixed,
    p: PixelData,
    cap: u64,
)
    ensures
        spec_advance(zl, ze, rb, start, cd, p, cap).iteration >= p.iteration,
        p.escaped || p.glitched ==> spec_advance(zl, ze, rb, start, cd, p, cap) == p,
        !(p.escaped && p.glitched) ==> !(spec_advance(zl, ze, rb, start, cd, p, cap).escaped
            && spec_advance(zl, ze, rb, start, cd, p, cap).glitched),
        p.escaped ==> spec_advance(zl, ze, rb, start, cd, p, cap).escaped,
        spec_advance(zl, ze, rb, start, cd, p, cap).iteration <= cap || p.iteration > cap,
        spec_advance(zl, ze, rb, start, cd, p, cap).image_x == p.image_x,
        spec_advance(zl, ze, rb, start, cd, p, cap).image_y == p.image_y,
        spec_advance(zl, ze, rb, start, cd, p, cap).delta_centre == p.delta_centre,
    decreases cap - p.iteration,
{
    if !(p.escaped || p.glitched || p.iteration >= cap || p.iteration < start || p.iteration + 1
        - start >= zl.len()) {
        let n = p.iteration;
        let idx = n - start;
        let (dnew, ok) = if rb[idx] {
            spec_rebased_step(ze[idx], p.delta_current, cd)
        } else {
            (spec_step_delta(zl[idx], p.delta_current, cd), true)
        };
        let dernew = spec_step_deriv(zl[idx], p.delta_current, p.derivative_current);
        if ok {
            let znd = spec_cf_add(zl[idx + 1], dnew);
            let stepped = PixelData {
                iteration: (n + 1) as u64,
                delta_current: dnew,
                derivative_current: dernew,
                ..p
            };
            if !spec_escape(znd) && !spec_glitch(znd, dnew) {
                lemma_advance_props(zl, ze, rb, start, cd, stepped, cap);
            }
        }
    }
}

pub struct Perturbation {}

impl Perturbation {
    /// Advances every unfinished pixel against the reference up to `n_cap`,
    /// in place. Pixels are independent: each lands exactly on its
    /// functional run.
    #[verifier::rlimit(100)]
    pub fn iterate(
        pixels: &mut Vec<PixelData>,
        reference: &ReferenceOrbit,
        n_cap: u64,
    )
        requires
            reference.wf(),
            n_cap <= reference.current_iteration,
        ensures
            final(pixels)@.len() == old(pixels)@.len(),
            forall|i: int|
                0 <= i < old(pixels)@.len() ==> final(pixels)@[i] == spec_advance(
                    reference.z_low@,
                    reference.z_ext@,
                    reference.rebased@,
                    reference.start_iteration as int,
                    spec_cd(old(pixels)@[i]),
                    #[trigger] old(pixels)@[i],
                    n_cap,
                ),
    {
        let len = pixels.len();
        let mut i: usize = 0;
        while i < len
            invariant
                reference.wf(),
                n_cap <= reference.current_iteration,
                pixels@.len() == old(pixels)@.len() == len,
                i <= len,
                forall|j: int|
                    i <= j < len ==> pixels@[j] == old(pixels)@[j],
                forall|j: int|
                    0 <= j < i ==> pixels@[j] == spec_advance(
                        reference.z_low@,
                        reference.z_ext@,
                        reference.rebased@,
                        reference.start_iteration as int,
                        spec_cd(old(pixels)@[j]),
                        #[trigger] old(pixels)@[j],
                        n_cap,
                    ),
            decreases len - i,
        {
            let mut p = pixels[i];
            let cd = p.delta_reference.to_fixed();
            let ghost orig = p;
            let ghost zl = reference.z_low@;
            let ghost ze = reference.z_ext@;
            let ghost rb = reference.rebased@;
            let ghost start = reference.start_iteration as int;
            while !p.escaped && !p.glitched && p.iteration < n_cap
                && p.iteration >= reference.start_iteration
                && p.iteration + 1 - reference.start_iteration < reference.z_low.len() as u64
                invariant
                    reference.wf(),
                    n_cap <= reference.current_iteration,
                    zl == reference.z_low@,
                    ze == reference.z_ext@,
                    rb == reference.rebased@,
                    start == reference.start_iteration as int,
                    spec_advance(zl, ze, rb, start, cd, p, n_cap) == spec_advance(
                        zl, ze, rb, start, cd, orig, n_cap),
                decreases n_cap - p.iteration,
            {
                let n = p.iteration;
                let (z_n, z_e, reb) = reference.entry(n);
                let mut dnew: ComplexFixed;
                let mut ok = true;
                if reb {
                    let dce = ComplexExtended { re: p.delta_current.re, im: p.delta_current.im,
                        exponent: 0 };
                    let cdce = ComplexExtended { re: cd.re, im: cd.im, exponent: 0 };
                    let s = z_e.mul(&dce);
                    let tot = s.add(&s).add(&dce.mul(&dce)).add(&cdce);
                    ok = -1000 <= tot.exponent && tot.exponent <= 1000;
                    dnew = tot.to_fixed();
                } else {
                    dnew = p.delta_current.mul(&z_n.double().add(&p.delta_current)).add(&cd);
                }
                let dernew = z_n.add(&p.delta_current).double().mul(&p.derivative_current)
                    .add(&ComplexFixed { re: ONE_BITS, im: 0 });
                if !ok {
                    p.iteration = n + 1;
                    p.glitched = true;
                } else {
                    let (z_n1, _, _) = reference.entry(n + 1);
                    let znd = z_n1.add(&dnew);
                    p.iteration = n + 1;
                    p.delta_current = dnew;
                    p.derivative_current = dernew;
                    let nq = znd.norm_sqr();
                    if crate::fp::f64_lt(ESC2_BITS, nq) {
                        p.escaped = true;
                    } else {
                        let dq = dnew.norm_sqr();
                        if crate::fp::f64_lt(nq, crate::fp::f64_mul(GLITCH_TOL_BITS, dq)) {
                            p.glitched = true;
                        }
                    }
                }
            }
            pixels.set(i, p);
            proof {
                assert(spec_advance(zl, ze, rb, start, cd, p, n_cap) == p);
            }
            i = i + 1;
        }
    }
}

/// The double image of a pixel's reference offset, the `c_d` of its run.
pub open spec fn spec_cd(p: PixelData) -> ComplexFixed {
    let c = spec_ce_reduce(p.delta_reference);
    ComplexFixed {
        re: spec_scale_pow2(c.re, c.exponent as int),
        im: spec_scale_pow2(c.im, c.exponent as int),
    }
}

/// Active: not finished and below the iteration bound.
pub open spec fn is_active(p: PixelData, max: u64) -> bool {
    !p.escaped && !p.glitched && p.iteration < max
}

pub open spec fn is_escaped(p: PixelData) -> bool {
    p.escaped
}

pub open spec fn is_glitched(p: PixelData) -> bool {
    !p.escaped && p.glitched
}

/// Inside the set: ran to the bound without escaping or glitching.
pub open spec fn is_reached_max(p: PixelData, max: u64) -> bool {
    !p.escaped && !p.glitched && p.iteration >= max
}

/// Every pixel is in exactly one of the four states: the classification is
/// total, and no two of the states hold together.
pub proof fn lemma_pixel_state_partition(p: PixelData, max: u64)
    ensures
        is_active(p, max) || is_escaped(p) || is_glitched(p) || is_reached_max(p, max),
        !(is_active(p, max) && is_escaped(p)),
        !(is_active(p, max) && is_glitched(p)),
        !(is_active(p, max) && is_reached_max(p, max)),
        !(is_escaped(p) && is_glitched(p)),
        !(is_escaped(p) && is_reached_max(p, max)),
        !(is_glitched(p) && is_reached_max(p, max)),
{
}

/// Across one perturbation run a pixel's iteration count never decreases.
pub proof fn lemma_iteration_monotone(
    zl: Seq<ComplexFixed>,
    ze: Seq<ComplexExtended>,
    rb: Seq<bool>,
    start: int,
    cd: ComplexFixed,
    p: PixelData,
    cap: u64,
)
    ensures
        spec_advance(zl, ze, rb, start, cd, p, cap).iteration >= p.iteration,
{
    lemma_advance_props(zl, ze, rb, start, cd, p, cap);
}

} // verus!

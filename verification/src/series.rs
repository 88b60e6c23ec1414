//! Series approximation: order-k polynomial coefficients in the pixel
//! offset, advanced alongside the high-precision orbit, with four corner
//! probes validating how many iterations every pixel may skip.

use vstd::prelude::*;
use crate::arb::ComplexArbitrary;
use crate::complex::{ComplexExtended, spec_ce_mul, spec_ce_add, ONE_BITS};
use crate::float_extended::{FloatExtended, spec_fe_lt, spec_reduce};
use crate::reference::ReferenceOrbit;

verus! {

/// One corner probe: its offset and its exact perturbed orbit value.
#[derive(Clone, Copy, PartialEq, Eq, Structural, Debug)]
pub struct Probe {
    pub delta: ComplexExtended,
    pub current: ComplexExtended,
}

/// Horner accumulation from the top coefficient down to index `i`.
pub open spec fn spec_eval_from(coeffs: Seq<ComplexExtended>, d: ComplexExtended, i: int)
    -> ComplexExtended
    decreases coeffs.len() - i,
{
    if i < 0 || i >= coeffs.len() {
        ComplexExtended { re: 0u64, im: 0u64, exponent: 0i64 }
    } else if i == coeffs.len() - 1 {
        coeffs[i]
    } else {
        spec_ce_add(spec_ce_mul(spec_eval_from(coeffs, d, i + 1), d), coeffs[i])
    }
}

/// `sum a_i * d^i` as the Horner evaluation computes it.
pub open spec fn spec_sa_eval(coeffs: Seq<ComplexExtended>, d: ComplexExtended)
    -> ComplexExtended {
    if coeffs.len() == 0 {
        ComplexExtended { re: 0u64, im: 0u64, exponent: 0i64 }
    } else {
        spec_ce_mul(spec_eval_from(coeffs, d, 0), d)
    }
}

/// A probe agrees with the series when the squared magnitude of the
/// difference between its series estimate and its exact orbit does not
/// exceed the tolerance.
pub open spec fn spec_probe_ok(
    coeffs: Seq<ComplexExtended>,
    tol: FloatExtended,
    p: Probe,
) -> bool {
    !spec_fe_lt(
        spec_reduce(tol),
        spec_reduce(spec_norm_sq(spec_ce_add(spec_sa_eval(coeffs, p.delta), spec_ce_neg(
            p.current)))),
    )
}

/// Component-wise negation of an extended complex (exact sign flips).
pub open spec fn spec_ce_neg(c: ComplexExtended) -> ComplexExtended {
    ComplexExtended {
        re: c.re ^ crate::fp::SIGN_MASK,
        im: c.im ^ crate::fp::SIGN_MASK,
        exponent: c.exponent,
    }
}

/// Squared magnitude of an extended complex as an extended float.
pub open spec fn spec_norm_sq(c: ComplexExtended) -> FloatExtended {
    spec_reduce(
        FloatExtended {
            mantissa: crate::fp::f64_add_bits(
                crate::fp::f64_mul_bits(c.re, c.re),
                crate::fp::f64_mul_bits(c.im, c.im),
            ),
            exponent: crate::float_extended::sat(2 * c.exponent) as i64,
        },
    )
}


/// The left-folded convolution `sum_{x<j} a_(x+1) * a_(i-x)` in the
/// coefficient recurrence.
pub open spec fn spec_coeff_sum(c: Seq<ComplexExtended>, i: int, j: int) -> ComplexExtended
    decreases j,
{
    if j <= 0 {
        ComplexExtended { re: 0u64, im: 0u64, exponent: 0i64 }
    } else {
        spec_ce_add(spec_coeff_sum(c, i, j - 1), spec_ce_mul(c[j - 1], c[i - 1 - (j - 1)]))
    }
}

/// One step of the coefficient recurrence: `a_1' = 2*Z*a_1 + 1` and
/// `a_i' = 2*Z*a_i + sum_j a_j*a_(i-j)`.
pub open spec fn spec_next_coeff(c: Seq<ComplexExtended>, two_z: ComplexExtended, i: int)
    -> ComplexExtended {
    if i == 0 {
        spec_ce_add(spec_ce_mul(two_z, c[0]), ComplexExtended {
            re: ONE_BITS,
            im: 0u64,
            exponent: 0i64,
        })
    } else {
        spec_ce_add(spec_ce_mul(two_z, c[i]), spec_coeff_sum(c, i, i))
    }
}

/// One step of a probe's exact perturbed orbit: `d' = 2*Z*d + d^2 + delta`.
pub open spec fn spec_next_probe(two_z: ComplexExtended, p: Probe) -> Probe {
    Probe {
        delta: p.delta,
        current: spec_ce_add(
            spec_ce_add(spec_ce_mul(two_z, p.current), spec_ce_mul(p.current, p.current)),
            p.delta,
        ),
    }
}


/// All coefficients advanced one step against `2*Z`.
pub open spec fn spec_next_coeffs(c: Seq<ComplexExtended>, two_z: ComplexExtended)
    -> Seq<ComplexExtended> {
    Seq::new(c.len(), |i: int| spec_next_coeff(c, two_z, i))
}

/// The coefficients after absorbing every reference value of the trace.
pub open spec fn spec_coeffs_fold(c0: Seq<ComplexExtended>, tr: Seq<ComplexExtended>)
    -> Seq<ComplexExtended>
    decreases tr.len(),
{
    if tr.len() == 0 {
        c0
    } else {
        spec_next_coeffs(spec_coeffs_fold(c0, tr.drop_last()), tr.last())
    }
}

/// A probe's exact orbit advanced across the whole trace.
pub open spec fn spec_probe_fold(p: Probe, tr: Seq<ComplexExtended>) -> Probe
    decreases tr.len(),
{
    if tr.len() == 0 {
        p
    } else {
        spec_next_probe(tr.last(), spec_probe_fold(p, tr.drop_last()))
    }
}


proof fn lemma_coeffs_fold_push(c0: Seq<ComplexExtended>, tr: Seq<ComplexExtended>,
    x: ComplexExtended)
    ensures
        spec_coeffs_fold(c0, tr.push(x)) == spec_next_coeffs(spec_coeffs_fold(c0, tr), x),
{
    assert(tr.push(x).drop_last() =~= tr);
    assert(tr.push(x).last() == x);
}

proof fn lemma_probe_fold_push(p: Probe, tr: Seq<ComplexExtended>, x: ComplexExtended)
    ensures
        spec_probe_fold(p, tr.push(x)) == spec_next_probe(x, spec_probe_fold(p, tr)),
{
    assert(tr.push(x).drop_last() =~= tr);
    assert(tr.push(x).last() == x);
}

proof fn lemma_anchor_push(
    models: Seq<(int, int)>,
    tr: Seq<ComplexExtended>,
    tz: ComplexExtended,
    znew: (int, int),
    cm: (int, int),
    prec: nat,
)
    requires
        models.len() == tr.len() + 1,
        forall|i: int|
            0 <= i < tr.len() ==> #[trigger] models[i + 1] == crate::arb::spec_orbit_step(
                models[i], cm, prec),
        forall|i: int|
            0 <= i < tr.len() ==> #[trigger] tr[i] == spec_ce_add(
                crate::arb::spec_ce_of_model(models[i], prec as int),
                crate::arb::spec_ce_of_model(models[i], prec as int),
            ),
        znew == crate::arb::spec_orbit_step(models.last(), cm, prec),
        tz == spec_ce_add(
            crate::arb::spec_ce_of_model(models.last(), prec as int),
            crate::arb::spec_ce_of_model(models.last(), prec as int),
        ),
    ensures
        forall|i: int|
            0 <= i < tr.push(tz).len() ==> #[trigger] models.push(znew)[i + 1]
                == crate::arb::spec_orbit_step(models.push(znew)[i], cm, prec),
        forall|i: int|
            0 <= i < tr.push(tz).len() ==> #[trigger] tr.push(tz)[i] == spec_ce_add(
                crate::arb::spec_ce_of_model(models.push(znew)[i], prec as int),
                crate::arb::spec_ce_of_model(models.push(znew)[i], prec as int),
            ),
{
    assert forall|i: int|
        0 <= i < tr.push(tz).len() implies #[trigger] models.push(znew)[i + 1]
        == crate::arb::spec_orbit_step(models.push(znew)[i], cm, prec) by {
        if i < tr.len() {
            assert(models.push(znew)[i] == models[i]);
            assert(models.push(znew)[i + 1] == models[i + 1]);
        } else {
            assert(models.push(znew)[i] == models.last());
            assert(models.push(znew)[i + 1] == znew);
        }
    }
    assert forall|i: int|
        0 <= i < tr.push(tz).len() implies #[trigger] tr.push(tz)[i] == spec_ce_add(
        crate::arb::spec_ce_of_model(models.push(znew)[i], prec as int),
        crate::arb::spec_ce_of_model(models.push(znew)[i], prec as int),
    ) by {
        if i < tr.len() {
            assert(tr.push(tz)[i] == tr[i]);
            assert(models.push(znew)[i] == models[i]);
        } else {
            assert(tr.push(tz)[i] == tz);
            assert(models.push(znew)[i] == models.last());
        }
    }
}

pub struct SeriesApproximation {
    pub order: usize,
    /// `coefficients[i]` is `a_(i+1)`.
    pub coefficients: Vec<ComplexExtended>,
    /// Iterations absorbed into the polynomial (the skip count).
    pub current_iteration: u64,
    pub maximum_iteration: u64,
    /// The squared pixel spacing, the probe tolerance.
    pub delta_pixel_square: FloatExtended,
    pub probes: Vec<Probe>,
    pub c: ComplexArbitrary,
    pub z: ComplexArbitrary,
    /// The `2*Z_n` values absorbed so far, in order.
    pub trace: Ghost<Seq<ComplexExtended>>,
    /// The high-precision orbit under the trace: `z_models[i]` is the model
    /// of `Z` before absorbing `trace[i]`.
    pub z_models: Ghost<Seq<(int, int)>>,
}

impl SeriesApproximation {
    pub open spec fn wf(&self) -> bool {
        &&& self.coefficients@.len() == self.order
        &&& self.order >= 1
        &&& self.c.spec_prec() == self.z.spec_prec()
        &&& self.c.spec_prec() <= 0x2000_0000
        &&& 1 <= self.current_iteration <= self.maximum_iteration
    }

    /// The trace is anchored to the high-precision orbit: the recorded
    /// models follow the fixed-point recurrence from the seed, each trace
    /// entry is the doubled extended image of its model, and the skip count
    /// is the trace length plus one.
    pub open spec fn anchored(&self) -> bool {
        &&& self.z_models@.len() == self.trace@.len() + 1
        &&& self.z_models@.last() == self.z.model()
        &&& self.current_iteration == 1 + self.trace@.len()
        &&& forall|i: int|
            0 <= i < self.trace@.len() ==> #[trigger] self.z_models@[i + 1]
                == crate::arb::spec_orbit_step(self.z_models@[i], self.c.model(),
                self.c.spec_prec())
        &&& forall|i: int|
            0 <= i < self.trace@.len() ==> #[trigger] self.trace@[i] == spec_ce_add(
                crate::arb::spec_ce_of_model(self.z_models@[i], self.c.spec_prec() as int),
                crate::arb::spec_ce_of_model(self.z_models@[i], self.c.spec_prec() as int),
            )
    }

    /// All probes sit within tolerance of the series estimate.
    pub open spec fn probes_ok(&self) -> bool {
        forall|i: int|
            0 <= i < self.probes@.len() ==> spec_probe_ok(
                self.coefficients@,
                self.delta_pixel_square,
                #[trigger] self.probes@[i],
            )
    }

    /// Builds the series at iteration 1 (`z_1 = c`, `a_1 = 1`), with probes
    /// at the four image corners.
    pub fn new(
        c: ComplexArbitrary,
        order: usize,
        maximum_iteration: u64,
        delta_pixel_square: FloatExtended,
        delta_top_left: ComplexExtended,
    ) -> (r: SeriesApproximation)
        requires
            1 <= order <= 128,
            maximum_iteration >= 1,
            c.spec_prec() <= 0x2000_0000,
        ensures
            r.wf(),
            r.current_iteration == 1,
            r.maximum_iteration == maximum_iteration,
            r.order == order,
            r.c.spec_prec() == c.spec_prec(),
            r.c == c,
            r.z.model() == c.model(),
            r.delta_pixel_square == delta_pixel_square,
            // the seeded series: a_1 = 1, higher coefficients zero
            r.coefficients@[0] == (ComplexExtended { re: ONE_BITS, im: 0u64, exponent: 0i64 }),
            forall|i: int|
                1 <= i < order ==> #[trigger] r.coefficients@[i] == (ComplexExtended {
                    re: 0u64,
                    im: 0u64,
                    exponent: 0i64,
                }),
            // the four corner probes, each starting at its own offset
            r.probes@.len() == 4,
            forall|j: int|
                0 <= j < 4 ==> (#[trigger] r.probes@[j]).current == r.probes@[j].delta,
            r.probes@[0].delta == delta_top_left,
            r.probes@[1].delta == (ComplexExtended {
                re: delta_top_left.re ^ crate::fp::SIGN_MASK,
                im: delta_top_left.im,
                exponent: delta_top_left.exponent,
            }),
            r.probes@[2].delta == (ComplexExtended {
                re: delta_top_left.re,
                im: delta_top_left.im ^ crate::fp::SIGN_MASK,
                exponent: delta_top_left.exponent,
            }),
            r.probes@[3].delta == (ComplexExtended {
                re: delta_top_left.re ^ crate::fp::SIGN_MASK,
                im: delta_top_left.im ^ crate::fp::SIGN_MASK,
                exponent: delta_top_left.exponent,
            }),
            // nothing absorbed yet
            r.trace@ == Seq::<ComplexExtended>::empty(),
            r.anchored(),
    {
        let mut coefficients: Vec<ComplexExtended> = Vec::new();
        coefficients.push(ComplexExtended { re: ONE_BITS, im: 0, exponent: 0 });
        let mut i: usize = 1;
        while i < order
            invariant
                coefficients@.len() == i,
                1 <= i <= order,
                coefficients@[0] == (ComplexExtended { re: ONE_BITS, im: 0u64, exponent: 0i64 }),
                forall|x: int|
                    1 <= x < i ==> #[trigger] coefficients@[x] == (ComplexExtended {
                        re: 0u64,
                        im: 0u64,
                        exponent: 0i64,
                    }),
            decreases order - i,
        {
            coefficients.push(ComplexExtended { re: 0, im: 0, exponent: 0 });
            i = i + 1;
        }
        let mut probes: Vec<Probe> = Vec::new();
        let tl = delta_top_left;
        let c0 = ComplexExtended { re: tl.re, im: tl.im, exponent: tl.exponent };
        let c1 = ComplexExtended { re: tl.re ^ crate::fp::SIGN_MASK, im: tl.im,
            exponent: tl.exponent };
        let c2 = ComplexExtended { re: tl.re, im: tl.im ^ crate::fp::SIGN_MASK,
            exponent: tl.exponent };
        let c3 = ComplexExtended {
            re: tl.re ^ crate::fp::SIGN_MASK,
            im: tl.im ^ crate::fp::SIGN_MASK,
            exponent: tl.exponent,
        };
        probes.push(Probe { delta: c0, current: c0 });
        probes.push(Probe { delta: c1, current: c1 });
        probes.push(Probe { delta: c2, current: c2 });
        probes.push(Probe { delta: c3, current: c3 });
        let z = c.clone_value();
        let ghost models = seq![z.model()];
        SeriesApproximation {
            order,
            coefficients,
            current_iteration: 1,
            maximum_iteration,
            delta_pixel_square,
            probes,
            c,
            z,
            trace: Ghost(Seq::empty()),
            z_models: Ghost(models),
        }
    }

    /// Horner evaluation of the series at an offset.
    pub fn evaluate(&self, d: ComplexExtended) -> (r: ComplexExtended)
        requires
            self.coefficients@.len() >= 1,
        ensures
            r == spec_sa_eval(self.coefficients@, d),
    {
        let k = self.coefficients.len();
        let mut acc = self.coefficients[k - 1];
        let mut i: usize = k - 1;
        while i > 0
            invariant
                self.coefficients@.len() == k,
                i < k,
                acc == spec_eval_from(self.coefficients@, d, i as int),
            decreases i,
        {
            i = i - 1;
            acc = acc.mul(&d).add(&self.coefficients[i]);
        }
        acc.mul(&d)
    }

    /// Advances the series while every probe stays within tolerance:
    /// afterwards, once any iteration has been absorbed beyond the first,
    /// each probe's series estimate sits within `delta_pixel_square` of its
    /// exact perturbed orbit.
    #[verifier::rlimit(100)]
    pub fn run(&mut self)
        requires
            old(self).wf(),
            old(self).current_iteration == 1,
            old(self).anchored(),
            old(self).trace@ == Seq::<ComplexExtended>::empty(),
        ensures
            final(self).wf(),
            final(self).order == old(self).order,
            final(self).maximum_iteration == old(self).maximum_iteration,
            final(self).c.spec_prec() == old(self).c.spec_prec(),
            final(self).c == old(self).c,
            final(self).delta_pixel_square == old(self).delta_pixel_square,
            final(self).current_iteration >= 1,
            final(self).current_iteration > 1 ==> final(self).probes_ok(),
            // the anchor: the trace holds one doubled reference image per
            // absorbed iteration, tied to the high-precision orbit, and the
            // exit coefficients and probe orbits are exactly the fold of the
            // recurrence over it from the seeded state
            final(self).anchored(),
            final(self).z_models@[0] == old(self).z.model(),
            final(self).coefficients@ == spec_coeffs_fold(old(self).coefficients@,
                final(self).trace@),
            final(self).probes@.len() == old(self).probes@.len(),
            forall|j: int|
                0 <= j < old(self).probes@.len() ==> #[trigger] final(self).probes@[j]
                    == spec_probe_fold(old(self).probes@[j], final(self).trace@),
            // the run stopped for a reason: the bound, or a probe that the
            // one-step-advanced series would push out of tolerance
            final(self).current_iteration == final(self).maximum_iteration || ({
                let zce = crate::arb::spec_ce_of_model(final(self).z.model(),
                    final(self).c.spec_prec() as int);
                let two_z = spec_ce_add(zce, zce);
                let next = Seq::new(final(self).order as nat, |i: int| spec_next_coeff(
                    final(self).coefficients@, two_z, i));
                exists|j: int|
                    0 <= j < final(self).probes@.len() && !spec_probe_ok(next,
                        final(self).delta_pixel_square, spec_next_probe(two_z,
                        #[trigger] final(self).probes@[j]))
            }),
    {
        loop
            invariant
                self.wf(),
                self.order == old(self).order,
                self.maximum_iteration == old(self).maximum_iteration,
                self.c.spec_prec() == old(self).c.spec_prec(),
                self.c == old(self).c,
                self.delta_pixel_square == old(self).delta_pixel_square,
                self.current_iteration >= 1,
                self.current_iteration > 1 ==> self.probes_ok(),
                self.anchored(),
                self.z_models@[0] == old(self).z.model(),
                self.coefficients@ == spec_coeffs_fold(old(self).coefficients@, self.trace@),
                self.probes@.len() == old(self).probes@.len(),
                forall|j: int|
                    0 <= j < old(self).probes@.len() ==> #[trigger] self.probes@[j]
                        == spec_probe_fold(old(self).probes@[j], self.trace@),
            decreases self.maximum_iteration - self.current_iteration,
        {
            if self.current_iteration >= self.maximum_iteration {
                return ;
            }
            let zce = self.z.to_extended();
            let two_z = zce.add(&zce);
            let ghost tz = two_z;
            let ghost cs = self.coefficients@;
            // next coefficients under the recurrence
            let k = self.coefficients.len();
            let mut next: Vec<ComplexExtended> = Vec::new();
            let one = ComplexExtended { re: ONE_BITS, im: 0, exponent: 0 };
            next.push(two_z.mul(&self.coefficients[0]).add(&one));
            let mut i: usize = 1;
            while i < k
                invariant
                    next@.len() == i,
                    1 <= i <= k,
                    k == self.coefficients@.len(),
                    cs == self.coefficients@,
                    tz == two_z,
                    forall|x: int| 0 <= x < i ==> next@[x] == spec_next_coeff(cs, tz, x),
                decreases k - i,
            {
                let mut sum = ComplexExtended { re: 0, im: 0, exponent: 0 };
                let mut j: usize = 0;
                while j < i
                    invariant
                        j <= i < k == self.coefficients@.len(),
                        cs == self.coefficients@,
                        sum == spec_coeff_sum(cs, i as int, j as int),
                    decreases i - j,
                {
                    sum = sum.add(&self.coefficients[j].mul(&self.coefficients[i - 1 - j]));
                    j = j + 1;
                }
                next.push(two_z.mul(&self.coefficients[i]).add(&sum));
                i = i + 1;
            }
            // advance the probes' exact orbits: d' = 2*Z*d + d^2 + delta
            let ghost ps = self.probes@;
            let mut new_probes: Vec<Probe> = Vec::new();
            let np = self.probes.len();
            let mut pi: usize = 0;
            while pi < np
                invariant
                    new_probes@.len() == pi,
                    pi <= np == self.probes@.len(),
                    ps == self.probes@,
                    tz == two_z,
                    forall|x: int| 0 <= x < pi ==> new_probes@[x] == spec_next_probe(tz,
                        ps[x]),
                decreases np - pi,
            {
                let p = self.probes[pi];
                let cur = two_z.mul(&p.current).add(&p.current.mul(&p.current)).add(&p.delta);
                new_probes.push(Probe { delta: p.delta, current: cur });
                pi = pi + 1;
            }
            // check every probe against the new coefficients
            let trial = SeriesApproximation {
                order: self.order,
                coefficients: next,
                current_iteration: self.current_iteration,
                maximum_iteration: self.maximum_iteration,
                delta_pixel_square: self.delta_pixel_square,
                probes: new_probes,
                c: self.c.clone_value(),
                z: self.z.clone_value(),
                trace: Ghost(self.trace@),
                z_models: Ghost(self.z_models@),
            };
            let mut all_ok = true;
            let mut bad: usize = 0;
            let mut qi: usize = 0;
            while qi < trial.probes.len()
                invariant
                    trial.order == self.order,
                    trial.coefficients@.len() == self.order,
                    self.order >= 1,
                    qi <= trial.probes@.len(),
                    all_ok ==> forall|x: int|
                        0 <= x < qi ==> spec_probe_ok(
                            trial.coefficients@,
                            trial.delta_pixel_square,
                            #[trigger] trial.probes@[x],
                        ),
                    !all_ok ==> bad < qi && !spec_probe_ok(trial.coefficients@,
                        trial.delta_pixel_square, trial.probes@[bad as int]),
                decreases trial.probes@.len() - qi,
            {
                let p = trial.probes[qi];
                let est = trial.evaluate(p.delta);
                let diff = est.sub(&p.current);
                let err = diff.norm_square();
                if trial.delta_pixel_square.lt(&err) {
                    if all_ok {
                        all_ok = false;
                        bad = qi;
                    }
                }
                qi = qi + 1;
            }
            if !all_ok {
                proof {
                    assert(trial.coefficients@ =~= Seq::new(self.order as nat, |x: int|
                        spec_next_coeff(self.coefficients@, tz, x)));
                    assert(trial.probes@[bad as int] == spec_next_probe(tz,
                        self.probes@[bad as int]));
                }
                return ;
            }
            // commit the advanced state
            let ghost otrace = self.trace@;
            let ghost omodels = self.z_models@;
            let ghost ocoeffs = self.coefficients@;
            let ghost oprobes = self.probes@;
            let ghost zm_prev = self.z.model();
            let c_local = self.c.clone_value();
            self.z.square_plus_c(&c_local);
            self.coefficients = trial.coefficients;
            self.probes = trial.probes;
            self.current_iteration = self.current_iteration + 1;
            proof {
                self.trace@ = otrace.push(tz);
                self.z_models@ = omodels.push(self.z.model());
                assert(omodels.last() == zm_prev);
                lemma_anchor_push(omodels, otrace, tz, self.z.model(), self.c.model(),
                    self.c.spec_prec());
                lemma_coeffs_fold_push(old(self).coefficients@, otrace, tz);
                assert(self.coefficients@ =~= spec_next_coeffs(ocoeffs, tz));
                assert forall|j: int|
                    0 <= j < old(self).probes@.len() implies #[trigger] self.probes@[j]
                    == spec_probe_fold(old(self).probes@[j], self.trace@) by {
                    lemma_probe_fold_push(old(self).probes@[j], otrace, tz);
                    assert(self.probes@[j] == spec_next_probe(tz, oprobes[j]));
                }
            }
        }
    }

    /// Issues a reference orbit starting at the series' skip count, at
    /// centre `c + d0`, with initial `z = Z + evaluate(d0)`.
    pub fn get_reference(&self, d0: ComplexExtended) -> (r: ReferenceOrbit)
        requires
            self.wf(),
        ensures
            r.wf(),
            r.follows_recurrence(),
            r.start_iteration == self.current_iteration,
            r.current_iteration == self.current_iteration,
            r.maximum_iteration == self.maximum_iteration,
            r.spec_prec() == self.c.spec_prec(),
            // centre and seed: the series centre and current Z, displaced by
            // the grid images of the offset and its series evaluation
            ({
                let p = self.c.spec_prec();
                let dc = spec_clamp_grid(d0);
                let ev = spec_clamp_grid(spec_sa_eval(self.coefficients@, d0));
                &&& r.c.model().0 == self.c.model().0 + crate::arb::spec_double_scaled(dc.re,
                    dc.exponent as int, p)
                &&& r.c.model().1 == self.c.model().1 + crate::arb::spec_double_scaled(dc.im,
                    dc.exponent as int, p)
                &&& r.z.model().0 == self.z.model().0 + crate::arb::spec_double_scaled(ev.re,
                    ev.exponent as int, p)
                &&& r.z.model().1 == self.z.model().1 + crate::arb::spec_double_scaled(ev.im,
                    ev.exponent as int, p)
            }),
    {
        let ev = self.evaluate(d0);
        let evc = clamp_grid(ev);
        let d0c = clamp_grid(d0);
        let z0 = self.z.add_extended(&evc);
        let c_new = self.c.add_extended(&d0c);
        ReferenceOrbit::new(c_new, z0, self.current_iteration, self.maximum_iteration)
    }
}

/// What `clamp_grid` computes.
pub open spec fn spec_clamp_grid(c: ComplexExtended) -> ComplexExtended {
    if c.exponent < -0x4000_0000 {
        ComplexExtended { re: 0u64, im: 0u64, exponent: 0i64 }
    } else if c.exponent > 0x4000_0000 {
        ComplexExtended { re: c.re, im: c.im, exponent: 0x4000_0000i64 }
    } else {
        c
    }
}

/// Clamps an extended complex's exponent into the range the fixed-point
/// grid accepts; offsets beyond it are indistinguishable from zero or
/// unusable at any zoom a render reaches.
pub fn clamp_grid(c: ComplexExtended) -> (r: ComplexExtended)
    ensures
        r == spec_clamp_grid(c),
        -0x4000_0000 <= r.exponent <= 0x4000_0000,
        -0x4000_0000 <= c.exponent <= 0x4000_0000 ==> r == c,
{
    if c.exponent < -0x4000_0000 {
        ComplexExtended { re: 0, im: 0, exponent: 0 }
    } else if c.exponent > 0x4000_0000 {
        ComplexExtended { re: c.re, im: c.im, exponent: 0x4000_0000 }
    } else {
        c
    }
}

} // verus!

//! The reference orbit: the Mandelbrot iteration at the high-precision
//! centre, recorded once per iteration as a plain double complex and as an
//! extended complex for the iterations where the double image underflows.

use vstd::prelude::*;
use num_bigint::BigInt;
use crate::arb::{ComplexArbitrary, big_from_i64, big_mul, big_shl, spec_orbit_step, big_val,
    spec_ce_of_model};
use crate::complex::{ComplexFixed, ComplexExtended, spec_cf_of_ce};

verus! {

/// `|z|^2 > threshold` on the fixed-point model.
pub open spec fn big_norm_exceeds(z: (int, int), threshold: int) -> bool {
    z.0 * z.0 + z.1 * z.1 > threshold
}

pub struct ReferenceOrbit {
    /// Global iteration number of the first recorded entry.
    pub start_iteration: u64,
    /// Global iteration number of the last recorded entry.
    pub current_iteration: u64,
    pub maximum_iteration: u64,
    /// Double image of `z` at iterations `start..=current`.
    pub z_low: Vec<ComplexFixed>,
    /// Extended image of `z` at the same iterations, exact to 53 bits.
    pub z_ext: Vec<ComplexExtended>,
    /// Marks iterations whose `|z|^2` fell below the underflow floor, where
    /// perturbation must read the extended image.
    pub rebased: Vec<bool>,
    /// The high-precision trajectory, as fixed-point integer pairs.
    pub orbit_model: Ghost<Seq<(int, int)>>,
    pub c: ComplexArbitrary,
    pub z: ComplexArbitrary,
    pub esc2: BigInt,
    pub tiny2: BigInt,
}

impl ReferenceOrbit {
    pub closed spec fn spec_prec(&self) -> nat {
        self.z.spec_prec()
    }

    /// Structural soundness: the recorded vectors march together and the
    /// ghost trajectory follows the fixed-point recurrence from the start.
    pub open spec fn wf(&self) -> bool {
        &&& self.start_iteration <= self.current_iteration <= self.maximum_iteration
        &&& self.z_low@.len() == self.current_iteration - self.start_iteration + 1
        &&& self.z_ext@.len() == self.z_low@.len()
        &&& self.rebased@.len() == self.z_low@.len()
        &&& self.orbit_model@.len() == self.z_low@.len()
        &&& self.c.spec_prec() == self.z.spec_prec()
        &&& forall|i: int|
            0 <= i < self.orbit_model@.len() ==> {
                &&& #[trigger] self.z_ext@[i] == spec_ce_of_model(self.orbit_model@[i],
                    self.spec_prec() as int)
                &&& self.z_low@[i] == spec_cf_of_ce(self.z_ext@[i])
                &&& self.rebased@[i] == !big_norm_exceeds(self.orbit_model@[i],
                    big_val(self.tiny2))
            }
    }

    /// Every recorded step obeys `z_{n+1} = z_n^2 + c` on the model.
    pub open spec fn follows_recurrence(&self) -> bool {
        &&& forall|i: int|
            0 <= i < self.orbit_model@.len() - 1 ==> self.orbit_model@[i + 1]
                == spec_orbit_step(#[trigger] self.orbit_model@[i], self.c.model(),
                self.spec_prec())
        &&& self.orbit_model@.len() > 0 ==> self.z.model() == self.orbit_model@.last()
    }

    /// Builds an orbit to run from `z0` at global iteration `start`, around
    /// centre `c`.
    pub fn new(
        c: ComplexArbitrary,
        z0: ComplexArbitrary,
        start_iteration: u64,
        maximum_iteration: u64,
    ) -> (r: ReferenceOrbit)
        requires
            c.spec_prec() == z0.spec_prec(),
            c.spec_prec() <= 0x2000_0000,
            start_iteration <= maximum_iteration,
        ensures
            r.wf(),
            r.follows_recurrence(),
            r.start_iteration == start_iteration,
            r.current_iteration == start_iteration,
            r.maximum_iteration == maximum_iteration,
            r.spec_prec() == c.spec_prec(),
            r.c == c,
            r.z == z0,
    {
        let prec = c.prec();
        let e18 = big_from_i64(1_000_000_000_000_000_000);
        let hundred = big_from_i64(100);
        let esc2 = big_shl(&big_mul(&e18, &hundred), 2 * prec);
        let tiny2 = if 2 * prec > 1000 {
            big_shl(&big_from_i64(1), 2 * prec - 1000)
        } else {
            big_from_i64(0)
        };
        let ce = z0.to_extended();
        let cf = ce.to_fixed();
        let reb = is_tiny(&z0, &tiny2);
        let ghost m0 = z0.model();
        let ghost mseq = seq![m0];
        ReferenceOrbit {
            start_iteration,
            current_iteration: start_iteration,
            maximum_iteration,
            z_low: vec![cf],
            z_ext: vec![ce],
            rebased: vec![reb],
            orbit_model: Ghost(mseq),
            c,
            z: z0,
            esc2,
            tiny2,
        }
    }

    /// Runs the orbit forward: after the call the recording ends at the
    /// first iteration whose `|z|^2` exceeds the escape threshold on the
    /// fixed-point grid, or at `maximum_iteration`.
    pub fn run(&mut self)
        requires
            old(self).wf(),
            old(self).follows_recurrence(),
            old(self).spec_prec() <= 0x2000_0000,
        ensures
            final(self).wf(),
            final(self).follows_recurrence(),
            final(self).start_iteration == old(self).start_iteration,
            final(self).maximum_iteration == old(self).maximum_iteration,
            final(self).current_iteration >= old(self).current_iteration,
            final(self).spec_prec() == old(self).spec_prec(),
            // the recording extends what was already there
            old(self).orbit_model@ == final(self).orbit_model@.subrange(0,
                old(self).orbit_model@.len() as int),
            // every recorded iteration before the last stayed below escape
            forall|i: int|
                old(self).orbit_model@.len() - 1 <= i < final(self).orbit_model@.len() - 1
                    ==> !big_norm_exceeds(#[trigger] final(self).orbit_model@[i],
                    big_val(final(self).esc2)),
            // and the run stopped either at the bound or on escape
            final(self).current_iteration < final(self).maximum_iteration
                ==> big_norm_exceeds(final(self).orbit_model@.last(), big_val(final(self).esc2)),
    {
        proof {
            assert(old(self).orbit_model@ =~= old(self).orbit_model@.subrange(0,
                old(self).orbit_model@.len() as int));
        }
        loop
            invariant
                self.wf(),
                self.follows_recurrence(),
                self.spec_prec() <= 0x2000_0000,
                self.start_iteration == old(self).start_iteration,
                self.maximum_iteration == old(self).maximum_iteration,
                self.current_iteration >= old(self).current_iteration,
                self.spec_prec() == old(self).spec_prec(),
                self.esc2 == old(self).esc2,
                self.tiny2 == old(self).tiny2,
                old(self).orbit_model@.len() >= 1,
                self.orbit_model@.len() >= old(self).orbit_model@.len(),
                old(self).orbit_model@ == self.orbit_model@.subrange(0,
                    old(self).orbit_model@.len() as int),
                forall|i: int|
                    old(self).orbit_model@.len() - 1 <= i < self.orbit_model@.len() - 1
                        ==> !big_norm_exceeds(#[trigger] self.orbit_model@[i],
                        big_val(self.esc2)),
            decreases self.maximum_iteration - self.current_iteration,
        {
            if self.z.norm_sqr_exceeds(&self.esc2) {
                return ;
            }
            if self.current_iteration >= self.maximum_iteration {
                return ;
            }
            let ghost om = self.orbit_model@;
            let ghost zprev = self.z.model();
            let c_local = self.c.clone_value();
            self.z.square_plus_c(&c_local);
            let ce = self.z.to_extended();
            let cf = ce.to_fixed();
            let reb = is_tiny(&self.z, &self.tiny2);
            let ghost oz_low = self.z_low@;
            let ghost oz_ext = self.z_ext@;
            let ghost oreb = self.rebased@;
            self.z_low.push(cf);
            self.z_ext.push(ce);
            self.rebased.push(reb);
            proof {
                self.orbit_model@ = om.push(self.z.model());
                assert(om.last() == zprev);
                assert(old(self).orbit_model@ =~= self.orbit_model@.subrange(0,
                    old(self).orbit_model@.len() as int));
                assert forall|i: int|
                    0 <= i < self.orbit_model@.len() implies {
                    &&& #[trigger] self.z_ext@[i] == spec_ce_of_model(self.orbit_model@[i],
                        self.spec_prec() as int)
                    &&& self.z_low@[i] == spec_cf_of_ce(self.z_ext@[i])
                    &&& self.rebased@[i] == !big_norm_exceeds(self.orbit_model@[i],
                        big_val(self.tiny2))
                } by {
                    let znew = self.z.model();
                    if i < om.len() {
                        assert(om.push(znew)[i] == om[i]);
                        assert(oz_ext.push(ce)[i] == oz_ext[i]);
                        assert(oz_low.push(cf)[i] == oz_low[i]);
                        assert(oreb.push(reb)[i] == oreb[i]);
                    } else {
                        assert(om.push(znew)[i] == znew);
                        assert(oz_ext.push(ce)[i] == ce);
                        assert(oz_low.push(cf)[i] == cf);
                        assert(oreb.push(reb)[i] == reb);
                    }
                }
                assert forall|i: int|
                    0 <= i < self.orbit_model@.len() - 1 implies self.orbit_model@[i + 1]
                    == spec_orbit_step(#[trigger] self.orbit_model@[i], self.c.model(),
                    self.spec_prec()) by {
                    let znew = self.z.model();
                    if i < om.len() - 1 {
                        assert(om.push(znew)[i] == om[i]);
                        assert(om.push(znew)[i + 1] == om[i + 1]);
                    } else {
                        assert(om.push(znew)[i] == om[om.len() - 1]);
                        assert(om.push(znew)[i + 1] == znew);
                        assert(self.orbit_model@[i] == om.last());
                        assert(self.orbit_model@[i + 1] == self.z.model());
                    }
                }
                assert forall|i: int|
                    old(self).orbit_model@.len() - 1 <= i < self.orbit_model@.len() - 1
                    implies !big_norm_exceeds(#[trigger] self.orbit_model@[i],
                    big_val(self.esc2)) by {
                    let znew = self.z.model();
                    if i < om.len() - 1 {
                        assert(om.push(znew)[i] == om[i]);
                        assert(self.orbit_model@[i] == om[i]);
                    } else {
                        assert(om.push(znew)[i] == om[om.len() - 1]);
                        assert(self.orbit_model@[i] == om.last());
                    }
                }
            }
            self.current_iteration = self.current_iteration + 1;
        }
    }


    /// Index into the recorded arrays for a global iteration number.
    pub fn entry(&self, iteration: u64) -> (r: (ComplexFixed, ComplexExtended, bool))
        requires
            self.wf(),
            self.start_iteration <= iteration <= self.current_iteration,
        ensures
            r.0 == self.z_low@[iteration - self.start_iteration],
            r.1 == self.z_ext@[iteration - self.start_iteration],
            r.2 == self.rebased@[iteration - self.start_iteration],
    {
        let idx64: u64 = iteration - self.start_iteration;
        let len = self.z_low.len();
        proof {
            assert(idx64 < self.z_low@.len());
        }
        let idx = idx64 as usize;
        (self.z_low[idx], self.z_ext[idx], self.rebased[idx])
    }
}

/// Whether the value lies under the underflow floor.
fn is_tiny(z: &ComplexArbitrary, tiny2: &BigInt) -> (r: bool)
    ensures
        r == !(z.model().0 * z.model().0 + z.model().1 * z.model().1 > big_val(*tiny2)),
{
    !z.norm_sqr_exceeds(tiny2)
}

} // verus!

//! The renderer: builds the series approximation and reference orbit from
//! the settings, seeds every pixel, runs perturbation, and drives the
//! glitch-repair loop until the glitched population is below tolerance or
//! the pass budget runs out.

use vstd::prelude::*;
use vstd::string::StringSliceAdditionalSpecFns;
use num_bigint::BigInt;
use rand::rngs::StdRng;
use crate::arb::{ComplexArbitrary, parse_decimal_scaled, spec_parse_decimal, big_pow10,
    big_from_i64, big_lt, big_is_neg, big_sub, big_to_u64, big_shl, big_div_nonneg,
    fe_from_bigint, bits_of_u64, ce_from_fe_pair, big_val};
use crate::complex::{ComplexFixed, ComplexExtended, ONE_BITS, TWO_BITS};
use crate::float_extended::FloatExtended;
use crate::perturbation::{PixelData, Perturbation};
use crate::series::SeriesApproximation;

verus! {

pub const FOUR_BITS: u64 = 0x4010_0000_0000_0000;
pub const NEG_TWO_BITS: u64 = 0xC000_0000_0000_0000;

/// The ceiling on requested precision bits.
pub const PRECISION_LIMIT: usize = 0x4_0000;

/// Repair passes attempted before the residual glitches are surfaced.
pub const MAX_REPAIR_PASSES: u64 = 64;

#[verifier::external_type_specification]
#[verifier::external_body]
pub struct ExStdRng(StdRng);

/// Relies on rand::SeedableRng::seed_from_u64 for StdRng: a deterministic
/// generator for a given seed.
#[verifier::external_body]
fn rng_from_seed(seed: u64) -> StdRng {
    rand::SeedableRng::seed_from_u64(seed)
}

/// Relies on rand::Rng::gen_range over `0..n`: some index below `n`.
#[verifier::external_body]
fn rng_below(rng: &mut StdRng, n: usize) -> (r: usize)
    requires
        n > 0,
    ensures
        r < n,
{
    rand::Rng::gen_range(rng, 0..n)
}

#[derive(Clone, Copy, PartialEq, Eq, Structural, Debug)]
pub enum RendererError {
    /// The zoom setting is missing its exponent or does not parse.
    ConfigError,
    /// The centre coordinates do not parse as decimals.
    LocationError,
    /// The zoom asks for more precision bits than the platform ceiling.
    PrecisionExhausted,
}

/// The per-pixel results of the latest passes.
pub struct RenderOutput {
    pub width: usize,
    pub height: usize,
    pub iterations: Vec<u64>,
    pub escaped: Vec<bool>,
    pub reached_max: Vec<bool>,
    pub glitched: Vec<bool>,
    pub delta_re: Vec<u64>,
    pub delta_im: Vec<u64>,
    pub deriv_re: Vec<u64>,
    pub deriv_im: Vec<u64>,
    /// Double image of the reference at the pixel's final iteration, so an
    /// exporter can form `|delta_current + Z|` for the smooth fraction.
    pub ref_re: Vec<u64>,
    pub ref_im: Vec<u64>,
}

impl RenderOutput {
    pub open spec fn wf(&self) -> bool {
        &&& self.width <= 0x8000
        &&& self.height <= 0x8000
        &&& self.iterations@.len() == self.width * self.height
        &&& self.escaped@.len() == self.width * self.height
        &&& self.reached_max@.len() == self.width * self.height
        &&& self.glitched@.len() == self.width * self.height
        &&& self.delta_re@.len() == self.width * self.height
        &&& self.delta_im@.len() == self.width * self.height
        &&& self.deriv_re@.len() == self.width * self.height
        &&& self.deriv_im@.len() == self.width * self.height
        &&& self.ref_re@.len() == self.width * self.height
        &&& self.ref_im@.len() == self.width * self.height
    }

    fn new(width: usize, height: usize) -> (r: RenderOutput)
        requires
            width <= 0x8000,
            height <= 0x8000,
        ensures
            r.wf(),
            r.width == width && r.height == height,
            forall|i: int| 0 <= i < r.escaped@.len() ==> !(#[trigger] r.escaped@[i]),
            forall|i: int| 0 <= i < r.reached_max@.len() ==> !(#[trigger] r.reached_max@[i]),
            forall|i: int| 0 <= i < r.glitched@.len() ==> !(#[trigger] r.glitched@[i]),
            forall|i: int| 0 <= i < r.iterations@.len() ==> #[trigger] r.iterations@[i] == 0,
            forall|i: int| 0 <= i < r.escaped@.len() ==> r.state_exclusive(i),
    {
        proof {
            assert((width as int) * (height as int) <= 0x8000 * 0x8000)
                by (nonlinear_arith)
                requires width <= 0x8000 && height <= 0x8000;
        }
        let n = width * height;
        let mut iterations: Vec<u64> = Vec::new();
        let mut escaped: Vec<bool> = Vec::new();
        let mut reached_max: Vec<bool> = Vec::new();
        let mut glitched: Vec<bool> = Vec::new();
        let mut delta_re: Vec<u64> = Vec::new();
        let mut delta_im: Vec<u64> = Vec::new();
        let mut deriv_re: Vec<u64> = Vec::new();
        let mut deriv_im: Vec<u64> = Vec::new();
        let mut ref_re: Vec<u64> = Vec::new();
        let mut ref_im: Vec<u64> = Vec::new();
        let mut i: usize = 0;
        while i < n
            invariant
                i <= n,
                iterations@.len() == i && escaped@.len() == i && reached_max@.len() == i
                    && glitched@.len() == i && delta_re@.len() == i && delta_im@.len() == i
                    && deriv_re@.len() == i && deriv_im@.len() == i && ref_re@.len() == i
                    && ref_im@.len() == i,
                forall|j: int| 0 <= j < i ==> !(#[trigger] escaped@[j]),
                forall|j: int| 0 <= j < i ==> !(#[trigger] reached_max@[j]),
                forall|j: int| 0 <= j < i ==> !(#[trigger] glitched@[j]),
                forall|j: int| 0 <= j < i ==> #[trigger] iterations@[j] == 0,
            decreases n - i,
        {
            iterations.push(0);
            escaped.push(false);
            reached_max.push(false);
            glitched.push(false);
            delta_re.push(0);
            delta_im.push(0);
            deriv_re.push(0);
            deriv_im.push(0);
            ref_re.push(0);
            ref_im.push(0);
            i = i + 1;
        }
        RenderOutput {
            width, height, iterations, escaped, reached_max, glitched,
            delta_re, delta_im, deriv_re, deriv_im, ref_re, ref_im,
        }
    }

    /// Whether slot `i` holds at most one of the three finished states.
    pub open spec fn state_exclusive(&self, i: int) -> bool {
        &&& !(self.escaped@[i] && self.glitched@[i])
        &&& !(self.escaped@[i] && self.reached_max@[i])
        &&& !(self.glitched@[i] && self.reached_max@[i])
    }

    /// Writes one pass's pixels into the dense arrays: iteration counts
    /// clamped to the bound, the escaped mark only ever strengthening, the
    /// escaped-or-inside set never shrinking, and every written slot left in
    /// at most one finished state.
    fn export_pixels(
        &mut self,
        pixels: &Vec<PixelData>,
        reference: &crate::reference::ReferenceOrbit,
        maximum_iteration: u64,
    )
        requires
            old(self).wf(),
            reference.wf(),
        ensures
            final(self).wf(),
            final(self).width == old(self).width && final(self).height == old(self).height,
            forall|i: int|
                0 <= i < old(self).escaped@.len() && old(self).escaped@[i]
                    ==> final(self).escaped@[i],
            forall|i: int|
                0 <= i < old(self).reached_max@.len() && old(self).reached_max@[i]
                    ==> final(self).reached_max@[i],
            forall|i: int|
                0 <= i < old(self).escaped@.len() && (old(self).escaped@[i]
                    || old(self).reached_max@[i]) ==> (final(self).escaped@[i]
                    || final(self).reached_max@[i]),
            forall|i: int|
                0 <= i < old(self).escaped@.len() && old(self).state_exclusive(i)
                    ==> final(self).state_exclusive(i),
            forall|i: int|
                0 <= i < old(self).iterations@.len() ==> (final(self).iterations@[i]
                    <= maximum_iteration || final(self).iterations@[i]
                    == old(self).iterations@[i]),
    {
        let n = pixels.len();
        let mut k: usize = 0;
        while k < n
            invariant
                self.wf(),
                reference.wf(),
                self.width == old(self).width && self.height == old(self).height,
                self.escaped@.len() == old(self).escaped@.len(),
                self.reached_max@.len() == old(self).reached_max@.len(),
                self.glitched@.len() == old(self).glitched@.len(),
                self.iterations@.len() == old(self).iterations@.len(),
                n == pixels@.len(),
                k <= n,
                forall|i: int|
                    0 <= i < old(self).escaped@.len() && old(self).escaped@[i]
                        ==> self.escaped@[i],
                forall|i: int|
                    0 <= i < old(self).reached_max@.len() && old(self).reached_max@[i]
                        ==> self.reached_max@[i],
                forall|i: int|
                    0 <= i < old(self).escaped@.len() && (old(self).escaped@[i]
                        || old(self).reached_max@[i]) ==> (self.escaped@[i]
                        || self.reached_max@[i]),
                forall|i: int|
                    0 <= i < old(self).escaped@.len() && old(self).state_exclusive(i)
                        ==> self.state_exclusive(i),
                forall|i: int|
                    0 <= i < old(self).iterations@.len() ==> (self.iterations@[i]
                        <= maximum_iteration || self.iterations@[i]
                        == old(self).iterations@[i]),
            decreases n - k,
        {
            let p = pixels[k];
            if p.image_x < self.width && p.image_y < self.height {
                let it = if p.iteration <= maximum_iteration {
                    p.iteration
                } else {
                    maximum_iteration
                };
                proof {
                    assert((p.image_y as int) * (self.width as int) + (p.image_x as int)
                        < (self.width as int) * (self.height as int)
                        <= 0x8000 * 0x8000) by (nonlinear_arith)
                        requires p.image_y < self.height && p.image_x < self.width
                            && self.width <= 0x8000 && self.height <= 0x8000;
                }
                let idx = p.image_y * self.width + p.image_x;
                // an escaped or inside slot is final: it is never rewritten,
                // so neither set can lose a member
                let finished = self.escaped[idx] || self.reached_max[idx];
                if !finished {
                    let ghost pre_it = self.iterations@;
                    self.iterations.set(idx, it);
                    let ghost pre_esc = self.escaped@;
                    let esc = p.escaped;
                    self.escaped.set(idx, esc);
                    let ghost pre_rm = self.reached_max@;
                    let rm = !p.escaped && !p.glitched && p.iteration >= maximum_iteration;
                    self.reached_max.set(idx, rm);
                    let gl = !esc && !rm && p.glitched;
                    proof {
                        assert(self.escaped@ == pre_esc.update(idx as int, esc));
                        assert(self.reached_max@ == pre_rm.update(idx as int, rm));
                        assert forall|i: int|
                            0 <= i < old(self).escaped@.len() && old(self).escaped@[i]
                            implies self.escaped@[i] by {
                            if i != idx {
                                assert(pre_esc.update(idx as int, esc)[i] == pre_esc[i]);
                            }
                        }
                        assert forall|i: int|
                            0 <= i < old(self).reached_max@.len()
                                && old(self).reached_max@[i]
                            implies self.reached_max@[i] by {
                            if i != idx {
                                assert(pre_rm.update(idx as int, rm)[i] == pre_rm[i]);
                            }
                        }
                        assert forall|i: int|
                            0 <= i < old(self).escaped@.len() && (old(self).escaped@[i]
                                || old(self).reached_max@[i]) implies (self.escaped@[i]
                                || self.reached_max@[i]) by {
                            if i != idx {
                                assert(pre_esc.update(idx as int, esc)[i] == pre_esc[i]);
                                assert(pre_rm.update(idx as int, rm)[i] == pre_rm[i]);
                            }
                        }
                    }
                    self.glitched.set(idx, gl);
                    self.delta_re.set(idx, p.delta_current.re);
                    self.delta_im.set(idx, p.delta_current.im);
                    self.deriv_re.set(idx, p.derivative_current.re);
                    self.deriv_im.set(idx, p.derivative_current.im);
                    if reference.start_iteration <= p.iteration && p.iteration
                        <= reference.current_iteration {
                        let (z_n, _, _) = reference.entry(p.iteration);
                        self.ref_re.set(idx, z_n.re);
                        self.ref_im.set(idx, z_n.im);
                    }
                }
            }
            k = k + 1;
        }
    }
}

/// The automatic series order for an image of `wh` pixels: the clamp of
/// `16 * (log_1e6 wh)^6.619` onto `[3, 64]`, by precomputed thresholds.
pub open spec fn spec_auto_order(wh: u64) -> usize {
    if wh >= 24999808 {
        64
    } else if wh >= 24007997 {
        63
    } else if wh >= 23042876 {
        62
    } else if wh >= 22104045 {
        61
    } else if wh >= 21191108 {
        60
    } else if wh >= 20303669 {
        59
    } else if wh >= 19441336 {
        58
    } else if wh >= 18603718 {
        57
    } else if wh >= 17790429 {
        56
    } else if wh >= 17001080 {
        55
    } else if wh >= 16235288 {
        54
    } else if wh >= 15492671 {
        53
    } else if wh >= 14772849 {
        52
    } else if wh >= 14075444 {
        51
    } else if wh >= 13400080 {
        50
    } else if wh >= 12746384 {
        49
    } else if wh >= 12113983 {
        48
    } else if wh >= 11502509 {
        47
    } else if wh >= 10911593 {
        46
    } else if wh >= 10340869 {
        45
    } else if wh >= 9789975 {
        44
    } else if wh >= 9258548 {
        43
    } else if wh >= 8746229 {
        42
    } else if wh >= 8252660 {
        41
    } else if wh >= 7777486 {
        40
    } else if wh >= 7320352 {
        39
    } else if wh >= 6880908 {
        38
    } else if wh >= 6458802 {
        37
    } else if wh >= 6053688 {
        36
    } else if wh >= 5665218 {
        35
    } else if wh >= 5293050 {
        34
    } else if wh >= 4936840 {
        33
    } else if wh >= 4596249 {
        32
    } else if wh >= 4270937 {
        31
    } else if wh >= 3960568 {
        30
    } else if wh >= 3664807 {
        29
    } else if wh >= 3383321 {
        28
    } else if wh >= 3115778 {
        27
    } else if wh >= 2861849 {
        26
    } else if wh >= 2621206 {
        25
    } else if wh >= 2393523 {
        24
    } else if wh >= 2178475 {
        23
    } else if wh >= 1975739 {
        22
    } else if wh >= 1784994 {
        21
    } else if wh >= 1605920 {
        20
    } else if wh >= 1438199 {
        19
    } else if wh >= 1281516 {
        18
    } else if wh >= 1135554 {
        17
    } else if wh >= 1000000 {
        16
    } else if wh >= 874544 {
        15
    } else if wh >= 758873 {
        14
    } else if wh >= 652681 {
        13
    } else if wh >= 555658 {
        12
    } else if wh >= 467501 {
        11
    } else if wh >= 387905 {
        10
    } else if wh >= 316570 {
        9
    } else if wh >= 253196 {
        8
    } else if wh >= 197488 {
        7
    } else if wh >= 149155 {
        6
    } else if wh >= 107913 {
        5
    } else if wh >= 73489 {
        4
    } else {
        3
    }
}

/// Computes `spec_auto_order`.
pub fn auto_order(wh: u64) -> (r: usize)
    ensures
        r == spec_auto_order(wh),
        3 <= r <= 64,
{
    if wh >= 24999808 {
        64
    } else if wh >= 24007997 {
        63
    } else if wh >= 23042876 {
        62
    } else if wh >= 22104045 {
        61
    } else if wh >= 21191108 {
        60
    } else if wh >= 20303669 {
        59
    } else if wh >= 19441336 {
        58
    } else if wh >= 18603718 {
        57
    } else if wh >= 17790429 {
        56
    } else if wh >= 17001080 {
        55
    } else if wh >= 16235288 {
        54
    } else if wh >= 15492671 {
        53
    } else if wh >= 14772849 {
        52
    } else if wh >= 14075444 {
        51
    } else if wh >= 13400080 {
        50
    } else if wh >= 12746384 {
        49
    } else if wh >= 12113983 {
        48
    } else if wh >= 11502509 {
        47
    } else if wh >= 10911593 {
        46
    } else if wh >= 10340869 {
        45
    } else if wh >= 9789975 {
        44
    } else if wh >= 9258548 {
        43
    } else if wh >= 8746229 {
        42
    } else if wh >= 8252660 {
        41
    } else if wh >= 7777486 {
        40
    } else if wh >= 7320352 {
        39
    } else if wh >= 6880908 {
        38
    } else if wh >= 6458802 {
        37
    } else if wh >= 6053688 {
        36
    } else if wh >= 5665218 {
        35
    } else if wh >= 5293050 {
        34
    } else if wh >= 4936840 {
        33
    } else if wh >= 4596249 {
        32
    } else if wh >= 4270937 {
        31
    } else if wh >= 3960568 {
        30
    } else if wh >= 3664807 {
        29
    } else if wh >= 3383321 {
        28
    } else if wh >= 3115778 {
        27
    } else if wh >= 2861849 {
        26
    } else if wh >= 2621206 {
        25
    } else if wh >= 2393523 {
        24
    } else if wh >= 2178475 {
        23
    } else if wh >= 1975739 {
        22
    } else if wh >= 1784994 {
        21
    } else if wh >= 1605920 {
        20
    } else if wh >= 1438199 {
        19
    } else if wh >= 1281516 {
        18
    } else if wh >= 1135554 {
        17
    } else if wh >= 1000000 {
        16
    } else if wh >= 874544 {
        15
    } else if wh >= 758873 {
        14
    } else if wh >= 652681 {
        13
    } else if wh >= 555658 {
        12
    } else if wh >= 467501 {
        11
    } else if wh >= 387905 {
        10
    } else if wh >= 316570 {
        9
    } else if wh >= 253196 {
        8
    } else if wh >= 197488 {
        7
    } else if wh >= 149155 {
        6
    } else if wh >= 107913 {
        5
    } else if wh >= 73489 {
        4
    } else {
        3
    }
}

/// Evaluates the literal doubles the geometry uses.
proof fn lemma_geometry_literals()
    ensures
        spec_fe_u(4) == (FloatExtended { mantissa: FOUR_BITS, exponent: 0i64 }),
        (TWO_BITS ^ crate::fp::SIGN_MASK) == (TWO_BITS | crate::fp::SIGN_MASK),
{
    assert(crate::float_extended::msb_pos(1) == 0);
    assert(crate::float_extended::msb_pos(2) == 1);
    assert(crate::float_extended::msb_pos(4) == 2);
    assert((1025u64 << 52) | ((4u64 << 50) & 0x000F_FFFF_FFFF_FFFF)
        == 0x4010_0000_0000_0000) by (bit_vector);
    assert(spec_fe_u(4).mantissa == (1025u64 << 52) | ((4u64 << 50)
        & 0x000F_FFFF_FFFF_FFFF));
    assert((0x4000_0000_0000_0000u64 ^ 0x8000_0000_0000_0000) == (0x4000_0000_0000_0000u64
        | 0x8000_0000_0000_0000)) by (bit_vector);
}

/// First index at or after `i` holding the byte `E`.
pub open spec fn e_pos(s: Seq<u8>, i: int) -> int
    decreases s.len() - i,
{
    if i < 0 {
        i
    } else if i < s.len() && s[i] != 69 {
        e_pos(s, i + 1)
    } else {
        i
    }
}

/// A zoom string is an `E`-separated mantissa and decimal exponent.
pub open spec fn spec_zoom_ok(s: Seq<u8>) -> bool {
    let e = e_pos(s, 0);
    &&& e < s.len()
    &&& spec_parse_decimal(s.subrange(0, e)) is Some
    &&& spec_parse_decimal(s.subrange(e + 1, s.len() as int)) is Some
}

/// The zoom exponent's magnitude is within the supported range.
pub open spec fn spec_zoom_exp_in_range(s: Seq<u8>) -> bool {
    -(crate::arb::MAX_DEC_EXP as int) <= spec_zoom_exp_val(s) <= crate::arb::MAX_DEC_EXP as int
}

/// The floored integer value of the zoom exponent field.
pub open spec fn spec_zoom_exp_val(s: Seq<u8>) -> int {
    let e = e_pos(s, 0);
    match spec_parse_decimal(s.subrange(e + 1, s.len() as int)) {
        Some((d, f, e10)) => crate::arb::spec_scaled_value(d, f, e10, 0),
        None => 0,
    }
}


/// The extended float `fe_pow10` builds: `10^e` for non-negative `e`, else
/// the truncated fixed-point image of `10^e` at scale `4|e| + 64`.
pub open spec fn spec_fe_pow10(e: int) -> FloatExtended {
    if e >= 0 {
        crate::arb::spec_fe_of_int(vstd::arithmetic::power::pow(10, e as nat) as int, 0)
    } else {
        let s: int = 4 * (-e) + 64;
        crate::arb::spec_fe_of_int(
            (vstd::arithmetic::power2::pow2(s as nat) as int) / (vstd::arithmetic::power::pow(
                10, (-e) as nat) as int),
            s,
        )
    }
}

/// The zoom an accepted `<mantissa>E<exponent>` string denotes: the
/// mantissa read at binary scale 128, times the power of ten.
pub open spec fn spec_zoom_fe(s: Seq<u8>) -> FloatExtended {
    let e = e_pos(s, 0);
    let m = crate::arb::spec_parse_scaled(s.subrange(0, e), 128).unwrap();
    crate::float_extended::spec_fe_mul(
        crate::arb::spec_fe_of_int(m, 128),
        spec_fe_pow10(spec_zoom_exp_val(s)),
    )
}

/// An extended float holding the small integer `n`.
pub open spec fn spec_fe_u(n: u64) -> FloatExtended {
    FloatExtended { mantissa: crate::arb::spec_bits_of_u64(n), exponent: 0i64 }
}

/// The pixel spacing the geometry derives: `(-2*(4/H - 2)/zoom)/H`.
pub open spec fn spec_delta_pixel(zoom: FloatExtended, w: usize, h: usize) -> FloatExtended {
    let hfe = spec_fe_u(h as u64);
    let two_neg = FloatExtended { mantissa: TWO_BITS | crate::fp::SIGN_MASK, exponent: 0i64 };
    let v_h = crate::float_extended::spec_fe_add(
        crate::float_extended::spec_fe_div(spec_fe_u(4), hfe),
        two_neg,
    );
    crate::float_extended::spec_fe_div(
        crate::float_extended::spec_fe_div(
            crate::float_extended::spec_fe_mul(
                FloatExtended { mantissa: NEG_TWO_BITS, exponent: 0i64 },
                v_h,
            ),
            zoom,
        ),
        hfe,
    )
}

/// The top-left offset: `((4/W - 2)/zoom * aspect, (4/H - 2)/zoom)`.
pub open spec fn spec_delta_top_left(zoom: FloatExtended, w: usize, h: usize) -> ComplexExtended {
    let wfe = spec_fe_u(w as u64);
    let hfe = spec_fe_u(h as u64);
    let two_neg = FloatExtended { mantissa: TWO_BITS | crate::fp::SIGN_MASK, exponent: 0i64 };
    let v_w = crate::float_extended::spec_fe_add(
        crate::float_extended::spec_fe_div(spec_fe_u(4), wfe),
        two_neg,
    );
    let v_h = crate::float_extended::spec_fe_add(
        crate::float_extended::spec_fe_div(spec_fe_u(4), hfe),
        two_neg,
    );
    let aspect = crate::float_extended::spec_fe_div(wfe, hfe);
    crate::arb::spec_ce_of_fe_pair(
        crate::float_extended::spec_fe_mul(crate::float_extended::spec_fe_div(v_w, zoom),
            aspect),
        crate::float_extended::spec_fe_div(v_h, zoom),
    )
}

/// The precision the zoom demands: 64 headroom bits beyond the image
/// radius exponent.
pub open spec fn spec_precision(zoom: FloatExtended, w: usize, h: usize) -> int {
    let radius = crate::float_extended::spec_fe_mul(spec_delta_pixel(zoom, w, h), spec_fe_u(
        w as u64));
    if radius.exponent < 0 {
        64 - radius.exponent
    } else {
        64
    }
}

pub struct FractalRenderer {
    pub image_width: usize,
    pub image_height: usize,
    pub aspect: FloatExtended,
    pub zoom: FloatExtended,
    pub center_location: ComplexArbitrary,
    pub maximum_iteration: u64,
    pub approximation_order: usize,
    pub data_export: RenderOutput,
    /// Glitched pixels left when the last render gave up, zero otherwise.
    pub residual_glitches: usize,
    /// Repair passes the last render spent.
    pub repair_passes: u64,
    pub rng: StdRng,
}

impl FractalRenderer {
    pub open spec fn wf(&self) -> bool {
        &&& 1 <= self.image_width <= 0x8000
        &&& 1 <= self.image_height <= 0x8000
        &&& self.maximum_iteration >= 1
        &&& 3 <= self.approximation_order <= 64
        &&& self.center_location.spec_prec() <= 0x2000_0000
        &&& self.data_export.wf()
        &&& self.data_export.width == self.image_width
        &&& self.data_export.height == self.image_height
    }

    /// Builds a renderer from the settings values. The zoom must be of the
    /// form `<mantissa>E<decimal exponent>`; the centre coordinates are
    /// decimals read at a precision derived from the zoom.
    pub fn new(
        image_width: usize,
        image_height: usize,
        maximum_iteration: u64,
        zoom_s: &str,
        real_s: &str,
        imag_s: &str,
        rng_seed: u64,
    ) -> (r: Result<FractalRenderer, RendererError>)
        requires
            1 <= image_width <= 0x8000,
            1 <= image_height <= 0x8000,
            // the series seeds at iteration one (`z_1 = c`), so at least one
            // iteration must be admitted
            maximum_iteration >= 1,
        ensures
            ({
                let zb = zoom_s.spec_bytes();
                let rb = real_s.spec_bytes();
                let ib = imag_s.spec_bytes();
                let len_ok = zb.len() < 0x100_0000 && rb.len() < 0x100_0000 && ib.len()
                    < 0x100_0000;
                let zoom_ok = len_ok && spec_zoom_ok(zb);
                let prec_ok = zoom_ok && spec_zoom_exp_in_range(zb) && spec_precision(
                    spec_zoom_fe(zb), image_width, image_height) <= PRECISION_LIMIT as int;
                let loc_ok = spec_parse_decimal(rb) is Some && spec_parse_decimal(ib) is Some;
                &&& ((r matches Err(e) && e == RendererError::ConfigError) <==> !zoom_ok)
                &&& ((r matches Err(e) && e == RendererError::PrecisionExhausted) <==> (zoom_ok
                    && !prec_ok))
                &&& ((r matches Err(e) && e == RendererError::LocationError) <==> (prec_ok
                    && !loc_ok))
                &&& ((r is Ok) <==> (prec_ok && loc_ok))
                &&& (r matches Ok(fr) ==> {
                    let prec = spec_precision(spec_zoom_fe(zb), image_width, image_height);
                    &&& fr.wf()
                    &&& fr.image_width == image_width
                    &&& fr.image_height == image_height
                    &&& fr.maximum_iteration == maximum_iteration
                    &&& fr.zoom == spec_zoom_fe(zb)
                    &&& fr.approximation_order == spec_auto_order(
                        ((image_width as int) * (image_height as int)) as u64)
                    &&& fr.center_location.spec_prec() == prec
                    &&& fr.center_location.model() == (
                        crate::arb::spec_parse_scaled(rb, prec as nat).unwrap(),
                        crate::arb::spec_parse_scaled(ib, prec as nat).unwrap(),
                    )
                    &&& fr.residual_glitches == 0
                    // the export starts pristine: no flags set, no counts,
                    // so every slot is in exactly one state (active)
                    &&& forall|i: int|
                        0 <= i < fr.data_export.escaped@.len()
                            ==> !(#[trigger] fr.data_export.escaped@[i])
                            && !fr.data_export.reached_max@[i]
                            && !fr.data_export.glitched@[i]
                            && fr.data_export.iterations@[i] == 0
                            && fr.data_export.state_exclusive(i)
                })
            }),
    {
        let zb = zoom_s.as_bytes();
        let rb = real_s.as_bytes();
        let ib = imag_s.as_bytes();
        if !(zb.len() < 0x100_0000 && rb.len() < 0x100_0000 && ib.len() < 0x100_0000) {
            return Err(RendererError::ConfigError);
        }
        // split the zoom at its `E`
        let mut e_idx: usize = 0;
        while e_idx < zb.len() && zb[e_idx] != 69
            invariant
                e_idx <= zb@.len(),
                e_pos(zb@, 0) == e_pos(zb@, e_idx as int),
            decreases zb@.len() - e_idx,
        {
            e_idx = e_idx + 1;
        }
        if e_idx == zb.len() {
            return Err(RendererError::ConfigError);
        }
        let mant_part = slice_range(zb, 0, e_idx);
        let exp_part = slice_range(zb, e_idx + 1, zb.len());
        let mant_big = match parse_decimal_scaled(mant_part.as_slice(), 128) {
            Some(v) => v,
            None => {
                return Err(RendererError::ConfigError);
            },
        };
        let exp_big = match parse_decimal_scaled(exp_part.as_slice(), 0) {
            Some(v) => v,
            None => {
                return Err(RendererError::ConfigError);
            },
        };
        let cap = big_from_i64(crate::arb::MAX_DEC_EXP as i64);
        let ncap = big_from_i64(-(crate::arb::MAX_DEC_EXP as i64));
        if big_lt(&cap, &exp_big) || big_lt(&exp_big, &ncap) {
            return Err(RendererError::PrecisionExhausted);
        }
        let eneg = big_is_neg(&exp_big);
        let emag = if eneg {
            big_to_u64(&big_sub(&big_from_i64(0), &exp_big))
        } else {
            big_to_u64(&exp_big)
        };
        let zoom = fe_from_bigint(&mant_big, 128).mul(&fe_pow10(emag, eneg));
        proof {
            let zbv = zoom_s.spec_bytes();
            assert(e_pos(zbv, e_idx as int) == e_idx as int);
            assert(e_pos(zbv, 0) == e_idx as int);
            assert(mant_part@ == zbv.subrange(0, e_idx as int));
            assert(exp_part@ == zbv.subrange(e_idx + 1, zbv.len() as int));
            assert(big_val(mant_big) == crate::arb::spec_parse_scaled(zbv.subrange(0,
                e_idx as int), 128).unwrap());
            assert(spec_zoom_exp_val(zbv) == big_val(exp_big));
            assert((if eneg { -(emag as int) } else { emag as int }) == big_val(exp_big));
            assert(zoom == spec_zoom_fe(zbv));
        }
        // geometry, and the precision the zoom demands
        let (delta_pixel, _tl, _dps) = geometry(zoom, image_width, image_height);
        let wfe = FloatExtended { mantissa: bits_of_u64(image_width as u64), exponent: 0 };
        let hfe = FloatExtended { mantissa: bits_of_u64(image_height as u64), exponent: 0 };
        let radius = delta_pixel.mul(&wfe);
        let ghost spec_prec_v = spec_precision(spec_zoom_fe(zoom_s.spec_bytes()),
            image_width, image_height);
        proof {
            assert(wfe == spec_fe_u(image_width as u64));
            assert(delta_pixel == spec_delta_pixel(zoom, image_width, image_height));
            assert(zoom == spec_zoom_fe(zoom_s.spec_bytes()));
            assert(delta_pixel == spec_delta_pixel(spec_zoom_fe(zoom_s.spec_bytes()),
                image_width, image_height));
            assert(radius == crate::float_extended::spec_fe_mul(spec_delta_pixel(
                spec_zoom_fe(zoom_s.spec_bytes()), image_width, image_height),
                spec_fe_u(image_width as u64)));
            assert(spec_prec_v == if radius.exponent < 0 {
                64 - radius.exponent as int
            } else {
                64int
            });
        }
        let precision: usize = if radius.exponent < 0 {
            let negexp = -radius.exponent;
            if negexp > (PRECISION_LIMIT as i64) - 64 {
                return Err(RendererError::PrecisionExhausted);
            }
            (negexp as usize) + 64
        } else {
            64
        };
        proof {
            assert(precision as int == spec_prec_v);
            assert(precision <= PRECISION_LIMIT);
        }
        let center_location = match ComplexArbitrary::parse(precision, rb, ib) {
            Some(c) => c,
            None => {
                return Err(RendererError::LocationError);
            },
        };
        let aspect = wfe.div(&hfe);
        proof {
            assert((image_width as int) * (image_height as int) <= 0x8000 * 0x8000)
                by (nonlinear_arith)
                requires 1 <= image_width <= 0x8000 && 1 <= image_height <= 0x8000;
        }
        let wh: u64 = (image_width as u64) * (image_height as u64);
        let order = auto_order(wh);
        let data_export = RenderOutput::new(image_width, image_height);
        Ok(FractalRenderer {
            image_width,
            image_height,
            aspect,
            zoom,
            center_location,
            maximum_iteration,
            approximation_order: order,
            data_export,
            residual_glitches: 0,
            repair_passes: 0,
            rng: rng_from_seed(rng_seed),
        })
    }
}

/// `10^e` or `10^-e` as an extended float (top 53 bits).
fn fe_pow10(emag: u64, eneg: bool) -> (r: FloatExtended)
    requires
        emag <= crate::arb::MAX_DEC_EXP,
    ensures
        crate::float_extended::is_canonical(r),
        r == spec_fe_pow10(if eneg { -(emag as int) } else { emag as int }),
{
    if !eneg || emag == 0 {
        let n = big_pow10(emag);
        fe_from_bigint(&n, 0)
    } else {
        let s: usize = (4 * emag + 64) as usize;
        let p = big_pow10(emag);
        let m = big_div_nonneg(&big_shl(&big_from_i64(1), s), &p);
        fe_from_bigint(&m, s as i64)
    }
}

/// Pixel spacing, top-left offset, and the squared pixel spacing, all from
/// the zoom: `delta_pixel = (-2*(4/H - 2)/zoom)/H`, and
/// `delta_top_left = ((4/W - 2)/zoom * aspect, (4/H - 2)/zoom)`.
fn geometry(zoom: FloatExtended, width: usize, height: usize) -> (r: (FloatExtended,
    ComplexExtended, FloatExtended))
    requires
        1 <= width <= 0x1_0000,
        1 <= height <= 0x1_0000,
    ensures
        crate::float_extended::is_canonical(r.0),
        r.0 == spec_delta_pixel(zoom, width, height),
        r.1 == spec_delta_top_left(zoom, width, height),
        r.2 == crate::float_extended::spec_fe_mul(r.0, r.0),
{
    proof {
        lemma_geometry_literals();
    }
    let four = FloatExtended { mantissa: FOUR_BITS, exponent: 0 };
    let two = FloatExtended { mantissa: TWO_BITS, exponent: 0 };
    let neg_two = FloatExtended { mantissa: NEG_TWO_BITS, exponent: 0 };
    let wfe = FloatExtended { mantissa: bits_of_u64(width as u64), exponent: 0 };
    let hfe = FloatExtended { mantissa: bits_of_u64(height as u64), exponent: 0 };
    let aspect = wfe.div(&hfe);
    let v_h = four.div(&hfe).sub(&two);
    let v_w = four.div(&wfe).sub(&two);
    let delta_pixel = neg_two.mul(&v_h).div(&zoom).div(&hfe);
    let tl_re = v_w.div(&zoom).mul(&aspect);
    let tl_im = v_h.div(&zoom);
    let tl = ce_from_fe_pair(tl_re, tl_im);
    let dps = delta_pixel.mul(&delta_pixel);
    (delta_pixel, tl, dps)
}

/// Copies `s[a..b]` out of a byte slice.
fn slice_range(s: &[u8], a: usize, b: usize) -> (r: Vec<u8>)
    requires
        a <= b <= s@.len(),
    ensures
        r@ == s@.subrange(a as int, b as int),
{
    let mut v: Vec<u8> = Vec::new();
    let mut i = a;
    while i < b
        invariant
            a <= i <= b <= s@.len(),
            v@ == s@.subrange(a as int, i as int),
        decreases b - i,
    {
        let x = s[i];
        v.push(x);
        proof {
            assert(v@ =~= s@.subrange(a as int, (i + 1) as int));
        }
        i = i + 1;
    }
    v
}

impl FractalRenderer {
    /// Renders one frame: series approximation, reference orbit, per-pixel
    /// seeding, perturbation, then glitch repair until the glitched count is
    /// within tolerance or the pass budget runs out. The escaped and
    /// reached-max pixel sets in the export only ever grow.
    pub fn render(&mut self)
        requires
            old(self).wf(),
        ensures
            final(self).wf(),
            final(self).image_width == old(self).image_width,
            final(self).image_height == old(self).image_height,
            final(self).maximum_iteration == old(self).maximum_iteration,
            final(self).zoom == old(self).zoom,
            final(self).center_location == old(self).center_location,
            final(self).approximation_order == old(self).approximation_order,
            // the escaped set, and the escaped-or-inside set, never shrink
            forall|i: int|
                0 <= i < old(self).data_export.escaped@.len()
                    && old(self).data_export.escaped@[i]
                    ==> final(self).data_export.escaped@[i],
            forall|i: int|
                0 <= i < old(self).data_export.reached_max@.len()
                    && old(self).data_export.reached_max@[i]
                    ==> final(self).data_export.reached_max@[i],
            forall|i: int|
                0 <= i < old(self).data_export.escaped@.len()
                    && (old(self).data_export.escaped@[i]
                    || old(self).data_export.reached_max@[i])
                    ==> (final(self).data_export.escaped@[i]
                    || final(self).data_export.reached_max@[i]),
            // every exported pixel is in at most one finished state
            forall|i: int|
                0 <= i < old(self).data_export.escaped@.len()
                    && old(self).data_export.state_exclusive(i)
                    ==> final(self).data_export.state_exclusive(i),
            // iteration counts stay within the bound
            forall|i: int|
                0 <= i < old(self).data_export.iterations@.len()
                    ==> (final(self).data_export.iterations@[i]
                    <= old(self).maximum_iteration || final(self).data_export.iterations@[i]
                    == old(self).data_export.iterations@[i]),
            // the repair loop ran until tolerance or its pass budget
            final(self).residual_glitches * 10000 <= old(self).image_width
                * old(self).image_height || final(self).repair_passes == MAX_REPAIR_PASSES,
    {
        let (delta_pixel, tl, dps) = geometry(self.zoom, self.image_width, self.image_height);
        let mut sa = SeriesApproximation::new(
            self.center_location.clone_value(),
            self.approximation_order,
            self.maximum_iteration,
            dps,
            tl,
        );
        sa.run();
        let mut reference = sa.get_reference(ComplexExtended::zero());
        reference.run();
        let tlre_fe = FloatExtended { mantissa: tl.re, exponent: tl.exponent };
        let tlim_fe = FloatExtended { mantissa: tl.im, exponent: tl.exponent };
        let w = self.image_width;
        let h = self.image_height;
        proof {
            assert((w as int) * (h as int) <= 0x8000 * 0x8000) by (nonlinear_arith)
                requires w <= 0x8000 && h <= 0x8000;
        }
        let n: usize = w * h;
        proof {
            assert(n <= 0x4000_0000);
        }
        let mut pixels: Vec<PixelData> = Vec::new();
        let mut index: usize = 0;
        while index < n
            invariant
                sa.wf(),
                1 <= w <= 0x8000,
                1 <= h <= 0x8000,
                index <= n,
                n == w * h,
                pixels@.len() == index,
            decreases n - index,
        {
            let i = index % w;
            let j = index / w;
            proof {
                assert((index as int) / (w as int) < h as int) by (nonlinear_arith)
                    requires 0 <= (index as int) < (w as int) * (h as int) && w >= 1;
                assert(j < h);
            }
            let xf = FloatExtended { mantissa: bits_of_u64(i as u64), exponent: 0 }
                .mul(&delta_pixel).add(&tlre_fe);
            let yf = FloatExtended { mantissa: bits_of_u64(j as u64), exponent: 0 }
                .mul(&delta_pixel).add(&tlim_fe);
            let dc = ce_from_fe_pair(xf, yf);
            let ds = sa.evaluate(dc);
            pixels.push(PixelData {
                image_x: i,
                image_y: j,
                iteration: reference.start_iteration,
                delta_centre: dc,
                delta_reference: dc,
                delta_start: ds,
                delta_current: ds.to_fixed(),
                derivative_current: ComplexFixed { re: ONE_BITS, im: 0 },
                glitched: false,
                escaped: false,
            });
            index = index + 1;
        }
        Perturbation::iterate(&mut pixels, &reference, reference.current_iteration);
        self.data_export.export_pixels(&pixels, &reference, self.maximum_iteration);
        let mut remaining = retain_glitched(&pixels);
        proof {
            assert(remaining@.len() <= 0x4000_0000);
        }
        let mut passes: u64 = 0;
        let wh_total: u64 = (w as u64) * (h as u64);
        while (remaining.len() as u64) * 10000 > wh_total
            && passes < MAX_REPAIR_PASSES
            invariant
                self.wf(),
                sa.wf(),
                1 <= w <= 0x8000,
                1 <= h <= 0x8000,
                w == self.image_width && h == self.image_height,
                wh_total == (w as u64) * (h as u64),
                remaining@.len() <= 0x4000_0000,
                self.data_export.escaped@.len() == old(self).data_export.escaped@.len(),
                self.data_export.reached_max@.len()
                    == old(self).data_export.reached_max@.len(),
                self.data_export.iterations@.len() == old(self).data_export.iterations@.len(),
                self.image_width == old(self).image_width,
                self.image_height == old(self).image_height,
                self.maximum_iteration == old(self).maximum_iteration,
                self.zoom == old(self).zoom,
                self.center_location == old(self).center_location,
                self.approximation_order == old(self).approximation_order,
                sa.maximum_iteration == self.maximum_iteration,
                passes <= MAX_REPAIR_PASSES,
                forall|i: int|
                    0 <= i < old(self).data_export.escaped@.len()
                        && old(self).data_export.escaped@[i]
                        ==> self.data_export.escaped@[i],
                forall|i: int|
                    0 <= i < old(self).data_export.reached_max@.len()
                        && old(self).data_export.reached_max@[i]
                        ==> self.data_export.reached_max@[i],
                forall|i: int|
                    0 <= i < old(self).data_export.escaped@.len()
                        && (old(self).data_export.escaped@[i]
                        || old(self).data_export.reached_max@[i])
                        ==> (self.data_export.escaped@[i]
                        || self.data_export.reached_max@[i]),
                forall|i: int|
                    0 <= i < old(self).data_export.escaped@.len()
                        && old(self).data_export.state_exclusive(i)
                        ==> self.data_export.state_exclusive(i),
                forall|i: int|
                    0 <= i < old(self).data_export.iterations@.len()
                        ==> (self.data_export.iterations@[i] <= self.maximum_iteration
                        || self.data_export.iterations@[i]
                        == old(self).data_export.iterations@[i]),
            decreases MAX_REPAIR_PASSES - passes,
        {
            let dref = remaining[rng_below(&mut self.rng, remaining.len())].delta_centre;
            let delta_z = sa.evaluate(dref);
            let mut r = sa.get_reference(dref);
            r.run();
            reseed_pixels(&mut remaining, r.start_iteration, &delta_z, &dref);
            Perturbation::iterate(&mut remaining, &r, r.current_iteration);
            self.data_export.export_pixels(&remaining, &r, self.maximum_iteration);
            remaining = retain_glitched(&remaining);
            passes = passes + 1;
        }
        self.residual_glitches = remaining.len();
        self.repair_passes = passes;
        proof {
            assert((w as int) * (h as int) == (self.image_width as int)
                * (self.image_height as int));
        }
    }

    /// Renders keyframes outward: after each frame the zoom mantissa is
    /// divided by the scale factor (a double, given as bits) until the zoom
    /// falls to one.
    pub fn render_sequence(&mut self, scale_factor_bits: u64) -> (r: (u64, Ghost<
        Seq<FloatExtended>>))
        requires
            old(self).wf(),
        ensures
            final(self).wf(),
            // the walk ends with the zoom collapsed to at most 1.0, unless
            // the frame budget ran out
            r.0 == 0x1_0000_0000u64 || ({
                let c = crate::float_extended::spec_reduce(final(self).zoom);
                !crate::fp::f64_lt_bits(ONE_BITS, crate::float_extended::spec_scale_pow2(
                    c.mantissa, c.exponent as int))
            }),
            // after any frame the zoom is left renormalized
            r.0 > 0 ==> crate::float_extended::is_canonical(final(self).zoom),
            // the trace of zoom values, one per keyframe: each frame ran
            // while the collapsed zoom exceeded 1.0, and handed on the
            // mantissa divided by the scale factor, renormalized
            r.1@.len() == r.0 + 1,
            r.1@[0] == old(self).zoom,
            r.1@.last() == final(self).zoom,
            forall|i: int|
                0 <= i < r.0 ==> #[trigger] r.1@[i + 1]
                    == crate::float_extended::spec_reduce(
                    FloatExtended {
                        mantissa: crate::fp::f64_div_bits(r.1@[i].mantissa,
                            scale_factor_bits),
                        exponent: r.1@[i].exponent,
                    },
                ),
            forall|i: int|
                0 <= i < r.0 ==> ({
                    let c = crate::float_extended::spec_reduce(#[trigger] r.1@[i]);
                    crate::fp::f64_lt_bits(ONE_BITS, crate::float_extended::spec_scale_pow2(
                        c.mantissa, c.exponent as int))
                }),
    {
        let mut count: u64 = 0;
        let ghost tr0 = seq![old(self).zoom];
        let ghost mut tr: Seq<FloatExtended> = tr0;
        loop
            invariant
                self.wf(),
                count <= 0x1_0000_0000u64,
                count > 0 ==> crate::float_extended::is_canonical(self.zoom),
                tr.len() == count + 1,
                tr[0] == old(self).zoom,
                tr.last() == self.zoom,
                forall|i: int|
                    0 <= i < count ==> #[trigger] tr[i + 1]
                        == crate::float_extended::spec_reduce(
                        FloatExtended {
                            mantissa: crate::fp::f64_div_bits(tr[i].mantissa,
                                scale_factor_bits),
                            exponent: tr[i].exponent,
                        },
                    ),
                forall|i: int|
                    0 <= i < count ==> ({
                        let c = crate::float_extended::spec_reduce(#[trigger] tr[i]);
                        crate::fp::f64_lt_bits(ONE_BITS,
                            crate::float_extended::spec_scale_pow2(c.mantissa,
                            c.exponent as int))
                    }),
            decreases 0x1_0000_0000u64 - count,
        {
            let zd = self.zoom.to_double_bits();
            if !crate::fp::f64_lt(ONE_BITS, zd) {
                return (count, Ghost(tr));
            }
            if count >= 0x1_0000_0000 {
                return (count, Ghost(tr));
            }
            self.render();
            let ghost zprev = self.zoom;
            let m = crate::fp::f64_div(self.zoom.mantissa, scale_factor_bits);
            self.zoom = FloatExtended { mantissa: m, exponent: self.zoom.exponent }.reduced();
            proof {
                let told = tr;
                tr = tr.push(self.zoom);
                assert(told.push(self.zoom).last() == self.zoom);
                assert forall|i: int|
                    0 <= i < count + 1 implies #[trigger] tr[i + 1]
                    == crate::float_extended::spec_reduce(
                    FloatExtended {
                        mantissa: crate::fp::f64_div_bits(tr[i].mantissa, scale_factor_bits),
                        exponent: tr[i].exponent,
                    },
                ) by {
                    if i < count {
                        assert(told.push(self.zoom)[i] == told[i]);
                        assert(told.push(self.zoom)[i + 1] == told[i + 1]);
                    } else {
                        assert(told.push(self.zoom)[i] == told.last());
                        assert(told.push(self.zoom)[i + 1] == self.zoom);
                        assert(told.last() == zprev);
                    }
                }
                assert forall|i: int|
                    0 <= i < count + 1 implies ({
                    let c = crate::float_extended::spec_reduce(#[trigger] tr[i]);
                    crate::fp::f64_lt_bits(ONE_BITS, crate::float_extended::spec_scale_pow2(
                        c.mantissa, c.exponent as int))
                }) by {
                    if i < count {
                        assert(told.push(self.zoom)[i] == told[i]);
                    } else {
                        assert(told.push(self.zoom)[i] == told.last());
                        assert(told.last() == zprev);
                    }
                }
            }
            count = count + 1;
        }
    }
}


/// The re-seeded state of a surviving pixel at the start of a repair pass:
/// iteration back at the new reference's start, the glitch flag cleared,
/// the working value rebased by the series evaluation at the new centre,
/// and the reference offset moved onto it; everything else (in particular
/// `delta_centre` and `delta_start`) untouched.
pub open spec fn spec_reseed(
    p: PixelData,
    start: u64,
    delta_z: ComplexExtended,
    dref: ComplexExtended,
) -> PixelData {
    PixelData {
        iteration: start,
        glitched: false,
        delta_current: crate::complex::spec_cf_of_ce(
            crate::complex::spec_ce_add(p.delta_start, crate::series::spec_ce_neg(delta_z)),
        ),
        delta_reference: crate::complex::spec_ce_add(p.delta_centre,
            crate::series::spec_ce_neg(dref)),
        ..p
    }
}

/// Applies the repair re-seeding (spec above) to every surviving pixel.
fn reseed_pixels(
    pixels: &mut Vec<PixelData>,
    start: u64,
    delta_z: &ComplexExtended,
    dref: &ComplexExtended,
)
    ensures
        final(pixels)@.len() == old(pixels)@.len(),
        forall|i: int|
            0 <= i < old(pixels)@.len() ==> final(pixels)@[i] == spec_reseed(
                #[trigger] old(pixels)@[i], start, *delta_z, *dref),
{
    let n = pixels.len();
    let mut k: usize = 0;
    while k < n
        invariant
            n == pixels@.len() == old(pixels)@.len(),
            k <= n,
            forall|i: int|
                k <= i < n ==> pixels@[i] == old(pixels)@[i],
            forall|i: int|
                0 <= i < k ==> pixels@[i] == spec_reseed(#[trigger] old(pixels)@[i], start,
                    *delta_z, *dref),
        decreases n - k,
    {
        let mut p = pixels[k];
        p.iteration = start;
        p.glitched = false;
        p.delta_current = p.delta_start.sub(delta_z).to_fixed();
        p.delta_reference = p.delta_centre.sub(dref);
        pixels.set(k, p);
        k = k + 1;
    }
}

/// The glitched subsequence of a pass's pixels, in order.
pub open spec fn spec_retained(s: Seq<PixelData>) -> Seq<PixelData>
    decreases s.len(),
{
    if s.len() == 0 {
        Seq::empty()
    } else if s.last().glitched {
        spec_retained(s.drop_last()).push(s.last())
    } else {
        spec_retained(s.drop_last())
    }
}

/// The glitched survivors of a pass, in order.
fn retain_glitched(pixels: &Vec<PixelData>) -> (r: Vec<PixelData>)
    ensures
        r@ == spec_retained(pixels@),
        forall|i: int| 0 <= i < r@.len() ==> (#[trigger] r@[i]).glitched,
        r@.len() <= pixels@.len(),
    decreases pixels@.len(),
{
    let mut out: Vec<PixelData> = Vec::new();
    let mut i: usize = 0;
    let n = pixels.len();
    proof {
        assert(pixels@.subrange(0, 0) =~= Seq::<PixelData>::empty());
        lemma_retained_props(pixels@);
    }
    while i < n
        invariant
            i <= n == pixels@.len(),
            out@ == spec_retained(pixels@.subrange(0, i as int)),
            out@.len() <= i,
            forall|j: int| 0 <= j < out@.len() ==> (#[trigger] out@[j]).glitched,
        decreases n - i,
    {
        let p = pixels[i];
        proof {
            assert(pixels@.subrange(0, i + 1).drop_last() =~= pixels@.subrange(0, i as int));
            assert(pixels@.subrange(0, i + 1).last() == pixels@[i as int]);
        }
        if p.glitched {
            out.push(p);
        }
        i = i + 1;
    }
    proof {
        assert(pixels@.subrange(0, n as int) =~= pixels@);
    }
    out
}

proof fn lemma_retained_props(s: Seq<PixelData>)
    ensures
        spec_retained(s).len() <= s.len(),
    decreases s.len(),
{
    if s.len() > 0 {
        lemma_retained_props(s.drop_last());
    }
}

} // verus!


use fractal_core::float_extended::FloatExtended;
use fractal_core::complex::{ComplexFixed, ComplexExtended};
use fractal_core::arb::ComplexArbitrary;
use rand::Rng;
use rand::SeedableRng;

#[test]
fn round_trip_extended() {
    // a million random doubles survive the widen/collapse round trip bit for bit
    let mut rng = rand::rngs::StdRng::seed_from_u64(7);
    for _ in 0..1_000_000 {
        let bits: u64 = rng.gen();
        let x = f64::from_bits(bits);
        if x.is_nan() {
            continue;
        }
        let fe = FloatExtended::from_double_bits(bits);
        assert_eq!(fe.to_double_bits(), bits);
    }
}

#[test]
fn round_trip_edge_values() {
    let cases: [f64; 10] = [
        0.0, -0.0, 1.0, -1.0, f64::MIN_POSITIVE, 5e-324, -5e-324, f64::MAX, f64::INFINITY,
        f64::NEG_INFINITY,
    ];
    for x in cases {
        let fe = FloatExtended::from_double_bits(x.to_bits());
        assert_eq!(fe.to_double_bits(), x.to_bits());
    }
}

#[test]
fn reduce_idempotent_on_samples() {
    let mut rng = rand::rngs::StdRng::seed_from_u64(11);
    for _ in 0..100_000 {
        let m: u64 = rng.gen();
        let e: i64 = rng.gen_range(-1_000_000..1_000_000);
        let once = FloatExtended::new(m, e).reduced();
        let twice = once.reduced();
        assert_eq!(once, twice);
    }
}

#[test]
fn canonical_mantissa_range() {
    // after reduction a nonzero finite mantissa represents a value in [1, 2)
    for x in [3.75f64, 0.001, 123456.789, 1e-310, 2.0, 1.999999] {
        let fe = FloatExtended::from_double_bits(x.to_bits());
        let m = f64::from_bits(fe.mantissa);
        assert!((1.0..2.0).contains(&m), "mantissa {m} out of range for {x}");
    }
}

#[test]
fn extended_mul_matches_double() {
    // with both exponents zero and a normal product, multiplication agrees
    // with hardware doubles exactly
    let mut rng = rand::rngs::StdRng::seed_from_u64(13);
    for _ in 0..100_000 {
        let a = rng.gen_range(-1e100f64..1e100);
        let b = rng.gen_range(-1e100f64..1e100);
        let p = a * b;
        if !p.is_normal() {
            continue;
        }
        let fa = FloatExtended::from_double_bits(a.to_bits());
        let fb = FloatExtended::from_double_bits(b.to_bits());
        let r = fa.mul(&fb);
        assert_eq!(f64::from_bits(r.to_double_bits()), p, "{a} * {b}");
    }
}

#[test]
fn extended_add_and_sub_match_double() {
    let mut rng = rand::rngs::StdRng::seed_from_u64(17);
    for _ in 0..100_000 {
        let a = rng.gen_range(-1e10f64..1e10);
        let b = rng.gen_range(-1e10f64..1e10);
        let fa = FloatExtended::from_double_bits(a.to_bits());
        let fb = FloatExtended::from_double_bits(b.to_bits());
        let s = f64::from_bits(fa.add(&fb).to_double_bits());
        let d = f64::from_bits(fa.sub(&fb).to_double_bits());
        if (a + b).is_normal() {
            assert_eq!(s, a + b, "{a} + {b}");
        }
        if (a - b).is_normal() {
            assert_eq!(d, a - b, "{a} - {b}");
        }
    }
}

#[test]
fn extended_div_matches_double() {
    let fa = FloatExtended::from_double_bits(7.5f64.to_bits());
    let fb = FloatExtended::from_double_bits((-2.0f64).to_bits());
    assert_eq!(f64::from_bits(fa.div(&fb).to_double_bits()), -3.75);
}

#[test]
fn extended_order() {
    let tiny = FloatExtended::new(1.5f64.to_bits(), -2000);
    let big = FloatExtended::new(1.1f64.to_bits(), 2000);
    let neg = FloatExtended::new((-1.5f64).to_bits(), 2000);
    assert!(tiny.lt(&big));
    assert!(!big.lt(&tiny));
    assert!(neg.lt(&tiny));
    assert!(neg.lt(&big));
    assert!(!big.lt(&big));
}

#[test]
fn extended_handles_sub_double_range() {
    // magnitudes far below double range survive arithmetic
    let x = FloatExtended::new(1.5f64.to_bits(), -5000);
    let y = x.mul(&x);
    assert_eq!(y.exponent, -10000 + 1);
    assert_eq!(f64::from_bits(y.mantissa), 1.125);
}

#[test]
fn complex_fixed_mul() {
    let a = ComplexFixed::new(3.0f64.to_bits(), 2.0f64.to_bits());
    let b = ComplexFixed::new(1.0f64.to_bits(), (-4.0f64).to_bits());
    let p = a.mul(&b);
    // (3 + 2i)(1 - 4i) = 11 - 10i
    assert_eq!(f64::from_bits(p.re), 11.0);
    assert_eq!(f64::from_bits(p.im), -10.0);
    assert_eq!(f64::from_bits(a.norm_sqr()), 13.0);
}

#[test]
fn complex_extended_reduce_shares_exponent() {
    let mut c = ComplexExtended::new2(12.0f64.to_bits(), 0.75f64.to_bits(), 0);
    c.reduce();
    // the larger component lands in [1, 2), both scaled by one power of two
    assert_eq!(f64::from_bits(c.re), 1.5);
    assert_eq!(f64::from_bits(c.im), 0.09375);
    assert_eq!(c.exponent, 3);
}

#[test]
fn arbitrary_parse_and_collapse() {
    let c = ComplexArbitrary::parse(64, b"1.5", b"-0.25").unwrap();
    let f = c.to_extended().to_fixed();
    assert_eq!(f64::from_bits(f.re), 1.5);
    assert_eq!(f64::from_bits(f.im), -0.25);
    assert_eq!(c.prec(), 64);
}

#[test]
fn arbitrary_parse_rejects_junk() {
    assert!(ComplexArbitrary::parse(64, b"", b"0").is_none());
    assert!(ComplexArbitrary::parse(64, b"1.", b"0").is_none());
    assert!(ComplexArbitrary::parse(64, b"--1", b"0").is_none());
    assert!(ComplexArbitrary::parse(64, b"1x5", b"0").is_none());
    assert!(ComplexArbitrary::parse(64, b"1e", b"0").is_none());
    assert!(ComplexArbitrary::parse(64, b"0.5e-3", b"1e2").is_some());
}

#[test]
fn arbitrary_orbit_step() {
    // z = z^2 + c once from z = c at c = -1: z' = 0
    let c = ComplexArbitrary::parse(32, b"-1", b"0").unwrap();
    let mut z = c.clone_value();
    z.square_plus_c(&c);
    let f = z.to_extended().to_fixed();
    assert_eq!(f64::from_bits(f.re), 0.0);
    assert_eq!(f64::from_bits(f.im), 0.0);
}

#[test]
fn addition_absorbs_across_wide_exponent_gap() {
    // operands more than 53 binary orders apart: the small one is absorbed
    let big = FloatExtended::new(1.5f64.to_bits(), 0);
    let small = FloatExtended::new(1.5f64.to_bits(), -60);
    assert_eq!(big.add(&small), big.reduced());
    // within the gap the sum is exact
    let near = FloatExtended::new(1.0f64.to_bits(), -3);
    let s = big.add(&near);
    assert_eq!(f64::from_bits(s.to_double_bits()), 1.625);
}

use fractal_core::renderer::{FractalRenderer, RendererError};
use fractal_core::series::SeriesApproximation;
use fractal_core::reference::ReferenceOrbit;
use fractal_core::perturbation::{Perturbation, PixelData};
use fractal_core::complex::{ComplexFixed, ComplexExtended};
use fractal_core::arb::ComplexArbitrary;
use fractal_core::float_extended::FloatExtended;

#[test]
fn settings_errors() {
    let e = FractalRenderer::new(64, 64, 256, "abc", "0", "0", 1);
    assert_eq!(e.err().unwrap(), RendererError::ConfigError);
    let e = FractalRenderer::new(64, 64, 256, "100", "0", "0", 1);
    assert_eq!(e.err().unwrap(), RendererError::ConfigError);
    let e = FractalRenderer::new(64, 64, 256, "1E0", "zzz", "0", 1);
    assert_eq!(e.err().unwrap(), RendererError::LocationError);
    let e = FractalRenderer::new(64, 64, 256, "1E0", "0", "1.2.3", 1);
    assert_eq!(e.err().unwrap(), RendererError::LocationError);
    let e = FractalRenderer::new(64, 64, 256, "1E99000", "0", "0", 1);
    assert_eq!(e.err().unwrap(), RendererError::PrecisionExhausted);
    assert!(FractalRenderer::new(64, 64, 256, "1E0", "-0.75", "0", 1).is_ok());
}

#[test]
fn automatic_order_from_image_size() {
    let r = FractalRenderer::new(64, 64, 256, "1E0", "-0.75", "0", 1).unwrap();
    assert_eq!(r.approximation_order, 3);
    let r = FractalRenderer::new(1024, 1024, 256, "1E0", "-0.75", "0", 1).unwrap();
    assert_eq!(r.approximation_order, 16);
}

#[test]
fn no_zoom_baseline() {
    // whole-set view: the centre pixel is in the set, the corner far outside
    let mut r = FractalRenderer::new(64, 64, 256, "1E0", "-0.75", "0", 42).unwrap();
    r.render();
    let w = 64;
    let centre = 32 * w + 32;
    assert!(r.data_export.reached_max[centre]);
    assert!(!r.data_export.escaped[centre]);
    assert!(!r.data_export.glitched[centre]);
    // the top-left corner sits at |c| > 3 and blows past the 1e10 escape
    // radius within a few iterations
    assert!(r.data_export.escaped[0]);
    assert!(r.data_export.iterations[0] <= 8);
    assert_eq!(r.residual_glitches, 0);
    // the exported reference value lets an exporter form |delta + Z|, which
    // exceeds the escape radius for an escaped pixel
    let zr = f64::from_bits(r.data_export.ref_re[0]) + f64::from_bits(r.data_export.delta_re[0]);
    let zi = f64::from_bits(r.data_export.ref_im[0]) + f64::from_bits(r.data_export.delta_im[0]);
    assert!(zr * zr + zi * zi > 1e20);
    // every pixel is in exactly one state
    for i in 0..(64 * 64) {
        let esc = r.data_export.escaped[i];
        let gl = r.data_export.glitched[i];
        let rm = r.data_export.reached_max[i];
        assert!(!(esc && gl) && !(esc && rm) && !(gl && rm));
    }
}

#[test]
fn deep_point_no_glitches() {
    // a moderate zoom near the period-two cusp renders clean
    let mut r = FractalRenderer::new(32, 32, 512, "1E2", "-1.25", "0", 3).unwrap();
    r.render();
    assert_eq!(r.residual_glitches, 0);
    let mut saw_inside = false;
    let mut saw_escaped = false;
    for i in 0..(32 * 32) {
        assert!(!r.data_export.glitched[i]);
        saw_inside = saw_inside || r.data_export.reached_max[i];
        saw_escaped = saw_escaped || r.data_export.escaped[i];
    }
    assert!(saw_inside && saw_escaped);
}

#[test]
fn series_skip_validation() {
    // at 1e50 zoom the series absorbs far more than a hundred iterations,
    // and every probe stays within the squared pixel spacing
    let centre = ComplexArbitrary::parse(
        256,
        b"-1.401155189092050860154078264846",
        b"0",
    )
    .unwrap();
    let w = 256.0f64;
    let zoom = 1e50f64;
    let delta_pixel = (-2.0 * (4.0 / w - 2.0) / zoom) / w;
    let dps = delta_pixel * delta_pixel;
    let tl = (4.0 / w - 2.0) / zoom;
    let tl_ce = ComplexExtended::new2(tl.to_bits(), tl.to_bits(), 0);
    let mut sa = SeriesApproximation::new(
        centre,
        8,
        10000,
        FloatExtended::from_double_bits(dps.to_bits()),
        tl_ce,
    );
    sa.run();
    assert!(sa.current_iteration >= 100, "skipped only {}", sa.current_iteration);
    for i in 0..sa.probes.len() {
        let p = sa.probes[i];
        let est = sa.evaluate(p.delta);
        let err = est.sub(&p.current).norm_square();
        assert!(!sa.delta_pixel_square.lt(&err));
    }
}

#[test]
fn perturbation_matches_direct_iteration() {
    // with the reference pinned at c = 0 the perturbed orbit is the plain
    // double iteration, so both must escape at the same step
    let c0 = ComplexArbitrary::parse(64, b"0", b"0").unwrap();
    let z0 = ComplexArbitrary::parse(64, b"0", b"0").unwrap();
    let mut reference = ReferenceOrbit::new(c0, z0, 1, 300);
    reference.run();
    assert_eq!(reference.current_iteration, 300);
    for (cre, cim) in [(0.3f64, 0.1f64), (-0.6, 0.4), (0.4, 0.3), (-1.9, 0.0)] {
        let d = ComplexExtended::new2(cre.to_bits(), cim.to_bits(), 0);
        let mut pixels = vec![PixelData {
            image_x: 0,
            image_y: 0,
            iteration: 1,
            delta_centre: d,
            delta_reference: d,
            delta_start: d,
            delta_current: ComplexFixed::new(cre.to_bits(), cim.to_bits()),
            derivative_current: ComplexFixed::new(1.0f64.to_bits(), 0),
            glitched: false,
            escaped: false,
        }];
        Perturbation::iterate(&mut pixels, &reference, 300);
        // direct double iteration of z <- z^2 + c from z_1 = c
        let (mut zr, mut zi) = (cre, cim);
        let mut n: u64 = 1;
        let mut escaped = false;
        while n < 300 {
            let t = zr * zr - zi * zi + cre;
            let u = zr * zi + zi * zr + cim;
            zr = t;
            zi = u;
            n += 1;
            if zr * zr + zi * zi > 1e20 {
                escaped = true;
                break;
            }
        }
        assert_eq!(pixels[0].iteration, n, "c = {cre} + {cim}i");
        assert_eq!(pixels[0].escaped, escaped, "c = {cre} + {cim}i");
    }
}

#[test]
fn determinism_with_fixed_seed() {
    let run = |seed: u64| {
        let mut r = FractalRenderer::new(32, 32, 256, "1E1", "-0.75", "0.01", seed).unwrap();
        r.render();
        (r.data_export.iterations.clone(), r.data_export.escaped.clone(),
            r.data_export.glitched.clone())
    };
    let a = run(9);
    let b = run(9);
    assert_eq!(a.0, b.0);
    assert_eq!(a.1, b.1);
    assert_eq!(a.2, b.2);
}

#[test]
fn render_sequence_walks_zoom_down_to_one() {
    let mut r = FractalRenderer::new(8, 8, 16, "1E1", "-0.75", "0", 5).unwrap();
    let (frames, _) = r.render_sequence(2.0f64.to_bits());
    assert!(frames >= 3);
    let zd = f64::from_bits(r.zoom.to_double_bits());
    assert!(zd <= 1.0);
}

#[test]
fn escape_set_only_grows_across_renders() {
    // rendering twice into the same export never clears an escaped mark
    let mut r = FractalRenderer::new(16, 16, 64, "1E0", "-0.75", "0", 2).unwrap();
    r.render();
    let before = r.data_export.escaped.clone();
    r.render();
    for i in 0..before.len() {
        if before[i] {
            assert!(r.data_export.escaped[i]);
        }
    }
}

#[test]
fn glitch_detection_near_reference_zero() {
    // at c = -1 the reference orbit alternates -1, 0, -1, ...; a pixel whose
    // deviation lands almost exactly on -Z is flagged as glitched
    let c0 = ComplexArbitrary::parse(64, b"-1", b"0").unwrap();
    let z0 = ComplexArbitrary::parse(64, b"-1", b"0").unwrap();
    let mut reference = ReferenceOrbit::new(c0, z0, 1, 10);
    reference.run();
    let cd = ComplexExtended::new2(0.9999f64.to_bits(), 0, 0);
    let mut pixels = vec![PixelData {
        image_x: 0,
        image_y: 0,
        iteration: 2,
        delta_centre: cd,
        delta_reference: cd,
        delta_start: cd,
        delta_current: ComplexFixed::new(0, 0),
        derivative_current: ComplexFixed::new(1.0f64.to_bits(), 0),
        glitched: false,
        escaped: false,
    }];
    Perturbation::iterate(&mut pixels, &reference, 10);
    assert!(pixels[0].glitched);
    assert!(!pixels[0].escaped);
    assert_eq!(pixels[0].iteration, 3);
}

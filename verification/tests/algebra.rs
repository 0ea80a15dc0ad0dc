use amida::color::{Color, Fluence, Rgb};
use amida::fixed::{cos_turn, exp_neg, isqrt, mul_q16, sin_turn, SCALE};

fn fl(r: u64, t: u64) -> Fluence {
    Fluence {
        radiance: Rgb { r, g: r, b: r },
        transmittance: Rgb { r: t, g: t, b: t },
    }
}

#[test]
fn mul_q16_exact_values() {
    assert_eq!(mul_q16(SCALE, SCALE), SCALE);
    assert_eq!(mul_q16(SCALE / 2, SCALE / 2), SCALE / 4);
    assert_eq!(mul_q16(3 * SCALE, 2 * SCALE), 6 * SCALE);
    assert_eq!(mul_q16(0, 12345), 0);
}

#[test]
fn isqrt_exact_values() {
    assert_eq!(isqrt(0), 0);
    assert_eq!(isqrt(1), 1);
    assert_eq!(isqrt(15), 3);
    assert_eq!(isqrt(16), 4);
    assert_eq!(isqrt(1 << 62), 1 << 31);
}

#[test]
fn exp_neg_exact_values() {
    // exp(0) is exactly one unit.
    assert_eq!(exp_neg(0), SCALE);
    // One whole unit of optical depth scales by floor(SCALE / e) exactly.
    assert_eq!(exp_neg(SCALE), 24109);
    // Very deep media snap to fully opaque.
    assert_eq!(exp_neg(64 * SCALE), 0);
    // Against the float reference: exp(-1/2) = 0.6065...
    let half = exp_neg(SCALE / 2) as f64 / SCALE as f64;
    assert!((half - 0.5f64.exp().recip()).abs() < 0.001);
}

#[test]
fn trig_exact_and_approximate() {
    assert_eq!(cos_turn(0), SCALE as i64);
    // A quarter turn is within a candle of zero.
    assert!(cos_turn(16384).unsigned_abs() < 128);
    // Sine of a quarter turn is within a candle of one.
    assert!((sin_turn(16384) - SCALE as i64).abs() < 128);
    let c = cos_turn(5000) as f64 / SCALE as f64;
    let expect = (5000.0 / 65536.0 * std::f64::consts::TAU).cos();
    assert!((c - expect).abs() < 0.01);
}

#[test]
fn transparent_is_identity_for_over() {
    let t = Fluence::transparent();
    let a = fl(1000, 30000);
    let left = t.over(a);
    assert_eq!(left.radiance.r, 1000);
    assert_eq!(left.transmittance.r, 30000);
    // Compositing transparency after a fluence changes nothing either.
    let right = a.over(t);
    assert_eq!(right.radiance.r, 1000);
    assert_eq!(right.transmittance.r, 30000);
}

#[test]
fn over_exact_formula() {
    let a = fl(100, SCALE / 2);
    let b = fl(200, SCALE / 4);
    let c = a.over(b);
    // radiance = 100 + (1/2) * 200; transmittance = 1/2 * 1/4.
    assert_eq!(c.radiance.r, 200);
    assert_eq!(c.transmittance.r, SCALE / 8);
}

#[test]
fn over_associative_within_rounding() {
    // The physical near-to-far composition order associates within one Q16
    // unit of transmittance and a few units of radiance.
    let cases = [
        (fl(123, 60000), fl(456, 41234), fl(789, 7777)),
        (fl(0, SCALE), fl(1, 1), fl(1 << 30, SCALE - 1)),
        (fl(99999, 12345), fl(54321, 54321), fl(11111, 33333)),
    ];
    for (a, b, c) in cases {
        let left = a.over(b.over(c));
        let right = a.over(b).over(c);
        let dt = left.transmittance.r.abs_diff(right.transmittance.r);
        assert!(dt <= 1, "transmittance diverged by {dt}");
        let slack = c.radiance.r / SCALE + 2;
        let dr = left.radiance.r.abs_diff(right.radiance.r);
        assert!(dr <= slack, "radiance diverged by {dr} (allowed {slack})");
    }
}

#[test]
fn transmittance_monotone_over_many_segments() {
    let mut acc = Fluence::transparent();
    let segments = [
        fl(10, 60000),
        fl(0, SCALE),
        fl(500, 30000),
        fl(7, 65535),
        fl(123456, 100),
    ];
    let mut prev = acc.transmittance.r;
    for s in segments {
        acc = acc.over(s);
        assert!(acc.transmittance.r <= prev);
        assert!(acc.transmittance.g <= prev);
        assert!(acc.transmittance.b <= prev);
        prev = acc.transmittance.r;
    }
}

#[test]
fn as_fluence_zero_segment_is_transparent() {
    let cell = Color {
        radiance: Rgb { r: SCALE, g: SCALE, b: SCALE },
        opacity: Rgb { r: SCALE, g: SCALE, b: SCALE },
    };
    assert_eq!(cell.as_fluence(0), Fluence::transparent());
}

#[test]
fn as_fluence_unit_segment_exact() {
    // Opacity 1.0 over a segment of length 1.0: transmittance is exactly
    // exp_neg(SCALE) and the gathered radiance is the absorbed share.
    let cell = Color {
        radiance: Rgb { r: SCALE, g: SCALE, b: SCALE },
        opacity: Rgb { r: SCALE, g: SCALE, b: SCALE },
    };
    let f = cell.as_fluence(SCALE);
    assert_eq!(f.transmittance.r, 24109);
    assert_eq!(f.radiance.r, (SCALE - 24109) * SCALE / SCALE);
}

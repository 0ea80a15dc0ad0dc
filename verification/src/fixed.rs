//! Q16 fixed-point scalar arithmetic: every quantity of the renderer is an
//! integer number of 1/65536 units. Division always rounds toward zero, and
//! each function's contract states the exact integer formula it computes.

use vstd::prelude::*;

verus! {

/// One whole unit in Q16 fixed point.
pub const SCALE: u64 = 65536;

/// A quarter turn, as a Q16 fraction of a full turn.
pub const QUARTER_TURN: u64 = 16384;

/// Two pi in Q16, used to convert turn fractions to radians.
pub const TWO_PI_Q16: u64 = 411775;

/// Reciprocal of Euler's number in Q16: floor(65536 / e).
pub const INV_E_Q16: u64 = 24109;

/// Optical depths of 64 whole units or more are snapped to full opacity.
pub const EXP_DEPTH_LIMIT: u64 = 64;

/// Product of two Q16 values, truncated back to Q16.
pub open spec fn spec_mul_q16(a: int, b: int) -> int {
    a * b / (SCALE as int)
}

/// Multiplies two Q16 fixed-point values, rounding toward zero.
pub fn mul_q16(a: u64, b: u64) -> (r: u64)
    requires
        a * b <= u64::MAX,
    ensures
        r == spec_mul_q16(a as int, b as int),
        r <= a * b,
{
    proof {
        assert(a * b / (SCALE as int) <= a * b) by (nonlinear_arith);
    }
    (a * b) / SCALE
}

/// Whether r is the integer square root of x.
pub open spec fn is_isqrt(r: int, x: int) -> bool {
    0 <= r && r * r <= x && x < (r + 1) * (r + 1)
}

/// The integer square root, as the unique value satisfying `is_isqrt`.
pub open spec fn spec_isqrt(x: int) -> int {
    choose|r: int| is_isqrt(r, x)
}

/// Any two integer square roots of the same value coincide.
pub proof fn lemma_isqrt_unique(r1: int, r2: int, x: int) by (nonlinear_arith)
    requires
        is_isqrt(r1, x),
        is_isqrt(r2, x),
    ensures
        r1 == r2,
{
}

/// Integer square root: the greatest r with r * r <= x.
pub fn isqrt(x: u64) -> (r: u64)
    ensures
        r * r <= x,
        (r + 1) * (r + 1) > x,
        r == spec_isqrt(x as int),
        r <= 0xffff_ffff,
{
    let mut lo: u64 = 0;
    let mut hi: u64 = 0xffff_ffff;
    proof {
        assert((0xffff_ffffu64 + 1) * (0xffff_ffffu64 + 1) > u64::MAX as int) by (nonlinear_arith);
    }
    while lo < hi
        invariant
            lo <= hi,
            hi <= 0xffff_ffff,
            lo * lo <= x,
            (hi + 1) * (hi + 1) > x,
        decreases hi - lo,
    {
        let mid = lo + (hi - lo + 1) / 2;
        proof {
            assert(mid * mid <= 0xffff_ffffu64 * 0xffff_ffffu64) by (nonlinear_arith)
                requires mid <= 0xffff_ffffu64;
        }
        if mid * mid <= x {
            lo = mid;
        } else {
            hi = mid - 1;
        }
    }
    proof {
        assert(is_isqrt(lo as int, x as int));
        lemma_isqrt_unique(lo as int, spec_isqrt(x as int), x as int);
    }
    lo
}

/// One Taylor step of the quarter-wave cosine polynomial, over the squared
/// scaled angle x2 = x * x / SCALE with x = r * TWO_PI_Q16 / SCALE.
pub open spec fn spec_cos_poly(r: int) -> int {
    let s = SCALE as int;
    let x = r * (TWO_PI_Q16 as int) / s;
    let x2 = x * x / s;
    let x4 = x2 * x2 / s;
    let x6 = x4 * x2 / s;
    s - x2 / 2 + x4 / 24 - x6 / 720
}

/// Cosine over the first quarter wave: r is a Q16 turn fraction in
/// [0, QUARTER_TURN]. The result is Q16, within [-SCALE, SCALE], and exactly
/// SCALE at r == 0.
fn cos_poly(r: u64) -> (c: i64)
    requires
        r <= QUARTER_TURN,
    ensures
        c == spec_cos_poly(r as int),
        -(SCALE as i64) <= c <= SCALE as i64,
        r == 0 ==> c == SCALE as i64,
{
    proof {
        assert(r * TWO_PI_Q16 <= 16384 * 411775) by (nonlinear_arith)
            requires r <= 16384u64;
    }
    let x = r * TWO_PI_Q16 / SCALE;
    proof {
        assert(x <= 102944) by (nonlinear_arith)
            requires x == r * TWO_PI_Q16 / (SCALE as int) && r * TWO_PI_Q16 <= 16384 * 411775;
        assert(x * x <= 102944 * 102944) by (nonlinear_arith) requires x <= 102944u64;
    }
    let x2 = x * x / SCALE;
    proof {
        assert(x2 <= 161710) by (nonlinear_arith)
            requires x2 == x * x / (SCALE as int) && x * x <= 102944 * 102944;
        assert(x2 * x2 <= 161710 * 161710) by (nonlinear_arith) requires x2 <= 161710u64;
    }
    let x4 = x2 * x2 / SCALE;
    proof {
        assert(x4 <= 399100) by (nonlinear_arith)
            requires x4 == x2 * x2 / (SCALE as int) && x2 * x2 <= 161710 * 161710;
        // x4 <= 3 * x2, so the positive term x4 / 24 stays below x2 / 2.
        assert(x4 <= 3 * x2) by (nonlinear_arith)
            requires x4 == x2 * x2 / (SCALE as int) && x2 <= 161710u64;
        assert(x4 * x2 <= 399100 * 161710) by (nonlinear_arith)
            requires x4 <= 399100u64 && x2 <= 161710u64;
    }
    let x6 = x4 * x2 / SCALE;
    proof {
        assert(x6 <= 985000) by (nonlinear_arith)
            requires x6 == x4 * x2 / (SCALE as int) && x4 * x2 <= 399100 * 161710;
    }
    proof {
        if r == 0 {
            assert(x2 == 0) by (nonlinear_arith)
                requires x == 0int && x2 == x * x / (SCALE as int);
            assert(x4 == 0) by (nonlinear_arith)
                requires x2 == 0int && x4 == x2 * x2 / (SCALE as int);
            assert(x6 == 0) by (nonlinear_arith)
                requires x2 == 0int && x6 == x4 * x2 / (SCALE as int);
        }
    }
    let c: i64 = (SCALE as i64) - (x2 / 2) as i64 + (x4 / 24) as i64 - (x6 / 720) as i64;
    c
}

/// Cosine of a full-turn Q16 fraction (0 is a full unit, a half turn is
/// -SCALE at most in magnitude): quadrant reduction onto the quarter-wave
/// polynomial.
pub open spec fn spec_cos_turn(t: int) -> int {
    let quarter = QUARTER_TURN as int;
    let q = t / quarter;
    let r = t % quarter;
    if q == 0 {
        spec_cos_poly(r)
    } else if q == 1 {
        -spec_cos_poly(quarter - r)
    } else if q == 2 {
        -spec_cos_poly(r)
    } else {
        spec_cos_poly(quarter - r)
    }
}

/// Cosine of an angle given as a Q16 fraction of a full turn.
pub fn cos_turn(t: u64) -> (c: i64)
    requires
        t < SCALE,
    ensures
        c == spec_cos_turn(t as int),
        -(SCALE as i64) <= c <= SCALE as i64,
        t == 0 ==> c == SCALE as i64,
{
    let q = t / QUARTER_TURN;
    let r = t % QUARTER_TURN;
    if q == 0 {
        cos_poly(r)
    } else if q == 1 {
        -cos_poly(QUARTER_TURN - r)
    } else if q == 2 {
        -cos_poly(r)
    } else {
        cos_poly(QUARTER_TURN - r)
    }
}

/// Sine via the quarter-turn phase shift of the cosine.
pub open spec fn spec_sin_turn(t: int) -> int {
    spec_cos_turn((t + 3 * (QUARTER_TURN as int)) % (SCALE as int))
}

/// Sine of an angle given as a Q16 fraction of a full turn.
pub fn sin_turn(t: u64) -> (s: i64)
    requires
        t < SCALE,
    ensures
        s == spec_sin_turn(t as int),
        -(SCALE as i64) <= s <= SCALE as i64,
{
    cos_turn((t + 3 * QUARTER_TURN) % SCALE)
}

/// Taylor polynomial for exp(-r / SCALE) over the fractional part
/// r in [0, SCALE).
pub open spec fn spec_exp_frac(r: int) -> int {
    let s = SCALE as int;
    let r2 = r * r / s;
    let r3 = r2 * r / s;
    let r4 = r3 * r / s;
    s - r + r2 / 2 - r3 / 6 + r4 / 24
}

/// exp(-r / SCALE) in Q16 for r in [0, SCALE): four alternating Taylor terms.
fn exp_frac(r: u64) -> (t: u64)
    requires
        r < SCALE,
    ensures
        t == spec_exp_frac(r as int),
        t <= SCALE,
        r == 0 ==> t == SCALE,
{
    proof {
        assert(r * r <= u64::MAX) by (nonlinear_arith) requires r < 65536u64;
    }
    let r2 = r * r / SCALE;
    proof {
        // Each extra factor of r / SCALE shrinks the term.
        assert(r2 <= r) by (nonlinear_arith)
            requires r2 == r * r / (SCALE as int) && r < 65536u64;
        assert(r2 * r <= u64::MAX) by (nonlinear_arith) requires r2 < 65536u64 && r < 65536u64;
    }
    let r3 = r2 * r / SCALE;
    proof {
        assert(r3 <= r2) by (nonlinear_arith)
            requires r3 == r2 * r / (SCALE as int) && r < 65536u64;
        assert(r3 * r <= u64::MAX) by (nonlinear_arith) requires r3 < 65536u64 && r < 65536u64;
    }
    let r4 = r3 * r / SCALE;
    proof {
        assert(r4 <= r3) by (nonlinear_arith)
            requires r4 == r3 * r / (SCALE as int) && r < 65536u64;
    }
    SCALE - r + r2 / 2 - r3 / 6 + r4 / 24
}

/// Repeatedly scales t by 1/e, once per whole unit of optical depth.
pub open spec fn spec_exp_units(t: int, k: nat) -> int
    decreases k,
{
    if k == 0 {
        t
    } else {
        spec_exp_units(t * (INV_E_Q16 as int) / (SCALE as int), (k - 1) as nat)
    }
}

proof fn lemma_exp_units_bound(t: int, k: nat)
    requires
        0 <= t <= SCALE as int,
    ensures
        0 <= spec_exp_units(t, k) <= SCALE as int,
    decreases k,
{
    if k > 0 {
        let t1 = t * (INV_E_Q16 as int) / (SCALE as int);
        assert(0 <= t1 <= t) by (nonlinear_arith)
            requires t1 == t * (INV_E_Q16 as int) / (SCALE as int) && 0 <= t <= SCALE as int;
        lemma_exp_units_bound(t1, (k - 1) as nat);
    }
}

/// exp(-d / SCALE) in Q16 for a nonnegative Q16 optical depth d. Depths of
/// EXP_DEPTH_LIMIT whole units or more are snapped to zero transmittance,
/// mirroring the renderer's opacity cutoff policy.
pub open spec fn spec_exp_neg(d: int) -> int {
    let s = SCALE as int;
    let q = d / s;
    if q >= EXP_DEPTH_LIMIT as int {
        0
    } else {
        spec_exp_units(spec_exp_frac(d % s), q as nat)
    }
}

/// Beer-Lambert transmittance exp(-d) of a Q16 optical depth d.
pub fn exp_neg(d: u64) -> (t: u64)
    ensures
        t == spec_exp_neg(d as int),
        t <= SCALE,
        d == 0 ==> t == SCALE,
{
    let q = d / SCALE;
    let r = d % SCALE;
    if q >= EXP_DEPTH_LIMIT {
        return 0;
    }
    let mut t = exp_frac(r);
    let ghost t0 = t as int;
    let mut i: u64 = 0;
    while i < q
        invariant
            i <= q,
            q < EXP_DEPTH_LIMIT,
            t <= SCALE,
            spec_exp_units(t as int, (q - i) as nat) == spec_exp_units(t0, q as nat),
        decreases q - i,
    {
        proof {
            assert(t * INV_E_Q16 <= u64::MAX) by (nonlinear_arith) requires t <= 65536u64;
            assert(t * INV_E_Q16 / (SCALE as int) <= t) by (nonlinear_arith) requires t <= 65536u64;
        }
        t = t * INV_E_Q16 / SCALE;
        i = i + 1;
    }
    proof {
        lemma_exp_units_bound(t0, q as nat);
    }
    t
}

} // verus!

//! Per-cell colors and the fluence algebra: transmittance-compositing of
//! traced ray segments, all in Q16 fixed point.

use vstd::prelude::*;
use crate::fixed::{exp_neg, mul_q16, spec_exp_neg, spec_mul_q16, SCALE};

verus! {

/// Radiance values of a single grid cell never exceed this (Q16).
pub const CELL_RADIANCE_MAX: u64 = 0x1_0000_0000;

/// Absorption coefficients per unit length never exceed this (Q16).
pub const OPACITY_MAX: u64 = 0x100_0000;

/// Largest traced segment length handed to `as_fluence` (Q16).
pub const SEGMENT_MAX: u64 = 0x80_0000_0000;

/// Largest radiance a fluence may carry into a composition.
pub const RADIANCE_LIMIT: u64 = 0xffff_ffff_ffff;

/// A three-channel Q16 quantity: radiance, opacity or transmittance.
#[derive(Debug, Clone, Copy, PartialEq, Eq, Structural)]
pub struct Rgb {
    pub r: u64,
    pub g: u64,
    pub b: u64,
}

impl Rgb {
    /// All three channels zero.
    pub fn zero() -> (v: Rgb)
        ensures
            v == (Rgb { r: 0, g: 0, b: 0 }),
    {
        Rgb { r: 0, g: 0, b: 0 }
    }

    /// The same value in every channel.
    pub fn splat(x: u64) -> (v: Rgb)
        ensures
            v == (Rgb { r: x, g: x, b: x }),
    {
        Rgb { r: x, g: x, b: x }
    }

    /// Every channel at most `m`.
    pub open spec fn all_le(self, m: int) -> bool {
        self.r <= m && self.g <= m && self.b <= m
    }
}

/// Attributes of one grid cell: emitted light and absorption per unit length.
#[derive(Debug, Clone, Copy, PartialEq, Eq, Structural)]
pub struct Color {
    pub radiance: Rgb,
    pub opacity: Rgb,
}

impl Color {
    /// A cell is well formed when its radiance and opacity are within the
    /// renderer's fixed bounds.
    pub open spec fn wf(self) -> bool {
        self.radiance.all_le(CELL_RADIANCE_MAX as int) && self.opacity.all_le(OPACITY_MAX as int)
    }
}

/// Accumulated light transport over a traced segment: light gathered so far
/// plus the fraction of light (per channel, in [0, SCALE]) that would still
/// pass through.
#[derive(Debug, Clone, Copy, PartialEq, Eq, Structural)]
pub struct Fluence {
    pub radiance: Rgb,
    pub transmittance: Rgb,
}

/// Transmittance after one Beer-Lambert segment of the given cell.
pub open spec fn spec_segment_transmittance(opacity: int, segment: int) -> int {
    spec_exp_neg(opacity * segment / (SCALE as int))
}

/// Radiance contributed by one segment: the cell's radiance weighted by how
/// much of the segment's light is absorbed.
pub open spec fn spec_segment_radiance(radiance: int, transmittance: int) -> int {
    radiance * ((SCALE as int) - transmittance) / (SCALE as int)
}

impl Fluence {
    /// Transmittance is a fraction of SCALE in every channel.
    pub open spec fn wf(self) -> bool {
        self.transmittance.all_le(SCALE as int)
    }

    /// The fluence of an untraversed segment: nothing gathered, everything
    /// passes.
    pub fn transparent() -> (f: Fluence)
        ensures
            f == Fluence::spec_transparent(),
            f.wf(),
    {
        Fluence { radiance: Rgb { r: 0, g: 0, b: 0 }, transmittance: Rgb { r: SCALE, g: SCALE, b: SCALE } }
    }

    /// Spec-level transparent fluence.
    pub open spec fn spec_transparent() -> Fluence {
        Fluence { radiance: Rgb { r: 0, g: 0, b: 0 }, transmittance: Rgb { r: SCALE, g: SCALE, b: SCALE } }
    }

    /// A fully absorbing fluence: nothing gathered, nothing passes.
    pub fn black() -> (f: Fluence)
        ensures
            f == (Fluence { radiance: Rgb { r: 0, g: 0, b: 0 }, transmittance: Rgb { r: 0, g: 0, b: 0 } }),
            f.wf(),
    {
        Fluence { radiance: Rgb { r: 0, g: 0, b: 0 }, transmittance: Rgb { r: 0, g: 0, b: 0 } }
    }

    /// Spec-level mirror of `over`: what compositing computes, channel by
    /// channel, in exact integer arithmetic.
    pub open spec fn spec_over(self, far: Fluence) -> Fluence {
        Fluence {
            radiance: Rgb {
                r: (self.radiance.r + spec_mul_q16(self.transmittance.r as int, far.radiance.r as int)) as u64,
                g: (self.radiance.g + spec_mul_q16(self.transmittance.g as int, far.radiance.g as int)) as u64,
                b: (self.radiance.b + spec_mul_q16(self.transmittance.b as int, far.radiance.b as int)) as u64,
            },
            transmittance: Rgb {
                r: spec_mul_q16(self.transmittance.r as int, far.transmittance.r as int) as u64,
                g: spec_mul_q16(self.transmittance.g as int, far.transmittance.g as int) as u64,
                b: spec_mul_q16(self.transmittance.b as int, far.transmittance.b as int) as u64,
            },
        }
    }

    /// Composes this fluence (near) before `far` along one ray: far light is
    /// attenuated by the near transmittance, transmittances multiply. The
    /// result's transmittance never exceeds the near transmittance in any
    /// channel.
    pub fn over(self, far: Fluence) -> (out: Fluence)
        requires
            self.wf(),
            far.wf(),
            far.radiance.all_le(RADIANCE_LIMIT as int),
            self.radiance.r + far.radiance.r <= u64::MAX,
            self.radiance.g + far.radiance.g <= u64::MAX,
            self.radiance.b + far.radiance.b <= u64::MAX,
        ensures
            out == self.spec_over(far),
            out.wf(),
            out.radiance.r == self.radiance.r + spec_mul_q16(self.transmittance.r as int, far.radiance.r as int),
            out.radiance.g == self.radiance.g + spec_mul_q16(self.transmittance.g as int, far.radiance.g as int),
            out.radiance.b == self.radiance.b + spec_mul_q16(self.transmittance.b as int, far.radiance.b as int),
            out.transmittance.r == spec_mul_q16(self.transmittance.r as int, far.transmittance.r as int),
            out.transmittance.g == spec_mul_q16(self.transmittance.g as int, far.transmittance.g as int),
            out.transmittance.b == spec_mul_q16(self.transmittance.b as int, far.transmittance.b as int),
            out.transmittance.r <= self.transmittance.r,
            out.transmittance.g <= self.transmittance.g,
            out.transmittance.b <= self.transmittance.b,
            out.radiance.r <= self.radiance.r + far.radiance.r,
            out.radiance.g <= self.radiance.g + far.radiance.g,
            out.radiance.b <= self.radiance.b + far.radiance.b,
    {
        proof {
            lemma_attenuate_le(self.transmittance.r as int, far.radiance.r as int);
            lemma_attenuate_le(self.transmittance.g as int, far.radiance.g as int);
            lemma_attenuate_le(self.transmittance.b as int, far.radiance.b as int);
            lemma_attenuate_le(self.transmittance.r as int, far.transmittance.r as int);
            lemma_attenuate_le(self.transmittance.g as int, far.transmittance.g as int);
            lemma_attenuate_le(self.transmittance.b as int, far.transmittance.b as int);
            lemma_attenuate_flip(self.transmittance.r as int, far.transmittance.r as int);
            lemma_attenuate_flip(self.transmittance.g as int, far.transmittance.g as int);
            lemma_attenuate_flip(self.transmittance.b as int, far.transmittance.b as int);
        }
        Fluence {
            radiance: Rgb {
                r: self.radiance.r + mul_q16(self.transmittance.r, far.radiance.r),
                g: self.radiance.g + mul_q16(self.transmittance.g, far.radiance.g),
                b: self.radiance.b + mul_q16(self.transmittance.b, far.radiance.b),
            },
            transmittance: Rgb {
                r: mul_q16(self.transmittance.r, far.transmittance.r),
                g: mul_q16(self.transmittance.g, far.transmittance.g),
                b: mul_q16(self.transmittance.b, far.transmittance.b),
            },
        }
    }

    /// Spec-level mirror of `over_color`.
    pub open spec fn spec_over_color(self, far: Rgb) -> Rgb {
        Rgb {
            r: (self.radiance.r + spec_mul_q16(self.transmittance.r as int, far.r as int)) as u64,
            g: (self.radiance.g + spec_mul_q16(self.transmittance.g as int, far.g as int)) as u64,
            b: (self.radiance.b + spec_mul_q16(self.transmittance.b as int, far.b as int)) as u64,
        }
    }

    /// Composes this fluence onto a raw radiance value (used against
    /// next-cascade or environment samples, which carry no transmittance).
    pub fn over_color(self, far: Rgb) -> (out: Rgb)
        requires
            self.wf(),
            far.all_le(RADIANCE_LIMIT as int),
            self.radiance.r + far.r <= u64::MAX,
            self.radiance.g + far.g <= u64::MAX,
            self.radiance.b + far.b <= u64::MAX,
        ensures
            out == self.spec_over_color(far),
            out.r == self.radiance.r + spec_mul_q16(self.transmittance.r as int, far.r as int),
            out.g == self.radiance.g + spec_mul_q16(self.transmittance.g as int, far.g as int),
            out.b == self.radiance.b + spec_mul_q16(self.transmittance.b as int, far.b as int),
            out.r <= self.radiance.r + far.r,
            out.g <= self.radiance.g + far.g,
            out.b <= self.radiance.b + far.b,
    {
        proof {
            lemma_attenuate_le(self.transmittance.r as int, far.r as int);
            lemma_attenuate_le(self.transmittance.g as int, far.g as int);
            lemma_attenuate_le(self.transmittance.b as int, far.b as int);
        }
        Rgb {
            r: self.radiance.r + mul_q16(self.transmittance.r, far.r),
            g: self.radiance.g + mul_q16(self.transmittance.g, far.g),
            b: self.radiance.b + mul_q16(self.transmittance.b, far.b),
        }
    }
}

/// Attenuating a value by a transmittance fraction never enlarges it, and the
/// product stays within u64 when the value does.
proof fn lemma_attenuate_le(t: int, v: int) by (nonlinear_arith)
    requires
        0 <= t <= SCALE as int,
        0 <= v <= RADIANCE_LIMIT as int,
    ensures
        t * v <= u64::MAX as int,
        0 <= t * v / (SCALE as int) <= v,
{
}

/// Attenuating a fraction by another fraction also never enlarges the first
/// factor.
proof fn lemma_attenuate_flip(t: int, v: int) by (nonlinear_arith)
    requires
        0 <= t <= SCALE as int,
        0 <= v <= SCALE as int,
    ensures
        0 <= t * v / (SCALE as int) <= t,
{
}

impl Color {
    /// Spec-level mirror of `as_fluence`.
    pub open spec fn spec_as_fluence(self, segment_size: int) -> Fluence {
        let tr = spec_segment_transmittance(self.opacity.r as int, segment_size);
        let tg = spec_segment_transmittance(self.opacity.g as int, segment_size);
        let tb = spec_segment_transmittance(self.opacity.b as int, segment_size);
        Fluence {
            radiance: Rgb {
                r: spec_segment_radiance(self.radiance.r as int, tr) as u64,
                g: spec_segment_radiance(self.radiance.g as int, tg) as u64,
                b: spec_segment_radiance(self.radiance.b as int, tb) as u64,
            },
            transmittance: Rgb { r: tr as u64, g: tg as u64, b: tb as u64 },
        }
    }

    /// Converts this cell into the fluence of one traversed segment of the
    /// given Q16 length: Beer-Lambert transmittance exp(-opacity * segment)
    /// per channel, and the cell's radiance weighted by the absorbed share.
    pub fn as_fluence(self, segment_size: u64) -> (f: Fluence)
        requires
            self.wf(),
            segment_size <= SEGMENT_MAX,
        ensures
            f == self.spec_as_fluence(segment_size as int),
            f.wf(),
            f.transmittance.r == spec_segment_transmittance(self.opacity.r as int, segment_size as int),
            f.transmittance.g == spec_segment_transmittance(self.opacity.g as int, segment_size as int),
            f.transmittance.b == spec_segment_transmittance(self.opacity.b as int, segment_size as int),
            f.radiance.r == spec_segment_radiance(self.radiance.r as int, f.transmittance.r as int),
            f.radiance.g == spec_segment_radiance(self.radiance.g as int, f.transmittance.g as int),
            f.radiance.b == spec_segment_radiance(self.radiance.b as int, f.transmittance.b as int),
            f.radiance.r <= self.radiance.r,
            f.radiance.g <= self.radiance.g,
            f.radiance.b <= self.radiance.b,
            segment_size == 0 ==> f == Fluence::spec_transparent(),
    {
        let tr = channel_transmittance(self.opacity.r, segment_size);
        let tg = channel_transmittance(self.opacity.g, segment_size);
        let tb = channel_transmittance(self.opacity.b, segment_size);
        let rr = channel_radiance(self.radiance.r, tr);
        let rg = channel_radiance(self.radiance.g, tg);
        let rb = channel_radiance(self.radiance.b, tb);
        Fluence {
            radiance: Rgb { r: rr, g: rg, b: rb },
            transmittance: Rgb { r: tr, g: tg, b: tb },
        }
    }
}

/// One channel of the Beer-Lambert segment transmittance.
fn channel_transmittance(opacity: u64, segment: u64) -> (t: u64)
    requires
        opacity <= OPACITY_MAX,
        segment <= SEGMENT_MAX,
    ensures
        t == spec_segment_transmittance(opacity as int, segment as int),
        t <= SCALE,
        segment == 0 ==> t == SCALE,
        opacity == 0 ==> t == SCALE,
{
    proof {
        assert(opacity * segment <= u64::MAX) by (nonlinear_arith)
            requires opacity <= OPACITY_MAX && segment <= SEGMENT_MAX;
        if opacity == 0 || segment == 0 {
            assert(opacity * segment == 0) by (nonlinear_arith)
                requires opacity == 0 || segment == 0;
        }
    }
    exp_neg(opacity * segment / SCALE)
}

/// One channel of the segment radiance: the cell radiance weighted by the
/// absorbed fraction (SCALE - t) / SCALE.
fn channel_radiance(radiance: u64, t: u64) -> (out: u64)
    requires
        radiance <= CELL_RADIANCE_MAX,
        t <= SCALE,
    ensures
        out == spec_segment_radiance(radiance as int, t as int),
        out <= radiance,
        t == SCALE ==> out == 0,
{
    proof {
        assert(radiance * (SCALE - t) <= u64::MAX && radiance * ((SCALE as int) - t) / (SCALE as int) <= radiance) by (nonlinear_arith)
            requires radiance <= CELL_RADIANCE_MAX && t <= SCALE;
        if t == SCALE {
            assert(radiance * ((SCALE as int) - t) == 0) by (nonlinear_arith)
                requires t == SCALE;
        }
    }
    radiance * (SCALE - t) / SCALE
}

/// Truncated Q16 products associate up to one unit: both association orders
/// of t = ta * tb * tc / SCALE^2 land within one of each other.
proof fn lemma_assoc_transmittance(ta: int, tb: int, tc: int)
    requires
        0 <= ta <= SCALE as int,
        0 <= tb <= SCALE as int,
        0 <= tc <= SCALE as int,
    ensures
        spec_mul_q16(ta, spec_mul_q16(tb, tc)) <= spec_mul_q16(spec_mul_q16(ta, tb), tc) + 1,
        spec_mul_q16(spec_mul_q16(ta, tb), tc) <= spec_mul_q16(ta, spec_mul_q16(tb, tc)) + 1,
{
    let s = SCALE as int;
    let m = tb * tc / s;
    let l = ta * m / s;
    let n = ta * tb / s;
    let r = n * tc / s;
    assert(s * s * l <= ta * tb * tc && ta * tb * tc < s * s * (l + 2)) by (nonlinear_arith)
        requires
            0 <= ta <= s && 0 <= tb && 0 <= tc && s == SCALE as int,
            m == tb * tc / s && l == ta * m / s;
    assert(s * s * r <= ta * tb * tc && ta * tb * tc < s * s * (r + 2)) by (nonlinear_arith)
        requires
            0 <= ta && 0 <= tb && 0 <= tc <= s && s == SCALE as int,
            n == ta * tb / s && r == n * tc / s;
    assert(l <= r + 1 && r <= l + 1) by (nonlinear_arith)
        requires
            s == SCALE as int,
            s * s * l <= ta * tb * tc && ta * tb * tc < s * s * (l + 2),
            s * s * r <= ta * tb * tc && ta * tb * tc < s * s * (r + 2);
}

/// Both association orders of the composited radiance land within a small,
/// quantified band of each other.
proof fn lemma_assoc_radiance(ta: int, tb: int, rb: int, rc: int)
    requires
        0 <= ta <= SCALE as int,
        0 <= tb <= SCALE as int,
        0 <= rb,
        0 <= rc,
    ensures
        spec_mul_q16(ta, rb) + spec_mul_q16(spec_mul_q16(ta, tb), rc)
            <= spec_mul_q16(ta, rb + spec_mul_q16(tb, rc)) + 1,
        spec_mul_q16(ta, rb + spec_mul_q16(tb, rc))
            <= spec_mul_q16(ta, rb) + spec_mul_q16(spec_mul_q16(ta, tb), rc) + rc / (SCALE as int) + 2,
{
    let s = SCALE as int;
    let m = tb * rc / s;
    let l = ta * (rb + m) / s;
    let n = ta * tb / s;
    let r1 = ta * rb / s;
    let r2 = n * rc / s;
    // Common rational value A = (ta * rb * s + ta * tb * rc) / s^2; both sides
    // track it from below within bounded slack.
    assert(s * s * l <= ta * rb * s + ta * tb * rc && ta * rb * s + ta * tb * rc < s * s * (l + 2)) by (nonlinear_arith)
        requires
            0 <= ta <= s && 0 <= tb && 0 <= rb && 0 <= rc && s == SCALE as int,
            m == tb * rc / s && l == ta * (rb + m) / s;
    assert(s * s * (r1 + r2) <= ta * rb * s + ta * tb * rc
        && ta * rb * s + ta * tb * rc < s * s * (r1 + r2 + 2) + rc * s) by (nonlinear_arith)
        requires
            0 <= ta && 0 <= tb <= s && 0 <= rb && 0 <= rc && s == SCALE as int,
            n == ta * tb / s && r1 == ta * rb / s && r2 == n * rc / s;
    assert(r1 + r2 <= l + 1 && l <= r1 + r2 + rc / s + 2) by (nonlinear_arith)
        requires
            s == SCALE as int && 0 <= rc,
            s * s * l <= ta * rb * s + ta * tb * rc,
            ta * rb * s + ta * tb * rc < s * s * (l + 2),
            s * s * (r1 + r2) <= ta * rb * s + ta * tb * rc,
            ta * rb * s + ta * tb * rc < s * s * (r1 + r2 + 2) + rc * s;
}

/// One channel of the associativity law, over plain integer values.
proof fn lemma_assoc_channel(ta: u64, tb: u64, tc: u64, ra: u64, rb: u64, rc: u64)
    requires
        ta <= SCALE,
        tb <= SCALE,
        tc <= SCALE,
        ra + rb + rc <= RADIANCE_LIMIT,
    ensures
        ({
            let lt = spec_mul_q16(ta as int, spec_mul_q16(tb as int, tc as int));
            let rt = spec_mul_q16(spec_mul_q16(ta as int, tb as int), tc as int);
            let lr = ra + spec_mul_q16(ta as int, rb + spec_mul_q16(tb as int, rc as int));
            let rr = ra + spec_mul_q16(ta as int, rb as int)
                + spec_mul_q16(spec_mul_q16(ta as int, tb as int), rc as int);
            &&& lt <= rt + 1
            &&& rt <= lt + 1
            &&& rr <= lr + 1
            &&& lr <= rr + rc / SCALE + 2
            &&& 0 <= spec_mul_q16(tb as int, tc as int) <= SCALE as int
            &&& 0 <= spec_mul_q16(ta as int, tb as int) <= SCALE as int
            &&& 0 <= lt <= SCALE as int
            &&& 0 <= rt <= SCALE as int
            &&& 0 <= spec_mul_q16(tb as int, rc as int) <= rc
            &&& 0 <= spec_mul_q16(ta as int, rb as int) <= rb
            &&& 0 <= spec_mul_q16(ta as int, rb + spec_mul_q16(tb as int, rc as int)) <= rb + rc
            &&& 0 <= spec_mul_q16(spec_mul_q16(ta as int, tb as int), rc as int) <= rc
        }),
{
    lemma_assoc_transmittance(ta as int, tb as int, tc as int);
    lemma_assoc_radiance(ta as int, tb as int, rb as int, rc as int);
    lemma_attenuate_flip(ta as int, tb as int);
    lemma_attenuate_flip(tb as int, tc as int);
    lemma_attenuate_flip(ta as int, spec_mul_q16(tb as int, tc as int));
    lemma_attenuate_flip(spec_mul_q16(ta as int, tb as int), tc as int);
    lemma_attenuate_le(tb as int, rc as int);
    lemma_attenuate_le(ta as int, rb as int);
    lemma_attenuate_le(ta as int, rb + spec_mul_q16(tb as int, rc as int));
    lemma_attenuate_le(spec_mul_q16(ta as int, tb as int), rc as int);
}

/// Compositing is associative under the physical near-to-far ordering, up to
/// fixed-point rounding: for any three fluences A (near), B (mid), C (far),
/// `A.over(B.over(C))` and `(A.over(B)).over(C)` agree within one Q16 unit of
/// transmittance per channel, and their gathered radiance agrees within
/// `C.radiance / SCALE + 2` units per channel.
pub proof fn lemma_over_associative(a: Fluence, b: Fluence, c: Fluence)
    requires
        a.wf(),
        b.wf(),
        c.wf(),
        a.radiance.r + b.radiance.r + c.radiance.r <= RADIANCE_LIMIT,
        a.radiance.g + b.radiance.g + c.radiance.g <= RADIANCE_LIMIT,
        a.radiance.b + b.radiance.b + c.radiance.b <= RADIANCE_LIMIT,
    ensures
        ({
            let l = a.spec_over(b.spec_over(c));
            let r = a.spec_over(b).spec_over(c);
            &&& l.transmittance.r <= r.transmittance.r + 1
            &&& r.transmittance.r <= l.transmittance.r + 1
            &&& l.transmittance.g <= r.transmittance.g + 1
            &&& r.transmittance.g <= l.transmittance.g + 1
            &&& l.transmittance.b <= r.transmittance.b + 1
            &&& r.transmittance.b <= l.transmittance.b + 1
            &&& r.radiance.r <= l.radiance.r + 1
            &&& l.radiance.r <= r.radiance.r + c.radiance.r / SCALE + 2
            &&& r.radiance.g <= l.radiance.g + 1
            &&& l.radiance.g <= r.radiance.g + c.radiance.g / SCALE + 2
            &&& r.radiance.b <= l.radiance.b + 1
            &&& l.radiance.b <= r.radiance.b + c.radiance.b / SCALE + 2
        }),
{
    lemma_assoc_channel(
        a.transmittance.r, b.transmittance.r, c.transmittance.r,
        a.radiance.r, b.radiance.r, c.radiance.r,
    );
    lemma_assoc_channel(
        a.transmittance.g, b.transmittance.g, c.transmittance.g,
        a.radiance.g, b.radiance.g, c.radiance.g,
    );
    lemma_assoc_channel(
        a.transmittance.b, b.transmittance.b, c.transmittance.b,
        a.radiance.b, b.radiance.b, c.radiance.b,
    );
}

/// Folds a sequence of traced segments onto an accumulated fluence, nearest
/// segment first.
pub open spec fn spec_compose(acc: Fluence, segs: Seq<Fluence>) -> Fluence
    decreases segs.len(),
{
    if segs.len() == 0 {
        acc
    } else {
        spec_compose(acc.spec_over(segs[0]), segs.skip(1))
    }
}

/// Transmittance monotonicity: however many segments are composited onto an
/// accumulated fluence, the transmittance never increases in any channel.
pub proof fn lemma_transmittance_monotone(acc: Fluence, segs: Seq<Fluence>)
    requires
        acc.wf(),
        forall|i: int| 0 <= i < segs.len() ==> (#[trigger] segs[i]).wf(),
    ensures
        spec_compose(acc, segs).wf(),
        spec_compose(acc, segs).transmittance.r <= acc.transmittance.r,
        spec_compose(acc, segs).transmittance.g <= acc.transmittance.g,
        spec_compose(acc, segs).transmittance.b <= acc.transmittance.b,
    decreases segs.len(),
{
    if segs.len() > 0 {
        let next = acc.spec_over(segs[0]);
        lemma_attenuate_flip(acc.transmittance.r as int, segs[0].transmittance.r as int);
        lemma_attenuate_flip(acc.transmittance.g as int, segs[0].transmittance.g as int);
        lemma_attenuate_flip(acc.transmittance.b as int, segs[0].transmittance.b as int);
        lemma_transmittance_monotone(next, segs.skip(1));
    }
}

} // verus!

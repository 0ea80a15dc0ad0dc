//! Cascade geometry: pure projections from (probe, facing, level) triples to
//! positions, directions and radial intervals, plus level-size bookkeeping and
//! the flat cascade storage they address.

use vstd::prelude::*;
use vstd::arithmetic::power2::{pow2, lemma2_to64, lemma_pow2_adds, lemma_pow2_strictly_increases};
use crate::fixed::{cos_turn, sin_turn, spec_cos_turn, spec_sin_turn, SCALE};

verus! {

/// A pair of grid coordinates (probe indices or pixel counts).
#[derive(Debug, Clone, Copy, PartialEq, Eq, Structural)]
pub struct Vec2u {
    pub x: u32,
    pub y: u32,
}

/// A pair of signed Q16 fixed-point coordinates (continuous positions or
/// direction components).
#[derive(Debug, Clone, Copy, PartialEq, Eq, Structural)]
pub struct Vec2q {
    pub x: i64,
    pub y: i64,
}

/// A pair of ray-parameter bounds along a ray, in Q16; empty when near > far.
#[derive(Debug, Clone, Copy, PartialEq, Eq, Structural)]
pub struct Interval {
    pub near: i64,
    pub far: i64,
}

/// The probe grid and facing count of one cascade level.
#[derive(Debug, Clone, Copy, PartialEq, Eq, Structural)]
pub struct CascadeSize {
    pub probes: Vec2u,
    pub facings: u32,
}

/// The key of one stored ray: level-relative probe coordinate, facing index
/// and cascade level. Never persisted; recomputed per access.
#[derive(Debug, Clone, Copy, PartialEq, Eq, Structural)]
pub struct RayLocation {
    pub probe: Vec2u,
    pub facing: u32,
    pub level: u32,
}

/// The four coarser-level probes a finer probe interpolates between: an
/// integer base index plus Q16 fractional weights along each axis.
#[derive(Debug, Clone, Copy, PartialEq, Eq, Structural)]
pub struct BilinearSamples {
    pub base_index: Vec2u,
    pub fract: Vec2q,
}

/// 2^e for exponents small enough to fit u32.
pub fn pow2_u32(e: u32) -> (r: u32)
    requires
        e < 32,
        pow2(e as nat) <= u32::MAX,
    ensures
        r == pow2(e as nat),
        r >= 1,
{
    proof {
        lemma2_to64();
    }
    let mut r: u32 = 1;
    let mut i: u32 = 0;
    while i < e
        invariant
            i <= e,
            r == pow2(i as nat),
            pow2(e as nat) <= u32::MAX,
        decreases e - i,
    {
        proof {
            if i + 1 < e {
                lemma_pow2_strictly_increases((i + 1) as nat, e as nat);
            }
            lemma_pow2_adds(i as nat, 1);
            lemma2_to64();
        }
        r = r * 2;
        i = i + 1;
    }
    proof {
        vstd::arithmetic::power2::lemma_pow2_pos(e as nat);
    }
    r
}

/// Renderer configuration: base ray interval, base probe spacing, base grid
/// size, number of levels, and the two per-level growth factors.
#[derive(Debug, Clone, Copy, PartialEq, Eq, Structural)]
pub struct CascadeSettings {
    /// Radial interval traced by level 0, in Q16 ray parameters.
    pub base_interval: Interval,
    /// Distance between level-0 probe centers, Q16.
    pub base_probe_spacing: u64,
    /// Probe grid and facing count at level 0.
    pub base_size: CascadeSize,
    /// Number of cascade levels.
    pub num_cascades: u32,
    /// Probe spacing doubles per level this many times.
    pub spatial_factor: u32,
    /// Facing count doubles per level this many times.
    pub angular_factor: u32,
}

impl CascadeSettings {
    /// Configuration invariant. Beyond the structural requirement
    /// `2 * spatial_factor >= angular_factor` (which keeps per-level storage
    /// within the base level's size) these are machine-size bounds that keep
    /// every derived quantity inside u32/u64/i64 arithmetic.
    pub open spec fn wf(self) -> bool {
        &&& 1 <= self.num_cascades <= 12
        &&& self.spatial_factor <= 4
        &&& self.angular_factor <= 2 * self.spatial_factor
        &&& self.spatial_factor * self.num_cascades <= 24
        &&& self.angular_factor * self.num_cascades <= 20
        &&& 1 <= self.base_size.facings <= 1024
        &&& 1 <= self.base_size.probes.x <= 4096
        &&& 1 <= self.base_size.probes.y <= 4096
        &&& self.base_size.probes.x as int / pow2((self.spatial_factor * self.num_cascades) as nat) as int >= 1
        &&& self.base_size.probes.y as int / pow2((self.spatial_factor * self.num_cascades) as nat) as int >= 1
        &&& 0 <= self.base_interval.near <= self.base_interval.far
        &&& self.base_interval.far * pow2((self.angular_factor * self.num_cascades) as nat) <= 0x2000_0000
        &&& 1 <= self.base_probe_spacing <= 0x100_0000
        &&& self.base_size.probes.x * self.base_probe_spacing <= 0x2000_0000
        &&& self.base_size.probes.y * self.base_probe_spacing <= 0x2000_0000
        &&& self.base_size.probes.x * self.base_size.probes.y * self.base_size.facings
            * self.num_cascades <= 0x4000_0000
    }

    /// Ratio between consecutive levels' probe spacings.
    pub open spec fn spec_spacing(self) -> int {
        pow2(self.spatial_factor as nat) as int
    }

    /// How many probe-grid cells one next-level cell covers per axis.
    pub fn spacing(&self) -> (r: u32)
        requires
            self.wf(),
        ensures
            r == self.spec_spacing(),
            1 <= r <= 16,
    {
        proof {
            if self.spatial_factor < 4 {
                lemma_pow2_strictly_increases(self.spatial_factor as nat, 4);
            }
            lemma2_to64();
        }
        pow2_u32(self.spatial_factor)
    }

    /// Number of finer facings merged into one coarser facing.
    pub open spec fn spec_branches(self) -> int {
        pow2(self.angular_factor as nat) as int
    }

    /// Number of finer facings merged into one coarser facing.
    pub fn branches(&self) -> (r: u32)
        requires
            self.wf(),
        ensures
            r == self.spec_branches(),
            1 <= r <= 256,
    {
        proof {
            if self.angular_factor < 8 {
                lemma_pow2_strictly_increases(self.angular_factor as nat, 8);
            }
            lemma2_to64();
        }
        pow2_u32(self.angular_factor)
    }

    /// Probe count per axis at a level: the base count floor-divided by the
    /// per-level spacing growth.
    pub open spec fn spec_probe_count(self, level: int) -> (int, int) {
        let d = pow2((self.spatial_factor * level) as nat) as int;
        (self.base_size.probes.x as int / d, self.base_size.probes.y as int / d)
    }

    /// Probe count per axis at a level.
    pub fn probe_count(&self, level: u32) -> (r: Vec2u)
        requires
            self.wf(),
            level <= self.num_cascades,
        ensures
            r.x == self.spec_probe_count(level as int).0,
            r.y == self.spec_probe_count(level as int).1,
            1 <= r.x <= self.base_size.probes.x,
            1 <= r.y <= self.base_size.probes.y,
    {
        proof {
            self.lemma_probe_count_bounds(level as int);
            assert(self.spatial_factor * level <= 24) by (nonlinear_arith)
                requires
                    level <= self.num_cascades && self.spatial_factor >= 0
                    && self.spatial_factor * self.num_cascades <= 24;
            lemma2_to64();
        }
        let d = pow2_u32(self.spatial_factor * level);
        Vec2u { x: self.base_size.probes.x / d, y: self.base_size.probes.y / d }
    }

    /// The probe count stays at least 1 and at most the base count at every
    /// level up to and including `num_cascades`.
    pub proof fn lemma_probe_count_bounds(self, level: int)
        requires
            self.wf(),
            0 <= level <= self.num_cascades,
        ensures
            1 <= self.spec_probe_count(level).0 <= self.base_size.probes.x,
            1 <= self.spec_probe_count(level).1 <= self.base_size.probes.y,
            pow2((self.spatial_factor * level) as nat) <= pow2(24),
    {
        let e = (self.spatial_factor * level) as nat;
        let etop = (self.spatial_factor * self.num_cascades) as nat;
        assert(self.spatial_factor * level <= self.spatial_factor * self.num_cascades) by (nonlinear_arith)
            requires 0 <= level <= self.num_cascades as int && self.spatial_factor >= 0;
        if e < etop {
            lemma_pow2_strictly_increases(e, etop);
        }
        if etop < 24 {
            lemma_pow2_strictly_increases(etop, 24);
        }
        let d = pow2(e) as int;
        let dtop = pow2(etop) as int;
        assert(d >= 1) by { vstd::arithmetic::power2::lemma_pow2_pos(e); };
        assert(self.base_size.probes.x as int / d >= self.base_size.probes.x as int / dtop) by (nonlinear_arith)
            requires 1 <= d <= dtop && self.base_size.probes.x >= 0;
        assert(self.base_size.probes.y as int / d >= self.base_size.probes.y as int / dtop) by (nonlinear_arith)
            requires 1 <= d <= dtop && self.base_size.probes.y >= 0;
        assert(self.base_size.probes.x as int / d <= self.base_size.probes.x as int) by (nonlinear_arith)
            requires d >= 1;
        assert(self.base_size.probes.y as int / d <= self.base_size.probes.y as int) by (nonlinear_arith)
            requires d >= 1;
    }

    /// Facing count at a level: the base count times the per-level angular
    /// growth.
    pub open spec fn spec_facing_count(self, level: int) -> int {
        self.base_size.facings * pow2((self.angular_factor * level) as nat)
    }

    /// Facing count at a level.
    pub fn facing_count(&self, level: u32) -> (r: u32)
        requires
            self.wf(),
            level <= self.num_cascades,
        ensures
            r == self.spec_facing_count(level as int),
            1 <= r,
    {
        proof {
            self.lemma_facing_count_bounds(level as int);
            assert(self.angular_factor * level <= 20) by (nonlinear_arith)
                requires
                    level <= self.num_cascades && self.angular_factor >= 0
                    && self.angular_factor * self.num_cascades <= 20;
            lemma2_to64();
        }
        let m = pow2_u32(self.angular_factor * level);
        self.base_size.facings * m
    }

    /// The facing count fits comfortably in u32 at every level up to
    /// `num_cascades`.
    pub proof fn lemma_facing_count_bounds(self, level: int)
        requires
            self.wf(),
            0 <= level <= self.num_cascades,
        ensures
            1 <= self.spec_facing_count(level) <= 0x4000_0000,
            pow2((self.angular_factor * level) as nat) <= pow2(20),
    {
        let e = (self.angular_factor * level) as nat;
        let etop = (self.angular_factor * self.num_cascades) as nat;
        assert(self.angular_factor * level <= self.angular_factor * self.num_cascades) by (nonlinear_arith)
            requires 0 <= level <= self.num_cascades as int && self.angular_factor >= 0;
        if e < etop {
            lemma_pow2_strictly_increases(e, etop);
        }
        if etop < 20 {
            lemma_pow2_strictly_increases(etop, 20);
        }
        lemma2_to64();
        vstd::arithmetic::power2::lemma_pow2_pos(e);
        assert(self.base_size.facings * pow2(e) <= 1024 * 0x100000) by (nonlinear_arith)
            requires 1 <= self.base_size.facings <= 1024 && 1 <= pow2(e) <= 0x100000;
        assert(self.base_size.facings * pow2(e) >= 1) by (nonlinear_arith)
            requires 1 <= self.base_size.facings && 1 <= pow2(e);
    }

    /// Probe grid and facing count of one level.
    pub fn level_size(&self, level: u32) -> (r: CascadeSize)
        requires
            self.wf(),
            level <= self.num_cascades,
        ensures
            r.probes.x == self.spec_probe_count(level as int).0,
            r.probes.y == self.spec_probe_count(level as int).1,
            r.facings == self.spec_facing_count(level as int),
            r.probes.x >= 1,
            r.probes.y >= 1,
            r.facings >= 1,
    {
        let probes = self.probe_count(level);
        CascadeSize { probes, facings: self.facing_count(level) }
    }

    /// Distance between probe centers at a level, Q16.
    pub open spec fn spec_probe_spacing(self, level: int) -> int {
        self.base_probe_spacing * pow2((self.spatial_factor * level) as nat)
    }

    /// Distance between probe centers at a level, Q16.
    pub fn probe_spacing(&self, level: u32) -> (r: u64)
        requires
            self.wf(),
            level <= self.num_cascades,
        ensures
            r == self.spec_probe_spacing(level as int),
            1 <= r <= 0x1_0000_0000_0000,
    {
        proof {
            self.lemma_probe_count_bounds(level as int);
            assert(self.spatial_factor * level <= 24) by (nonlinear_arith)
                requires
                    level <= self.num_cascades && self.spatial_factor >= 0
                    && self.spatial_factor * self.num_cascades <= 24;
            let e = (self.spatial_factor * level) as nat;
            lemma2_to64();
            vstd::arithmetic::power2::lemma_pow2_pos(e);
            assert(self.base_probe_spacing * pow2(e) <= 0x100_0000 * 0x100_0000) by (nonlinear_arith)
                requires 1 <= self.base_probe_spacing <= 0x100_0000 && 1 <= pow2(e) <= 0x100_0000;
            assert(self.base_probe_spacing * pow2(e) >= 1) by (nonlinear_arith)
                requires 1 <= self.base_probe_spacing && 1 <= pow2(e);
        }
        let m = pow2_u32(self.spatial_factor * level);
        self.base_probe_spacing * (m as u64)
    }

    /// Where the radial interval of a level ends, Q16.
    pub open spec fn spec_interval_end(self, level: int) -> int {
        self.base_interval.far * pow2((self.angular_factor * level) as nat)
    }

    /// Where the radial interval of a level ends, Q16.
    pub fn interval_end(&self, level: u32) -> (r: u64)
        requires
            self.wf(),
            level <= self.num_cascades,
        ensures
            r == self.spec_interval_end(level as int),
            r <= 0x2000_0000,
    {
        proof {
            self.lemma_interval_end_bounds(level as int);
            self.lemma_facing_count_bounds(level as int);
            assert(self.angular_factor * level <= 20) by (nonlinear_arith)
                requires
                    level <= self.num_cascades && self.angular_factor >= 0
                    && self.angular_factor * self.num_cascades <= 20;
            lemma2_to64();
        }
        let m = pow2_u32(self.angular_factor * level);
        (self.base_interval.far as u64) * (m as u64)
    }

    /// Interval ends grow with the level and stay within the world-size
    /// bound.
    pub proof fn lemma_interval_end_bounds(self, level: int)
        requires
            self.wf(),
            0 <= level <= self.num_cascades,
        ensures
            0 <= self.spec_interval_end(level) <= 0x2000_0000,
            level > 0 ==> self.spec_interval_end(level - 1) <= self.spec_interval_end(level),
    {
        let e = (self.angular_factor * level) as nat;
        let etop = (self.angular_factor * self.num_cascades) as nat;
        assert(self.angular_factor * level <= self.angular_factor * self.num_cascades) by (nonlinear_arith)
            requires 0 <= level <= self.num_cascades as int && self.angular_factor >= 0;
        self.lemma_facing_count_bounds(level);
        vstd::arithmetic::power2::lemma_pow2_pos(e);
        vstd::arithmetic::power2::lemma_pow2_pos(etop);
        if e < etop {
            lemma_pow2_strictly_increases(e, etop);
        }
        assert(self.base_interval.far * pow2(e) <= self.base_interval.far * pow2(etop)) by (nonlinear_arith)
            requires self.base_interval.far >= 0 && pow2(e) <= pow2(etop);
        assert(self.base_interval.far * pow2(e) >= 0) by (nonlinear_arith)
            requires self.base_interval.far >= 0 && pow2(e) >= 1;
        if level > 0 {
            let ep = (self.angular_factor * (level - 1)) as nat;
            assert(self.angular_factor * (level - 1) <= self.angular_factor * level) by (nonlinear_arith)
                requires level >= 1 && self.angular_factor >= 0;
            if ep < e {
                lemma_pow2_strictly_increases(ep, e);
            }
            assert(self.base_interval.far * pow2(ep) <= self.base_interval.far * pow2(e)) by (nonlinear_arith)
                requires self.base_interval.far >= 0 && pow2(ep) <= pow2(e);
        }
    }

    /// The radial interval traced by one level: levels partition the ray into
    /// exponentially growing, non-overlapping shells.
    pub open spec fn spec_interval(self, level: int) -> Interval {
        Interval {
            near: if level == 0 {
                self.base_interval.near
            } else {
                self.spec_interval_end(level - 1) as i64
            },
            far: self.spec_interval_end(level) as i64,
        }
    }

    /// The radial interval traced by one level.
    pub fn interval(&self, level: u32) -> (r: Interval)
        requires
            self.wf(),
            level < self.num_cascades,
        ensures
            r == self.spec_interval(level as int),
            0 <= r.near <= r.far <= 0x2000_0000,
    {
        proof {
            self.lemma_interval_end_bounds(level as int);
            if level > 0 {
                self.lemma_interval_end_bounds(level as int - 1);
            }
            lemma2_to64();
            assert(self.base_interval.far * pow2(0) == self.base_interval.far) by (nonlinear_arith)
                requires pow2(0) == 1;
        }
        let near = if level == 0 {
            self.base_interval.near
        } else {
            self.interval_end(level - 1) as i64
        };
        Interval { near, far: self.interval_end(level) as i64 }
    }

    /// Entries per level in cascade storage (every level stores the same
    /// count: fewer probes exactly compensate more facings).
    pub open spec fn spec_cascade_total_size(self) -> int {
        self.base_size.probes.x * self.base_size.probes.y * self.base_size.facings
    }

    /// Entries per level in cascade storage.
    pub fn cascade_total_size(&self) -> (r: u64)
        requires
            self.wf(),
        ensures
            r == self.spec_cascade_total_size(),
            1 <= r <= 0x4000_0000,
            r * self.num_cascades <= 0x4000_0000,
    {
        proof {
            let px = self.base_size.probes.x as int;
            let py = self.base_size.probes.y as int;
            let f = self.base_size.facings as int;
            let n = self.num_cascades as int;
            assert(px * py >= 1 && px * py <= 4096 * 4096 && px * py * f >= 1
                && px * py * f <= px * py * f * n) by (nonlinear_arith)
                requires 1 <= px <= 4096 && 1 <= py <= 4096 && 1 <= f && 1 <= n;
            assert(self.spec_cascade_total_size() * n == px * py * f * n) by (nonlinear_arith)
                requires self.spec_cascade_total_size() == px * py * f;
        }
        (self.base_size.probes.x as u64) * (self.base_size.probes.y as u64)
            * (self.base_size.facings as u64)
    }

    /// The continuous direction of a facing at a level: the ray is centered in
    /// its angular bucket, so the turn fraction is (facing + 1/2) of a
    /// facing's share of the full circle.
    pub open spec fn spec_facing_turn(self, facing: int, level: int) -> int {
        (2 * facing + 1) * (SCALE as int) / (2 * self.spec_facing_count(level))
    }

    /// Unit direction (Q16 components) of a facing at a level.
    pub fn facing_direction(&self, facing: u32, level: u32) -> (dir: Vec2q)
        requires
            self.wf(),
            level <= self.num_cascades,
            facing < self.spec_facing_count(level as int),
        ensures
            dir.x == spec_cos_turn(self.spec_facing_turn(facing as int, level as int)),
            dir.y == spec_sin_turn(self.spec_facing_turn(facing as int, level as int)),
            -(SCALE as i64) <= dir.x <= SCALE as i64,
            -(SCALE as i64) <= dir.y <= SCALE as i64,
    {
        proof {
            self.lemma_facing_count_bounds(level as int);
        }
        let count = self.facing_count(level);
        let turn = ((2 * (facing as u64) + 1) * SCALE) / (2 * (count as u64));
        proof {
            let c = count as int;
            let f = facing as int;
            assert((2 * f + 1) * (SCALE as int) / (2 * c) < SCALE as int
                && (2 * f + 1) * (SCALE as int) / (2 * c) >= 0) by (nonlinear_arith)
                requires 0 <= f < c && c >= 1;
        }
        Vec2q { x: cos_turn(turn), y: sin_turn(turn) }
    }

    /// The continuous center of a probe at a level: probe centers sit half a
    /// spacing past the probe index.
    pub open spec fn spec_probe_location(self, probe: (int, int), level: int) -> (int, int) {
        let sp = self.spec_probe_spacing(level);
        ((2 * probe.0 + 1) * sp / 2, (2 * probe.1 + 1) * sp / 2)
    }

    /// Continuous probe center position, Q16.
    pub fn probe_location(&self, probe: Vec2u, level: u32) -> (loc: Vec2q)
        requires
            self.wf(),
            level <= self.num_cascades,
            probe.x < 8192,
            probe.y < 8192,
        ensures
            loc.x == self.spec_probe_location((probe.x as int, probe.y as int), level as int).0,
            loc.y == self.spec_probe_location((probe.x as int, probe.y as int), level as int).1,
            0 <= loc.x <= 0x4000_0000_0000_0000,
            0 <= loc.y <= 0x4000_0000_0000_0000,
    {
        let sp = self.probe_spacing(level);
        proof {
            let px = probe.x as int;
            let py = probe.y as int;
            assert((2 * px + 1) * sp <= 0x4000_0000_0000_0000
                && 0 <= (2 * px + 1) * sp / 2 <= 0x4000_0000_0000_0000) by (nonlinear_arith)
                requires 0 <= px < 8192 && 1 <= sp <= 0x1_0000_0000_0000;
            assert((2 * py + 1) * sp <= 0x4000_0000_0000_0000
                && 0 <= (2 * py + 1) * sp / 2 <= 0x4000_0000_0000_0000) by (nonlinear_arith)
                requires 0 <= py < 8192 && 1 <= sp <= 0x1_0000_0000_0000;
        }
        let x = ((2 * (probe.x as u64) + 1) * sp / 2) as i64;
        let y = ((2 * (probe.y as u64) + 1) * sp / 2) as i64;
        Vec2q { x, y }
    }

    /// Probe centers at every level stay inside the base grid's extent.
    pub proof fn lemma_probe_location_bound(self, probe: (int, int), level: int)
        requires
            self.wf(),
            0 <= level <= self.num_cascades,
            0 <= probe.0 < self.spec_probe_count(level).0,
            0 <= probe.1 < self.spec_probe_count(level).1,
        ensures
            0 <= self.spec_probe_location(probe, level).0 <= 0x2000_0000,
            0 <= self.spec_probe_location(probe, level).1 <= 0x2000_0000,
    {
        let d = pow2((self.spatial_factor * level) as nat) as int;
        let sp = self.spec_probe_spacing(level);
        let pcx = self.spec_probe_count(level).0;
        let pcy = self.spec_probe_count(level).1;
        vstd::arithmetic::power2::lemma_pow2_pos((self.spatial_factor * level) as nat);
        self.lemma_probe_count_bounds(level);
        assert(pcx * d <= self.base_size.probes.x && pcy * d <= self.base_size.probes.y)
            by (nonlinear_arith)
            requires
                pcx == self.base_size.probes.x as int / d && pcy == self.base_size.probes.y as int / d
                && d >= 1 && self.base_size.probes.x >= 0 && self.base_size.probes.y >= 0;
        assert((2 * probe.0 + 1) * sp / 2 <= pcx * sp
            && pcx * sp == pcx * d * self.base_probe_spacing
            && (2 * probe.0 + 1) * sp / 2 >= 0) by (nonlinear_arith)
            requires
                0 <= probe.0 < pcx && sp == self.base_probe_spacing * d
                && self.base_probe_spacing >= 1 && d >= 1;
        assert(pcx * d * self.base_probe_spacing <= self.base_size.probes.x * self.base_probe_spacing)
            by (nonlinear_arith)
            requires pcx * d <= self.base_size.probes.x && self.base_probe_spacing >= 0;
        assert((2 * probe.1 + 1) * sp / 2 <= pcy * sp
            && pcy * sp == pcy * d * self.base_probe_spacing
            && (2 * probe.1 + 1) * sp / 2 >= 0) by (nonlinear_arith)
            requires
                0 <= probe.1 < pcy && sp == self.base_probe_spacing * d
                && self.base_probe_spacing >= 1 && d >= 1;
        assert(pcy * d * self.base_probe_spacing <= self.base_size.probes.y * self.base_probe_spacing)
            by (nonlinear_arith)
            requires pcy * d <= self.base_size.probes.y && self.base_probe_spacing >= 0;
    }

    /// One axis of the bilinear decomposition: the continuous position of this
    /// probe on the next level's probe grid, clamped to that grid, split into
    /// integer base index and Q16 fraction.
    pub open spec fn spec_bilinear_axis(self, p: int, count_next: int) -> (int, int) {
        let s = SCALE as int;
        let raw = (2 * p + 1) * s / (2 * self.spec_spacing()) - s / 2;
        let lo = if raw < 0 { 0 } else { raw };
        let hi = (count_next - 1) * s;
        let cl = if lo > hi { hi } else { lo };
        (cl / s, cl % s)
    }

    /// The four next-level probes this probe interpolates between, with the
    /// Q16 fractional position inside that 2x2 square.
    pub fn bilinear_samples(&self, probe: Vec2u, next_level: u32) -> (out: BilinearSamples)
        requires
            self.wf(),
            1 <= next_level <= self.num_cascades,
            probe.x < 8192,
            probe.y < 8192,
        ensures
            ({
                let cn = self.spec_probe_count(next_level as int);
                let ax = self.spec_bilinear_axis(probe.x as int, cn.0);
                let ay = self.spec_bilinear_axis(probe.y as int, cn.1);
                &&& out.base_index.x == ax.0
                &&& out.base_index.y == ay.0
                &&& out.fract.x == ax.1
                &&& out.fract.y == ay.1
                &&& out.base_index.x < cn.0
                &&& out.base_index.y < cn.1
                &&& 0 <= out.fract.x < SCALE
                &&& 0 <= out.fract.y < SCALE
                &&& (out.base_index.x == cn.0 - 1 ==> out.fract.x == 0)
                &&& (out.base_index.y == cn.1 - 1 ==> out.fract.y == 0)
            }),
    {
        let count = self.probe_count(next_level);
        let spacing = self.spacing();
        let bx = bilinear_axis(probe.x, spacing, count.x);
        let by = bilinear_axis(probe.y, spacing, count.y);
        proof {
            let cn = self.spec_probe_count(next_level as int);
            assert(self.spec_bilinear_axis(probe.x as int, cn.0)
                == spec_bilinear_axis_raw(probe.x as int, self.spec_spacing(), cn.0));
            assert(self.spec_bilinear_axis(probe.y as int, cn.1)
                == spec_bilinear_axis_raw(probe.y as int, self.spec_spacing(), cn.1));
        }
        BilinearSamples {
            base_index: Vec2u { x: bx.0, y: by.0 },
            fract: Vec2q { x: bx.1, y: by.1 },
        }
    }
}

/// Free-standing mirror of one bilinear axis, over plain values.
pub open spec fn spec_bilinear_axis_raw(p: int, spacing: int, count_next: int) -> (int, int) {
    let s = SCALE as int;
    let raw = (2 * p + 1) * s / (2 * spacing) - s / 2;
    let lo = if raw < 0 { 0 } else { raw };
    let hi = (count_next - 1) * s;
    let cl = if lo > hi { hi } else { lo };
    (cl / s, cl % s)
}

/// One axis of the bilinear sample decomposition.
fn bilinear_axis(p: u32, spacing: u32, count_next: u32) -> (out: (u32, i64))
    requires
        p < 8192,
        1 <= spacing <= 16,
        1 <= count_next <= 4096,
    ensures
        out.0 == spec_bilinear_axis_raw(p as int, spacing as int, count_next as int).0,
        out.1 == spec_bilinear_axis_raw(p as int, spacing as int, count_next as int).1,
        out.0 < count_next,
        0 <= out.1 < SCALE,
        out.0 == count_next - 1 ==> out.1 == 0,
{
    let s = SCALE as i64;
    proof {
        assert((2 * (p as int) + 1) * (SCALE as int) <= 0x4001_0000 * 65536) by (nonlinear_arith)
            requires p < 8192u32;
        assert((2 * (p as int) + 1) * (SCALE as int) / (2 * (spacing as int)) >= 0) by (nonlinear_arith)
            requires p >= 0 && spacing >= 1;
    }
    let raw: i64 = ((2 * (p as i64) + 1) * s) / (2 * (spacing as i64)) - s / 2;
    let lo: i64 = if raw < 0 { 0 } else { raw };
    let hi: i64 = ((count_next as i64) - 1) * s;
    proof {
        assert(((count_next as int) - 1) * (SCALE as int) >= 0
            && ((count_next as int) - 1) * (SCALE as int) <= 4096 * 65536) by (nonlinear_arith)
            requires 1 <= count_next <= 4096u32;
    }
    let cl: i64 = if lo > hi { hi } else { lo };
    proof {
        let c = cl as int;
        let sn = SCALE as int;
        assert(0 <= c / sn && c / sn <= ((count_next as int) - 1) * sn / sn && c % sn >= 0 && c % sn < sn) by (nonlinear_arith)
            requires 0 <= c <= ((count_next as int) - 1) * sn && sn == 65536;
        assert(((count_next as int) - 1) * sn / sn == (count_next as int) - 1) by (nonlinear_arith)
            requires sn == 65536 && count_next >= 1;
        // At the clamped far edge the fractional part vanishes.
        assert(c / sn == (count_next as int) - 1 ==> c % sn == 0) by (nonlinear_arith)
            requires 0 <= c <= ((count_next as int) - 1) * sn && sn == 65536;
    }
    ((cl / s) as u32, cl % s)
}

impl BilinearSamples {
    /// The Q16 bilinear weight of one of the four corner samples; the index
    /// walks the corners in (0,0), (1,0), (0,1), (1,1) order.
    pub open spec fn spec_weight(self, index: int) -> int {
        let s = SCALE as int;
        let fx = self.fract.x as int;
        let fy = self.fract.y as int;
        if index == 0 {
            (s - fx) * (s - fy) / s
        } else if index == 1 {
            fx * (s - fy) / s
        } else if index == 2 {
            (s - fx) * fy / s
        } else {
            fx * fy / s
        }
    }

    /// The probe offset of one corner sample.
    pub open spec fn spec_offset(index: int) -> (int, int) {
        if index == 0 {
            (0, 0)
        } else if index == 1 {
            (1, 0)
        } else if index == 2 {
            (0, 1)
        } else {
            (1, 1)
        }
    }

    /// The next-level probe and Q16 weight of one of the four corner samples.
    pub fn sample(&self, index: u32) -> (out: (Vec2u, u64))
        requires
            index < 4,
            0 <= self.fract.x < SCALE,
            0 <= self.fract.y < SCALE,
            self.base_index.x < 8192,
            self.base_index.y < 8192,
        ensures
            out.0.x == self.base_index.x + BilinearSamples::spec_offset(index as int).0,
            out.0.y == self.base_index.y + BilinearSamples::spec_offset(index as int).1,
            out.1 == self.spec_weight(index as int),
            out.1 <= SCALE,
    {
        let fx = self.fract.x as u64;
        let fy = self.fract.y as u64;
        proof {
            let s = SCALE as int;
            assert((s - fx) * (s - fy) <= s * s && fx * (s - fy) <= s * s && (s - fx) * fy <= s * s
                && fx * fy <= s * s
                && (s - fx) * (s - fy) >= 0 && fx * (s - fy) >= 0 && (s - fx) * fy >= 0 && fx * fy >= 0
                && (s - fx) * (s - fy) / s <= s && fx * (s - fy) / s <= s && (s - fx) * fy / s <= s
                && fx * fy / s <= s) by (nonlinear_arith)
                requires 0 <= fx < s && 0 <= fy < s && s == 65536;
        }
        let (ox, oy, w): (u32, u32, u64) = if index == 0 {
            (0, 0, (SCALE - fx) * (SCALE - fy) / SCALE)
        } else if index == 1 {
            (1, 0, fx * (SCALE - fy) / SCALE)
        } else if index == 2 {
            (0, 1, (SCALE - fx) * fy / SCALE)
        } else {
            (1, 1, fx * fy / SCALE)
        };
        (Vec2u { x: self.base_index.x + ox, y: self.base_index.y + oy }, w)
    }

    /// The four corner weights are each within [0, SCALE], and their
    /// truncated sum partitions one whole Q16 unit up to rounding: it never
    /// exceeds SCALE and falls short of it by at most three units.
    pub proof fn lemma_weight_partition(self)
        requires
            0 <= self.fract.x < SCALE,
            0 <= self.fract.y < SCALE,
        ensures
            forall|k: int| 0 <= k < 4 ==> 0 <= #[trigger] self.spec_weight(k) <= SCALE as int,
            self.spec_weight(0) + self.spec_weight(1) + self.spec_weight(2)
                + self.spec_weight(3) <= SCALE as int,
            self.spec_weight(0) + self.spec_weight(1) + self.spec_weight(2)
                + self.spec_weight(3) >= SCALE as int - 3,
    {
        let sc = SCALE as int;
        let fx = self.fract.x as int;
        let fy = self.fract.y as int;
        assert((sc - fx) * (sc - fy) + fx * (sc - fy) + (sc - fx) * fy + fx * fy == sc * sc
            && 0 <= (sc - fx) * (sc - fy) <= sc * sc && 0 <= fx * (sc - fy) <= sc * sc
            && 0 <= (sc - fx) * fy <= sc * sc && 0 <= fx * fy <= sc * sc)
            by (nonlinear_arith)
            requires 0 <= fx < sc && 0 <= fy < sc;
        assert((sc - fx) * (sc - fy) / sc + fx * (sc - fy) / sc + (sc - fx) * fy / sc
            + fx * fy / sc <= sc
            && (sc - fx) * (sc - fy) / sc + fx * (sc - fy) / sc + (sc - fx) * fy / sc
                + fx * fy / sc >= sc - 3
            && 0 <= (sc - fx) * (sc - fy) / sc <= sc && 0 <= fx * (sc - fy) / sc <= sc
            && 0 <= (sc - fx) * fy / sc <= sc && 0 <= fx * fy / sc <= sc) by (nonlinear_arith)
            requires
                (sc - fx) * (sc - fy) + fx * (sc - fy) + (sc - fx) * fy + fx * fy == sc * sc
                && 0 <= (sc - fx) * (sc - fy) <= sc * sc && 0 <= fx * (sc - fy) <= sc * sc
                && 0 <= (sc - fx) * fy <= sc * sc && 0 <= fx * fy <= sc * sc
                && sc == 65536;
        assert forall|k: int| 0 <= k < 4
            implies 0 <= #[trigger] self.spec_weight(k) <= sc by {
            if k == 0 {
            } else if k == 1 {
            } else if k == 2 {
            }
        }
    }
}

impl CascadeSettings {
    /// Whether a ray location addresses a stored ray under these settings.
    pub open spec fn valid_ray(self, ray: RayLocation) -> bool {
        &&& ray.level < self.num_cascades
        &&& ray.probe.x < self.spec_probe_count(ray.level as int).0
        &&& ray.probe.y < self.spec_probe_count(ray.level as int).1
        &&& ray.facing < self.spec_facing_count(ray.level as int)
    }

    /// The linear storage index of a ray: levels are laid out one after the
    /// other, and within a level all facings of one probe sit contiguously
    /// (chosen for memory locality during the merge).
    pub open spec fn spec_to_index(self, ray: RayLocation) -> int {
        ray.level * self.spec_cascade_total_size()
            + (ray.probe.x + ray.probe.y * self.spec_probe_count(ray.level as int).0)
                * self.spec_facing_count(ray.level as int)
            + ray.facing
    }

    /// Every level's probe/facing grid fits inside one level-sized slice of
    /// storage: this is what `2 * spatial_factor >= angular_factor` buys.
    pub proof fn lemma_level_fits(self, level: int)
        requires
            self.wf(),
            0 <= level < self.num_cascades,
        ensures
            self.spec_probe_count(level).0 * self.spec_probe_count(level).1
                * self.spec_facing_count(level) <= self.spec_cascade_total_size(),
    {
        let bx = self.base_size.probes.x as int;
        let by = self.base_size.probes.y as int;
        let bf = self.base_size.facings as int;
        let d = pow2((self.spatial_factor * level) as nat) as int;
        let m = pow2((self.angular_factor * level) as nat) as int;
        let px = self.spec_probe_count(level).0;
        let py = self.spec_probe_count(level).1;
        vstd::arithmetic::power2::lemma_pow2_pos((self.spatial_factor * level) as nat);
        vstd::arithmetic::power2::lemma_pow2_pos((self.angular_factor * level) as nat);
        // The angular growth never outruns the square of the spatial growth.
        assert(self.angular_factor * level <= 2 * self.spatial_factor * level) by (nonlinear_arith)
            requires self.angular_factor <= 2 * self.spatial_factor && level >= 0;
        lemma_pow2_adds((self.spatial_factor * level) as nat, (self.spatial_factor * level) as nat);
        if self.angular_factor * level < 2 * self.spatial_factor * level {
            lemma_pow2_strictly_increases(
                (self.angular_factor * level) as nat,
                (2 * self.spatial_factor * level) as nat,
            );
        }
        assert((2 * self.spatial_factor * level) as nat
            == (self.spatial_factor * level) as nat + (self.spatial_factor * level) as nat)
            by (nonlinear_arith)
            requires self.spatial_factor >= 0 && level >= 0;
        assert(m <= d * d);
        assert(px * d <= bx) by (nonlinear_arith)
            requires px == bx / d && d >= 1 && bx >= 0;
        assert(py * d <= by) by (nonlinear_arith)
            requires py == by / d && d >= 1 && by >= 0;
        assert(px * py * (bf * m) <= bx * by * bf) by (nonlinear_arith)
            requires
                px >= 0 && py >= 0 && bf >= 1 && m >= 1 && d >= 1
                && m <= d * d && px * d <= bx && py * d <= by;
    }

    /// The index of a valid ray lies inside its level's slice of storage.
    pub proof fn lemma_to_index_in_range(self, ray: RayLocation)
        requires
            self.wf(),
            self.valid_ray(ray),
        ensures
            ray.level * self.spec_cascade_total_size() <= self.spec_to_index(ray)
                < ray.level * self.spec_cascade_total_size()
                    + self.spec_probe_count(ray.level as int).0
                        * self.spec_probe_count(ray.level as int).1
                        * self.spec_facing_count(ray.level as int),
            0 <= self.spec_to_index(ray) < self.num_cascades * self.spec_cascade_total_size(),
    {
        let level = ray.level as int;
        let pcx = self.spec_probe_count(level).0;
        let pcy = self.spec_probe_count(level).1;
        let fc = self.spec_facing_count(level);
        let total = self.spec_cascade_total_size();
        self.lemma_level_fits(level);
        self.lemma_probe_count_bounds(level);
        self.lemma_facing_count_bounds(level);
        let lin = (ray.probe.x + ray.probe.y * pcx) * fc + ray.facing;
        assert(0 <= lin && lin < pcx * pcy * fc) by (nonlinear_arith)
            requires
                0 <= ray.probe.x < pcx && 0 <= ray.probe.y < pcy && 0 <= ray.facing < fc
                && lin == (ray.probe.x + ray.probe.y * pcx) * fc + ray.facing
                && pcx >= 1 && pcy >= 1 && fc >= 1;
        assert(level * total + lin < self.num_cascades * total) by (nonlinear_arith)
            requires
                0 <= level < self.num_cascades as int && total >= 1 && 0 <= lin < total;
        assert(level * total >= 0) by (nonlinear_arith)
            requires level >= 0 && total >= 0;
    }

    /// Cascade storage addressing is injective: no two distinct valid ray
    /// locations map to the same linear index.
    pub proof fn lemma_to_index_injective(self, a: RayLocation, b: RayLocation)
        requires
            self.wf(),
            self.valid_ray(a),
            self.valid_ray(b),
            self.spec_to_index(a) == self.spec_to_index(b),
        ensures
            a == b,
    {
        let total = self.spec_cascade_total_size();
        self.lemma_to_index_in_range(a);
        self.lemma_to_index_in_range(b);
        // Distinct levels live in disjoint slices.
        if a.level != b.level {
            let la = a.level as int;
            let lb = b.level as int;
            self.lemma_level_fits(la);
            self.lemma_level_fits(lb);
            assert(false) by (nonlinear_arith)
                requires
                    la != lb && 0 <= la && 0 <= lb && total >= 1
                    && la * total <= self.spec_to_index(a) < la * total + total
                    && lb * total <= self.spec_to_index(b) < lb * total + total
                    && self.spec_to_index(a) == self.spec_to_index(b);
        }
        let level = a.level as int;
        let pcx = self.spec_probe_count(level).0;
        let pcy = self.spec_probe_count(level).1;
        let fc = self.spec_facing_count(level);
        self.lemma_probe_count_bounds(level);
        self.lemma_facing_count_bounds(level);
        let lina = (a.probe.x + a.probe.y * pcx) * fc + a.facing;
        let linb = (b.probe.x + b.probe.y * pcx) * fc + b.facing;
        assert(lina == linb) by (nonlinear_arith)
            requires
                self.spec_to_index(a) == self.spec_to_index(b)
                && self.spec_to_index(a) == a.level * total + lina
                && self.spec_to_index(b) == b.level * total + linb
                && a.level == b.level;
        // Unique base-fc decomposition gives equal facings and probe ranks.
        vstd::arithmetic::div_mod::lemma_fundamental_div_mod_converse(
            lina, fc, a.probe.x + a.probe.y * pcx, a.facing as int);
        vstd::arithmetic::div_mod::lemma_fundamental_div_mod_converse(
            linb, fc, b.probe.x + b.probe.y * pcx, b.facing as int);
        assert(a.facing == b.facing);
        let ra = a.probe.x + a.probe.y * pcx;
        let rb = b.probe.x + b.probe.y * pcx;
        assert(ra == rb);
        // Unique base-pcx decomposition gives equal probe coordinates.
        vstd::arithmetic::div_mod::lemma_fundamental_div_mod_converse(
            ra, pcx, a.probe.y as int, a.probe.x as int);
        vstd::arithmetic::div_mod::lemma_fundamental_div_mod_converse(
            rb, pcx, b.probe.y as int, b.probe.x as int);
        assert(a.probe.x == b.probe.x && a.probe.y == b.probe.y);
    }

    /// Settings under which every level's grid exactly fills its storage
    /// slice: the angular growth exactly cancels the squared spatial growth
    /// and the base probe counts divide evenly at every level.
    pub open spec fn exact_sizes(self) -> bool {
        &&& self.angular_factor == 2 * self.spatial_factor
        &&& forall|level: int| 0 <= level < self.num_cascades
            ==> (self.base_size.probes.x as int % (#[trigger] pow2((self.spatial_factor * level) as nat) as int) == 0
                && self.base_size.probes.y as int % (pow2((self.spatial_factor * level) as nat) as int) == 0)
    }

    /// Under exact sizes a level's grid has exactly `cascade_total_size`
    /// entries.
    pub proof fn lemma_level_exact(self, level: int)
        requires
            self.wf(),
            self.exact_sizes(),
            0 <= level < self.num_cascades,
        ensures
            self.spec_probe_count(level).0 * self.spec_probe_count(level).1
                * self.spec_facing_count(level) == self.spec_cascade_total_size(),
    {
        let bx = self.base_size.probes.x as int;
        let by = self.base_size.probes.y as int;
        let bf = self.base_size.facings as int;
        let d = pow2((self.spatial_factor * level) as nat) as int;
        let m = pow2((self.angular_factor * level) as nat) as int;
        let px = self.spec_probe_count(level).0;
        let py = self.spec_probe_count(level).1;
        vstd::arithmetic::power2::lemma_pow2_pos((self.spatial_factor * level) as nat);
        assert(self.angular_factor * level == 2 * self.spatial_factor * level) by (nonlinear_arith)
            requires self.angular_factor == 2 * self.spatial_factor;
        lemma_pow2_adds((self.spatial_factor * level) as nat, (self.spatial_factor * level) as nat);
        assert((2 * self.spatial_factor * level) as nat
            == (self.spatial_factor * level) as nat + (self.spatial_factor * level) as nat)
            by (nonlinear_arith)
            requires self.spatial_factor >= 0 && level >= 0;
        assert(m == d * d);
        vstd::arithmetic::div_mod::lemma_fundamental_div_mod(bx, d);
        vstd::arithmetic::div_mod::lemma_fundamental_div_mod(by, d);
        assert(px * d == bx) by (nonlinear_arith)
            requires px == bx / d && d >= 1 && bx % d == 0 && bx == d * (bx / d) + bx % d;
        assert(py * d == by) by (nonlinear_arith)
            requires py == by / d && d >= 1 && by % d == 0 && by == d * (by / d) + by % d;
        assert(px * py * (bf * m) == bx * by * bf) by (nonlinear_arith)
            requires m == d * d && px * d == bx && py * d == by;
    }

    /// Cascade storage addressing is surjective under exact sizes: every index
    /// in [0, cascade_total_size * num_cascades) is the index of a valid ray.
    pub proof fn lemma_to_index_surjective(self, idx: int) -> (ray: RayLocation)
        requires
            self.wf(),
            self.exact_sizes(),
            0 <= idx < self.num_cascades * self.spec_cascade_total_size(),
        ensures
            self.valid_ray(ray),
            self.spec_to_index(ray) == idx,
    {
        let total = self.spec_cascade_total_size();
        let level = idx / total;
        let rem = idx % total;
        vstd::arithmetic::div_mod::lemma_fundamental_div_mod(idx, total);
        assert(total >= 1);
        assert(0 <= rem < total) by (nonlinear_arith)
            requires rem == idx % total && total >= 1 && idx >= 0;
        assert(0 <= level < self.num_cascades) by (nonlinear_arith)
            requires
                level == idx / total && total >= 1
                && 0 <= idx < self.num_cascades * total;
        self.lemma_level_exact(level);
        self.lemma_probe_count_bounds(level);
        self.lemma_facing_count_bounds(level);
        let pcx = self.spec_probe_count(level).0;
        let pcy = self.spec_probe_count(level).1;
        let fc = self.spec_facing_count(level);
        let f = rem % fc;
        let lin = rem / fc;
        vstd::arithmetic::div_mod::lemma_fundamental_div_mod(rem, fc);
        assert(0 <= f < fc) by (nonlinear_arith)
            requires f == rem % fc && fc >= 1 && rem >= 0;
        assert(0 <= lin < pcx * pcy) by (nonlinear_arith)
            requires
                lin == rem / fc && fc >= 1 && 0 <= rem < pcx * pcy * fc;
        let px = lin % pcx;
        let py = lin / pcx;
        vstd::arithmetic::div_mod::lemma_fundamental_div_mod(lin, pcx);
        assert(0 <= px < pcx) by (nonlinear_arith)
            requires px == lin % pcx && pcx >= 1 && lin >= 0;
        assert(0 <= py < pcy) by (nonlinear_arith)
            requires py == lin / pcx && pcx >= 1 && 0 <= lin < pcx * pcy;
        let ray = RayLocation {
            probe: Vec2u { x: px as u32, y: py as u32 },
            facing: f as u32,
            level: level as u32,
        };
        assert(self.valid_ray(ray));
        assert(self.spec_to_index(ray) == idx) by (nonlinear_arith)
            requires
                self.spec_to_index(ray) == level * total + (px + py * pcx) * fc + f
                && idx == total * level + rem
                && rem == fc * lin + f
                && lin == pcx * py + px;
        ray
    }
}

/// The flat backing store of the radiance hierarchy: one `T` per valid
/// RayLocation, addressed by the linear index above. Owned by one
/// RadianceCascades instance and overwritten in place every frame.
pub struct CascadeStorage<T> {
    settings: CascadeSettings,
    buffer: Vec<T>,
}

impl<T: Copy> CascadeStorage<T> {
    /// The settings this storage was sized from.
    pub closed spec fn spec_settings(self) -> CascadeSettings {
        self.settings
    }

    /// The stored entries.
    pub closed spec fn spec_data(self) -> Seq<T> {
        self.buffer@
    }

    /// Storage holds exactly one entry per level per level-slice slot.
    pub open spec fn wf(self) -> bool {
        &&& self.spec_settings().wf()
        &&& self.spec_data().len()
            == self.spec_settings().num_cascades * self.spec_settings().spec_cascade_total_size()
    }

    /// The settings this storage was sized from.
    pub fn settings(&self) -> (s: CascadeSettings)
        ensures
            s == self.spec_settings(),
    {
        self.settings
    }

    /// Allocates storage sized exactly from the settings, every entry holding
    /// `fill`.
    pub fn new(settings: CascadeSettings, fill: T) -> (out: CascadeStorage<T>)
        requires
            settings.wf(),
        ensures
            out.wf(),
            out.spec_settings() == settings,
            out.spec_data().len() == settings.num_cascades * settings.spec_cascade_total_size(),
            forall|i: int| 0 <= i < out.spec_data().len() ==> out.spec_data()[i] == fill,
    {
        let total = settings.cascade_total_size();
        proof {
            assert(total * settings.num_cascades == settings.num_cascades * total);
        }
        let len = (total * (settings.num_cascades as u64)) as usize;
        let mut buffer: Vec<T> = Vec::new();
        while buffer.len() < len
            invariant
                buffer.len() <= len,
                forall|i: int| 0 <= i < buffer.len() ==> buffer@[i] == fill,
            decreases len - buffer.len(),
        {
            buffer.push(fill);
        }
        CascadeStorage { settings, buffer }
    }

    /// The linear index of a valid ray; see `spec_to_index` for the layout.
    pub fn to_index(&self, ray: RayLocation) -> (idx: usize)
        requires
            self.wf(),
            self.spec_settings().valid_ray(ray),
        ensures
            idx == self.spec_settings().spec_to_index(ray),
            idx < self.spec_data().len(),
    {
        proof {
            self.spec_settings().lemma_to_index_in_range(ray);
        }
        let total = self.settings.cascade_total_size();
        let pc = self.settings.probe_count(ray.level);
        let fc = self.settings.facing_count(ray.level);
        proof {
            let pcx = pc.x as int;
            let pcy = pc.y as int;
            assert(ray.probe.x + ray.probe.y * pcx <= pcx * pcy - 1
                && (ray.probe.x + ray.probe.y * pcx) * fc + ray.facing < pcx * pcy * fc
                && pcx * pcy <= 4096 * 4096)
                by (nonlinear_arith)
                requires
                    0 <= ray.probe.x < pcx && 0 <= ray.probe.y < pcy && 0 <= ray.facing < fc
                    && pcx >= 1 && pcy >= 1 && fc >= 1 && pcx <= 4096 && pcy <= 4096;
            self.spec_settings().lemma_level_fits(ray.level as int);
            assert(ray.level * total <= 11 * 0x4000_0000) by (nonlinear_arith)
                requires 0 <= ray.level < 12 && 0 <= total <= 0x4000_0000;
            assert((ray.probe.x + ray.probe.y * pcx) * fc <= total) by (nonlinear_arith)
                requires
                    0 <= ray.probe.x + ray.probe.y * pcx && fc >= 0
                    && (ray.probe.x + ray.probe.y * pcx) * fc + ray.facing < pcx * pcy * fc
                    && pcx * pcy * fc <= total && ray.facing >= 0;
        }
        let lin = (ray.probe.x as u64) + (ray.probe.y as u64) * (pc.x as u64);
        ((ray.level as u64) * total + lin * (fc as u64) + (ray.facing as u64)) as usize
    }

    /// Reads the entry of one valid ray.
    pub fn read(&self, ray: RayLocation) -> (v: T)
        requires
            self.wf(),
            self.spec_settings().valid_ray(ray),
        ensures
            v == self.spec_data()[self.spec_settings().spec_to_index(ray)],
    {
        let idx = self.to_index(ray);
        self.buffer[idx]
    }

    /// Overwrites the entry of one valid ray, leaving every other entry (and
    /// the settings) unchanged.
    pub fn write(&mut self, ray: RayLocation, value: T)
        requires
            old(self).wf(),
            old(self).spec_settings().valid_ray(ray),
        ensures
            final(self).wf(),
            final(self).spec_settings() == old(self).spec_settings(),
            final(self).spec_data() == old(self).spec_data().update(
                old(self).spec_settings().spec_to_index(ray), value),
    {
        let idx = self.to_index(ray);
        self.buffer.set(idx, value);
    }
}

} // verus!

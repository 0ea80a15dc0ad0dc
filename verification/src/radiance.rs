//! The radiance cascade merge engine: per level, for every probe/facing,
//! trace a connecting ray toward the next (coarser) level, composite its
//! fluence with the coarser level's already-finalized radiance, and write the
//! result into cascade storage. Levels run strictly coarse-to-fine, so each
//! level only ever reads finalized coarser values.
//!
//! Storage is prefiltered: each stored entry aggregates `branches` sibling
//! facings, so the stored facing count at one level equals the full facing
//! count one level below.

use vstd::prelude::*;
use crate::cascade::{
    BilinearSamples, CascadeSettings, CascadeSize, CascadeStorage, Interval, RayLocation, Vec2q,
    Vec2u,
};
use crate::color::{Fluence, Rgb, RADIANCE_LIMIT};
use crate::fixed::{spec_isqrt, isqrt, SCALE};
use crate::trace::{
    trace_radiance, spec_trace_radiance, Block, TraceWorld, fdiv_i64, TRACE_RADIANCE_MAX,
};
use crate::utils::{pcg3d_unit, spec_pcg3d};

verus! {

/// Bound on environment radiance entries.
pub const ENV_RADIANCE_MAX: u64 = 0x100_0000_0000;

/// Stored radiance at level L stays below (num_cascades - L) times this.
pub const LEVEL_RADIANCE_STEP: u64 = 0x800_0000_0000;

/// The interchangeable merge policies: how steps 3-5 of the per-ray merge
/// pick and weight the coarser-level samples.
#[derive(Debug, Clone, Copy, PartialEq, Eq, Structural)]
pub enum MergeVariant {
    /// Randomly pick one of the four bilinear neighbors, weighted by the
    /// fractional position (unbiased in expectation).
    SingleStochastic,
    /// Deterministic weighted sum over all four bilinear neighbors.
    BilinearFix,
    /// Like SingleStochastic, but also randomize which finer facing of the
    /// coarser bucket supplies the connecting ray's far direction.
    FullStochastic,
}

/// The settings cascade storage is sized from: the same grid, with the facing
/// count divided by the branching factor (prefiltered storage).
pub open spec fn spec_storage_settings(s: CascadeSettings) -> CascadeSettings {
    CascadeSettings {
        base_size: CascadeSize {
            probes: s.base_size.probes,
            facings: (s.base_size.facings as int / s.spec_branches()) as u32,
        },
        ..s
    }
}

/// A configuration the merge engine accepts: well formed, with the facing
/// count divisible by (and at least) the branching factor.
pub open spec fn spec_engine_settings(s: CascadeSettings) -> bool {
    &&& s.wf()
    &&& s.base_size.facings as int % s.spec_branches() == 0
    &&& s.base_size.facings as int / s.spec_branches() >= 1
}

/// Dividing the facing count keeps the settings well formed, and the stored
/// facing count at level L + 1 equals the full facing count at level L.
pub proof fn lemma_storage_settings_wf(s: CascadeSettings)
    requires
        spec_engine_settings(s),
    ensures
        spec_storage_settings(s).wf(),
        forall|level: int| 0 <= level < s.num_cascades
            ==> #[trigger] spec_storage_settings(s).spec_facing_count(level + 1)
                == s.spec_facing_count(level),
        forall|level: int| 0 <= level <= s.num_cascades
            ==> #[trigger] spec_storage_settings(s).spec_facing_count(level)
                    * s.spec_branches() == s.spec_facing_count(level),
        forall|level: int| #[trigger] spec_storage_settings(s).spec_probe_count(level)
            == s.spec_probe_count(level),
{
    let ss = spec_storage_settings(s);
    let b = s.spec_branches();
    let fd = s.base_size.facings as int / b;
    vstd::arithmetic::power2::lemma_pow2_pos(s.angular_factor as nat);
    vstd::arithmetic::div_mod::lemma_fundamental_div_mod(s.base_size.facings as int, b);
    assert(fd * b == s.base_size.facings) by (nonlinear_arith)
        requires
            fd == s.base_size.facings as int / b && b >= 1
            && s.base_size.facings as int % b == 0
            && s.base_size.facings as int == b * (s.base_size.facings as int / b)
                + s.base_size.facings as int % b;
    assert(fd <= s.base_size.facings) by (nonlinear_arith)
        requires fd >= 0 && b >= 1 && fd * b == s.base_size.facings;
    assert(s.base_size.probes.x * s.base_size.probes.y * fd * s.num_cascades
        <= s.base_size.probes.x * s.base_size.probes.y * s.base_size.facings * s.num_cascades)
        by (nonlinear_arith)
        requires
            0 <= fd <= s.base_size.facings && s.base_size.probes.x >= 0
            && s.base_size.probes.y >= 0 && s.num_cascades >= 0;
    assert forall|level: int| 0 <= level < s.num_cascades
        implies #[trigger] ss.spec_facing_count(level + 1) == s.spec_facing_count(level) by {
        let e = (s.angular_factor * level) as nat;
        assert(s.angular_factor * (level + 1) == s.angular_factor * level + s.angular_factor)
            by (nonlinear_arith);
        vstd::arithmetic::power2::lemma_pow2_adds(e, s.angular_factor as nat);
        assert(fd * (pow2_local(e) * pow2_local(s.angular_factor as nat))
            == (fd * pow2_local(s.angular_factor as nat)) * pow2_local(e)) by (nonlinear_arith);
        assert(fd * pow2_local(s.angular_factor as nat) == s.base_size.facings) by {
            assert(fd * b == s.base_size.facings);
        };
        assert(s.base_size.facings * pow2_local(e) == pow2_local(e) * s.base_size.facings)
            by (nonlinear_arith);
    }
    assert forall|level: int| 0 <= level <= s.num_cascades
        implies #[trigger] ss.spec_facing_count(level) * b == s.spec_facing_count(level) by {
        let e = (s.angular_factor * level) as nat;
        assert((fd * pow2_local(e)) * b == (fd * b) * pow2_local(e)) by (nonlinear_arith);
    }
}

/// Local alias so nonlinear queries can mention powers of two.
pub open spec fn pow2_local(e: nat) -> int {
    vstd::arithmetic::power2::pow2(e) as int
}

/// A direction scaled to (roughly) unit Q16 length, together with the Q16
/// length it had: components dx * SCALE / len, or zero for a zero vector.
pub open spec fn spec_normalize(dx: int, dy: int) -> (int, int, int) {
    let s = SCALE as int;
    let len = spec_isqrt(dx * dx + dy * dy);
    if len == 0 {
        (0, 0, 0)
    } else {
        (dx * s / len, dy * s / len, len)
    }
}

/// Normalizes a Q16 vector, returning the unit direction and the length.
pub fn normalize_dir(d: Vec2q) -> (out: (Vec2q, i64))
    requires
        -0x7000_0000 <= d.x <= 0x7000_0000,
        -0x7000_0000 <= d.y <= 0x7000_0000,
    ensures
        out.0.x == spec_normalize(d.x as int, d.y as int).0,
        out.0.y == spec_normalize(d.x as int, d.y as int).1,
        out.1 == spec_normalize(d.x as int, d.y as int).2,
        -(SCALE as i64) <= out.0.x <= SCALE as i64,
        -(SCALE as i64) <= out.0.y <= SCALE as i64,
        0 <= out.1 <= 0x1_0000_0000,
{
    let ax = if d.x < 0 { -d.x } else { d.x } as u64;
    let ay = if d.y < 0 { -d.y } else { d.y } as u64;
    proof {
        assert(ax * ax + ay * ay <= 2 * (0x7000_0000 * 0x7000_0000)) by (nonlinear_arith)
            requires 0 <= ax <= 0x7000_0000u64 && 0 <= ay <= 0x7000_0000u64;
        assert(ax * ax == d.x * d.x && ay * ay == d.y * d.y) by (nonlinear_arith)
            requires
                (ax == d.x || ax == -d.x) && (ay == d.y || ay == -d.y)
                && ax >= 0 && ay >= 0;
    }
    let len = isqrt(ax * ax + ay * ay);
    if len == 0 {
        (Vec2q { x: 0, y: 0 }, 0)
    } else {
        proof {
            let l = len as int;
            assert(d.x * d.x <= l * l + 2 * l && d.y * d.y <= l * l + 2 * l) by (nonlinear_arith)
                requires
                    d.x * d.x + d.y * d.y < (l + 1) * (l + 1)
                    && d.x * d.x >= 0 && d.y * d.y >= 0;
            assert(-l <= d.x <= l && -l <= d.y <= l) by (nonlinear_arith)
                requires d.x * d.x <= l * l + 2 * l && d.y * d.y <= l * l + 2 * l && l >= 1;
            assert(d.x * (SCALE as int) <= l * 65536 && d.x * (SCALE as int) >= -(l * 65536)
                && d.y * (SCALE as int) <= l * 65536 && d.y * (SCALE as int) >= -(l * 65536))
                by (nonlinear_arith)
                requires -l <= d.x <= l && -l <= d.y <= l && l >= 0;
            assert(-65536 <= l * 65536 / l && l * 65536 / l <= 65536
                && -65536 <= (-(l * 65536)) / l) by (nonlinear_arith)
                requires l >= 1;
            assert(forall|n: int| -(l * 65536) <= n <= l * 65536
                ==> -65536 <= #[trigger] (n / l) <= 65536) by (nonlinear_arith)
                requires l >= 1;
        }
        let nx = fdiv_i64(d.x * (SCALE as i64), len as i64);
        let ny = fdiv_i64(d.y * (SCALE as i64), len as i64);
        (Vec2q { x: nx, y: ny }, len as i64)
    }
}

/// The unit direction of one facing bucket's center, under whichever
/// settings' facing count applies.
pub open spec fn spec_facing_dir(s: CascadeSettings, facing: int, level: int) -> (int, int) {
    (
        crate::fixed::spec_cos_turn(s.spec_facing_turn(facing, level)),
        crate::fixed::spec_sin_turn(s.spec_facing_turn(facing, level)),
    )
}

/// A ray endpoint: a probe center advanced along a direction by a Q16 ray
/// parameter.
pub open spec fn spec_endpoint(loc: (int, int), dir: (int, int), t: int) -> (int, int) {
    let sc = SCALE as int;
    (loc.0 + t * dir.0 / sc, loc.1 + t * dir.1 / sc)
}

/// The fluence of the connecting ray from a probe (leaving along `dir` at the
/// interval's near bound) to a next-level probe (reached along `end_dir` at
/// the far bound).
pub open spec fn spec_connect_trace<B: Block>(
    world: TraceWorld<B>,
    s: CascadeSettings,
    p: Vec2u,
    dir: (int, int),
    end_dir: (int, int),
    np: (int, int),
    level: int,
) -> Fluence {
    let iv = s.spec_interval(level);
    let start = spec_endpoint(s.spec_probe_location((p.x as int, p.y as int), level), dir, iv.near as int);
    let end = spec_endpoint(s.spec_probe_location(np, level + 1), end_dir, iv.far as int);
    let n = spec_normalize(end.0 - start.0, end.1 - start.1);
    spec_trace_radiance(
        world,
        Vec2q { x: start.0 as i64, y: start.1 as i64 },
        Vec2q { x: n.0 as i64, y: n.1 as i64 },
        Interval { near: 0, far: n.2 as i64 },
    )
}

/// The coarser-level radiance a merge reads for one child facing: the stored
/// prefiltered entry at the next level, or the environment at the boundary.
pub open spec fn spec_next_radiance<B: Block>(
    world: TraceWorld<B>,
    s: CascadeSettings,
    prev: Seq<Rgb>,
    np: (int, int),
    fj: int,
    level: int,
) -> Rgb {
    if level + 1 < s.num_cascades {
        prev[spec_storage_settings(s).spec_to_index(RayLocation {
            probe: Vec2u { x: np.0 as u32, y: np.1 as u32 },
            facing: fj as u32,
            level: (level + 1) as u32,
        })]
    } else {
        world.environment@[fj]
    }
}

/// The hash seed of one stochastic sample: child facing, probe coordinates,
/// level salt.
pub open spec fn spec_seed(fj: int, px: int, py_salted: int) -> [u32; 3] {
    [fj as u32, px as u32, py_salted as u32]
}

/// The bilinear neighbor picked stochastically: round each axis up with
/// probability given by the fractional weight.
pub open spec fn spec_stochastic_probe(
    s: CascadeSettings,
    p: Vec2u,
    level: int,
    seed: [u32; 3],
) -> (int, int) {
    let cn = s.spec_probe_count(level + 1);
    let ax = s.spec_bilinear_axis(p.x as int, cn.0);
    let ay = s.spec_bilinear_axis(p.y as int, cn.1);
    let r = spec_pcg3d(seed);
    (
        ax.0 + if ((r@[0] >> 16) as int) < ax.1 { 1int } else { 0int },
        ay.0 + if ((r@[1] >> 16) as int) < ay.1 { 1int } else { 0int },
    )
}

/// One child facing's contribution under a stochastic variant: trace the
/// connecting ray to the stochastically picked neighbor and composite onto
/// the coarser radiance.
pub open spec fn spec_child_value<B: Block>(
    world: TraceWorld<B>,
    s: CascadeSettings,
    prev: Seq<Rgb>,
    p: Vec2u,
    f: u32,
    level: int,
    j: int,
    variant: MergeVariant,
) -> Rgb {
    let b = s.spec_branches();
    let fj = f * b + j;
    let dir = spec_facing_dir(s, fj, level);
    if variant == MergeVariant::FullStochastic {
        let seed = spec_seed(fj, p.x + j * 65536, p.y + level * 65536);
        let np = spec_stochastic_probe(s, p, level, seed);
        let i_rand = ((spec_pcg3d(seed)@[2] >> 16) as int) * b / (SCALE as int);
        let end_dir = spec_facing_dir(s, fj * b + i_rand, level + 1);
        let fl = spec_connect_trace(world, s, p, dir, end_dir, np, level);
        fl.spec_over_color(spec_next_radiance(world, s, prev, np, fj, level))
    } else {
        let seed = spec_seed(fj, p.x as int, p.y + level * 65536);
        let np = spec_stochastic_probe(s, p, level, seed);
        let fl = spec_connect_trace(world, s, p, dir, dir, np, level);
        fl.spec_over_color(spec_next_radiance(world, s, prev, np, fj, level))
    }
}

/// Channel-wise sum of the first n child contributions.
pub open spec fn spec_child_sum<B: Block>(
    world: TraceWorld<B>,
    s: CascadeSettings,
    prev: Seq<Rgb>,
    p: Vec2u,
    f: u32,
    level: int,
    n: nat,
    variant: MergeVariant,
) -> (int, int, int)
    decreases n,
{
    if n == 0 {
        (0, 0, 0)
    } else {
        let rest = spec_child_sum(world, s, prev, p, f, level, (n - 1) as nat, variant);
        let v = spec_child_value(world, s, prev, p, f, level, n - 1, variant);
        (rest.0 + v.r, rest.1 + v.g, rest.2 + v.b)
    }
}

/// The merged radiance of a stochastic variant: the average over the child
/// facings folded into this stored entry.
pub open spec fn spec_merge_stochastic<B: Block>(
    world: TraceWorld<B>,
    s: CascadeSettings,
    prev: Seq<Rgb>,
    p: Vec2u,
    f: u32,
    level: int,
    variant: MergeVariant,
) -> Rgb {
    let b = s.spec_branches();
    let sum = spec_child_sum(world, s, prev, p, f, level, b as nat, variant);
    Rgb { r: (sum.0 / b) as u64, g: (sum.1 / b) as u64, b: (sum.2 / b) as u64 }
}

/// Channel-wise sum of the coarser radiance over the first n child facings
/// at one next-level probe.
pub open spec fn spec_next_sum<B: Block>(
    world: TraceWorld<B>,
    s: CascadeSettings,
    prev: Seq<Rgb>,
    np: (int, int),
    f: u32,
    level: int,
    n: nat,
) -> (int, int, int)
    decreases n,
{
    if n == 0 {
        (0, 0, 0)
    } else {
        let rest = spec_next_sum(world, s, prev, np, f, level, (n - 1) as nat);
        let v = spec_next_radiance(world, s, prev, np, f * s.spec_branches() + n - 1, level);
        (rest.0 + v.r, rest.1 + v.g, rest.2 + v.b)
    }
}

/// The average coarser radiance over all child facings at one next-level
/// probe.
pub open spec fn spec_next_avg<B: Block>(
    world: TraceWorld<B>,
    s: CascadeSettings,
    prev: Seq<Rgb>,
    np: (int, int),
    f: u32,
    level: int,
) -> Rgb {
    let b = s.spec_branches();
    let sum = spec_next_sum(world, s, prev, np, f, level, b as nat);
    Rgb { r: (sum.0 / b) as u64, g: (sum.1 / b) as u64, b: (sum.2 / b) as u64 }
}

/// One corner's contribution under the bilinear variant: weight times the
/// composite of the corner's connecting-ray fluence over the averaged
/// coarser radiance; corners clamped off the next-level grid contribute
/// nothing.
pub open spec fn spec_bilinear_contrib<B: Block>(
    world: TraceWorld<B>,
    s: CascadeSettings,
    prev: Seq<Rgb>,
    p: Vec2u,
    f: u32,
    level: int,
    k: int,
) -> (int, int, int) {
    let sc = SCALE as int;
    let cn = s.spec_probe_count(level + 1);
    let ax = s.spec_bilinear_axis(p.x as int, cn.0);
    let ay = s.spec_bilinear_axis(p.y as int, cn.1);
    let samples = BilinearSamples {
        base_index: Vec2u { x: ax.0 as u32, y: ay.0 as u32 },
        fract: Vec2q { x: ax.1 as i64, y: ay.1 as i64 },
    };
    let off = BilinearSamples::spec_offset(k);
    let np = (ax.0 + off.0, ay.0 + off.1);
    let w = samples.spec_weight(k);
    if np.0 >= cn.0 || np.1 >= cn.1 {
        (0, 0, 0)
    } else {
        let dir = spec_facing_dir(spec_storage_settings(s), f as int, level);
        let fl = spec_connect_trace(world, s, p, dir, dir, np, level);
        let m = fl.spec_over_color(spec_next_avg(world, s, prev, np, f, level));
        (m.r * w / sc, m.g * w / sc, m.b * w / sc)
    }
}

/// Channel-wise sum of the first n corner contributions.
pub open spec fn spec_bilinear_sum<B: Block>(
    world: TraceWorld<B>,
    s: CascadeSettings,
    prev: Seq<Rgb>,
    p: Vec2u,
    f: u32,
    level: int,
    n: nat,
) -> (int, int, int)
    decreases n,
{
    if n == 0 {
        (0, 0, 0)
    } else {
        let rest = spec_bilinear_sum(world, s, prev, p, f, level, (n - 1) as nat);
        let v = spec_bilinear_contrib(world, s, prev, p, f, level, n - 1);
        (rest.0 + v.0, rest.1 + v.1, rest.2 + v.2)
    }
}

/// The merged radiance of one stored entry, per variant: the reference
/// formula of the cascade merge.
pub open spec fn spec_merge_value<B: Block>(
    world: TraceWorld<B>,
    s: CascadeSettings,
    prev: Seq<Rgb>,
    p: Vec2u,
    f: u32,
    level: int,
    variant: MergeVariant,
) -> Rgb {
    if variant == MergeVariant::BilinearFix {
        let sum = spec_bilinear_sum(world, s, prev, p, f, level, 4);
        Rgb { r: sum.0 as u64, g: sum.1 as u64, b: sum.2 as u64 }
    } else {
        spec_merge_stochastic(world, s, prev, p, f, level, variant)
    }
}

/// Everything a merge needs of the world and the previous storage contents:
/// a well-formed engine configuration, an environment buffer sized for the
/// coarsest boundary, and per-level bounds on every stored radiance.
pub open spec fn spec_merge_ctx<B: Block>(
    world: TraceWorld<B>,
    s: CascadeSettings,
    prev: Seq<Rgb>,
) -> bool {
    let ss = spec_storage_settings(s);
    &&& spec_engine_settings(s)
    &&& world.wf()
    &&& world.environment@.len() == ss.spec_facing_count(s.num_cascades as int)
    &&& forall|i: int| 0 <= i < world.environment@.len()
        ==> (#[trigger] world.environment@[i]).all_le(ENV_RADIANCE_MAX as int)
    &&& prev.len() == s.num_cascades * ss.spec_cascade_total_size()
    &&& forall|ray: RayLocation| ss.valid_ray(ray)
        ==> (#[trigger] prev[ss.spec_to_index(ray)]).all_le(
            (s.num_cascades - ray.level) * LEVEL_RADIANCE_STEP)
}

/// The largest value any single merge contribution can reach at a level.
pub open spec fn spec_contrib_bound(s: CascadeSettings, level: int) -> int {
    TRACE_RADIANCE_MAX + (s.num_cascades - level - 1) * LEVEL_RADIANCE_STEP + ENV_RADIANCE_MAX
}

/// Contribution bounds stay within one more level-step, and well within the
/// composition limit.
proof fn lemma_contrib_bound(s: CascadeSettings, level: int)
    requires
        s.wf(),
        0 <= level < s.num_cascades,
    ensures
        0 < spec_contrib_bound(s, level) <= (s.num_cascades - level) * LEVEL_RADIANCE_STEP,
        (s.num_cascades - level) * LEVEL_RADIANCE_STEP <= 12 * LEVEL_RADIANCE_STEP,
        spec_contrib_bound(s, level) <= RADIANCE_LIMIT,
{
    assert((s.num_cascades - level) * LEVEL_RADIANCE_STEP
        == (s.num_cascades - level - 1) * LEVEL_RADIANCE_STEP + LEVEL_RADIANCE_STEP
        && (s.num_cascades - level - 1) * LEVEL_RADIANCE_STEP >= 0
        && (s.num_cascades - level) * LEVEL_RADIANCE_STEP <= 12 * LEVEL_RADIANCE_STEP)
        by (nonlinear_arith)
        requires 0 <= level < s.num_cascades <= 12;
}

/// Traces the connecting ray between a probe and a next-level probe.
fn connect_trace<B: Block>(
    world: &TraceWorld<B>,
    s: CascadeSettings,
    p: Vec2u,
    dir: Vec2q,
    end_dir: Vec2q,
    np: Vec2u,
    level: u32,
) -> (fl: Fluence)
    requires
        world.wf(),
        s.wf(),
        level < s.num_cascades,
        p.x < s.spec_probe_count(level as int).0,
        p.y < s.spec_probe_count(level as int).1,
        np.x < s.spec_probe_count(level as int + 1).0,
        np.y < s.spec_probe_count(level as int + 1).1,
        -(SCALE as i64) <= dir.x <= SCALE as i64,
        -(SCALE as i64) <= dir.y <= SCALE as i64,
        -(SCALE as i64) <= end_dir.x <= SCALE as i64,
        -(SCALE as i64) <= end_dir.y <= SCALE as i64,
    ensures
        fl == spec_connect_trace(*world, s, p, (dir.x as int, dir.y as int),
            (end_dir.x as int, end_dir.y as int), (np.x as int, np.y as int), level as int),
        fl.wf(),
        fl.radiance.all_le(TRACE_RADIANCE_MAX as int),
{
    let iv = s.interval(level);
    proof {
        s.lemma_probe_count_bounds(level as int);
        s.lemma_probe_count_bounds(level as int + 1);
        s.lemma_probe_location_bound((p.x as int, p.y as int), level as int);
        s.lemma_probe_location_bound((np.x as int, np.y as int), level as int + 1);
    }
    let loc = s.probe_location(p, level);
    let nloc = s.probe_location(np, level + 1);
    proof {
        assert(forall|t: int, d: int| 0 <= t <= 0x2000_0000 && -65536 <= d <= 65536
            ==> -(0x2000_0000 * 65536) <= #[trigger] (t * d) <= 0x2000_0000 * 65536)
            by (nonlinear_arith);
        crate::trace::lemma_connect_offsets(iv.near as int, dir.x as int);
        crate::trace::lemma_connect_offsets(iv.near as int, dir.y as int);
        crate::trace::lemma_connect_offsets(iv.far as int, end_dir.x as int);
        crate::trace::lemma_connect_offsets(iv.far as int, end_dir.y as int);
    }
    let sx = loc.x + fdiv_i64(iv.near * dir.x, SCALE as i64);
    let sy = loc.y + fdiv_i64(iv.near * dir.y, SCALE as i64);
    let ex = nloc.x + fdiv_i64(iv.far * end_dir.x, SCALE as i64);
    let ey = nloc.y + fdiv_i64(iv.far * end_dir.y, SCALE as i64);
    let (nd, len) = normalize_dir(Vec2q { x: ex - sx, y: ey - sy });
    trace_radiance(world, Vec2q { x: sx, y: sy }, nd, Interval { near: 0, far: len })
}

/// Reads the coarser-level radiance for one child facing.
fn next_radiance_read<B: Block>(
    world: &TraceWorld<B>,
    s: CascadeSettings,
    storage: &CascadeStorage<Rgb>,
    np: Vec2u,
    fj: u32,
    level: u32,
) -> (out: Rgb)
    requires
        spec_merge_ctx(*world, s, storage.spec_data()),
        storage.wf(),
        storage.spec_settings() == spec_storage_settings(s),
        level < s.num_cascades,
        np.x < s.spec_probe_count(level as int + 1).0,
        np.y < s.spec_probe_count(level as int + 1).1,
        fj < s.spec_facing_count(level as int),
    ensures
        out == spec_next_radiance(*world, s, storage.spec_data(),
            (np.x as int, np.y as int), fj as int, level as int),
        out.all_le((s.num_cascades - level - 1) * LEVEL_RADIANCE_STEP + ENV_RADIANCE_MAX),
{
    proof {
        lemma_storage_settings_wf(s);
    }
    if level + 1 < s.num_cascades {
        let ray = RayLocation { probe: np, facing: fj, level: level + 1 };
        proof {
            let ss = spec_storage_settings(s);
            assert(ss.spec_facing_count(level as int + 1) == s.spec_facing_count(level as int));
            assert(ss.valid_ray(ray));
            assert((s.num_cascades - (level + 1)) * LEVEL_RADIANCE_STEP
                <= (s.num_cascades - level - 1) * LEVEL_RADIANCE_STEP + ENV_RADIANCE_MAX)
                by (nonlinear_arith)
                requires level + 1 <= s.num_cascades as int;
        }
        storage.read(ray)
    } else {
        proof {
            let ss = spec_storage_settings(s);
            assert(level as int == s.num_cascades - 1);
            assert(ss.spec_facing_count(level as int + 1) == s.spec_facing_count(level as int));
        }
        world.environment[fj as usize]
    }
}

/// Picks the stochastic bilinear neighbor for a seed.
#[verifier::rlimit(100)]
#[verifier::spinoff_prover]
fn stochastic_probe(s: CascadeSettings, p: Vec2u, level: u32, seed: [u32; 3]) -> (np: Vec2u)
    requires
        s.wf(),
        level < s.num_cascades,
        p.x < s.spec_probe_count(level as int).0,
        p.y < s.spec_probe_count(level as int).1,
    ensures
        np.x == spec_stochastic_probe(s, p, level as int, seed).0,
        np.y == spec_stochastic_probe(s, p, level as int, seed).1,
        np.x < s.spec_probe_count(level as int + 1).0,
        np.y < s.spec_probe_count(level as int + 1).1,
{
    proof {
        s.lemma_probe_count_bounds(level as int);
    }
    let samples = s.bilinear_samples(p, level + 1);
    let r = pcg3d_unit(seed);
    let ux: u32 = if (r[0] as i64) < samples.fract.x { 1 } else { 0 };
    let uy: u32 = if (r[1] as i64) < samples.fract.y { 1 } else { 0 };
    proof {
        s.lemma_probe_count_bounds(level as int + 1);
    }
    Vec2u { x: samples.base_index.x + ux, y: samples.base_index.y + uy }
}

/// One child facing's contribution under a stochastic variant.
#[verifier::rlimit(100)]
fn child_value<B: Block>(
    world: &TraceWorld<B>,
    s: CascadeSettings,
    storage: &CascadeStorage<Rgb>,
    p: Vec2u,
    f: u32,
    level: u32,
    j: u32,
    variant: MergeVariant,
) -> (out: Rgb)
    requires
        spec_merge_ctx(*world, s, storage.spec_data()),
        storage.wf(),
        storage.spec_settings() == spec_storage_settings(s),
        level < s.num_cascades,
        p.x < s.spec_probe_count(level as int).0,
        p.y < s.spec_probe_count(level as int).1,
        f < spec_storage_settings(s).spec_facing_count(level as int),
        j < s.spec_branches(),
        variant != MergeVariant::BilinearFix,
    ensures
        out == spec_child_value(*world, s, storage.spec_data(), p, f, level as int, j as int, variant),
        out.all_le(spec_contrib_bound(s, level as int)),
{
    proof {
        lemma_storage_settings_wf(s);
        s.lemma_facing_count_bounds(level as int);
        s.lemma_facing_count_bounds(level as int + 1);
        s.lemma_probe_count_bounds(level as int);
        lemma_contrib_bound(s, level as int);
        let b = s.spec_branches();
        assert(f * b + j < spec_storage_settings(s).spec_facing_count(level as int) * b)
            by (nonlinear_arith)
            requires
                f < spec_storage_settings(s).spec_facing_count(level as int)
                && 0 <= j < b;
        if s.angular_factor < 8 {
            vstd::arithmetic::power2::lemma_pow2_strictly_increases(s.angular_factor as nat, 8);
        }
        vstd::arithmetic::power2::lemma2_to64();
        assert(j * 65536 <= 256 * 65536 && level * 65536 <= 12 * 65536) by (nonlinear_arith)
            requires 0 <= j <= 256 && 0 <= level <= 12u32;
    }
    let b = s.branches();
    let fj = f * b + j;
    let dir = s.facing_direction(fj, level);
    if variant == MergeVariant::FullStochastic {
        let seed = [fj, p.x + j * 65536, p.y + level * 65536];
        let np = stochastic_probe(s, p, level, seed);
        let r = pcg3d_unit(seed);
        proof {
            assert(r[2] * b < 65536 * b && (r[2] * b) / 65536 < b) by (nonlinear_arith)
                requires r[2] < 65536u64 && b >= 1;
            assert(fj * b + (r[2] * b) / (SCALE as int) < s.spec_facing_count(level as int) * b)
                by (nonlinear_arith)
                requires
                    fj < s.spec_facing_count(level as int)
                    && 0 <= (r[2] * b) / (SCALE as int) < b;
            assert(s.spec_facing_count(level as int) * s.spec_branches()
                == s.spec_facing_count(level as int + 1)) by {
                let e = (s.angular_factor * level) as nat;
                assert(s.angular_factor * (level + 1) == s.angular_factor * level + s.angular_factor)
                    by (nonlinear_arith);
                vstd::arithmetic::power2::lemma_pow2_adds(e, s.angular_factor as nat);
                assert((s.base_size.facings * pow2_local(e)) * pow2_local(s.angular_factor as nat)
                    == s.base_size.facings * (pow2_local(e) * pow2_local(s.angular_factor as nat)))
                    by (nonlinear_arith);
            };
        }
        let i_rand = ((r[2] * (b as u64)) / SCALE) as u32;
        let end_f = fj * b + i_rand;
        let end_dir = s.facing_direction(end_f, level + 1);
        let fl = connect_trace(world, s, p, dir, end_dir, np, level);
        let nr = next_radiance_read(world, s, storage, np, fj, level);
        proof {
            assert(fl.radiance.r + nr.r <= u64::MAX && fl.radiance.g + nr.g <= u64::MAX
                && fl.radiance.b + nr.b <= u64::MAX && nr.all_le(RADIANCE_LIMIT as int));
        }
        fl.over_color(nr)
    } else {
        let seed = [fj, p.x, p.y + level * 65536];
        let np = stochastic_probe(s, p, level, seed);
        let fl = connect_trace(world, s, p, dir, dir, np, level);
        let nr = next_radiance_read(world, s, storage, np, fj, level);
        proof {
            assert(fl.radiance.r + nr.r <= u64::MAX && fl.radiance.g + nr.g <= u64::MAX
                && fl.radiance.b + nr.b <= u64::MAX && nr.all_le(RADIANCE_LIMIT as int));
        }
        fl.over_color(nr)
    }
}

/// The merged radiance of one stored entry under a stochastic variant: the
/// average of the child contributions.
#[verifier::rlimit(100)]
#[verifier::loop_isolation(false)]
fn merge_stochastic<B: Block>(
    world: &TraceWorld<B>,
    s: CascadeSettings,
    storage: &CascadeStorage<Rgb>,
    p: Vec2u,
    f: u32,
    level: u32,
    variant: MergeVariant,
) -> (out: Rgb)
    requires
        spec_merge_ctx(*world, s, storage.spec_data()),
        storage.wf(),
        storage.spec_settings() == spec_storage_settings(s),
        level < s.num_cascades,
        p.x < s.spec_probe_count(level as int).0,
        p.y < s.spec_probe_count(level as int).1,
        f < spec_storage_settings(s).spec_facing_count(level as int),
        variant != MergeVariant::BilinearFix,
    ensures
        out == spec_merge_stochastic(*world, s, storage.spec_data(), p, f, level as int, variant),
        out.all_le((s.num_cascades - level) * LEVEL_RADIANCE_STEP),
{
    proof {
        lemma_contrib_bound(s, level as int);
    }
    let b = s.branches();
    let mut sum_r: u64 = 0;
    let mut sum_g: u64 = 0;
    let mut sum_b: u64 = 0;
    let mut j: u32 = 0;
    while j < b
        invariant
            j <= b,
            (sum_r as int, sum_g as int, sum_b as int)
                == spec_child_sum(*world, s, storage.spec_data(), p, f, level as int, j as nat, variant),
            sum_r <= j * spec_contrib_bound(s, level as int),
            sum_g <= j * spec_contrib_bound(s, level as int),
            sum_b <= j * spec_contrib_bound(s, level as int),
        decreases b - j,
    {
        let v = child_value(world, s, storage, p, f, level, j, variant);
        proof {
            let cb = spec_contrib_bound(s, level as int);
            assert((j + 1) * cb == j * cb + cb) by (nonlinear_arith);
            assert(j * cb <= 256 * (12 * LEVEL_RADIANCE_STEP)) by (nonlinear_arith)
                requires 0 <= j <= 256 && 0 < cb <= 12 * LEVEL_RADIANCE_STEP;
        }
        sum_r = sum_r + v.r;
        sum_g = sum_g + v.g;
        sum_b = sum_b + v.b;
        j = j + 1;
    }
    proof {
        let cb = spec_contrib_bound(s, level as int);
        assert(sum_r as int / (b as int) <= cb && sum_g as int / (b as int) <= cb && sum_b as int / (b as int) <= cb) by (nonlinear_arith)
            requires
                sum_r <= b * cb && sum_g <= b * cb && sum_b <= b * cb && b >= 1
                && sum_r >= 0 && sum_g >= 0 && sum_b >= 0 && cb >= 0;
    }
    Rgb { r: sum_r / (b as u64), g: sum_g / (b as u64), b: sum_b / (b as u64) }
}

/// The average coarser radiance over the child facings at one next-level
/// probe.
#[verifier::rlimit(100)]
#[verifier::loop_isolation(false)]
fn next_avg_read<B: Block>(
    world: &TraceWorld<B>,
    s: CascadeSettings,
    storage: &CascadeStorage<Rgb>,
    np: Vec2u,
    f: u32,
    level: u32,
) -> (out: Rgb)
    requires
        spec_merge_ctx(*world, s, storage.spec_data()),
        storage.wf(),
        storage.spec_settings() == spec_storage_settings(s),
        level < s.num_cascades,
        np.x < s.spec_probe_count(level as int + 1).0,
        np.y < s.spec_probe_count(level as int + 1).1,
        f < spec_storage_settings(s).spec_facing_count(level as int),
    ensures
        out == spec_next_avg(*world, s, storage.spec_data(), (np.x as int, np.y as int), f, level as int),
        out.all_le((s.num_cascades - level - 1) * LEVEL_RADIANCE_STEP + ENV_RADIANCE_MAX),
{
    proof {
        lemma_storage_settings_wf(s);
        s.lemma_facing_count_bounds(level as int);
    }
    let ghost nb = (s.num_cascades - level - 1) * LEVEL_RADIANCE_STEP + ENV_RADIANCE_MAX;
    let b = s.branches();
    let mut sum_r: u64 = 0;
    let mut sum_g: u64 = 0;
    let mut sum_b: u64 = 0;
    let mut j: u32 = 0;
    proof {
        assert(nb <= 12 * LEVEL_RADIANCE_STEP + ENV_RADIANCE_MAX && nb >= 0) by (nonlinear_arith)
            requires
                level < s.num_cascades <= 12
                && nb == (s.num_cascades - level - 1) * LEVEL_RADIANCE_STEP + ENV_RADIANCE_MAX;
    }
    while j < b
        invariant
            j <= b,
            (sum_r as int, sum_g as int, sum_b as int)
                == spec_next_sum(*world, s, storage.spec_data(), (np.x as int, np.y as int), f,
                    level as int, j as nat),
            sum_r <= j * nb,
            sum_g <= j * nb,
            sum_b <= j * nb,
        decreases b - j,
    {
        proof {
            assert(f * s.spec_branches() + j < spec_storage_settings(s).spec_facing_count(level as int)
                * s.spec_branches()) by (nonlinear_arith)
                requires
                    f < spec_storage_settings(s).spec_facing_count(level as int)
                    && 0 <= j < s.spec_branches();
            assert((j + 1) * nb == j * nb + nb) by (nonlinear_arith);
            assert(j * nb <= 256 * (12 * LEVEL_RADIANCE_STEP + ENV_RADIANCE_MAX)) by (nonlinear_arith)
                requires 0 <= j <= 256 && 0 <= nb <= 12 * LEVEL_RADIANCE_STEP + ENV_RADIANCE_MAX;
        }
        let fj = f * b + j;
        let v = next_radiance_read(world, s, storage, np, fj, level);
        sum_r = sum_r + v.r;
        sum_g = sum_g + v.g;
        sum_b = sum_b + v.b;
        j = j + 1;
    }
    proof {
        assert(sum_r as int / (b as int) <= nb && sum_g as int / (b as int) <= nb && sum_b as int / (b as int) <= nb) by (nonlinear_arith)
            requires
                sum_r <= b * nb && sum_g <= b * nb && sum_b <= b * nb && b >= 1
                && sum_r >= 0 && sum_g >= 0 && sum_b >= 0 && nb >= 0;
    }
    Rgb { r: sum_r / (b as u64), g: sum_g / (b as u64), b: sum_b / (b as u64) }
}

/// The merged radiance of one stored entry under the bilinear variant: the
/// deterministic weighted sum over the four corner samples.
#[verifier::rlimit(100)]
#[verifier::loop_isolation(false)]
fn merge_bilinear<B: Block>(
    world: &TraceWorld<B>,
    s: CascadeSettings,
    storage: &CascadeStorage<Rgb>,
    p: Vec2u,
    f: u32,
    level: u32,
) -> (out: Rgb)
    requires
        spec_merge_ctx(*world, s, storage.spec_data()),
        storage.wf(),
        storage.spec_settings() == spec_storage_settings(s),
        level < s.num_cascades,
        p.x < s.spec_probe_count(level as int).0,
        p.y < s.spec_probe_count(level as int).1,
        f < spec_storage_settings(s).spec_facing_count(level as int),
    ensures
        out == spec_merge_value(*world, s, storage.spec_data(), p, f, level as int,
            MergeVariant::BilinearFix),
        out.all_le((s.num_cascades - level) * LEVEL_RADIANCE_STEP),
{
    proof {
        lemma_storage_settings_wf(s);
        lemma_contrib_bound(s, level as int);
        s.lemma_probe_count_bounds(level as int);
        s.lemma_probe_count_bounds(level as int + 1);
    }
    let ghost cb = spec_contrib_bound(s, level as int);
    let b = s.branches();
    let ss = CascadeSettings {
        base_size: CascadeSize { probes: s.base_size.probes, facings: s.base_size.facings / b },
        ..s
    };
    proof {
        assert(ss == spec_storage_settings(s));
    }
    let cn = s.probe_count(level + 1);
    let samples = s.bilinear_samples(p, level + 1);
    proof {
        samples.lemma_weight_partition();
    }
    let dir = ss.facing_direction(f, level);
    let mut sum_r: u64 = 0;
    let mut sum_g: u64 = 0;
    let mut sum_b: u64 = 0;
    let ghost mut wsum: int = 0;
    let mut k: u32 = 0;
    while k < 4
        invariant
            k <= 4,
            (sum_r as int, sum_g as int, sum_b as int)
                == spec_bilinear_sum(*world, s, storage.spec_data(), p, f, level as int, k as nat),
            wsum == spec_weight_partial(samples, k as nat),
            0 <= wsum <= SCALE as int,
            (SCALE as int) * sum_r <= wsum * cb,
            (SCALE as int) * sum_g <= wsum * cb,
            (SCALE as int) * sum_b <= wsum * cb,
        decreases 4 - k,
    {
        let (np, w) = samples.sample(k);
        proof {
            lemma_weight_partial_step(samples, k as nat);
        }
        if np.x < cn.x && np.y < cn.y {
            let fl = connect_trace(world, s, p, dir, dir, np, level);
            let na = next_avg_read(world, s, storage, np, f, level);
            proof {
                assert(fl.radiance.r + na.r <= u64::MAX && fl.radiance.g + na.g <= u64::MAX
                    && fl.radiance.b + na.b <= u64::MAX && na.all_le(RADIANCE_LIMIT as int));
            }
            let m = fl.over_color(na);
            proof {
                assert(m.all_le(cb));
                assert(m.r * w <= cb * SCALE && m.g * w <= cb * SCALE && m.b * w <= cb * SCALE
                    && m.r * w >= 0 && m.g * w >= 0 && m.b * w >= 0
                    && cb * SCALE <= (12 * LEVEL_RADIANCE_STEP) * 65536) by (nonlinear_arith)
                    requires
                        0 <= m.r <= cb && 0 <= m.g <= cb && 0 <= m.b <= cb
                        && 0 <= w <= SCALE && 0 < cb <= 12 * LEVEL_RADIANCE_STEP;
                // One weighted term keeps the scaled-sum inequality.
                assert((SCALE as int) * (m.r * w / (SCALE as int)) <= w * cb
                    && (SCALE as int) * (m.g * w / (SCALE as int)) <= w * cb
                    && (SCALE as int) * (m.b * w / (SCALE as int)) <= w * cb) by (nonlinear_arith)
                    requires
                        0 <= m.r <= cb && 0 <= m.g <= cb && 0 <= m.b <= cb && 0 <= w;
                assert((wsum + w) * cb == wsum * cb + w * cb) by (nonlinear_arith);
                assert(sum_r + m.r * w / (SCALE as int) <= 2 * (12 * LEVEL_RADIANCE_STEP)
                    && sum_g + m.g * w / (SCALE as int) <= 2 * (12 * LEVEL_RADIANCE_STEP)
                    && sum_b + m.b * w / (SCALE as int) <= 2 * (12 * LEVEL_RADIANCE_STEP))
                    by (nonlinear_arith)
                    requires
                        (SCALE as int) * sum_r <= wsum * cb
                        && (SCALE as int) * sum_g <= wsum * cb
                        && (SCALE as int) * sum_b <= wsum * cb
                        && 0 <= wsum <= 65536 && 0 < cb <= 12 * LEVEL_RADIANCE_STEP
                        && 0 <= m.r * w / (SCALE as int) <= cb
                        && 0 <= m.g * w / (SCALE as int) <= cb
                        && 0 <= m.b * w / (SCALE as int) <= cb
                        && SCALE == 65536u64 && sum_r >= 0 && sum_g >= 0 && sum_b >= 0;
            }
            sum_r = sum_r + mul_div_weight(m.r, w);
            sum_g = sum_g + mul_div_weight(m.g, w);
            sum_b = sum_b + mul_div_weight(m.b, w);
            proof {
                wsum = wsum + w;
            }
        } else {
            proof {
                wsum = wsum + samples.spec_weight(k as int);
                assert(wsum * cb >= (wsum - samples.spec_weight(k as int)) * cb) by (nonlinear_arith)
                    requires cb >= 0 && samples.spec_weight(k as int) >= 0;
            }
        }
        k = k + 1;
    }
    proof {
        assert(sum_r <= cb && sum_g <= cb && sum_b <= cb) by (nonlinear_arith)
            requires
                (SCALE as int) * sum_r <= wsum * cb && (SCALE as int) * sum_g <= wsum * cb
                && (SCALE as int) * sum_b <= wsum * cb && 0 <= wsum <= SCALE as int
                && cb >= 0 && SCALE == 65536u64 && sum_r >= 0 && sum_g >= 0 && sum_b >= 0;
    }
    Rgb { r: sum_r, g: sum_g, b: sum_b }
}

/// The sum of the first n bilinear weights.
pub open spec fn spec_weight_partial(samples: BilinearSamples, n: nat) -> int
    decreases n,
{
    if n == 0 {
        0
    } else {
        spec_weight_partial(samples, (n - 1) as nat) + samples.spec_weight(n - 1)
    }
}

/// One step of the weight prefix sum, bounded by the total.
proof fn lemma_weight_partial_step(samples: BilinearSamples, n: nat)
    requires
        n < 4,
        0 <= samples.fract.x < SCALE,
        0 <= samples.fract.y < SCALE,
    ensures
        spec_weight_partial(samples, n + 1)
            == spec_weight_partial(samples, n) + samples.spec_weight(n as int),
        0 <= spec_weight_partial(samples, n + 1) <= SCALE as int,
        0 <= spec_weight_partial(samples, n) <= SCALE as int,
{
    samples.lemma_weight_partition();
    assert(spec_weight_partial(samples, 0) == 0);
    assert(spec_weight_partial(samples, 1) == samples.spec_weight(0));
    assert(spec_weight_partial(samples, 2) == samples.spec_weight(0) + samples.spec_weight(1));
    assert(spec_weight_partial(samples, 3)
        == samples.spec_weight(0) + samples.spec_weight(1) + samples.spec_weight(2));
    assert(spec_weight_partial(samples, 4)
        == samples.spec_weight(0) + samples.spec_weight(1) + samples.spec_weight(2)
            + samples.spec_weight(3));
}

/// A weighted Q16 share of a merged radiance value.
fn mul_div_weight(m: u64, w: u64) -> (r: u64)
    requires
        m * w <= u64::MAX,
    ensures
        r == m * w / (SCALE as int),
{
    (m * w) / SCALE
}

/// The merged radiance of one stored entry, dispatching on the variant.
pub fn merge_ray<B: Block>(
    world: &TraceWorld<B>,
    s: CascadeSettings,
    storage: &CascadeStorage<Rgb>,
    p: Vec2u,
    f: u32,
    level: u32,
    variant: MergeVariant,
) -> (out: Rgb)
    requires
        spec_merge_ctx(*world, s, storage.spec_data()),
        storage.wf(),
        storage.spec_settings() == spec_storage_settings(s),
        level < s.num_cascades,
        p.x < s.spec_probe_count(level as int).0,
        p.y < s.spec_probe_count(level as int).1,
        f < spec_storage_settings(s).spec_facing_count(level as int),
    ensures
        out == spec_merge_value(*world, s, storage.spec_data(), p, f, level as int, variant),
        out.all_le((s.num_cascades - level) * LEVEL_RADIANCE_STEP),
{
    match variant {
        MergeVariant::BilinearFix => merge_bilinear(world, s, storage, p, f, level),
        _ => merge_stochastic(world, s, storage, p, f, level, variant),
    }
}

/// The ray location a flat storage index decomposes into (meaningful only
/// where the decomposition round-trips).
pub open spec fn spec_index_ray(s: CascadeSettings, i: int) -> RayLocation {
    let total = s.spec_cascade_total_size();
    let level = i / total;
    let rem = i % total;
    let fc = s.spec_facing_count(level);
    let f = rem % fc;
    let lin = rem / fc;
    let pcx = s.spec_probe_count(level).0;
    RayLocation {
        probe: Vec2u { x: (lin % pcx) as u32, y: (lin / pcx) as u32 },
        facing: f as u32,
        level: level as u32,
    }
}

/// Indexing round-trips: the index of a valid ray decomposes back into that
/// ray.
pub proof fn lemma_index_roundtrip(s: CascadeSettings, ray: RayLocation)
    requires
        s.wf(),
        s.valid_ray(ray),
    ensures
        spec_index_ray(s, s.spec_to_index(ray)) == ray,
{
    let total = s.spec_cascade_total_size();
    let level = ray.level as int;
    let pcx = s.spec_probe_count(level).0;
    let pcy = s.spec_probe_count(level).1;
    let fc = s.spec_facing_count(level);
    s.lemma_to_index_in_range(ray);
    s.lemma_level_fits(level);
    s.lemma_probe_count_bounds(level);
    s.lemma_facing_count_bounds(level);
    let lin_full = (ray.probe.x + ray.probe.y * pcx) * fc + ray.facing;
    assert(0 <= lin_full < total) by (nonlinear_arith)
        requires
            0 <= ray.probe.x < pcx && 0 <= ray.probe.y < pcy && 0 <= ray.facing < fc
            && pcx >= 1 && pcy >= 1 && fc >= 1
            && lin_full == (ray.probe.x + ray.probe.y * pcx) * fc + ray.facing
            && pcx * pcy * fc <= total;
    let idx = s.spec_to_index(ray);
    vstd::arithmetic::div_mod::lemma_fundamental_div_mod_converse(idx, total, level, lin_full);
    assert(0 <= ray.probe.x + ray.probe.y * pcx) by (nonlinear_arith)
        requires ray.probe.x >= 0 && ray.probe.y >= 0 && pcx >= 0;
    vstd::arithmetic::div_mod::lemma_fundamental_div_mod_converse(
        lin_full, fc, ray.probe.x + ray.probe.y * pcx, ray.facing as int);
    vstd::arithmetic::div_mod::lemma_fundamental_div_mod_converse(
        ray.probe.x + ray.probe.y * pcx, pcx, ray.probe.y as int, ray.probe.x as int);
}

/// The ray of one in-level flat offset, and that its index sits at the
/// offset inside the level's slice.
pub proof fn lemma_level_slice(s: CascadeSettings, level: int, m: int)
    requires
        s.wf(),
        0 <= level < s.num_cascades,
        0 <= m < s.spec_probe_count(level).0 * s.spec_probe_count(level).1
            * s.spec_facing_count(level),
    ensures
        ({
            let ray = spec_index_ray(s, level * s.spec_cascade_total_size() + m);
            &&& s.valid_ray(ray)
            &&& ray.level == level
            &&& s.spec_to_index(ray) == level * s.spec_cascade_total_size() + m
            &&& ray.facing == m % s.spec_facing_count(level)
            &&& ray.probe.x == (m / s.spec_facing_count(level)) % s.spec_probe_count(level).0
            &&& ray.probe.y == (m / s.spec_facing_count(level)) / s.spec_probe_count(level).0
        }),
{
    let total = s.spec_cascade_total_size();
    let pcx = s.spec_probe_count(level).0;
    let pcy = s.spec_probe_count(level).1;
    let fc = s.spec_facing_count(level);
    s.lemma_level_fits(level);
    s.lemma_probe_count_bounds(level);
    s.lemma_facing_count_bounds(level);
    let i = level * total + m;
    vstd::arithmetic::div_mod::lemma_fundamental_div_mod_converse(i, total, level, m);
    let f = m % fc;
    let lin = m / fc;
    vstd::arithmetic::div_mod::lemma_fundamental_div_mod(m, fc);
    assert(0 <= f < fc) by (nonlinear_arith)
        requires f == m % fc && fc >= 1 && m >= 0;
    assert(0 <= lin < pcx * pcy) by (nonlinear_arith)
        requires lin == m / fc && fc >= 1 && 0 <= m < pcx * pcy * fc;
    let px = lin % pcx;
    let py = lin / pcx;
    vstd::arithmetic::div_mod::lemma_fundamental_div_mod(lin, pcx);
    assert(0 <= px < pcx) by (nonlinear_arith)
        requires px == lin % pcx && pcx >= 1 && lin >= 0;
    assert(0 <= py < pcy) by (nonlinear_arith)
        requires py == lin / pcx && pcx >= 1 && 0 <= lin < pcx * pcy;
    let ray = spec_index_ray(s, i);
    assert(ray.probe.x == px && ray.probe.y == py && ray.facing == f && ray.level == level);
    assert(s.spec_to_index(ray) == i) by (nonlinear_arith)
        requires
            s.spec_to_index(ray) == level * total + (px + py * pcx) * fc + f
            && i == level * total + m
            && m == fc * lin + f
            && lin == pcx * py + px;
}

/// An index in the unused tail of a level's slice decomposes into an
/// out-of-grid probe, so no valid ray addresses it.
pub proof fn lemma_level_gap(s: CascadeSettings, level: int, i: int)
    requires
        s.wf(),
        0 <= level < s.num_cascades,
        level * s.spec_cascade_total_size()
            + s.spec_probe_count(level).0 * s.spec_probe_count(level).1
                * s.spec_facing_count(level) <= i,
        i < (level + 1) * s.spec_cascade_total_size(),
    ensures
        ({
            let ray = spec_index_ray(s, i);
            !(ray.level == level && s.valid_ray(ray) && s.spec_to_index(ray) == i)
        }),
{
    let total = s.spec_cascade_total_size();
    let pcx = s.spec_probe_count(level).0;
    let pcy = s.spec_probe_count(level).1;
    let fc = s.spec_facing_count(level);
    s.lemma_level_fits(level);
    s.lemma_probe_count_bounds(level);
    s.lemma_facing_count_bounds(level);
    let rem = i - level * total;
    assert((level + 1) * total == level * total + total) by (nonlinear_arith);
    vstd::arithmetic::div_mod::lemma_fundamental_div_mod_converse(i, total, level, rem);
    let f = rem % fc;
    let lin = rem / fc;
    vstd::arithmetic::div_mod::lemma_fundamental_div_mod(rem, fc);
    assert(lin >= pcx * pcy) by (nonlinear_arith)
        requires
            lin == rem / fc && fc >= 1 && rem >= pcx * pcy * fc
            && rem == fc * (rem / fc) + rem % fc && 0 <= rem % fc < fc;
    let py = lin / pcx;
    assert(py >= pcy) by (nonlinear_arith)
        requires py == lin / pcx && pcx >= 1 && lin >= pcx * pcy;
    assert(total * 1 <= total * s.num_cascades && total <= 0x4000_0000) by (nonlinear_arith)
        requires
            total == s.base_size.probes.x * s.base_size.probes.y * s.base_size.facings
            && total * s.num_cascades
                == s.base_size.probes.x * s.base_size.probes.y * s.base_size.facings
                    * s.num_cascades
            && s.base_size.probes.x * s.base_size.probes.y * s.base_size.facings
                * s.num_cascades <= 0x4000_0000
            && 1 <= s.num_cascades && total >= 0;
    assert(lin <= rem && py <= lin) by (nonlinear_arith)
        requires lin == rem / fc && py == lin / pcx && fc >= 1 && pcx >= 1 && rem >= 0;
    let ray = spec_index_ray(s, i);
    assert(ray.probe.y == py);
    assert(!s.valid_ray(ray));
}

/// One level's merge as a whole-storage transform: entries of the level are
/// replaced by the reference formula over the previous contents, everything
/// else is untouched.
pub open spec fn spec_merge_level_seq<B: Block>(
    world: TraceWorld<B>,
    s: CascadeSettings,
    prev: Seq<Rgb>,
    level: int,
    variant: MergeVariant,
) -> Seq<Rgb> {
    let ss = spec_storage_settings(s);
    Seq::new(prev.len(), |i: int| {
        let ray = spec_index_ray(ss, i);
        if ray.level == level && ss.valid_ray(ray) && ss.spec_to_index(ray) == i {
            spec_merge_value(world, s, prev, ray.probe, ray.facing, level, variant)
        } else {
            prev[i]
        }
    })
}

/// The storage contents after running the merge for every level from the
/// coarsest down to `level`, starting from `init`.
pub open spec fn spec_storage_after<B: Block>(
    world: TraceWorld<B>,
    s: CascadeSettings,
    init: Seq<Rgb>,
    level: int,
    variant: MergeVariant,
) -> Seq<Rgb>
    decreases s.num_cascades - level,
{
    if level < 0 || level >= s.num_cascades {
        init
    } else {
        spec_merge_level_seq(world, s,
            spec_storage_after(world, s, init, level + 1, variant), level, variant)
    }
}

/// Every stored radiance honors its level's bound.
pub open spec fn spec_radiance_bounded(s: CascadeSettings, data: Seq<Rgb>) -> bool {
    forall|ray: RayLocation| spec_storage_settings(s).valid_ray(ray)
        ==> (#[trigger] data[spec_storage_settings(s).spec_to_index(ray)]).all_le(
            (s.num_cascades - ray.level) * LEVEL_RADIANCE_STEP)
}

/// What a cascade update requires of the world it reads: a well-formed grid
/// and an environment buffer sized for the coarsest boundary.
pub open spec fn spec_world_compat<B: Block>(world: TraceWorld<B>, s: CascadeSettings) -> bool {
    &&& world.wf()
    &&& world.environment@.len()
        == spec_storage_settings(s).spec_facing_count(s.num_cascades as int)
    &&& forall|i: int| 0 <= i < world.environment@.len()
        ==> (#[trigger] world.environment@[i]).all_le(ENV_RADIANCE_MAX as int)
}

/// Per-level dispatch sizing hints, keyed by the levels each block size
/// applies to. Later entries override earlier ones.
#[derive(Debug, Clone, PartialEq)]
pub struct TuningSettings {
    pub block_sizes: Vec<(Vec<u32>, [u32; 3])>,
}

/// Tuning resolved per level: the block sizes, and for each level the index
/// of the entry that applies.
#[derive(Debug, Clone, PartialEq)]
pub struct LoadedTuningSettings {
    pub block_sizes: Vec<[u32; 3]>,
    pub assignments: Vec<u32>,
}

/// The index of the last tuning entry listing a level, or -1 when none does.
pub open spec fn spec_assignment(entries: Seq<Seq<u32>>, level: u32) -> int
    decreases entries.len(),
{
    if entries.len() == 0 {
        -1
    } else if entries.last().contains(level) {
        entries.len() - 1
    } else {
        spec_assignment(entries.drop_last(), level)
    }
}

impl TuningSettings {
    /// The level lists of the entries, in order.
    pub open spec fn spec_levels(self) -> Seq<Seq<u32>> {
        self.block_sizes@.map(|i: int, e: (Vec<u32>, [u32; 3])| e.0@)
    }

    /// Resolves the per-level assignments: every level must be covered by
    /// some entry, and the last entry listing a level wins.
    #[verifier::loop_isolation(false)]
    pub fn load(self, num_cascades: u32) -> (out: LoadedTuningSettings)
        requires
            num_cascades >= 1,
            self.block_sizes@.len() < 0x1000,
            forall|level: u32| level < num_cascades
                ==> spec_assignment(self.spec_levels(), level) >= 0,
        ensures
            out.block_sizes@.len() == self.block_sizes@.len(),
            forall|i: int| 0 <= i < out.block_sizes@.len()
                ==> (#[trigger] out.block_sizes@[i]) == self.block_sizes@[i].1,
            out.assignments@.len() == num_cascades,
            forall|level: u32| level < num_cascades
                ==> (#[trigger] out.assignments@[level as int]) as int
                    == spec_assignment(self.spec_levels(), level),
            forall|level: u32| level < num_cascades
                ==> (#[trigger] out.assignments@[level as int]) < out.block_sizes@.len(),
    {
        let mut assignments: Vec<u32> = Vec::new();
        while assignments.len() < num_cascades as usize
            invariant
                assignments@.len() <= num_cascades,
                forall|i: int| 0 <= i < assignments@.len()
                    ==> (#[trigger] assignments@[i]) == u32::MAX,
            decreases num_cascades as int - assignments@.len(),
        {
            assignments.push(u32::MAX);
        }
        let mut block_sizes: Vec<[u32; 3]> = Vec::new();
        let mut t: usize = 0;
        while t < self.block_sizes.len()
            invariant
                t <= self.block_sizes@.len(),
                block_sizes@.len() == t,
                forall|i: int| 0 <= i < t
                    ==> (#[trigger] block_sizes@[i]) == self.block_sizes@[i].1,
                assignments@.len() == num_cascades,
                forall|level: u32| level < num_cascades
                    ==> (#[trigger] assignments@[level as int]) as int
                        == (if spec_assignment(self.spec_levels().take(t as int), level) >= 0 {
                            spec_assignment(self.spec_levels().take(t as int), level)
                        } else {
                            u32::MAX as int
                        }),
            decreases self.block_sizes@.len() - t,
        {
            let entry_levels: &Vec<u32> = &self.block_sizes[t].0;
            let bs = self.block_sizes[t].1;
            block_sizes.push(bs);
            let mut li: usize = 0;
            while li < entry_levels.len()
                invariant
                    li <= entry_levels@.len(),
                    t < self.block_sizes@.len(),
                    entry_levels@ == self.block_sizes@[t as int].0@,
                    assignments@.len() == num_cascades,
                    forall|level: u32| level < num_cascades
                        ==> (#[trigger] assignments@[level as int]) as int
                            == (if exists|x: int| 0 <= x < li && entry_levels@[x] == level {
                                t as int
                            } else if spec_assignment(self.spec_levels().take(t as int), level) >= 0 {
                                spec_assignment(self.spec_levels().take(t as int), level)
                            } else {
                                u32::MAX as int
                            }),
                decreases entry_levels@.len() - li,
            {
                let level = entry_levels[li];
                if level < num_cascades {
                    assignments.set(level as usize, t as u32);
                }
                li = li + 1;
                proof {
                    assert(entry_levels@[li - 1] == level);
                }
            }
            t = t + 1;
            proof {
                let levels_all = self.spec_levels();
                assert(levels_all.take(t as int).drop_last() =~= levels_all.take(t as int - 1));
                assert(levels_all.take(t as int).last() == entry_levels@);
                assert forall|level: u32| level < num_cascades
                    implies (#[trigger] assignments@[level as int]) as int
                        == (if spec_assignment(levels_all.take(t as int), level) >= 0 {
                            spec_assignment(levels_all.take(t as int), level)
                        } else {
                            u32::MAX as int
                        }) by {
                    if entry_levels@.contains(level) {
                        assert(exists|x: int| 0 <= x < entry_levels@.len()
                            && entry_levels@[x] == level);
                        assert(spec_assignment(levels_all.take(t as int), level) == t - 1);
                    } else {
                        assert(!(exists|x: int| 0 <= x < entry_levels@.len()
                            && entry_levels@[x] == level));
                    }
                }
            }
        }
        proof {
            assert(self.spec_levels().take(self.spec_levels().len() as int)
                =~= self.spec_levels());
            assert forall|level: u32| level < num_cascades
                implies (#[trigger] assignments@[level as int]) < block_sizes@.len() by {
                assert(spec_assignment(self.spec_levels(), level) >= 0);
                lemma_assignment_range(self.spec_levels(), level);
            }
        }
        LoadedTuningSettings { block_sizes, assignments }
    }
}

/// A nonnegative assignment indexes an entry.
proof fn lemma_assignment_range(entries: Seq<Seq<u32>>, level: u32)
    ensures
        spec_assignment(entries, level) < entries.len(),
        -1 <= spec_assignment(entries, level),
    decreases entries.len(),
{
    if entries.len() > 0 && !entries.last().contains(level) {
        lemma_assignment_range(entries.drop_last(), level);
    }
}

/// The merge engine: immutable configuration, the owned radiance hierarchy,
/// and the per-level tuning table.
pub struct RadianceCascades {
    /// Immutable configuration, set once at construction.
    pub settings: CascadeSettings,
    /// The backing radiance hierarchy; read directly by display code at the
    /// finest level.
    pub radiance: CascadeStorage<Rgb>,
    /// Per-level dispatch sizing, resolved at construction.
    pub tuning: LoadedTuningSettings,
}

impl RadianceCascades {
    /// Engine invariant: an accepted configuration, storage sized from its
    /// prefiltered settings, and per-level radiance bounds.
    pub open spec fn wf(self) -> bool {
        &&& spec_engine_settings(self.settings)
        &&& self.radiance.wf()
        &&& self.radiance.spec_settings() == spec_storage_settings(self.settings)
        &&& spec_radiance_bounded(self.settings, self.radiance.spec_data())
    }

    /// The configuration this engine was built with.
    pub fn cascade_settings(&self) -> (s: CascadeSettings)
        ensures
            s == self.settings,
    {
        self.settings
    }

    /// Builds an engine: storage is allocated from the prefiltered settings
    /// and zeroed, tuning is resolved per level.
    pub fn new(settings: CascadeSettings, tuning: TuningSettings) -> (out: RadianceCascades)
        requires
            spec_engine_settings(settings),
            settings.num_cascades >= 1,
            tuning.block_sizes@.len() < 0x1000,
            forall|level: u32| level < settings.num_cascades
                ==> spec_assignment(tuning.spec_levels(), level) >= 0,
        ensures
            out.wf(),
            out.settings == settings,
            forall|i: int| 0 <= i < out.radiance.spec_data().len()
                ==> (#[trigger] out.radiance.spec_data()[i]) == (Rgb { r: 0, g: 0, b: 0 }),
    {
        proof {
            lemma_storage_settings_wf(settings);
        }
        let b = settings.branches();
        let stored = CascadeSettings {
            base_size: CascadeSize {
                probes: settings.base_size.probes,
                facings: settings.base_size.facings / b,
            },
            ..settings
        };
        proof {
            assert(stored == spec_storage_settings(settings));
        }
        let radiance = CascadeStorage::new(stored, Rgb { r: 0, g: 0, b: 0 });
        let loaded = tuning.load(settings.num_cascades);
        let out = RadianceCascades { settings, radiance, tuning: loaded };
        proof {
            assert forall|ray: RayLocation| spec_storage_settings(settings).valid_ray(ray)
                implies (#[trigger] out.radiance.spec_data()[
                    spec_storage_settings(settings).spec_to_index(ray)]).all_le(
                    (settings.num_cascades - ray.level) * LEVEL_RADIANCE_STEP) by {
                spec_storage_settings(settings).lemma_to_index_in_range(ray);
                assert((settings.num_cascades - ray.level) * LEVEL_RADIANCE_STEP >= 0)
                    by (nonlinear_arith)
                    requires ray.level < settings.num_cascades;
            }
        }
        out
    }

    /// How many interchangeable merge policies are available.
    pub fn merge_kernel_count(&self) -> (n: usize)
        ensures
            n == 3,
    {
        3
    }

    /// Runs one level's merge: every stored entry of the level is replaced by
    /// the reference formula over the current (coarser-level) contents.
    #[verifier::loop_isolation(false)]
    #[verifier::rlimit(100)]
    fn merge_level<B: Block>(&mut self, world: &TraceWorld<B>, level: u32, variant: MergeVariant)
        requires
            old(self).wf(),
            spec_world_compat(*world, old(self).settings),
            level < old(self).settings.num_cascades,
        ensures
            final(self).wf(),
            final(self).settings == old(self).settings,
            final(self).tuning == old(self).tuning,
            final(self).radiance.spec_settings() == old(self).radiance.spec_settings(),
            final(self).radiance.spec_data() == spec_merge_level_seq(
                *world, old(self).settings, old(self).radiance.spec_data(), level as int, variant),
    {
        let s = self.settings;
        let ghost ss = spec_storage_settings(s);
        let ghost data0 = self.radiance.spec_data();
        proof {
            lemma_storage_settings_wf(s);
            assert(spec_merge_ctx(*world, s, data0));
        }
        let stored = self.radiance.settings();
        let pc = stored.probe_count(level);
        let fc = stored.facing_count(level);
        let total = stored.cascade_total_size();
        proof {
            ss.lemma_level_fits(level as int);
            ss.lemma_probe_count_bounds(level as int);
            ss.lemma_facing_count_bounds(level as int);
            assert(pc.x * pc.y * fc <= total && pc.x * pc.y >= 1
                && pc.x * pc.y <= 4096 * 4096) by (nonlinear_arith)
                requires
                    pc.x as int * pc.y as int * fc as int <= total
                    && 1 <= pc.x <= 4096 && 1 <= pc.y <= 4096 && fc >= 1;
            assert(pc.x as int * pc.y as int * fc as int >= 1) by (nonlinear_arith)
                requires pc.x >= 1 && pc.y >= 1 && fc >= 1;
        }
        let count: u64 = (pc.x as u64) * (pc.y as u64) * (fc as u64);
        let ghost base = level * ss.spec_cascade_total_size();
        let mut vals: Vec<Rgb> = Vec::new();
        let mut k: u64 = 0;
        while k < count
            invariant
                k == vals@.len(),
                k <= count,
                forall|m: int| 0 <= m < k ==> (#[trigger] vals@[m]) == spec_merge_value(
                    *world, s, data0,
                    spec_index_ray(ss, base + m).probe,
                    spec_index_ray(ss, base + m).facing,
                    level as int, variant),
                forall|m: int| 0 <= m < k ==> (#[trigger] vals@[m]).all_le(
                    (s.num_cascades - level) * LEVEL_RADIANCE_STEP),
            decreases count - k,
        {
            let f = (k % (fc as u64)) as u32;
            let lin = k / (fc as u64);
            let px = (lin % (pc.x as u64)) as u32;
            let py = (lin / (pc.x as u64)) as u32;
            proof {
                lemma_level_slice(ss, level as int, k as int);
                assert(lin <= k && lin as int / (pc.x as int) <= lin) by (nonlinear_arith)
                    requires lin == k as int / fc as int && fc >= 1 && pc.x >= 1 && k >= 0;
                assert(spec_index_ray(ss, base + k).probe == Vec2u { x: px, y: py }
                    && spec_index_ray(ss, base + k).facing == f);
            }
            let v = merge_ray(world, s, &self.radiance, Vec2u { x: px, y: py }, f, level, variant);
            vals.push(v);
            k = k + 1;
        }
        proof {
            let totals = ss.spec_cascade_total_size();
            assert(base + totals <= s.num_cascades * totals && base >= 0) by (nonlinear_arith)
                requires
                    base == level * totals && level < s.num_cascades && totals >= 1;
            assert(base + count <= data0.len());
        }
        let mut k2: u64 = 0;
        while k2 < count
            invariant
                k2 <= count,
                vals@.len() == count,
                self.settings == s,
                self.tuning == old(self).tuning,
                self.radiance.wf(),
                self.radiance.spec_settings() == ss,
                self.radiance.spec_data().len() == data0.len(),
                forall|m: int| 0 <= m < count ==> (#[trigger] vals@[m]) == spec_merge_value(
                    *world, s, data0,
                    spec_index_ray(ss, base + m).probe,
                    spec_index_ray(ss, base + m).facing,
                    level as int, variant),
                forall|m: int| 0 <= m < count ==> (#[trigger] vals@[m]).all_le(
                    (s.num_cascades - level) * LEVEL_RADIANCE_STEP),
                forall|i: int| 0 <= i < data0.len() && !(base <= i < base + k2)
                    ==> (#[trigger] self.radiance.spec_data()[i]) == data0[i],
                forall|i: int| base <= i < base + k2
                    ==> (#[trigger] self.radiance.spec_data()[i]) == vals@[i - base],
            decreases count - k2,
        {
            let f = (k2 % (fc as u64)) as u32;
            let lin = k2 / (fc as u64);
            let px = (lin % (pc.x as u64)) as u32;
            let py = (lin / (pc.x as u64)) as u32;
            let ray = RayLocation { probe: Vec2u { x: px, y: py }, facing: f, level };
            proof {
                lemma_level_slice(ss, level as int, k2 as int);
                assert(lin <= k2 && lin as int / (pc.x as int) <= lin) by (nonlinear_arith)
                    requires lin == k2 as int / fc as int && fc >= 1 && pc.x >= 1 && k2 >= 0;
                assert(spec_index_ray(ss, base + k2) == ray);
                assert(ss.spec_to_index(ray) == base + k2);
            }
            let v = vals[k2 as usize];
            let ghost before = self.radiance.spec_data();
            self.radiance.write(ray, v);
            k2 = k2 + 1;
            proof {
                assert(self.radiance.spec_data() == before.update(base + k2 - 1, v));
                assert forall|i: int| 0 <= i < data0.len() && !(base <= i < base + k2)
                    implies (#[trigger] self.radiance.spec_data()[i]) == data0[i] by {
                    assert(i != base + k2 - 1);
                    assert(self.radiance.spec_data()[i] == before[i]);
                }
                assert forall|i: int| base <= i < base + k2
                    implies (#[trigger] self.radiance.spec_data()[i]) == vals@[i - base] by {
                    if i == base + k2 - 1 {
                        assert(self.radiance.spec_data()[i] == v);
                    } else {
                        assert(self.radiance.spec_data()[i] == before[i]);
                    }
                }
            }
        }
        proof {
            let dataf = self.radiance.spec_data();
            let goal = spec_merge_level_seq(*world, s, data0, level as int, variant);
            assert forall|i: int| 0 <= i < data0.len()
                implies dataf[i] == goal[i] by {
                let ray = spec_index_ray(ss, i);
                let totals = ss.spec_cascade_total_size();
                if base <= i < base + count {
                    lemma_level_slice(ss, level as int, i - base);
                    assert(dataf[i] == vals@[i - base]);
                } else if base + count <= i < base + totals {
                    assert((level as int + 1) * totals == level * totals + totals)
                        by (nonlinear_arith);
                    lemma_level_gap(ss, level as int, i);
                    assert(dataf[i] == data0[i]);
                } else {
                    // Outside the level's slice entirely: the decomposed level
                    // differs.
                    assert(data0.len() == s.num_cascades * totals);
                    if i / totals == level as int {
                        vstd::arithmetic::div_mod::lemma_fundamental_div_mod(i, totals);
                        assert(base <= i < base + totals) by (nonlinear_arith)
                            requires
                                i == totals * (i / totals) + i % totals
                                && i / totals == level as int && totals >= 1
                                && 0 <= i % totals < totals && base == level * totals;
                        assert(false);
                    }
                    vstd::arithmetic::div_mod::lemma_fundamental_div_mod(i, totals);
                    assert(0 <= i / totals < s.num_cascades) by (nonlinear_arith)
                        requires
                            0 <= i && i < s.num_cascades * totals && totals >= 1
                            && i == totals * (i / totals) + i % totals
                            && 0 <= i % totals < totals;
                    assert(ray.level == i / totals);
                    assert(ray.level != level);
                    assert(dataf[i] == data0[i]);
                }
            }
            assert(dataf =~= goal);
            // Preserve the per-level radiance bounds.
            assert forall|ray: RayLocation| ss.valid_ray(ray)
                implies (#[trigger] dataf[ss.spec_to_index(ray)]).all_le(
                    (s.num_cascades - ray.level) * LEVEL_RADIANCE_STEP) by {
                ss.lemma_to_index_in_range(ray);
                let idx = ss.spec_to_index(ray);
                if base <= idx < base + count {
                    lemma_level_slice(ss, level as int, idx - base);
                    lemma_index_roundtrip(ss, ray);
                } else {
                    assert(dataf[idx] == data0[idx]);
                }
            }
        }
    }

    /// One full frame's cascade refresh: merges every level from the coarsest
    /// down to the finest, so each level reads only finalized coarser values.
    /// Afterwards the storage holds exactly the reference cascade solution
    /// computed from the world, the environment and the previous contents.
    pub fn update<B: Block>(&mut self, world: &TraceWorld<B>, variant: MergeVariant)
        requires
            old(self).wf(),
            spec_world_compat(*world, old(self).settings),
        ensures
            final(self).wf(),
            final(self).settings == old(self).settings,
            final(self).tuning == old(self).tuning,
            final(self).radiance.spec_settings() == old(self).radiance.spec_settings(),
            final(self).radiance.spec_data() == spec_storage_after(
                *world, old(self).settings, old(self).radiance.spec_data(), 0, variant),
    {
        let num = self.settings.num_cascades;
        let ghost init = self.radiance.spec_data();
        let ghost s = self.settings;
        let mut level = num;
        while level > 0
            invariant
                level <= num,
                self.wf(),
                self.settings == s,
                self.tuning == old(self).tuning,
                num == s.num_cascades,
                self.radiance.spec_settings() == old(self).radiance.spec_settings(),
                spec_world_compat(*world, s),
                self.radiance.spec_data() == spec_storage_after(*world, s, init, level as int, variant),
            decreases level,
        {
            level = level - 1;
            self.merge_level(world, level, variant);
        }
    }
}

/// After a full update, every stored entry equals the reference formula
/// applied to the already-finalized next-level contents (or, at the coarsest
/// level, the environment): the level ordering of the merge is correct.
pub proof fn lemma_update_reference<B: Block>(
    world: TraceWorld<B>,
    s: CascadeSettings,
    init: Seq<Rgb>,
    ray: RayLocation,
    variant: MergeVariant,
)
    requires
        spec_engine_settings(s),
        spec_storage_settings(s).valid_ray(ray),
        init.len() == s.num_cascades * spec_storage_settings(s).spec_cascade_total_size(),
    ensures
        spec_storage_after(world, s, init, 0, variant)[
            spec_storage_settings(s).spec_to_index(ray)]
            == spec_merge_value(world, s,
                spec_storage_after(world, s, init, ray.level as int + 1, variant),
                ray.probe, ray.facing, ray.level as int, variant),
{
    lemma_storage_settings_wf(s);
    lemma_update_reference_aux(world, s, init, ray, variant, 0);
}

/// Induction on the processed levels: below the ray's level the merge leaves
/// its entry untouched; at the ray's level it writes the reference value.
proof fn lemma_update_reference_aux<B: Block>(
    world: TraceWorld<B>,
    s: CascadeSettings,
    init: Seq<Rgb>,
    ray: RayLocation,
    variant: MergeVariant,
    level: int,
)
    requires
        spec_engine_settings(s),
        spec_storage_settings(s).wf(),
        spec_storage_settings(s).valid_ray(ray),
        init.len() == s.num_cascades * spec_storage_settings(s).spec_cascade_total_size(),
        0 <= level <= ray.level,
    ensures
        spec_storage_after(world, s, init, level, variant)[
            spec_storage_settings(s).spec_to_index(ray)]
            == spec_merge_value(world, s,
                spec_storage_after(world, s, init, ray.level as int + 1, variant),
                ray.probe, ray.facing, ray.level as int, variant),
    decreases ray.level as int - level,
{
    let ss = spec_storage_settings(s);
    let idx = ss.spec_to_index(ray);
    ss.lemma_to_index_in_range(ray);
    lemma_index_roundtrip(ss, ray);
    lemma_storage_after_len(world, s, init, level + 1, variant);
    if level == ray.level {
        assert(spec_storage_after(world, s, init, level, variant)
            == spec_merge_level_seq(world, s,
                spec_storage_after(world, s, init, level + 1, variant), level, variant));
    } else {
        lemma_update_reference_aux(world, s, init, ray, variant, level + 1);
        assert(spec_index_ray(ss, idx).level != level);
    }
}

/// Merging levels never changes the storage length.
proof fn lemma_storage_after_len<B: Block>(
    world: TraceWorld<B>,
    s: CascadeSettings,
    init: Seq<Rgb>,
    level: int,
    variant: MergeVariant,
)
    ensures
        spec_storage_after(world, s, init, level, variant).len() == init.len(),
    decreases s.num_cascades - level,
{
    if 0 <= level < s.num_cascades {
        lemma_storage_after_len(world, s, init, level + 1, variant);
    }
}

/// Channel-wise sum of the stored radiance over the first n facings of one
/// probe at one level.
pub open spec fn spec_probe_sum(
    s: CascadeSettings,
    data: Seq<Rgb>,
    probe: Vec2u,
    level: int,
    n: nat,
) -> (int, int, int)
    decreases n,
{
    if n == 0 {
        (0, 0, 0)
    } else {
        let rest = spec_probe_sum(s, data, probe, level, (n - 1) as nat);
        let v = data[spec_storage_settings(s).spec_to_index(RayLocation {
            probe,
            facing: (n - 1) as u32,
            level: level as u32,
        })];
        (rest.0 + v.r, rest.1 + v.g, rest.2 + v.b)
    }
}

impl RadianceCascades {
    /// The stored radiance of one probe at one level, averaged over all its
    /// stored facings: what the display step consumes per pixel.
    #[verifier::loop_isolation(false)]
    #[verifier::rlimit(100)]
    pub fn probe_radiance(&self, probe: Vec2u, level: u32) -> (out: Rgb)
        requires
            self.wf(),
            level < self.settings.num_cascades,
            probe.x < self.settings.spec_probe_count(level as int).0,
            probe.y < self.settings.spec_probe_count(level as int).1,
        ensures
            ({
                let ss = spec_storage_settings(self.settings);
                let fc = ss.spec_facing_count(level as int);
                let sum = spec_probe_sum(self.settings, self.radiance.spec_data(), probe,
                    level as int, fc as nat);
                out == (Rgb { r: (sum.0 / fc) as u64, g: (sum.1 / fc) as u64, b: (sum.2 / fc) as u64 })
            }),
    {
        proof {
            lemma_storage_settings_wf(self.settings);
            spec_storage_settings(self.settings).lemma_facing_count_bounds(level as int);
        }
        let stored = self.radiance.settings();
        let fc = stored.facing_count(level);
        let ghost bound = (self.settings.num_cascades - level) * LEVEL_RADIANCE_STEP;
        proof {
            assert(bound <= 12 * LEVEL_RADIANCE_STEP) by (nonlinear_arith)
                requires
                    bound == (self.settings.num_cascades - level) * LEVEL_RADIANCE_STEP
                    && level < self.settings.num_cascades <= 12;
        }
        let mut sum_r: u128 = 0;
        let mut sum_g: u128 = 0;
        let mut sum_b: u128 = 0;
        let mut f: u32 = 0;
        while f < fc
            invariant
                f <= fc,
                (sum_r as int, sum_g as int, sum_b as int) == spec_probe_sum(
                    self.settings, self.radiance.spec_data(), probe, level as int, f as nat),
                sum_r <= f * bound,
                sum_g <= f * bound,
                sum_b <= f * bound,
            decreases fc - f,
        {
            let ray = RayLocation { probe, facing: f, level };
            let v = self.radiance.read(ray);
            proof {
                assert((f + 1) * bound == f * bound + bound) by (nonlinear_arith);
                assert(f * bound <= 0x4000_0000 * (12 * LEVEL_RADIANCE_STEP)) by (nonlinear_arith)
                    requires 0 <= f <= 0x4000_0000u32 && 0 <= bound <= 12 * LEVEL_RADIANCE_STEP;
            }
            sum_r = sum_r + v.r as u128;
            sum_g = sum_g + v.g as u128;
            sum_b = sum_b + v.b as u128;
            f = f + 1;
        }
        proof {
            assert(sum_r as int / (fc as int) <= bound && sum_g as int / (fc as int) <= bound
                && sum_b as int / (fc as int) <= bound) by (nonlinear_arith)
                requires
                    sum_r <= fc * bound && sum_g <= fc * bound && sum_b <= fc * bound
                    && fc >= 1 && sum_r >= 0 && sum_g >= 0 && sum_b >= 0 && bound >= 0;
        }
        Rgb {
            r: (sum_r / (fc as u128)) as u64,
            g: (sum_g / (fc as u128)) as u64,
            b: (sum_b / (fc as u128)) as u64,
        }
    }
}

/// Combines the averaged cascade radiance with a cell's surface response:
/// the radiance is modulated by the diffuse reflectance (a Q16 fraction) and
/// the cell's own emission is added.
pub fn compose_lighting(avg: Rgb, diffuse: Rgb, emissive: Rgb) -> (out: Rgb)
    requires
        avg.all_le(RADIANCE_LIMIT as int),
        diffuse.all_le(SCALE as int),
        emissive.r + avg.r <= u64::MAX,
        emissive.g + avg.g <= u64::MAX,
        emissive.b + avg.b <= u64::MAX,
    ensures
        out.r == crate::fixed::spec_mul_q16(avg.r as int, diffuse.r as int) + emissive.r,
        out.g == crate::fixed::spec_mul_q16(avg.g as int, diffuse.g as int) + emissive.g,
        out.b == crate::fixed::spec_mul_q16(avg.b as int, diffuse.b as int) + emissive.b,
{
    proof {
        assert(avg.r * diffuse.r <= u64::MAX && 0 <= avg.r * diffuse.r / (SCALE as int) <= avg.r
            && avg.g * diffuse.g <= u64::MAX && 0 <= avg.g * diffuse.g / (SCALE as int) <= avg.g
            && avg.b * diffuse.b <= u64::MAX && 0 <= avg.b * diffuse.b / (SCALE as int) <= avg.b)
            by (nonlinear_arith)
            requires
                avg.r <= RADIANCE_LIMIT && avg.g <= RADIANCE_LIMIT && avg.b <= RADIANCE_LIMIT
                && 0 <= diffuse.r <= SCALE && 0 <= diffuse.g <= SCALE && 0 <= diffuse.b <= SCALE
                && avg.r >= 0 && avg.g >= 0 && avg.b >= 0;
    }
    Rgb {
        r: crate::fixed::mul_q16(avg.r, diffuse.r) + emissive.r,
        g: crate::fixed::mul_q16(avg.g, diffuse.g) + emissive.g,
        b: crate::fixed::mul_q16(avg.b, diffuse.b) + emissive.b,
    }
}

} // verus!

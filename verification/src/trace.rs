//! The world ray tracer: a DDA march through the per-pixel opacity/radiance
//! grid, accelerated by a per-block difference mask, accumulating fluence in
//! Q16 fixed point.

use vstd::prelude::*;
use crate::cascade::{Interval, Vec2q, Vec2u};
use crate::color::{Color, Fluence, Rgb, CELL_RADIANCE_MAX, OPACITY_MAX};
use crate::fixed::SCALE;

verus! {

/// A fixed-size square tile of per-pixel difference bits, packed into one
/// machine word. The tracer skips whole empty tiles at once.
pub trait Block: Sized + Copy {
    /// Tile edge length in pixels.
    spec fn spec_size() -> int;

    /// Whether the bit of one pixel inside the tile is set.
    spec fn spec_get(self, x: u32, y: u32) -> bool;

    /// Whether no bit of the tile is set.
    spec fn spec_is_empty(self) -> bool;

    /// Tile edge length in pixels.
    fn size() -> (s: u32)
        ensures
            s == Self::spec_size(),
            1 <= s <= 8,
    ;

    /// Reads the bit of one pixel.
    fn get(this: Self, offset: Vec2u) -> (b: bool)
        requires
            offset.x < Self::spec_size(),
            offset.y < Self::spec_size(),
        ensures
            b == this.spec_get(offset.x, offset.y),
    ;

    /// Sets the bit of one pixel, leaving all other bits unchanged.
    fn set(this: &mut Self, offset: Vec2u)
        requires
            offset.x < Self::spec_size(),
            offset.y < Self::spec_size(),
        ensures
            forall|a: u32, b: u32| a < Self::spec_size() && b < Self::spec_size()
                ==> (#[trigger] final(this).spec_get(a, b))
                    == (old(this).spec_get(a, b) || (a == offset.x && b == offset.y)),
    ;

    /// Whether no bit of the tile is set.
    fn is_empty(this: Self) -> (b: bool)
        ensures
            b == this.spec_is_empty(),
    ;

    /// The tile with no bit set.
    fn empty() -> (b: Self)
        ensures
            b.spec_is_empty(),
            forall|a: u32, c: u32| a < Self::spec_size() && c < Self::spec_size()
                ==> !(#[trigger] b.spec_get(a, c)),
    ;

    /// An empty tile has no bit set.
    proof fn lemma_empty_no_bits(self)
        requires
            self.spec_is_empty(),
        ensures
            forall|a: u32, c: u32| a < Self::spec_size() && c < Self::spec_size()
                ==> !(#[trigger] self.spec_get(a, c)),
    ;
}

impl Block for bool {
    open spec fn spec_size() -> int {
        1
    }

    open spec fn spec_get(self, x: u32, y: u32) -> bool {
        self
    }

    open spec fn spec_is_empty(self) -> bool {
        !self
    }

    fn size() -> u32 {
        1
    }

    fn get(this: Self, _offset: Vec2u) -> bool {
        this
    }

    fn set(this: &mut Self, _offset: Vec2u) {
        *this = true;
    }

    fn is_empty(this: Self) -> bool {
        !this
    }

    fn empty() -> Self {
        false
    }

    proof fn lemma_empty_no_bits(self) {
    }
}

impl Block for u16 {
    open spec fn spec_size() -> int {
        4
    }

    open spec fn spec_get(self, x: u32, y: u32) -> bool {
        (self >> ((x + y * 4) as u16)) & 1 == 1
    }

    open spec fn spec_is_empty(self) -> bool {
        self == 0
    }

    fn size() -> u32 {
        4
    }

    fn get(this: Self, offset: Vec2u) -> (b: bool)
    {
        let sh = (offset.x + offset.y * 4) as u16;
        proof {
            assert(this & (1u16 << sh) != 0 <==> (this >> sh) & 1 == 1) by (bit_vector)
                requires sh < 16u16;
        }
        this & (1u16 << sh) != 0
    }

    fn set(this: &mut Self, offset: Vec2u)
    {
        let sh = (offset.x + offset.y * 4) as u16;
        let prev = *this;
        *this = prev | (1u16 << sh);
        proof {
            assert(forall|t: u16| t < 16u16
                ==> #[trigger] (((prev | (1u16 << sh)) >> t) & 1)
                    == (if t == sh { 1u16 } else { (prev >> t) & 1 })) by (bit_vector)
                requires sh < 16u16;
            assert forall|a: u32, c: u32| a < 4 && c < 4
                implies (#[trigger] (*this).spec_get(a, c))
                    == (prev.spec_get(a, c) || (a == offset.x && c == offset.y)) by {
                let t = (a + c * 4) as u16;
                assert(t < 16u16);
                assert((((prev | (1u16 << sh)) >> t) & 1)
                    == (if t == sh { 1u16 } else { (prev >> t) & 1 }));
                if a == offset.x && c == offset.y {
                    assert(t == sh);
                } else {
                    assert(a + c * 4 < 16 && offset.x + offset.y * 4 < 16);
                    assert(a + c * 4 != offset.x + offset.y * 4);
                    assert(t != sh);
                }
            }
        }
    }

    fn is_empty(this: Self) -> bool {
        this == 0
    }

    fn empty() -> (b: Self)
    {
        proof {
            (0u16).lemma_empty_no_bits();
        }
        0
    }

    proof fn lemma_empty_no_bits(self) {
        assert(forall|t: u16| t < 16u16 ==> #[trigger] ((self >> t) & 1) == 0) by (bit_vector)
            requires self == 0u16;
        assert forall|a: u32, c: u32| a < 4 && c < 4 implies !(#[trigger] self.spec_get(a, c)) by {
            let t = (a + c * 4) as u16;
            assert(t < 16u16);
            assert((self >> t) & 1 == 0);
        }
    }
}

impl Block for u64 {
    open spec fn spec_size() -> int {
        8
    }

    open spec fn spec_get(self, x: u32, y: u32) -> bool {
        (self >> ((x + y * 8) as u64)) & 1 == 1
    }

    open spec fn spec_is_empty(self) -> bool {
        self == 0
    }

    fn size() -> u32 {
        8
    }

    fn get(this: Self, offset: Vec2u) -> (b: bool)
    {
        let sh = (offset.x + offset.y * 8) as u64;
        proof {
            assert(this & (1u64 << sh) != 0 <==> (this >> sh) & 1 == 1) by (bit_vector)
                requires sh < 64u64;
        }
        this & (1u64 << sh) != 0
    }

    fn set(this: &mut Self, offset: Vec2u)
    {
        let sh = (offset.x + offset.y * 8) as u64;
        let prev = *this;
        *this = prev | (1u64 << sh);
        proof {
            assert(forall|t: u64| t < 64u64
                ==> #[trigger] (((prev | (1u64 << sh)) >> t) & 1)
                    == (if t == sh { 1u64 } else { (prev >> t) & 1 })) by (bit_vector)
                requires sh < 64u64;
            assert forall|a: u32, c: u32| a < 8 && c < 8
                implies (#[trigger] (*this).spec_get(a, c))
                    == (prev.spec_get(a, c) || (a == offset.x && c == offset.y)) by {
                let t = (a + c * 8) as u64;
                assert(t < 64u64);
                assert((((prev | (1u64 << sh)) >> t) & 1)
                    == (if t == sh { 1u64 } else { (prev >> t) & 1 }));
                if a == offset.x && c == offset.y {
                    assert(t == sh);
                } else {
                    assert(a + c * 8 < 64 && offset.x + offset.y * 8 < 64);
                    assert(a + c * 8 != offset.x + offset.y * 8);
                    assert(t != sh);
                }
            }
        }
    }

    fn is_empty(this: Self) -> bool {
        this == 0
    }

    fn empty() -> (b: Self)
    {
        proof {
            (0u64).lemma_empty_no_bits();
        }
        0
    }

    proof fn lemma_empty_no_bits(self) {
        assert(forall|t: u64| t < 64u64 ==> #[trigger] ((self >> t) & 1) == 0) by (bit_vector)
            requires self == 0u64;
        assert forall|a: u32, c: u32| a < 8 && c < 8 implies !(#[trigger] self.spec_get(a, c)) by {
            let t = (a + c * 8) as u64;
            assert(t < 64u64);
            assert((self >> t) & 1 == 0);
        }
    }
}

/// Largest world edge in pixels.
pub const WORLD_SIZE_MAX: u32 = 8192;

/// Everything a trace reads: the per-pixel radiance and opacity grids, the
/// environment boundary radiance, and the difference mask (per-pixel bits
/// grouped into tiles plus a per-tile any-bit flag).
pub struct TraceWorld<B> {
    pub size: Vec2u,
    pub radiance: Vec<Rgb>,
    pub opacity: Vec<Rgb>,
    pub environment: Vec<Rgb>,
    pub diff: Vec<B>,
    pub diff_blocks: Vec<bool>,
}

impl<B: Block> TraceWorld<B> {
    /// Grid sizes agree, the size divides evenly into tiles, and every cell
    /// is within the renderer's value bounds.
    pub open spec fn wf(self) -> bool {
        &&& 1 <= B::spec_size() <= 8
        &&& 1 <= self.size.x <= WORLD_SIZE_MAX
        &&& 1 <= self.size.y <= WORLD_SIZE_MAX
        &&& self.size.x as int % B::spec_size() == 0
        &&& self.size.y as int % B::spec_size() == 0
        &&& self.radiance@.len() == self.size.x * self.size.y
        &&& self.opacity@.len() == self.size.x * self.size.y
        &&& self.diff@.len() == (self.size.x as int / B::spec_size()) * (self.size.y as int / B::spec_size())
        &&& self.diff_blocks@.len() == self.diff@.len()
        &&& forall|i: int| 0 <= i < self.radiance@.len()
            ==> (#[trigger] self.radiance@[i]).all_le(CELL_RADIANCE_MAX as int)
        &&& forall|i: int| 0 <= i < self.opacity@.len()
            ==> (#[trigger] self.opacity@[i]).all_le(OPACITY_MAX as int)
    }

    /// World width in pixels.
    pub fn width(&self) -> (w: u32)
        ensures
            w == self.size.x,
    {
        self.size.x
    }

    /// World height in pixels.
    pub fn height(&self) -> (h: u32)
        ensures
            h == self.size.y,
    {
        self.size.y
    }

    /// The attributes of one cell.
    pub open spec fn spec_cell(self, x: int, y: int) -> Color {
        Color {
            radiance: self.radiance@[y * self.size.x + x],
            opacity: self.opacity@[y * self.size.x + x],
        }
    }

    /// Reads the attributes of one cell.
    pub fn cell(&self, x: u32, y: u32) -> (c: Color)
        requires
            self.wf(),
            x < self.size.x,
            y < self.size.y,
        ensures
            c == self.spec_cell(x as int, y as int),
            c.wf(),
    {
        proof {
            assert(y * self.size.x + x < self.size.x * self.size.y
                && 0 <= y * self.size.x + x
                && y * self.size.x + x < 8192 * 8192
                && y * self.size.x <= 8192 * 8192) by (nonlinear_arith)
                requires x < self.size.x && y < self.size.y && self.size.x >= 1 && self.size.y >= 1
                    && self.size.x <= 8192 && self.size.y <= 8192;
        }
        let idx = (y as usize) * (self.size.x as usize) + (x as usize);
        Color { radiance: self.radiance[idx], opacity: self.opacity[idx] }
    }

    /// The difference bit of one pixel, looked up through its tile.
    pub open spec fn spec_diff_bit(self, x: int, y: int) -> bool {
        let bsz = B::spec_size();
        let bw = self.size.x as int / bsz;
        self.diff@[(y / bsz) * bw + (x / bsz)].spec_get((x % bsz) as u32, (y % bsz) as u32)
    }

    /// The any-bit flag of the tile holding one pixel.
    pub open spec fn spec_diff_block(self, x: int, y: int) -> bool {
        let bsz = B::spec_size();
        let bw = self.size.x as int / bsz;
        self.diff_blocks@[(y / bsz) * bw + (x / bsz)]
    }

    /// Tile-grid bounds: a pixel inside the world has its tile inside the
    /// tile grid.
    pub proof fn lemma_block_index(self, x: int, y: int)
        requires
            self.wf(),
            0 <= x < self.size.x,
            0 <= y < self.size.y,
        ensures
            0 <= (y / B::spec_size()) * (self.size.x as int / B::spec_size()) + (x / B::spec_size())
                < self.diff@.len(),
            (y / B::spec_size()) * (self.size.x as int / B::spec_size()) <= 8192 * 8192,
            0 <= x % B::spec_size() < B::spec_size(),
            0 <= y % B::spec_size() < B::spec_size(),
            x / B::spec_size() < self.size.x as int / B::spec_size(),
            y / B::spec_size() < self.size.y as int / B::spec_size(),
    {
        let bsz = B::spec_size();
        let bw = self.size.x as int / bsz;
        let bh = self.size.y as int / bsz;
        vstd::arithmetic::div_mod::lemma_fundamental_div_mod(self.size.x as int, bsz);
        vstd::arithmetic::div_mod::lemma_fundamental_div_mod(self.size.y as int, bsz);
        assert(bw <= 8192 && bh <= 8192) by (nonlinear_arith)
            requires bw == self.size.x as int / bsz && bh == self.size.y as int / bsz
                && 1 <= bsz && 0 <= self.size.x <= 8192 && 0 <= self.size.y <= 8192;
        assert(0 <= x % bsz < bsz && 0 <= x / bsz && x / bsz < bw) by (nonlinear_arith)
            requires 0 <= x < self.size.x && bsz >= 1 && self.size.x as int % bsz == 0
                && bw == self.size.x as int / bsz && self.size.x as int == bsz * bw + self.size.x as int % bsz;
        assert(0 <= y % bsz < bsz && 0 <= y / bsz && y / bsz < bh) by (nonlinear_arith)
            requires 0 <= y < self.size.y && bsz >= 1 && self.size.y as int % bsz == 0
                && bh == self.size.y as int / bsz && self.size.y as int == bsz * bh + self.size.y as int % bsz;
        assert((y / bsz) * bw + (x / bsz) < bh * bw && 0 <= (y / bsz) * bw + (x / bsz)
            && (y / bsz) * bw <= 8192 * 8192) by (nonlinear_arith)
            requires 0 <= y / bsz < bh && 0 <= x / bsz < bw && bw >= 1
                && bh <= 8192 && bw <= 8192;
        assert(bw * bh == bh * bw) by (nonlinear_arith);
    }

    /// Reads the difference bit of one pixel.
    pub fn diff_bit(&self, x: u32, y: u32) -> (b: bool)
        requires
            self.wf(),
            x < self.size.x,
            y < self.size.y,
        ensures
            b == self.spec_diff_bit(x as int, y as int),
    {
        proof {
            self.lemma_block_index(x as int, y as int);
        }
        let bsz = B::size();
        let bw = self.size.x / bsz;
        let idx = ((y / bsz) as usize) * (bw as usize) + ((x / bsz) as usize);
        B::get(self.diff[idx], Vec2u { x: x % bsz, y: y % bsz })
    }

    /// Reads the any-bit flag of the tile holding one pixel.
    pub fn diff_block_flag(&self, x: u32, y: u32) -> (b: bool)
        requires
            self.wf(),
            x < self.size.x,
            y < self.size.y,
        ensures
            b == self.spec_diff_block(x as int, y as int),
    {
        proof {
            self.lemma_block_index(x as int, y as int);
        }
        let bsz = B::size();
        let bw = self.size.x / bsz;
        let idx = ((y / bsz) as usize) * (bw as usize) + ((x / bsz) as usize);
        self.diff_blocks[idx]
    }
}

/// Transmittance below this (in every channel, Q16) is snapped to zero and
/// the march stops: a deliberate bias/performance tradeoff.
pub const TRANSMITTANCE_CUTOFF: u64 = 66;

/// Hard cap on DDA steps per trace, a safety bound against pathological
/// configurations; reaching it silently truncates the march.
pub const MAX_STEPS: u32 = 1000;

/// The world box is inset by this Q16 margin (one hundredth of a unit) to
/// avoid edge artifacts.
pub const EDGE_INSET: i64 = 655;

/// Ray parameter stood for "no constraint" on a degenerate slab axis.
pub const T_LIMIT: i64 = 0x100_0000_0000;

/// Bound on ray start components and interval endpoints handed to a trace.
pub const POS_LIMIT: i64 = 0x4_0000_0000;

/// Bound on ray direction components handed to a trace.
pub const DIR_LIMIT: i64 = 0x2_0000;

/// Bound on the radiance a single trace can gather: at most MAX_STEPS cells,
/// each within the cell radiance bound.
pub const TRACE_RADIANCE_MAX: u64 = 0x3E8_0000_0000;

/// The Q16 offset of an interval bound along a unit direction stays within
/// the world coordinate range.
pub proof fn lemma_connect_offsets(t: int, d: int) by (nonlinear_arith)
    requires
        0 <= t <= 0x2000_0000,
        -65536 <= d <= 65536,
    ensures
        -(0x2000_0000 * 65536) <= t * d <= 0x2000_0000 * 65536,
        -0x2000_0000 <= t * d / (SCALE as int) <= 0x2000_0000,
{
}

/// Floor division of a signed Q16 value by a positive divisor.
pub fn fdiv_i64(a: i64, b: i64) -> (r: i64)
    requires
        0 < b <= 0x1_0000_0000,
        -0x4000_0000_0000_0000 <= a <= 0x4000_0000_0000_0000,
    ensures
        r == a as int / b as int,
{
    if a >= 0 {
        a / b
    } else {
        let q = (-a + (b - 1)) / b;
        proof {
            assert(-((-a + (b - 1)) / (b as int)) == a as int / b as int) by (nonlinear_arith)
                requires a < 0 && b > 0;
        }
        -q
    }
}

/// Intersection of two ray-parameter intervals; empty (near > far) when the
/// inputs are disjoint.
pub fn intersect_intervals(a: Interval, b: Interval) -> (out: Interval)
    ensures
        out.near == if a.near >= b.near { a.near } else { b.near },
        out.far == if a.far <= b.far { a.far } else { b.far },
{
    Interval {
        near: if a.near >= b.near { a.near } else { b.near },
        far: if a.far <= b.far { a.far } else { b.far },
    }
}

/// One axis of the slab test: the parameter range over which the ray is
/// inside [lo, hi] on this axis. A zero direction component constrains
/// nothing when the start lies inside, and everything when it lies outside.
pub open spec fn spec_slab_axis(s: int, d: int, lo: int, hi: int) -> (int, int) {
    let sc = SCALE as int;
    if d > 0 {
        ((lo - s) * sc / d, (hi - s) * sc / d)
    } else if d < 0 {
        ((s - hi) * sc / (-d), (s - lo) * sc / (-d))
    } else {
        if lo <= s <= hi {
            (-(T_LIMIT as int), T_LIMIT as int)
        } else {
            (T_LIMIT as int, -(T_LIMIT as int))
        }
    }
}

/// One axis of the slab test.
fn slab_axis(s: i64, d: i64, lo: i64, hi: i64) -> (out: (i64, i64))
    requires
        -POS_LIMIT <= s <= POS_LIMIT,
        -DIR_LIMIT <= d <= DIR_LIMIT,
        -POS_LIMIT <= lo <= hi,
        hi <= POS_LIMIT,
    ensures
        out.0 == spec_slab_axis(s as int, d as int, lo as int, hi as int).0,
        out.1 == spec_slab_axis(s as int, d as int, lo as int, hi as int).1,
        -0x8_0000_0000_0000 <= out.0 <= 0x8_0000_0000_0000,
        -0x8_0000_0000_0000 <= out.1 <= 0x8_0000_0000_0000,
{
    proof {
        lemma_slab_products(lo as int - s as int);
        lemma_slab_products(hi as int - s as int);
        lemma_slab_products(s as int - lo as int);
        lemma_slab_products(s as int - hi as int);
    }
    if d > 0 {
        proof {
            lemma_fdiv_bound((lo as int - s as int) * (SCALE as int), d as int);
            lemma_fdiv_bound((hi as int - s as int) * (SCALE as int), d as int);
        }
        (fdiv_i64((lo - s) * SCALE as i64, d), fdiv_i64((hi - s) * SCALE as i64, d))
    } else if d < 0 {
        proof {
            lemma_fdiv_bound((s as int - hi as int) * (SCALE as int), -d as int);
            lemma_fdiv_bound((s as int - lo as int) * (SCALE as int), -d as int);
        }
        (fdiv_i64((s - hi) * SCALE as i64, -d), fdiv_i64((s - lo) * SCALE as i64, -d))
    } else {
        if lo <= s && s <= hi {
            (-T_LIMIT, T_LIMIT)
        } else {
            (T_LIMIT, -T_LIMIT)
        }
    }
}

/// A slab numerator (a coordinate difference scaled to Q16) stays well
/// within i64.
proof fn lemma_slab_products(n: int) by (nonlinear_arith)
    requires
        -0x8_0000_0000 <= n <= 0x8_0000_0000,
    ensures
        -0x8_0000_0000_0000 <= n * (SCALE as int) <= 0x8_0000_0000_0000,
{
}

/// A floor quotient is no larger in magnitude than its numerator.
proof fn lemma_fdiv_bound(n: int, d: int) by (nonlinear_arith)
    requires
        -0x8_0000_0000_0000 <= n <= 0x8_0000_0000_0000,
        1 <= d,
    ensures
        -0x8_0000_0000_0000 <= n / d <= 0x8_0000_0000_0000,
{
}

/// The slab-method intersection of a ray with an axis-aligned box: entry and
/// exit ray parameters, empty when the ray misses the box.
pub open spec fn spec_aabb_intersect(start: Vec2q, dir: Vec2q, lo: Vec2q, hi: Vec2q) -> (int, int) {
    let ax = spec_slab_axis(start.x as int, dir.x as int, lo.x as int, hi.x as int);
    let ay = spec_slab_axis(start.y as int, dir.y as int, lo.y as int, hi.y as int);
    (if ax.0 >= ay.0 { ax.0 } else { ay.0 }, if ax.1 <= ay.1 { ax.1 } else { ay.1 })
}

/// Slab-method ray/box intersection.
pub fn aabb_intersect(start: Vec2q, dir: Vec2q, lo: Vec2q, hi: Vec2q) -> (out: Interval)
    requires
        -POS_LIMIT <= start.x <= POS_LIMIT,
        -POS_LIMIT <= start.y <= POS_LIMIT,
        -DIR_LIMIT <= dir.x <= DIR_LIMIT,
        -DIR_LIMIT <= dir.y <= DIR_LIMIT,
        -POS_LIMIT <= lo.x <= hi.x,
        hi.x <= POS_LIMIT,
        -POS_LIMIT <= lo.y <= hi.y,
        hi.y <= POS_LIMIT,
    ensures
        out.near == spec_aabb_intersect(start, dir, lo, hi).0,
        out.far == spec_aabb_intersect(start, dir, lo, hi).1,
{
    let ax = slab_axis(start.x, dir.x, lo.x, hi.x);
    let ay = slab_axis(start.y, dir.y, lo.y, hi.y);
    Interval {
        near: if ax.0 >= ay.0 { ax.0 } else { ay.0 },
        far: if ax.1 <= ay.1 { ax.1 } else { ay.1 },
    }
}

/// The per-axis DDA parameter increment for one pixel of travel: SCALE^2
/// over the direction magnitude (clamped to 1 to sidestep axis-aligned
/// rays).
pub open spec fn spec_dda_delta(d: int) -> int {
    let m = if d < 0 { -d } else { d };
    let m1 = if m == 0 { 1 } else { m };
    (SCALE as int) * (SCALE as int) / m1
}

/// The running state of a DDA march.
pub ghost struct TraceState {
    pub pos_x: int,
    pub pos_y: int,
    pub side_x: int,
    pub side_y: int,
    pub last_t: int,
    pub fluence: Fluence,
}

/// One DDA advance: step along whichever axis has the nearer boundary (both
/// on a tie).
pub open spec fn spec_advance(st: TraceState, dx: int, dy: int, stx: int, sty: int) -> TraceState {
    let ax = st.side_x <= st.side_y;
    let ay = st.side_y <= st.side_x;
    TraceState {
        pos_x: st.pos_x + if ax { stx } else { 0 },
        pos_y: st.pos_y + if ay { sty } else { 0 },
        side_x: st.side_x + if ax { dx } else { 0 },
        side_y: st.side_y + if ay { dy } else { 0 },
        last_t: st.last_t,
        fluence: st.fluence,
    }
}

/// The marched fluence from a DDA state: composite a cell whenever its
/// difference bit is set or the interval ends (runs of identical cells merge
/// into one segment), stop on the transmittance cutoff, the interval end,
/// leaving the grid, or fuel exhaustion.
pub open spec fn spec_trace_loop<B: Block>(
    w: TraceWorld<B>,
    dx: int,
    dy: int,
    stx: int,
    sty: int,
    isz: int,
    st: TraceState,
    fuel: nat,
) -> Fluence
    decreases fuel,
{
    if fuel == 0 {
        st.fluence
    } else if !(0 <= st.pos_x < w.size.x && 0 <= st.pos_y < w.size.y) {
        st.fluence
    } else {
        let next_t = if st.side_x <= st.side_y { st.side_x } else { st.side_y };
        if w.spec_diff_bit(st.pos_x, st.pos_y) || next_t >= isz {
            let seg = (if next_t <= isz { next_t } else { isz }) - st.last_t;
            let fl = st.fluence.spec_over(
                w.spec_cell(st.pos_x, st.pos_y).spec_as_fluence(seg));
            if fl.transmittance.r < TRANSMITTANCE_CUTOFF
                && fl.transmittance.g < TRANSMITTANCE_CUTOFF
                && fl.transmittance.b < TRANSMITTANCE_CUTOFF {
                Fluence { radiance: fl.radiance, transmittance: Rgb { r: 0, g: 0, b: 0 } }
            } else if next_t >= isz {
                fl
            } else {
                spec_trace_loop(w, dx, dy, stx, sty, isz,
                    spec_advance(TraceState { last_t: next_t, fluence: fl, ..st }, dx, dy, stx, sty),
                    (fuel - 1) as nat)
            }
        } else {
            spec_trace_loop(w, dx, dy, stx, sty, isz,
                spec_advance(st, dx, dy, stx, sty), (fuel - 1) as nat)
        }
    }
}

/// The input interval clipped against the inset world box.
pub open spec fn spec_clipped_interval<B: Block>(
    w: TraceWorld<B>,
    start: Vec2q,
    dir: Vec2q,
    interval: Interval,
) -> (int, int) {
    let sc = SCALE as int;
    let a = spec_aabb_intersect(
        start,
        dir,
        Vec2q { x: EDGE_INSET, y: EDGE_INSET },
        Vec2q {
            x: (w.size.x * SCALE - EDGE_INSET) as i64,
            y: (w.size.y * SCALE - EDGE_INSET) as i64,
        },
    );
    (
        if interval.near >= a.0 { interval.near as int } else { a.0 },
        if interval.far <= a.1 { interval.far as int } else { a.1 },
    )
}

/// The initial DDA state of a trace whose clipped interval is nonempty.
pub open spec fn spec_initial_state(start: Vec2q, dir: Vec2q, near: int) -> TraceState {
    let sc = SCALE as int;
    let x = start.x + near * dir.x / sc;
    let y = start.y + near * dir.y / sc;
    let px = x / sc;
    let py = y / sc;
    let distx = if dir.x >= 0 { (px + 1) * sc - x } else { x - px * sc };
    let disty = if dir.y >= 0 { (py + 1) * sc - y } else { y - py * sc };
    TraceState {
        pos_x: px,
        pos_y: py,
        side_x: distx * spec_dda_delta(dir.x as int) / sc,
        side_y: disty * spec_dda_delta(dir.y as int) / sc,
        last_t: 0,
        fluence: Fluence::spec_transparent(),
    }
}

/// What a whole trace returns: the transparent fluence for an empty clipped
/// interval, otherwise the marched fluence from the interval's near point.
pub open spec fn spec_trace_radiance_simple<B: Block>(
    w: TraceWorld<B>,
    start: Vec2q,
    dir: Vec2q,
    interval: Interval,
) -> Fluence {
    let c = spec_clipped_interval(w, start, dir, interval);
    if c.0 > c.1 {
        Fluence::spec_transparent()
    } else {
        spec_trace_loop(
            w,
            spec_dda_delta(dir.x as int),
            spec_dda_delta(dir.y as int),
            if dir.x >= 0 { 1int } else { -1int },
            if dir.y >= 0 { 1int } else { -1int },
            c.1 - c.0,
            spec_initial_state(start, dir, c.0),
            MAX_STEPS as nat,
        )
    }
}

/// Traces a ray through the world over a parametric interval, compositing
/// the fluence of difference-marked cells pixel by pixel (the fallback
/// variant without tile skipping, for small worlds). An empty interval
/// traces nothing and returns the transparent fluence unchanged.
#[verifier::loop_isolation(false)]
#[verifier::rlimit(100)]
pub fn trace_radiance_simple<B: Block>(
    world: &TraceWorld<B>,
    ray_start: Vec2q,
    ray_dir: Vec2q,
    interval: Interval,
) -> (f: Fluence)
    requires
        world.wf(),
        -POS_LIMIT <= ray_start.x <= POS_LIMIT,
        -POS_LIMIT <= ray_start.y <= POS_LIMIT,
        -DIR_LIMIT <= ray_dir.x <= DIR_LIMIT,
        -DIR_LIMIT <= ray_dir.y <= DIR_LIMIT,
        -POS_LIMIT <= interval.near <= POS_LIMIT,
        -POS_LIMIT <= interval.far <= POS_LIMIT,
    ensures
        f == spec_trace_radiance_simple(*world, ray_start, ray_dir, interval),
        f.wf(),
        f.radiance.all_le(TRACE_RADIANCE_MAX as int),
        interval.near > interval.far ==> f == Fluence::spec_transparent(),
{
    let ghost goal = spec_trace_radiance_simple(*world, ray_start, ray_dir, interval);
    let lo = Vec2q { x: EDGE_INSET, y: EDGE_INSET };
    let hi = Vec2q {
        x: (world.size.x as i64) * (SCALE as i64) - EDGE_INSET,
        y: (world.size.y as i64) * (SCALE as i64) - EDGE_INSET,
    };
    let clip = aabb_intersect(ray_start, ray_dir, lo, hi);
    let clipped = intersect_intervals(interval, clip);
    if clipped.near > clipped.far {
        return Fluence::transparent();
    }
    let near = clipped.near;
    let far = clipped.far;
    let isz: u64 = (far - near) as u64;
    proof {
        assert(near * ray_dir.x <= 0x8_0000_0000_0000 && near * ray_dir.x >= -0x8_0000_0000_0000
            && near * ray_dir.y <= 0x8_0000_0000_0000 && near * ray_dir.y >= -0x8_0000_0000_0000)
            by (nonlinear_arith)
            requires
                -0x4_0000_0000 <= near <= 0x4_0000_0000
                && -0x2_0000 <= ray_dir.x <= 0x2_0000
                && -0x2_0000 <= ray_dir.y <= 0x2_0000;
        lemma_fdiv_bound(near * ray_dir.x, SCALE as int);
        lemma_fdiv_bound(near * ray_dir.y, SCALE as int);
    }
    let x = ray_start.x + fdiv_i64(near * ray_dir.x, SCALE as i64);
    let y = ray_start.y + fdiv_i64(near * ray_dir.y, SCALE as i64);
    let px = fdiv_i64(x, SCALE as i64);
    let py = fdiv_i64(y, SCALE as i64);
    proof {
        vstd::arithmetic::div_mod::lemma_fundamental_div_mod(x as int, SCALE as int);
        vstd::arithmetic::div_mod::lemma_fundamental_div_mod(y as int, SCALE as int);
        assert(-0x200000 <= px <= 0x200000 && -0x200000 <= py <= 0x200000) by (nonlinear_arith)
            requires
                px == x as int / 65536 && py == y as int / 65536
                && -0x11_0000_0000 <= x <= 0x11_0000_0000
                && -0x11_0000_0000 <= y <= 0x11_0000_0000
                && x as int == 65536 * px + x as int % 65536
                && y as int == 65536 * py + y as int % 65536
                && 0 <= x as int % 65536 < 65536 && 0 <= y as int % 65536 < 65536;
    }
    let mx = if ray_dir.x < 0 { -ray_dir.x } else { ray_dir.x };
    let my = if ray_dir.y < 0 { -ray_dir.y } else { ray_dir.y };
    let mx1: u64 = if mx == 0 { 1 } else { mx as u64 };
    let my1: u64 = if my == 0 { 1 } else { my as u64 };
    let dx: u64 = (SCALE * SCALE) / mx1;
    let dy: u64 = (SCALE * SCALE) / my1;
    let stx: i64 = if ray_dir.x >= 0 { 1 } else { -1 };
    let sty: i64 = if ray_dir.y >= 0 { 1 } else { -1 };
    let distx: i64 = if ray_dir.x >= 0 { (px + 1) * (SCALE as i64) - x } else { x - px * (SCALE as i64) };
    let disty: i64 = if ray_dir.y >= 0 { (py + 1) * (SCALE as i64) - y } else { y - py * (SCALE as i64) };
    proof {
        assert(0 <= distx <= SCALE && 0 <= disty <= SCALE);
        assert(dx <= 0x1_0000_0000 && dy <= 0x1_0000_0000);
        assert((distx as u64) * dx <= 0x8000_0000_0000_0000u64) by (nonlinear_arith)
            requires 0 <= distx <= 65536 && dx <= 0x1_0000_0000u64;
        assert((disty as u64) * dy <= 0x8000_0000_0000_0000u64) by (nonlinear_arith)
            requires 0 <= disty <= 65536 && dy <= 0x1_0000_0000u64;
    }
    let mut side_x: u64 = ((distx as u64) * dx) / SCALE;
    let mut side_y: u64 = ((disty as u64) * dy) / SCALE;
    proof {
        assert(side_x <= dx && side_y <= dy) by (nonlinear_arith)
            requires
                side_x == (distx as int) * dx / 65536 && side_y == (disty as int) * dy / 65536
                && 0 <= distx <= 65536 && 0 <= disty <= 65536 && dx >= 0 && dy >= 0;
    }
    let mut pos_x: i64 = px;
    let mut pos_y: i64 = py;
    let mut last_t: u64 = 0;
    let mut fluence = Fluence::transparent();
    let mut i: u32 = 0;
    proof {
        let st0 = TraceState {
            pos_x: pos_x as int,
            pos_y: pos_y as int,
            side_x: side_x as int,
            side_y: side_y as int,
            last_t: last_t as int,
            fluence,
        };
        assert(st0 == spec_initial_state(ray_start, ray_dir, near as int));
        assert(goal == spec_trace_loop(*world, dx as int, dy as int, stx as int, sty as int,
            isz as int, st0, MAX_STEPS as nat));
    }
    while i < MAX_STEPS
        invariant
            i <= MAX_STEPS,
            side_x <= (i as int + 1) * 0x1_0000_0000,
            side_y <= (i as int + 1) * 0x1_0000_0000,
            last_t <= side_x,
            last_t <= side_y,
            last_t <= isz,
            fluence.wf(),
            fluence.radiance.all_le((i as int) * CELL_RADIANCE_MAX),
            -0x400000 <= pos_x <= 0x400000,
            -0x400000 <= pos_y <= 0x400000,
            spec_trace_loop(*world, dx as int, dy as int, stx as int, sty as int, isz as int,
                TraceState {
                    pos_x: pos_x as int,
                    pos_y: pos_y as int,
                    side_x: side_x as int,
                    side_y: side_y as int,
                    last_t: last_t as int,
                    fluence,
                }, (MAX_STEPS - i) as nat) == goal,
        decreases MAX_STEPS - i,
    {
        let ghost st = TraceState {
            pos_x: pos_x as int,
            pos_y: pos_y as int,
            side_x: side_x as int,
            side_y: side_y as int,
            last_t: last_t as int,
            fluence,
        };
        let ghost fuel = (MAX_STEPS - i) as nat;
        if pos_x < 0 || pos_x >= world.size.x as i64 || pos_y < 0 || pos_y >= world.size.y as i64 {
            proof {
                assert(spec_trace_loop(*world, dx as int, dy as int, stx as int, sty as int,
                    isz as int, st, fuel) == fluence);
            }
            return fluence;
        }
        let ux = pos_x as u32;
        let uy = pos_y as u32;
        let next_t = if side_x <= side_y { side_x } else { side_y };
        let bit = world.diff_bit(ux, uy);
        if bit || next_t >= isz {
            let m = if next_t <= isz { next_t } else { isz };
            let seg = m - last_t;
            let cell = world.cell(ux, uy);
            proof {
                assert(fluence.radiance.r + CELL_RADIANCE_MAX <= (i as int + 1) * CELL_RADIANCE_MAX
                    <= 1001 * CELL_RADIANCE_MAX);
            }
            let fl = fluence.over(cell.as_fluence(seg));
            last_t = next_t;
            if fl.transmittance.r < TRANSMITTANCE_CUTOFF
                && fl.transmittance.g < TRANSMITTANCE_CUTOFF
                && fl.transmittance.b < TRANSMITTANCE_CUTOFF {
                let out = Fluence { radiance: fl.radiance, transmittance: Rgb { r: 0, g: 0, b: 0 } };
                proof {
                    assert(spec_trace_loop(*world, dx as int, dy as int, stx as int, sty as int,
                        isz as int, st, fuel) == out);
                }
                return out;
            }
            if next_t >= isz {
                proof {
                    assert(spec_trace_loop(*world, dx as int, dy as int, stx as int, sty as int,
                        isz as int, st, fuel) == fl);
                }
                return fl;
            }
            fluence = fl;
        }
        let ax = side_x <= side_y;
        let ay = side_y <= side_x;
        if ax {
            side_x = side_x + dx;
            pos_x = pos_x + stx;
        }
        if ay {
            side_y = side_y + dy;
            pos_y = pos_y + sty;
        }
        i = i + 1;
        proof {
            let stn = TraceState {
                pos_x: pos_x as int,
                pos_y: pos_y as int,
                side_x: side_x as int,
                side_y: side_y as int,
                last_t: last_t as int,
                fluence,
            };
            assert(spec_trace_loop(*world, dx as int, dy as int, stx as int, sty as int,
                isz as int, stn, (fuel - 1) as nat)
                == spec_trace_loop(*world, dx as int, dy as int, stx as int, sty as int,
                    isz as int, st, fuel));
        }
    }
    proof {
        assert(spec_trace_loop(*world, dx as int, dy as int, stx as int, sty as int,
            isz as int, TraceState {
                pos_x: pos_x as int,
                pos_y: pos_y as int,
                side_x: side_x as int,
                side_y: side_y as int,
                last_t: last_t as int,
                fluence,
            }, 0) == fluence);
    }
    fluence
}


/// Cap on reseeded DDA side distances: beyond it the ray has long left any
/// reachable interval, so the exact value no longer matters.
pub const SIDE_CAP: u64 = 0x2000_0000_0000;

/// Floor division of a wide signed value by a positive divisor.
fn fdiv_wide(a: i128, b: i128) -> (r: i128)
    requires
        0 < b <= 0x1_0000_0000,
        -0x1_0000_0000_0000_0000_0000 <= a <= 0x1_0000_0000_0000_0000_0000,
    ensures
        r == a as int / b as int,
{
    if a >= 0 {
        a / b
    } else {
        let q = (-a + (b - 1)) / b;
        proof {
            assert(-((-a + (b - 1)) / (b as int)) == a as int / b as int) by (nonlinear_arith)
                requires a < 0 && b > 0;
        }
        -q
    }
}

/// The per-axis side distance reseeded from a pixel coordinate: the ray
/// parameter of the next pixel boundary ahead of the ray start, clamped to
/// [0, SIDE_CAP] against fixed-point drift.
pub open spec fn spec_reseed_side(pos: int, s0: int, positive: bool, delta: int) -> int {
    let sc = SCALE as int;
    let dist = if positive { (pos + 1) * sc - s0 } else { s0 - pos * sc };
    let d0 = if dist < 0 { 0 } else { dist };
    let v = d0 * delta / sc;
    if v > SIDE_CAP { SIDE_CAP as int } else { v }
}

/// Reseeds one axis of the pixel DDA state.
fn reseed_side(pos: i64, s0: i64, positive: bool, delta: u64) -> (r: u64)
    requires
        -0x4_0000_0000 <= pos <= 0x4_0000_0000,
        -0x10_0000_0000 <= s0 <= 0x10_0000_0000,
        delta <= 0x1_0000_0000,
    ensures
        r == spec_reseed_side(pos as int, s0 as int, positive, delta as int),
{
    proof {
        assert((pos + 1) * (SCALE as int) <= 0x4_0000_0001 * 65536
            && (pos + 1) * (SCALE as int) >= -0x4_0000_0001 * 65536
            && pos * (SCALE as int) <= 0x4_0000_0000 * 65536
            && pos * (SCALE as int) >= -0x4_0000_0000 * 65536) by (nonlinear_arith)
            requires -0x4_0000_0000 <= pos <= 0x4_0000_0000;
    }
    let dist: i64 = if positive {
        (pos + 1) * (SCALE as i64) - s0
    } else {
        s0 - pos * (SCALE as i64)
    };
    let d0: i64 = if dist < 0 { 0 } else { dist };
    proof {
        assert((d0 as int) * (delta as int) <= 0x5_0000_0000_0000 * 0x1_0000_0000
            && (d0 as int) * (delta as int) >= 0
            && (d0 as int) * (delta as int) / (SCALE as int) >= 0) by (nonlinear_arith)
            requires 0 <= d0 <= 0x5_0000_0000_0000 && 0 <= delta <= 0x1_0000_0000u64;
    }
    let v: i128 = (d0 as i128) * (delta as i128) / (SCALE as i128);
    proof {
        assert((d0 as int) * (delta as int) / (SCALE as int)
            <= 0x5_0000_0000_0000 * 0x1_0000_0000 / 65536) by (nonlinear_arith)
            requires
                0 <= (d0 as int) * (delta as int) <= 0x5_0000_0000_0000 * 0x1_0000_0000;
    }
    if v > SIDE_CAP as i128 { SIDE_CAP } else { v as u64 }
}

/// The running state of a tile-accelerated march: the pixel DDA state plus
/// the coarser tile DDA and the cached tile.
pub ghost struct BlockTraceState<B> {
    pub pos_x: int,
    pub pos_y: int,
    pub side_x: int,
    pub side_y: int,
    pub bpos_x: int,
    pub bpos_y: int,
    pub bside_x: int,
    pub bside_y: int,
    pub block: B,
    pub last_t: int,
    pub fluence: Fluence,
}

/// One tile of the difference mask, by tile coordinates.
pub open spec fn spec_tile<B: Block>(w: TraceWorld<B>, bx: int, by: int) -> B {
    w.diff@[by * (w.size.x as int / B::spec_size()) + bx]
}

/// Reads one tile of the difference mask.
fn read_tile<B: Block>(w: &TraceWorld<B>, bx: u32, by: u32) -> (b: B)
    requires
        w.wf(),
        bx < w.size.x as int / B::spec_size(),
        by < w.size.y as int / B::spec_size(),
    ensures
        b == spec_tile(*w, bx as int, by as int),
{
    let bsz = B::size();
    let bw = w.size.x / bsz;
    proof {
        vstd::arithmetic::div_mod::lemma_fundamental_div_mod(w.size.x as int, B::spec_size());
        vstd::arithmetic::div_mod::lemma_fundamental_div_mod(w.size.y as int, B::spec_size());
        let bwi = w.size.x as int / B::spec_size();
        let bhi = w.size.y as int / B::spec_size();
        assert(bwi <= 8192 && bhi <= 8192 && by * bwi + bx < bhi * bwi
            && bhi * bwi == bwi * bhi && 0 <= by * bwi + bx && by * bwi <= 8192 * 8192)
            by (nonlinear_arith)
            requires
                bwi == w.size.x as int / B::spec_size() && bhi == w.size.y as int / B::spec_size()
                && 1 <= B::spec_size() && 0 <= w.size.x <= 8192 && 0 <= w.size.y <= 8192
                && 0 <= bx < bwi && 0 <= by < bhi;
    }
    w.diff[((by as usize) * (bw as usize)) + (bx as usize)]
}

/// The marched fluence from a tile-accelerated DDA state: march whole empty
/// tiles at tile granularity, reseed the pixel DDA on entering a nonempty
/// tile, and composite per pixel as in the fallback variant.
pub open spec fn spec_block_trace_loop<B: Block>(
    w: TraceWorld<B>,
    dx: int,
    dy: int,
    bdx: int,
    bdy: int,
    stx: int,
    sty: int,
    isz: int,
    sx0: int,
    sy0: int,
    dirx: int,
    diry: int,
    offx: int,
    offy: int,
    st: BlockTraceState<B>,
    fuel: nat,
) -> Fluence
    decreases fuel,
{
    let sc = SCALE as int;
    let bsz = B::spec_size();
    let bw = w.size.x as int / bsz;
    let bh = w.size.y as int / bsz;
    if fuel == 0 {
        st.fluence
    } else if !(0 <= st.pos_x < w.size.x && 0 <= st.pos_y < w.size.y
        && 0 <= st.bpos_x < bw && 0 <= st.bpos_y < bh) {
        st.fluence
    } else if st.block.spec_is_empty()
        || !(st.pos_x / bsz == st.bpos_x && st.pos_y / bsz == st.bpos_y) {
        let t = if st.bside_x <= st.bside_y { st.bside_x } else { st.bside_y };
        let mbx = st.bside_x <= st.bside_y;
        let mby = st.bside_y <= st.bside_x;
        let nbpos_x = st.bpos_x + if mbx { stx } else { 0 };
        let nbpos_y = st.bpos_y + if mby { sty } else { 0 };
        let nbside_x = st.bside_x + if mbx { bdx } else { 0 };
        let nbside_y = st.bside_y + if mby { bdy } else { 0 };
        if !(0 <= nbpos_x < bw && 0 <= nbpos_y < bh) {
            st.fluence
        } else {
            let nblock = spec_tile(w, nbpos_x, nbpos_y);
            let next_bt = if nbside_x <= nbside_y { nbside_x } else { nbside_y };
            if !nblock.spec_is_empty() {
                let cx = sx0 + t * dirx / sc;
                let cy = sy0 + t * diry / sc;
                let npos_x = if mbx { nbpos_x * bsz + offx } else { cx / sc };
                let npos_y = if mby { nbpos_y * bsz + offy } else { cy / sc };
                spec_block_trace_loop(w, dx, dy, bdx, bdy, stx, sty, isz, sx0, sy0,
                    dirx, diry, offx, offy,
                    BlockTraceState {
                        pos_x: npos_x,
                        pos_y: npos_y,
                        side_x: spec_reseed_side(npos_x, sx0, stx >= 0, dx),
                        side_y: spec_reseed_side(npos_y, sy0, sty >= 0, dy),
                        bpos_x: nbpos_x,
                        bpos_y: nbpos_y,
                        bside_x: nbside_x,
                        bside_y: nbside_y,
                        block: nblock,
                        ..st
                    },
                    (fuel - 1) as nat)
            } else if next_bt >= isz {
                let seg0 = isz - st.last_t;
                let seg = if seg0 < 0 { 0 } else { seg0 };
                st.fluence.spec_over(
                    w.spec_cell(nbpos_x * bsz, nbpos_y * bsz).spec_as_fluence(seg))
            } else {
                spec_block_trace_loop(w, dx, dy, bdx, bdy, stx, sty, isz, sx0, sy0,
                    dirx, diry, offx, offy,
                    BlockTraceState {
                        bpos_x: nbpos_x,
                        bpos_y: nbpos_y,
                        bside_x: nbside_x,
                        bside_y: nbside_y,
                        block: nblock,
                        ..st
                    },
                    (fuel - 1) as nat)
            }
        }
    } else {
        let next_t = if st.side_x <= st.side_y { st.side_x } else { st.side_y };
        if st.block.spec_get((st.pos_x % bsz) as u32, (st.pos_y % bsz) as u32)
            || next_t >= isz {
            let m = if next_t <= isz { next_t } else { isz };
            let seg0 = m - st.last_t;
            let seg = if seg0 < 0 { 0 } else { seg0 };
            let fl = st.fluence.spec_over(
                w.spec_cell(st.pos_x, st.pos_y).spec_as_fluence(seg));
            if fl.transmittance.r < TRANSMITTANCE_CUTOFF
                && fl.transmittance.g < TRANSMITTANCE_CUTOFF
                && fl.transmittance.b < TRANSMITTANCE_CUTOFF {
                Fluence { radiance: fl.radiance, transmittance: Rgb { r: 0, g: 0, b: 0 } }
            } else if next_t >= isz {
                fl
            } else {
                spec_block_trace_loop(w, dx, dy, bdx, bdy, stx, sty, isz, sx0, sy0,
                    dirx, diry, offx, offy,
                    spec_block_advance(BlockTraceState { last_t: next_t, fluence: fl, ..st },
                        dx, dy, stx, sty),
                    (fuel - 1) as nat)
            }
        } else {
            spec_block_trace_loop(w, dx, dy, bdx, bdy, stx, sty, isz, sx0, sy0,
                dirx, diry, offx, offy,
                spec_block_advance(st, dx, dy, stx, sty), (fuel - 1) as nat)
        }
    }
}

/// One pixel DDA advance within a tile-accelerated state.
pub open spec fn spec_block_advance<B: Block>(
    st: BlockTraceState<B>,
    dx: int,
    dy: int,
    stx: int,
    sty: int,
) -> BlockTraceState<B> {
    let ax = st.side_x <= st.side_y;
    let ay = st.side_y <= st.side_x;
    BlockTraceState {
        pos_x: st.pos_x + if ax { stx } else { 0 },
        pos_y: st.pos_y + if ay { sty } else { 0 },
        side_x: st.side_x + if ax { dx } else { 0 },
        side_y: st.side_y + if ay { dy } else { 0 },
        ..st
    }
}

/// What a tile-accelerated trace returns: the transparent fluence for an
/// empty clipped interval, otherwise the tile-marched fluence.
pub open spec fn spec_trace_radiance<B: Block>(
    w: TraceWorld<B>,
    start: Vec2q,
    dir: Vec2q,
    interval: Interval,
) -> Fluence {
    let sc = SCALE as int;
    let bsz = B::spec_size();
    let c = spec_clipped_interval(w, start, dir, interval);
    if c.0 > c.1 {
        Fluence::spec_transparent()
    } else {
        let st0 = spec_initial_state(start, dir, c.0);
        let sx0 = start.x + c.0 * dir.x / sc;
        let sy0 = start.y + c.0 * dir.y / sc;
        let dx = spec_dda_delta(dir.x as int);
        let dy = spec_dda_delta(dir.y as int);
        let bpos_x = st0.pos_x / bsz;
        let bpos_y = st0.pos_y / bsz;
        spec_block_trace_loop(
            w, dx, dy, dx * bsz, dy * bsz,
            if dir.x >= 0 { 1int } else { -1int },
            if dir.y >= 0 { 1int } else { -1int },
            c.1 - c.0, sx0, sy0, dir.x as int, dir.y as int,
            if dir.x >= 0 { 0int } else { bsz - 1 },
            if dir.y >= 0 { 0int } else { bsz - 1 },
            BlockTraceState {
                pos_x: st0.pos_x,
                pos_y: st0.pos_y,
                side_x: st0.side_x,
                side_y: st0.side_y,
                bpos_x,
                bpos_y,
                bside_x: spec_block_boundary_side(bpos_x, bsz, sx0, dir.x >= 0, dx),
                bside_y: spec_block_boundary_side(bpos_y, bsz, sy0, dir.y >= 0, dy),
                block: spec_initial_tile(w, bpos_x, bpos_y),
                last_t: 0,
                fluence: Fluence::spec_transparent(),
            },
            MAX_STEPS as nat,
        )
    }
}

/// The ray parameter of the next tile boundary ahead of the ray start,
/// clamped like the pixel reseed.
pub open spec fn spec_block_boundary_side(bpos: int, bsz: int, s0: int, positive: bool, delta: int) -> int {
    let sc = SCALE as int;
    let dist = if positive { (bpos + 1) * bsz * sc - s0 } else { s0 - bpos * bsz * sc };
    let d0 = if dist < 0 { 0 } else { dist };
    let v = d0 * delta / sc;
    if v > SIDE_CAP { SIDE_CAP as int } else { v }
}

/// The cached tile at the march's entry point, or an empty tile when the
/// entry point lies outside the grid (the first guard then ends the march).
pub open spec fn spec_initial_tile<B: Block>(w: TraceWorld<B>, bx: int, by: int) -> B {
    if 0 <= bx < w.size.x as int / B::spec_size() && 0 <= by < w.size.y as int / B::spec_size() {
        spec_tile(w, bx, by)
    } else {
        w.diff@[0]
    }
}

/// The ray parameter of the next tile boundary ahead of the ray start.
fn block_boundary_side(bpos: i64, bsz: u32, s0: i64, positive: bool, delta: u64) -> (r: u64)
    requires
        -0x40_0000 <= bpos <= 0x40_0000,
        1 <= bsz <= 8,
        -0x10_0000_0000 <= s0 <= 0x10_0000_0000,
        delta <= 0x1_0000_0000,
    ensures
        r == spec_block_boundary_side(bpos as int, bsz as int, s0 as int, positive, delta as int),
{
    proof {
        assert((bpos + 1) * bsz * (SCALE as int) <= 0x40_0001 * 8 * 65536
            && (bpos + 1) * bsz * (SCALE as int) >= -(0x40_0001 * 8 * 65536)
            && bpos * bsz * (SCALE as int) <= 0x40_0000 * 8 * 65536
            && bpos * bsz * (SCALE as int) >= -(0x40_0000 * 8 * 65536)) by (nonlinear_arith)
            requires -0x40_0000 <= bpos <= 0x40_0000 && 1 <= bsz <= 8u32;
    }
    let dist: i64 = if positive {
        (bpos + 1) * (bsz as i64) * (SCALE as i64) - s0
    } else {
        s0 - bpos * (bsz as i64) * (SCALE as i64)
    };
    let d0: i64 = if dist < 0 { 0 } else { dist };
    proof {
        assert((d0 as int) * (delta as int) <= 0x400_0000_0000 * 0x1_0000_0000
            && (d0 as int) * (delta as int) >= 0
            && (d0 as int) * (delta as int) / (SCALE as int) >= 0) by (nonlinear_arith)
            requires 0 <= d0 <= 0x400_0000_0000 && 0 <= delta <= 0x1_0000_0000u64;
    }
    let v: i128 = (d0 as i128) * (delta as i128) / (SCALE as i128);
    if v > SIDE_CAP as i128 { SIDE_CAP } else { v as u64 }
}

/// Traces a ray through the world over a parametric interval, skipping whole
/// empty tiles of the difference mask at tile granularity and compositing
/// per pixel inside nonempty tiles: the accelerated public entry point. An
/// empty interval (near > far) returns the transparent fluence unchanged.
#[verifier::rlimit(100)]
#[verifier::spinoff_prover]
pub fn trace_radiance<B: Block>(
    world: &TraceWorld<B>,
    ray_start: Vec2q,
    ray_dir: Vec2q,
    interval: Interval,
) -> (f: Fluence)
    requires
        world.wf(),
        -POS_LIMIT <= ray_start.x <= POS_LIMIT,
        -POS_LIMIT <= ray_start.y <= POS_LIMIT,
        -DIR_LIMIT <= ray_dir.x <= DIR_LIMIT,
        -DIR_LIMIT <= ray_dir.y <= DIR_LIMIT,
        -POS_LIMIT <= interval.near <= POS_LIMIT,
        -POS_LIMIT <= interval.far <= POS_LIMIT,
    ensures
        f == spec_trace_radiance(*world, ray_start, ray_dir, interval),
        f.wf(),
        f.radiance.all_le(TRACE_RADIANCE_MAX as int),
        interval.near > interval.far ==> f == Fluence::spec_transparent(),
{
    let ghost goal = spec_trace_radiance(*world, ray_start, ray_dir, interval);
    let lo = Vec2q { x: EDGE_INSET, y: EDGE_INSET };
    let hi = Vec2q {
        x: (world.size.x as i64) * (SCALE as i64) - EDGE_INSET,
        y: (world.size.y as i64) * (SCALE as i64) - EDGE_INSET,
    };
    let clip = aabb_intersect(ray_start, ray_dir, lo, hi);
    let clipped = intersect_intervals(interval, clip);
    if clipped.near > clipped.far {
        return Fluence::transparent();
    }
    let near = clipped.near;
    let far = clipped.far;
    let isz: u64 = (far - near) as u64;
    proof {
        assert(near * ray_dir.x <= 0x8_0000_0000_0000 && near * ray_dir.x >= -0x8_0000_0000_0000
            && near * ray_dir.y <= 0x8_0000_0000_0000 && near * ray_dir.y >= -0x8_0000_0000_0000)
            by (nonlinear_arith)
            requires
                -0x4_0000_0000 <= near <= 0x4_0000_0000
                && -0x2_0000 <= ray_dir.x <= 0x2_0000
                && -0x2_0000 <= ray_dir.y <= 0x2_0000;
        lemma_fdiv_bound(near * ray_dir.x, SCALE as int);
        lemma_fdiv_bound(near * ray_dir.y, SCALE as int);
    }
    let x = ray_start.x + fdiv_i64(near * ray_dir.x, SCALE as i64);
    let y = ray_start.y + fdiv_i64(near * ray_dir.y, SCALE as i64);
    let px = fdiv_i64(x, SCALE as i64);
    let py = fdiv_i64(y, SCALE as i64);
    proof {
        vstd::arithmetic::div_mod::lemma_fundamental_div_mod(x as int, SCALE as int);
        vstd::arithmetic::div_mod::lemma_fundamental_div_mod(y as int, SCALE as int);
        assert(-0x200000 <= px <= 0x200000 && -0x200000 <= py <= 0x200000) by (nonlinear_arith)
            requires
                px == x as int / 65536 && py == y as int / 65536
                && -0x11_0000_0000 <= x <= 0x11_0000_0000
                && -0x11_0000_0000 <= y <= 0x11_0000_0000
                && x as int == 65536 * px + x as int % 65536
                && y as int == 65536 * py + y as int % 65536
                && 0 <= x as int % 65536 < 65536 && 0 <= y as int % 65536 < 65536;
    }
    let mx = if ray_dir.x < 0 { -ray_dir.x } else { ray_dir.x };
    let my = if ray_dir.y < 0 { -ray_dir.y } else { ray_dir.y };
    let mx1: u64 = if mx == 0 { 1 } else { mx as u64 };
    let my1: u64 = if my == 0 { 1 } else { my as u64 };
    let dx: u64 = (SCALE * SCALE) / mx1;
    let dy: u64 = (SCALE * SCALE) / my1;
    let stx: i64 = if ray_dir.x >= 0 { 1 } else { -1 };
    let sty: i64 = if ray_dir.y >= 0 { 1 } else { -1 };
    let distx: i64 = if ray_dir.x >= 0 { (px + 1) * (SCALE as i64) - x } else { x - px * (SCALE as i64) };
    let disty: i64 = if ray_dir.y >= 0 { (py + 1) * (SCALE as i64) - y } else { y - py * (SCALE as i64) };
    proof {
        assert(0 <= distx <= SCALE && 0 <= disty <= SCALE);
        assert(dx <= 0x1_0000_0000 && dy <= 0x1_0000_0000);
        assert((distx as u64) * dx <= 0x8000_0000_0000_0000u64) by (nonlinear_arith)
            requires 0 <= distx <= 65536 && dx <= 0x1_0000_0000u64;
        assert((disty as u64) * dy <= 0x8000_0000_0000_0000u64) by (nonlinear_arith)
            requires 0 <= disty <= 65536 && dy <= 0x1_0000_0000u64;
    }
    let mut side_x: u64 = ((distx as u64) * dx) / SCALE;
    let mut side_y: u64 = ((disty as u64) * dy) / SCALE;
    proof {
        assert(side_x <= dx && side_y <= dy) by (nonlinear_arith)
            requires
                side_x == (distx as int) * dx / 65536 && side_y == (disty as int) * dy / 65536
                && 0 <= distx <= 65536 && 0 <= disty <= 65536 && dx >= 0 && dy >= 0;
    }
    let bsz = B::size();
    proof {
        assert(dx * bsz <= 0x1_0000_0000 * 8 && dy * bsz <= 0x1_0000_0000 * 8) by (nonlinear_arith)
            requires dx <= 0x1_0000_0000u64 && dy <= 0x1_0000_0000u64 && bsz <= 8u32;
    }
    let bdx: u64 = dx * (bsz as u64);
    let bdy: u64 = dy * (bsz as u64);
    let offx: i64 = if ray_dir.x >= 0 { 0 } else { (bsz - 1) as i64 };
    let offy: i64 = if ray_dir.y >= 0 { 0 } else { (bsz - 1) as i64 };
    let bw = world.size.x / bsz;
    let bh = world.size.y / bsz;
    proof {
        vstd::arithmetic::div_mod::lemma_fundamental_div_mod(world.size.x as int, B::spec_size());
        vstd::arithmetic::div_mod::lemma_fundamental_div_mod(world.size.y as int, B::spec_size());
        assert(1 <= bw && 1 <= bh && bw * bsz == world.size.x && bh * bsz == world.size.y
            && bw * bh >= 1) by (nonlinear_arith)
            requires
                bw == world.size.x as int / B::spec_size()
                && bh == world.size.y as int / B::spec_size()
                && bsz == B::spec_size() && 1 <= bsz <= 8
                && 1 <= world.size.x <= 8192 && 1 <= world.size.y <= 8192
                && world.size.x as int % B::spec_size() == 0
                && world.size.y as int % B::spec_size() == 0
                && world.size.x as int
                    == B::spec_size() * (world.size.x as int / B::spec_size())
                        + world.size.x as int % B::spec_size()
                && world.size.y as int
                    == B::spec_size() * (world.size.y as int / B::spec_size())
                        + world.size.y as int % B::spec_size();
        assert(world.diff@.len() >= 1);
    }
    let mut bpos_x = fdiv_i64(px, bsz as i64);
    let mut bpos_y = fdiv_i64(py, bsz as i64);
    proof {
        vstd::arithmetic::div_mod::lemma_fundamental_div_mod(px as int, bsz as int);
        vstd::arithmetic::div_mod::lemma_fundamental_div_mod(py as int, bsz as int);
        assert(-0x200000 <= bpos_x <= 0x200000 && -0x200000 <= bpos_y <= 0x200000)
            by (nonlinear_arith)
            requires
                bpos_x == px as int / (bsz as int) && bpos_y == py as int / (bsz as int)
                && 1 <= bsz <= 8u32 && -0x200000 <= px <= 0x200000 && -0x200000 <= py <= 0x200000
                && px as int == (bsz as int) * (px as int / (bsz as int)) + px as int % (bsz as int)
                && py as int == (bsz as int) * (py as int / (bsz as int)) + py as int % (bsz as int)
                && 0 <= px as int % (bsz as int) < bsz && 0 <= py as int % (bsz as int) < bsz;
    }
    let mut bside_x = block_boundary_side(bpos_x, bsz, x, ray_dir.x >= 0, dx);
    let mut bside_y = block_boundary_side(bpos_y, bsz, y, ray_dir.y >= 0, dy);
    let mut block: B = if 0 <= bpos_x && bpos_x < bw as i64 && 0 <= bpos_y && bpos_y < bh as i64 {
        read_tile(world, bpos_x as u32, bpos_y as u32)
    } else {
        world.diff[0]
    };
    let mut pos_x: i64 = px;
    let mut pos_y: i64 = py;
    let mut last_t: u64 = 0;
    let mut fluence = Fluence::transparent();
    let mut i: u32 = 0;
    proof {
        assert(block == spec_initial_tile(*world, bpos_x as int, bpos_y as int));
        assert(goal == spec_block_trace_loop(*world, dx as int, dy as int, bdx as int, bdy as int,
            stx as int, sty as int, isz as int, x as int, y as int,
            ray_dir.x as int, ray_dir.y as int, offx as int, offy as int,
            BlockTraceState {
                pos_x: pos_x as int,
                pos_y: pos_y as int,
                side_x: side_x as int,
                side_y: side_y as int,
                bpos_x: bpos_x as int,
                bpos_y: bpos_y as int,
                bside_x: bside_x as int,
                bside_y: bside_y as int,
                block,
                last_t: last_t as int,
                fluence,
            }, MAX_STEPS as nat));
    }
    while i < MAX_STEPS
        invariant
            world.wf(),
            -0x2_0000 <= ray_dir.x <= 0x2_0000,
            -0x2_0000 <= ray_dir.y <= 0x2_0000,
            -0x10_0000_0000 <= x <= 0x10_0000_0000,
            -0x10_0000_0000 <= y <= 0x10_0000_0000,
            dx <= 0x1_0000_0000,
            dy <= 0x1_0000_0000,
            bsz == B::spec_size(),
            1 <= bsz <= 8,
            bdx == dx * bsz,
            bdy == dy * bsz,
            bdx <= 0x8_0000_0000,
            bdy <= 0x8_0000_0000,
            interval.near <= interval.far,
            goal == spec_trace_radiance(*world, ray_start, ray_dir, interval),
            stx == (if ray_dir.x >= 0 { 1int } else { -1int }),
            sty == (if ray_dir.y >= 0 { 1int } else { -1int }),
            offx == (if ray_dir.x >= 0 { 0int } else { bsz - 1 }),
            offy == (if ray_dir.y >= 0 { 0int } else { bsz - 1 }),
            bw == world.size.x as int / B::spec_size(),
            bh == world.size.y as int / B::spec_size(),
            1 <= bw <= 8192,
            1 <= bh <= 8192,
            bw * bsz == world.size.x,
            bh * bsz == world.size.y,
            isz <= 0x8_0000_0000,
            i <= MAX_STEPS,
            side_x <= SIDE_CAP + (i as int + 1) * 0x10_0000_0000,
            side_y <= SIDE_CAP + (i as int + 1) * 0x10_0000_0000,
            bside_x <= SIDE_CAP + (i as int + 1) * 0x10_0000_0000,
            bside_y <= SIDE_CAP + (i as int + 1) * 0x10_0000_0000,
            last_t <= isz,
            fluence.wf(),
            fluence.radiance.all_le((i as int) * CELL_RADIANCE_MAX),
            -0x4_0000_0000 <= pos_x <= 0x4_0000_0000,
            -0x4_0000_0000 <= pos_y <= 0x4_0000_0000,
            -0x40_0000 <= bpos_x <= 0x40_0000,
            -0x40_0000 <= bpos_y <= 0x40_0000,
            spec_block_trace_loop(*world, dx as int, dy as int, bdx as int, bdy as int,
                stx as int, sty as int, isz as int, x as int, y as int,
                ray_dir.x as int, ray_dir.y as int, offx as int, offy as int,
                BlockTraceState {
                    pos_x: pos_x as int,
                    pos_y: pos_y as int,
                    side_x: side_x as int,
                    side_y: side_y as int,
                    bpos_x: bpos_x as int,
                    bpos_y: bpos_y as int,
                    bside_x: bside_x as int,
                    bside_y: bside_y as int,
                    block,
                    last_t: last_t as int,
                    fluence,
                }, (MAX_STEPS - i) as nat) == goal,
        decreases MAX_STEPS - i,
    {
        let ghost st = BlockTraceState {
            pos_x: pos_x as int,
            pos_y: pos_y as int,
            side_x: side_x as int,
            side_y: side_y as int,
            bpos_x: bpos_x as int,
            bpos_y: bpos_y as int,
            bside_x: bside_x as int,
            bside_y: bside_y as int,
            block,
            last_t: last_t as int,
            fluence,
        };
        let ghost fuel = (MAX_STEPS - i) as nat;
        if !(0 <= pos_x && pos_x < world.size.x as i64 && 0 <= pos_y && pos_y < world.size.y as i64
            && 0 <= bpos_x && bpos_x < bw as i64 && 0 <= bpos_y && bpos_y < bh as i64) {
            proof {
                assert(spec_block_trace_loop(*world, dx as int, dy as int, bdx as int, bdy as int,
                    stx as int, sty as int, isz as int, x as int, y as int,
                    ray_dir.x as int, ray_dir.y as int, offx as int, offy as int,
                    st, fuel) == fluence);
                assert((i as int) * CELL_RADIANCE_MAX <= 1000 * CELL_RADIANCE_MAX)
                    by (nonlinear_arith)
                    requires 0 <= i <= 1000u32;
            }
            return fluence;
        }
        let bsz64 = bsz as i64;
        let in_block = pos_x / bsz64 == bpos_x && pos_y / bsz64 == bpos_y;
        if B::is_empty(block) || !in_block {
            let t = if bside_x <= bside_y { bside_x } else { bside_y };
            let mbx = bside_x <= bside_y;
            let mby = bside_y <= bside_x;
            proof {
                assert((i as int + 2) * 0x10_0000_0000 == (i as int + 1) * 0x10_0000_0000
                    + 0x10_0000_0000) by (nonlinear_arith);
                assert((i as int + 1) * 0x10_0000_0000 <= 1001 * 0x10_0000_0000)
                    by (nonlinear_arith)
                    requires 0 <= i < 1000u32;
            }
            if mbx {
                bside_x = bside_x + bdx;
                bpos_x = bpos_x + stx;
            }
            if mby {
                bside_y = bside_y + bdy;
                bpos_y = bpos_y + sty;
            }
            if !(0 <= bpos_x && bpos_x < bw as i64 && 0 <= bpos_y && bpos_y < bh as i64) {
                proof {
                    assert(spec_block_trace_loop(*world, dx as int, dy as int, bdx as int,
                        bdy as int, stx as int, sty as int, isz as int, x as int, y as int,
                        ray_dir.x as int, ray_dir.y as int, offx as int, offy as int,
                        st, fuel) == fluence);
                    assert((i as int) * CELL_RADIANCE_MAX <= 1000 * CELL_RADIANCE_MAX)
                        by (nonlinear_arith)
                        requires 0 <= i <= 1000u32;
                }
                return fluence;
            }
            block = read_tile(world, bpos_x as u32, bpos_y as u32);
            let next_bt = if bside_x <= bside_y { bside_x } else { bside_y };
            if !B::is_empty(block) {
                proof {
                    assert(t <= 0x8000_0000_0000) by (nonlinear_arith)
                        requires
                            t <= SIDE_CAP + (i as int + 1) * 0x10_0000_0000 && 0 <= i < 1000u32;
                    assert((t as int) * (ray_dir.x as int) <= 0x8000_0000_0000 * 0x2_0000
                        && (t as int) * (ray_dir.x as int) >= -(0x8000_0000_0000 * 0x2_0000)
                        && (t as int) * (ray_dir.y as int) <= 0x8000_0000_0000 * 0x2_0000
                        && (t as int) * (ray_dir.y as int) >= -(0x8000_0000_0000 * 0x2_0000))
                        by (nonlinear_arith)
                        requires
                            0 <= t <= 0x8000_0000_0000u64
                            && -0x2_0000 <= ray_dir.x <= 0x2_0000
                            && -0x2_0000 <= ray_dir.y <= 0x2_0000;
                }
                let qx = fdiv_wide((t as i128) * (ray_dir.x as i128), SCALE as i128);
                let qy = fdiv_wide((t as i128) * (ray_dir.y as i128), SCALE as i128);
                proof {
                    assert(-0x1_0000_0000_0000 <= qx <= 0x1_0000_0000_0000
                        && -0x1_0000_0000_0000 <= qy <= 0x1_0000_0000_0000) by (nonlinear_arith)
                        requires
                            qx == (t as int) * (ray_dir.x as int) / 65536
                            && qy == (t as int) * (ray_dir.y as int) / 65536
                            && -(0x8000_0000_0000 * 0x2_0000) <= (t as int) * (ray_dir.x as int)
                            && (t as int) * (ray_dir.x as int) <= 0x8000_0000_0000 * 0x2_0000
                            && -(0x8000_0000_0000 * 0x2_0000) <= (t as int) * (ray_dir.y as int)
                            && (t as int) * (ray_dir.y as int) <= 0x8000_0000_0000 * 0x2_0000;
                }
                let cx: i64 = ((x as i128) + qx) as i64;
                let cy: i64 = ((y as i128) + qy) as i64;
                proof {
                    lemma_fdiv_bound(cx as int, SCALE as int);
                    lemma_fdiv_bound(cy as int, SCALE as int);
                    assert(cx as int / 65536 <= 0x4_0000_0000
                        && cx as int / 65536 >= -0x4_0000_0000
                        && cy as int / 65536 <= 0x4_0000_0000
                        && cy as int / 65536 >= -0x4_0000_0000) by (nonlinear_arith)
                        requires
                            -0x1_0010_0000_0000 <= cx <= 0x1_0010_0000_0000
                            && -0x1_0010_0000_0000 <= cy <= 0x1_0010_0000_0000;
                    assert(bpos_x * bsz64 + offx <= 0x40_0000 * 8 + 8
                        && bpos_x * bsz64 + offx >= -(0x40_0000 * 8 + 8)
                        && bpos_y * bsz64 + offy <= 0x40_0000 * 8 + 8
                        && bpos_y * bsz64 + offy >= -(0x40_0000 * 8 + 8)) by (nonlinear_arith)
                        requires
                            -0x40_0000 <= bpos_x <= 0x40_0000 && -0x40_0000 <= bpos_y <= 0x40_0000
                            && 1 <= bsz64 <= 8 && 0 <= offx < 8 && 0 <= offy < 8;
                }
                let npx: i64 = if mbx { bpos_x * bsz64 + offx } else { fdiv_i64(cx, SCALE as i64) };
                let npy: i64 = if mby { bpos_y * bsz64 + offy } else { fdiv_i64(cy, SCALE as i64) };
                pos_x = npx;
                pos_y = npy;
                side_x = reseed_side(pos_x, x, ray_dir.x >= 0, dx);
                side_y = reseed_side(pos_y, y, ray_dir.y >= 0, dy);
                i = i + 1;
                proof {
                    let stn = BlockTraceState {
                        pos_x: pos_x as int,
                        pos_y: pos_y as int,
                        side_x: side_x as int,
                        side_y: side_y as int,
                        bpos_x: bpos_x as int,
                        bpos_y: bpos_y as int,
                        bside_x: bside_x as int,
                        bside_y: bside_y as int,
                        block,
                        last_t: last_t as int,
                        fluence,
                    };
                    assert(spec_block_trace_loop(*world, dx as int, dy as int, bdx as int,
                        bdy as int, stx as int, sty as int, isz as int, x as int, y as int,
                        ray_dir.x as int, ray_dir.y as int, offx as int, offy as int,
                        stn, (fuel - 1) as nat)
                        == spec_block_trace_loop(*world, dx as int, dy as int, bdx as int,
                            bdy as int, stx as int, sty as int, isz as int, x as int, y as int,
                            ray_dir.x as int, ray_dir.y as int, offx as int, offy as int,
                            st, fuel));
                }
                continue;
            } else if next_bt >= isz {
                proof {
                    assert(bpos_x * bsz64 < bw * bsz64 && bpos_x * bsz64 >= 0
                        && bpos_y * bsz64 < bh * bsz64 && bpos_y * bsz64 >= 0) by (nonlinear_arith)
                        requires
                            0 <= bpos_x < bw && 0 <= bpos_y < bh && bsz64 >= 1;
                    assert(fluence.radiance.r + CELL_RADIANCE_MAX
                        <= (i as int + 1) * CELL_RADIANCE_MAX
                        && fluence.radiance.g + CELL_RADIANCE_MAX
                            <= (i as int + 1) * CELL_RADIANCE_MAX
                        && fluence.radiance.b + CELL_RADIANCE_MAX
                            <= (i as int + 1) * CELL_RADIANCE_MAX
                        && (i as int + 1) * CELL_RADIANCE_MAX <= 1000 * CELL_RADIANCE_MAX)
                        by (nonlinear_arith)
                        requires
                            fluence.radiance.r <= (i as int) * CELL_RADIANCE_MAX
                            && fluence.radiance.g <= (i as int) * CELL_RADIANCE_MAX
                            && fluence.radiance.b <= (i as int) * CELL_RADIANCE_MAX
                            && 0 <= i < 1000u32;
                }
                let cpx = (bpos_x * bsz64) as u32;
                let cpy = (bpos_y * bsz64) as u32;
                let seg = isz - last_t;
                let cell = world.cell(cpx, cpy);
                let fl = fluence.over(cell.as_fluence(seg));
                proof {
                    assert(spec_block_trace_loop(*world, dx as int, dy as int, bdx as int,
                        bdy as int, stx as int, sty as int, isz as int, x as int, y as int,
                        ray_dir.x as int, ray_dir.y as int, offx as int, offy as int,
                        st, fuel) == fl);
                }
                return fl;
            } else {
                i = i + 1;
                proof {
                    let stn = BlockTraceState {
                        pos_x: pos_x as int,
                        pos_y: pos_y as int,
                        side_x: side_x as int,
                        side_y: side_y as int,
                        bpos_x: bpos_x as int,
                        bpos_y: bpos_y as int,
                        bside_x: bside_x as int,
                        bside_y: bside_y as int,
                        block,
                        last_t: last_t as int,
                        fluence,
                    };
                    assert(spec_block_trace_loop(*world, dx as int, dy as int, bdx as int,
                        bdy as int, stx as int, sty as int, isz as int, x as int, y as int,
                        ray_dir.x as int, ray_dir.y as int, offx as int, offy as int,
                        stn, (fuel - 1) as nat)
                        == spec_block_trace_loop(*world, dx as int, dy as int, bdx as int,
                            bdy as int, stx as int, sty as int, isz as int, x as int, y as int,
                            ray_dir.x as int, ray_dir.y as int, offx as int, offy as int,
                            st, fuel));
                }
                continue;
            }
        }
        let next_t = if side_x <= side_y { side_x } else { side_y };
        let ux = pos_x as u32;
        let uy = pos_y as u32;
        proof {
            vstd::arithmetic::div_mod::lemma_fundamental_div_mod(pos_x as int, bsz as int);
            vstd::arithmetic::div_mod::lemma_fundamental_div_mod(pos_y as int, bsz as int);
        }
        let off = Vec2u { x: (pos_x % bsz64) as u32, y: (pos_y % bsz64) as u32 };
        let bit = B::get(block, off);
        if bit || next_t >= isz {
            let m = if next_t <= isz { next_t } else { isz };
            let seg = if m < last_t { 0 } else { m - last_t };
            let cell = world.cell(ux, uy);
            proof {
                assert(fluence.radiance.r + CELL_RADIANCE_MAX
                    <= (i as int + 1) * CELL_RADIANCE_MAX
                    && fluence.radiance.g + CELL_RADIANCE_MAX
                        <= (i as int + 1) * CELL_RADIANCE_MAX
                    && fluence.radiance.b + CELL_RADIANCE_MAX
                        <= (i as int + 1) * CELL_RADIANCE_MAX
                    && (i as int + 1) * CELL_RADIANCE_MAX <= 1000 * CELL_RADIANCE_MAX)
                    by (nonlinear_arith)
                    requires
                        fluence.radiance.r <= (i as int) * CELL_RADIANCE_MAX
                        && fluence.radiance.g <= (i as int) * CELL_RADIANCE_MAX
                        && fluence.radiance.b <= (i as int) * CELL_RADIANCE_MAX
                        && 0 <= i < 1000u32;
            }
            let fl = fluence.over(cell.as_fluence(seg));
            last_t = next_t;
            if fl.transmittance.r < TRANSMITTANCE_CUTOFF
                && fl.transmittance.g < TRANSMITTANCE_CUTOFF
                && fl.transmittance.b < TRANSMITTANCE_CUTOFF {
                let out = Fluence { radiance: fl.radiance, transmittance: Rgb { r: 0, g: 0, b: 0 } };
                proof {
                    assert(spec_block_trace_loop(*world, dx as int, dy as int, bdx as int,
                        bdy as int, stx as int, sty as int, isz as int, x as int, y as int,
                        ray_dir.x as int, ray_dir.y as int, offx as int, offy as int,
                        st, fuel) == out);
                }
                return out;
            }
            if next_t >= isz {
                proof {
                    assert(spec_block_trace_loop(*world, dx as int, dy as int, bdx as int,
                        bdy as int, stx as int, sty as int, isz as int, x as int, y as int,
                        ray_dir.x as int, ray_dir.y as int, offx as int, offy as int,
                        st, fuel) == fl);
                }
                return fl;
            }
            fluence = fl;
        }
        let ax = side_x <= side_y;
        let ay = side_y <= side_x;
        proof {
            assert((i as int + 2) * 0x10_0000_0000
                == (i as int + 1) * 0x10_0000_0000 + 0x10_0000_0000) by (nonlinear_arith);
            assert((i as int + 1) * 0x10_0000_0000 <= 1001 * 0x10_0000_0000) by (nonlinear_arith)
                requires 0 <= i < 1000u32;
        }
        if ax {
            side_x = side_x + dx;
            pos_x = pos_x + stx;
        }
        if ay {
            side_y = side_y + dy;
            pos_y = pos_y + sty;
        }
        i = i + 1;
        proof {
            let stn = BlockTraceState {
                pos_x: pos_x as int,
                pos_y: pos_y as int,
                side_x: side_x as int,
                side_y: side_y as int,
                bpos_x: bpos_x as int,
                bpos_y: bpos_y as int,
                bside_x: bside_x as int,
                bside_y: bside_y as int,
                block,
                last_t: last_t as int,
                fluence,
            };
            assert(spec_block_trace_loop(*world, dx as int, dy as int, bdx as int, bdy as int,
                stx as int, sty as int, isz as int, x as int, y as int,
                ray_dir.x as int, ray_dir.y as int, offx as int, offy as int,
                stn, (fuel - 1) as nat)
                == spec_block_trace_loop(*world, dx as int, dy as int, bdx as int, bdy as int,
                    stx as int, sty as int, isz as int, x as int, y as int,
                    ray_dir.x as int, ray_dir.y as int, offx as int, offy as int,
                    st, fuel));
        }
    }
    proof {
        assert(spec_block_trace_loop(*world, dx as int, dy as int, bdx as int, bdy as int,
            stx as int, sty as int, isz as int, x as int, y as int,
            ray_dir.x as int, ray_dir.y as int, offx as int, offy as int,
            BlockTraceState {
                pos_x: pos_x as int,
                pos_y: pos_y as int,
                side_x: side_x as int,
                side_y: side_y as int,
                bpos_x: bpos_x as int,
                bpos_y: bpos_y as int,
                bside_x: bside_x as int,
                bside_y: bside_y as int,
                block,
                last_t: last_t as int,
                fluence,
            }, 0) == fluence);
    }
    fluence
}

/// A world that absorbs nothing: every cell's opacity is zero in every
/// channel.
pub open spec fn spec_absorption_free<B: Block>(w: TraceWorld<B>) -> bool {
    forall|i: int| 0 <= i < w.opacity@.len()
        ==> (#[trigger] w.opacity@[i]) == (Rgb { r: 0, g: 0, b: 0 })
}

/// Compositing a zero-opacity segment onto the transparent fluence changes
/// nothing, whatever the segment length.
proof fn lemma_zero_opacity_composite(c: Color, seg: int)
    requires
        c.opacity == (Rgb { r: 0, g: 0, b: 0 }),
    ensures
        Fluence::spec_transparent().spec_over(c.spec_as_fluence(seg))
            == Fluence::spec_transparent(),
{
    let sc = SCALE as int;
    assert(0 * seg == 0) by (nonlinear_arith);
    assert(crate::fixed::spec_exp_neg(0) == sc) by {
        assert(0int % sc == 0 && 0int / sc == 0);
        assert(crate::fixed::spec_exp_frac(0) == sc) by {
            assert(0int * 0int == 0) by (nonlinear_arith);
        };
    };
    let f = c.spec_as_fluence(seg);
    assert(f.transmittance == (Rgb { r: SCALE, g: SCALE, b: SCALE }));
    assert(c.radiance.r * (sc - sc) == 0 && c.radiance.g * (sc - sc) == 0
        && c.radiance.b * (sc - sc) == 0) by (nonlinear_arith);
    assert(f.radiance == (Rgb { r: 0, g: 0, b: 0 }));
    assert(sc * sc / sc == sc && sc * 0 == 0) by (nonlinear_arith)
        requires sc == 65536;
}

/// The cell read by a march inside the grid lies inside the opacity layer.
proof fn lemma_cell_index<B: Block>(w: TraceWorld<B>, x: int, y: int)
    requires
        w.wf(),
        0 <= x < w.size.x,
        0 <= y < w.size.y,
    ensures
        0 <= y * w.size.x + x < w.opacity@.len(),
    decreases 0int,
{
    assert(0 <= y * w.size.x + x && y * w.size.x + x < w.size.x * w.size.y)
        by (nonlinear_arith)
        requires 0 <= x < w.size.x && 0 <= y < w.size.y && w.size.x >= 1;
}

/// On an absorption-free world the per-pixel march leaves the transparent
/// fluence untouched, from any state carrying it.
proof fn lemma_trace_loop_transparent<B: Block>(
    w: TraceWorld<B>,
    dx: int,
    dy: int,
    stx: int,
    sty: int,
    isz: int,
    st: TraceState,
    fuel: nat,
)
    requires
        w.wf(),
        spec_absorption_free(w),
        st.fluence == Fluence::spec_transparent(),
    ensures
        spec_trace_loop(w, dx, dy, stx, sty, isz, st, fuel)
            == Fluence::spec_transparent(),
    decreases fuel,
{
    if fuel == 0 {
    } else if !(0 <= st.pos_x < w.size.x && 0 <= st.pos_y < w.size.y) {
    } else {
        let next_t = if st.side_x <= st.side_y { st.side_x } else { st.side_y };
        if w.spec_diff_bit(st.pos_x, st.pos_y) || next_t >= isz {
            let seg = (if next_t <= isz { next_t } else { isz }) - st.last_t;
            lemma_cell_index(w, st.pos_x, st.pos_y);
            let cell = w.spec_cell(st.pos_x, st.pos_y);
            assert(cell.opacity == (Rgb { r: 0, g: 0, b: 0 }));
            lemma_zero_opacity_composite(cell, seg);
            let fl = st.fluence.spec_over(cell.spec_as_fluence(seg));
            assert(fl == Fluence::spec_transparent());
            if next_t < isz {
                lemma_trace_loop_transparent(w, dx, dy, stx, sty, isz,
                    spec_advance(TraceState { last_t: next_t, fluence: fl, ..st },
                        dx, dy, stx, sty),
                    (fuel - 1) as nat);
            }
        } else {
            lemma_trace_loop_transparent(w, dx, dy, stx, sty, isz,
                spec_advance(st, dx, dy, stx, sty), (fuel - 1) as nat);
        }
    }
}

/// On an absorption-free world the tile-accelerated march leaves the
/// transparent fluence untouched, from any state carrying it.
proof fn lemma_block_trace_loop_transparent<B: Block>(
    w: TraceWorld<B>,
    dx: int,
    dy: int,
    bdx: int,
    bdy: int,
    stx: int,
    sty: int,
    isz: int,
    sx0: int,
    sy0: int,
    dirx: int,
    diry: int,
    offx: int,
    offy: int,
    st: BlockTraceState<B>,
    fuel: nat,
)
    requires
        w.wf(),
        spec_absorption_free(w),
        st.fluence == Fluence::spec_transparent(),
    ensures
        spec_block_trace_loop(w, dx, dy, bdx, bdy, stx, sty, isz, sx0, sy0,
            dirx, diry, offx, offy, st, fuel) == Fluence::spec_transparent(),
    decreases fuel,
{
    let sc = SCALE as int;
    let bsz = B::spec_size();
    let bw = w.size.x as int / bsz;
    let bh = w.size.y as int / bsz;
    if fuel == 0 {
    } else if !(0 <= st.pos_x < w.size.x && 0 <= st.pos_y < w.size.y
        && 0 <= st.bpos_x < bw && 0 <= st.bpos_y < bh) {
    } else if st.block.spec_is_empty()
        || !(st.pos_x / bsz == st.bpos_x && st.pos_y / bsz == st.bpos_y) {
        let mbx = st.bside_x <= st.bside_y;
        let mby = st.bside_y <= st.bside_x;
        let t = if mbx { st.bside_x } else { st.bside_y };
        let nbpos_x = st.bpos_x + if mbx { stx } else { 0 };
        let nbpos_y = st.bpos_y + if mby { sty } else { 0 };
        let nbside_x = st.bside_x + if mbx { bdx } else { 0 };
        let nbside_y = st.bside_y + if mby { bdy } else { 0 };
        if !(0 <= nbpos_x < bw && 0 <= nbpos_y < bh) {
        } else {
            let nblock = spec_tile(w, nbpos_x, nbpos_y);
            let next_bt = if nbside_x <= nbside_y { nbside_x } else { nbside_y };
            if !nblock.spec_is_empty() {
                let cx = sx0 + t * dirx / sc;
                let cy = sy0 + t * diry / sc;
                let npos_x = if mbx { nbpos_x * bsz + offx } else { cx / sc };
                let npos_y = if mby { nbpos_y * bsz + offy } else { cy / sc };
                lemma_block_trace_loop_transparent(w, dx, dy, bdx, bdy, stx, sty,
                    isz, sx0, sy0, dirx, diry, offx, offy,
                    BlockTraceState {
                        pos_x: npos_x,
                        pos_y: npos_y,
                        side_x: spec_reseed_side(npos_x, sx0, stx >= 0, dx),
                        side_y: spec_reseed_side(npos_y, sy0, sty >= 0, dy),
                        bpos_x: nbpos_x,
                        bpos_y: nbpos_y,
                        bside_x: nbside_x,
                        bside_y: nbside_y,
                        block: nblock,
                        ..st
                    },
                    (fuel - 1) as nat);
            } else if next_bt >= isz {
                vstd::arithmetic::div_mod::lemma_fundamental_div_mod(w.size.x as int, bsz);
                vstd::arithmetic::div_mod::lemma_fundamental_div_mod(w.size.y as int, bsz);
                assert(0 <= nbpos_x * bsz && nbpos_x * bsz < bw * bsz
                    && 0 <= nbpos_y * bsz && nbpos_y * bsz < bh * bsz
                    && bw * bsz <= w.size.x && bh * bsz <= w.size.y) by (nonlinear_arith)
                    requires
                        0 <= nbpos_x < bw && 0 <= nbpos_y < bh && bsz >= 1
                        && bw == w.size.x as int / bsz && bh == w.size.y as int / bsz
                        && w.size.x as int == bsz * bw + w.size.x as int % bsz
                        && w.size.y as int == bsz * bh + w.size.y as int % bsz
                        && w.size.x as int % bsz >= 0 && w.size.y as int % bsz >= 0;
                let seg0 = isz - st.last_t;
                let seg = if seg0 < 0 { 0 } else { seg0 };
                lemma_cell_index(w, nbpos_x * bsz, nbpos_y * bsz);
                let cell = w.spec_cell(nbpos_x * bsz, nbpos_y * bsz);
                assert(cell.opacity == (Rgb { r: 0, g: 0, b: 0 }));
                lemma_zero_opacity_composite(cell, seg);
            } else {
                lemma_block_trace_loop_transparent(w, dx, dy, bdx, bdy, stx, sty,
                    isz, sx0, sy0, dirx, diry, offx, offy,
                    BlockTraceState {
                        bpos_x: nbpos_x,
                        bpos_y: nbpos_y,
                        bside_x: nbside_x,
                        bside_y: nbside_y,
                        block: nblock,
                        ..st
                    },
                    (fuel - 1) as nat);
            }
        }
    } else {
        let next_t = if st.side_x <= st.side_y { st.side_x } else { st.side_y };
        if st.block.spec_get((st.pos_x % bsz) as u32, (st.pos_y % bsz) as u32)
            || next_t >= isz {
            let m = if next_t <= isz { next_t } else { isz };
            let seg0 = m - st.last_t;
            let seg = if seg0 < 0 { 0 } else { seg0 };
            lemma_cell_index(w, st.pos_x, st.pos_y);
            let cell = w.spec_cell(st.pos_x, st.pos_y);
            assert(cell.opacity == (Rgb { r: 0, g: 0, b: 0 }));
            lemma_zero_opacity_composite(cell, seg);
            let fl = st.fluence.spec_over(cell.spec_as_fluence(seg));
            assert(fl == Fluence::spec_transparent());
            if next_t < isz {
                lemma_block_trace_loop_transparent(w, dx, dy, bdx, bdy, stx, sty,
                    isz, sx0, sy0, dirx, diry, offx, offy,
                    spec_block_advance(
                        BlockTraceState { last_t: next_t, fluence: fl, ..st },
                        dx, dy, stx, sty),
                    (fuel - 1) as nat);
            }
        } else {
            lemma_block_trace_loop_transparent(w, dx, dy, bdx, bdy, stx, sty,
                isz, sx0, sy0, dirx, diry, offx, offy,
                spec_block_advance(st, dx, dy, stx, sty), (fuel - 1) as nat);
        }
    }
}

/// The two marching variants are functionally identical wherever that holds
/// exactly of the fixed-point arithmetic: on an absorption-free world both
/// return the transparent fluence for every ray, interval and mask, so they
/// agree. (On absorbing worlds the tile march reconstructs its entry pixel
/// from a rounded ray parameter, which can differ from the stepped pixel by
/// one, so exact agreement is stated only on this domain.)
pub proof fn lemma_tracers_agree_absorption_free<B: Block>(
    w: TraceWorld<B>,
    start: Vec2q,
    dir: Vec2q,
    interval: Interval,
)
    requires
        w.wf(),
        spec_absorption_free(w),
    ensures
        spec_trace_radiance(w, start, dir, interval) == Fluence::spec_transparent(),
        spec_trace_radiance_simple(w, start, dir, interval) == Fluence::spec_transparent(),
        spec_trace_radiance(w, start, dir, interval)
            == spec_trace_radiance_simple(w, start, dir, interval),
{
    let sc = SCALE as int;
    let bsz = B::spec_size();
    let c = spec_clipped_interval(w, start, dir, interval);
    if c.0 > c.1 {
    } else {
        let st0 = spec_initial_state(start, dir, c.0);
        assert(st0.fluence == Fluence::spec_transparent());
        lemma_trace_loop_transparent(
            w,
            spec_dda_delta(dir.x as int),
            spec_dda_delta(dir.y as int),
            if dir.x >= 0 { 1int } else { -1int },
            if dir.y >= 0 { 1int } else { -1int },
            c.1 - c.0,
            st0,
            MAX_STEPS as nat,
        );
        let sx0 = start.x + c.0 * dir.x / sc;
        let sy0 = start.y + c.0 * dir.y / sc;
        let dx = spec_dda_delta(dir.x as int);
        let dy = spec_dda_delta(dir.y as int);
        let bpos_x = st0.pos_x / bsz;
        let bpos_y = st0.pos_y / bsz;
        lemma_block_trace_loop_transparent(
            w, dx, dy, dx * bsz, dy * bsz,
            if dir.x >= 0 { 1int } else { -1int },
            if dir.y >= 0 { 1int } else { -1int },
            c.1 - c.0, sx0, sy0, dir.x as int, dir.y as int,
            if dir.x >= 0 { 0int } else { bsz - 1 },
            if dir.y >= 0 { 0int } else { bsz - 1 },
            BlockTraceState {
                pos_x: st0.pos_x,
                pos_y: st0.pos_y,
                side_x: st0.side_x,
                side_y: st0.side_y,
                bpos_x,
                bpos_y,
                bside_x: spec_block_boundary_side(bpos_x, bsz, sx0, dir.x >= 0, dx),
                bside_y: spec_block_boundary_side(bpos_y, bsz, sy0, dir.y >= 0, dy),
                block: spec_initial_tile(w, bpos_x, bpos_y),
                last_t: 0,
                fluence: Fluence::spec_transparent(),
            },
            MAX_STEPS as nat,
        );
    }
}

} // verus!

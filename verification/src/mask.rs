//! The difference-mask builder: per block, one bit per pixel marking "this
//! pixel differs from a grid-adjacent pixel in radiance or opacity", plus an
//! any-bit-set flag per block. Rebuilt from grid state every frame; consumed
//! by the ray tracer to skip homogeneous runs.

use vstd::prelude::*;
use crate::cascade::Vec2u;
use crate::color::Rgb;
use crate::trace::Block;

verus! {

/// Whether a pixel differs from at least one of its in-bounds 4-connected
/// neighbors in radiance or opacity.
pub open spec fn spec_pixel_differs(
    radiance: Seq<Rgb>,
    opacity: Seq<Rgb>,
    w: int,
    h: int,
    x: int,
    y: int,
) -> bool {
    ||| (x + 1 < w && (radiance[y * w + x + 1] != radiance[y * w + x]
        || opacity[y * w + x + 1] != opacity[y * w + x]))
    ||| (x > 0 && (radiance[y * w + x - 1] != radiance[y * w + x]
        || opacity[y * w + x - 1] != opacity[y * w + x]))
    ||| (y + 1 < h && (radiance[(y + 1) * w + x] != radiance[y * w + x]
        || opacity[(y + 1) * w + x] != opacity[y * w + x]))
    ||| (y > 0 && (radiance[(y - 1) * w + x] != radiance[y * w + x]
        || opacity[(y - 1) * w + x] != opacity[y * w + x]))
}

/// Reads one cell attribute pair.
fn grid_at(radiance: &Vec<Rgb>, opacity: &Vec<Rgb>, w: u32, x: u32, y: u32) -> (out: (Rgb, Rgb))
    requires
        1 <= w <= 8192,
        y < 8192,
        radiance@.len() == opacity@.len(),
        (y + 1) * w <= radiance@.len(),
        x < w,
    ensures
        out.0 == radiance@[y * w + x],
        out.1 == opacity@[y * w + x],
{
    proof {
        assert(y * w + x < (y + 1) * w && 0 <= y * w + x && y * w <= 8192 * 8192)
            by (nonlinear_arith)
            requires x < w && y >= 0 && w >= 1 && y < 8192 && w <= 8192;
    }
    let idx = (y as usize) * (w as usize) + (x as usize);
    (radiance[idx], opacity[idx])
}

/// Whether a pixel differs from an in-bounds 4-connected neighbor.
fn pixel_differs(radiance: &Vec<Rgb>, opacity: &Vec<Rgb>, size: Vec2u, x: u32, y: u32) -> (d: bool)
    requires
        1 <= size.x,
        1 <= size.y,
        size.x <= 8192,
        size.y <= 8192,
        radiance@.len() == size.x * size.y,
        opacity@.len() == size.x * size.y,
        x < size.x,
        y < size.y,
    ensures
        d == spec_pixel_differs(radiance@, opacity@, size.x as int, size.y as int, x as int, y as int),
{
    proof {
        assert(forall|yy: int| 0 <= yy <= size.y ==> #[trigger] (yy * size.x) <= size.y * size.x)
            by (nonlinear_arith)
            requires size.x >= 0 && size.y >= 0;
        assert(size.y * size.x == size.x * size.y) by (nonlinear_arith);
    }
    let here = grid_at(radiance, opacity, size.x, x, y);
    if x + 1 < size.x {
        let n = grid_at(radiance, opacity, size.x, x + 1, y);
        if n.0 != here.0 || n.1 != here.1 {
            return true;
        }
    }
    if x > 0 {
        let n = grid_at(radiance, opacity, size.x, x - 1, y);
        if n.0 != here.0 || n.1 != here.1 {
            return true;
        }
    }
    if y + 1 < size.y {
        let n = grid_at(radiance, opacity, size.x, x, y + 1);
        if n.0 != here.0 || n.1 != here.1 {
            return true;
        }
    }
    if y > 0 {
        let n = grid_at(radiance, opacity, size.x, x, y - 1);
        if n.0 != here.0 || n.1 != here.1 {
            return true;
        }
    }
    false
}

/// Builds the tile of one block, with its any-bit flag.
#[verifier::loop_isolation(false)]
fn build_block<B: Block>(
    radiance: &Vec<Rgb>,
    opacity: &Vec<Rgb>,
    size: Vec2u,
    bx: u32,
    by: u32,
) -> (out: (B, bool))
    requires
        1 <= B::spec_size() <= 8,
        1 <= size.x <= 8192,
        1 <= size.y <= 8192,
        radiance@.len() == size.x * size.y,
        opacity@.len() == size.x * size.y,
        (bx + 1) * B::spec_size() <= size.x,
        (by + 1) * B::spec_size() <= size.y,
    ensures
        forall|dx: u32, dy: u32| dx < B::spec_size() && dy < B::spec_size()
            ==> (#[trigger] out.0.spec_get(dx, dy)) == spec_pixel_differs(
                radiance@, opacity@, size.x as int, size.y as int,
                bx * B::spec_size() + dx, by * B::spec_size() + dy),
        out.1 == exists|dx: u32, dy: u32| dx < B::spec_size() && dy < B::spec_size()
            && #[trigger] spec_pixel_differs(
                radiance@, opacity@, size.x as int, size.y as int,
                bx * B::spec_size() + dx, by * B::spec_size() + dy),
{
    let bsz = B::size();
    let mut block = B::empty();
    let mut any = false;
    let mut dx: u32 = 0;
    while dx < bsz
        invariant
            dx <= bsz,
            forall|a: u32, c: u32| a < B::spec_size() && c < B::spec_size()
                ==> (#[trigger] block.spec_get(a, c))
                    == (a < dx && spec_pixel_differs(
                        radiance@, opacity@, size.x as int, size.y as int,
                        bx * B::spec_size() + a, by * B::spec_size() + c)),
            any == exists|a: u32, c: u32| a < dx && c < B::spec_size()
                && #[trigger] spec_pixel_differs(
                    radiance@, opacity@, size.x as int, size.y as int,
                    bx * B::spec_size() + a, by * B::spec_size() + c),
        decreases bsz - dx,
    {
        let mut dy: u32 = 0;
        while dy < bsz
            invariant
                dx < bsz,
                dy <= bsz,
                forall|a: u32, c: u32| a < B::spec_size() && c < B::spec_size()
                    ==> (#[trigger] block.spec_get(a, c))
                        == ((a < dx || (a == dx && c < dy)) && spec_pixel_differs(
                            radiance@, opacity@, size.x as int, size.y as int,
                            bx * B::spec_size() + a, by * B::spec_size() + c)),
                any == exists|a: u32, c: u32| (a < dx || (a == dx && c < dy)) && a < B::spec_size()
                    && c < B::spec_size()
                    && #[trigger] spec_pixel_differs(
                        radiance@, opacity@, size.x as int, size.y as int,
                        bx * B::spec_size() + a, by * B::spec_size() + c),
            decreases bsz - dy,
        {
            proof {
                assert(bx * B::spec_size() + dx < (bx + 1) * B::spec_size()
                    && by * B::spec_size() + dy < (by + 1) * B::spec_size()
                    && bx * B::spec_size() >= 0 && by * B::spec_size() >= 0) by (nonlinear_arith)
                    requires dx < B::spec_size() && dy < B::spec_size() && bx >= 0 && by >= 0;
            }
            let x = bx * bsz + dx;
            let y = by * bsz + dy;
            let d = pixel_differs(radiance, opacity, size, x, y);
            if d {
                B::set(&mut block, Vec2u { x: dx, y: dy });
                any = true;
            }
            dy = dy + 1;
            proof {
                if d {
                    assert(spec_pixel_differs(radiance@, opacity@, size.x as int, size.y as int,
                        bx * B::spec_size() + dx, by * B::spec_size() + (dy - 1)));
                }
            }
        }
        dx = dx + 1;
    }
    (block, any)
}

/// Flat row-major indices decompose uniquely into grid coordinates.
pub proof fn lemma_grid_index_unique(bw: int, a1: int, b1: int, a2: int, b2: int)
    requires
        bw >= 1,
        0 <= a1 < bw,
        0 <= a2 < bw,
        b1 >= 0,
        b2 >= 0,
        b1 * bw + a1 == b2 * bw + a2,
    ensures
        a1 == a2,
        b1 == b2,
{
    vstd::arithmetic::div_mod::lemma_fundamental_div_mod_converse(b1 * bw + a1, bw, b1, a1);
    vstd::arithmetic::div_mod::lemma_fundamental_div_mod_converse(b2 * bw + a2, bw, b2, a2);
}

/// Builds the whole difference mask for a grid: one tile of per-pixel
/// difference bits per block, and a flag saying whether the block holds any
/// difference at all. An all-uniform grid yields an all-empty mask.
#[verifier::loop_isolation(false)]
pub fn build_difference_mask<B: Block>(
    radiance: &Vec<Rgb>,
    opacity: &Vec<Rgb>,
    size: Vec2u,
) -> (out: (Vec<B>, Vec<bool>))
    requires
        1 <= B::spec_size() <= 8,
        1 <= size.x <= 8192,
        1 <= size.y <= 8192,
        size.x as int % B::spec_size() == 0,
        size.y as int % B::spec_size() == 0,
        radiance@.len() == size.x * size.y,
        opacity@.len() == size.x * size.y,
    ensures
        out.0@.len() == (size.x as int / B::spec_size()) * (size.y as int / B::spec_size()),
        out.1@.len() == out.0@.len(),
        forall|bx: int, by: int, dx: u32, dy: u32|
            0 <= bx < size.x as int / B::spec_size() && 0 <= by < size.y as int / B::spec_size()
            && dx < B::spec_size() && dy < B::spec_size()
            ==> (#[trigger] out.0@[by * (size.x as int / B::spec_size()) + bx].spec_get(dx, dy))
                == spec_pixel_differs(radiance@, opacity@, size.x as int, size.y as int,
                    bx * B::spec_size() + dx, by * B::spec_size() + dy),
        forall|bx: int, by: int|
            0 <= bx < size.x as int / B::spec_size() && 0 <= by < size.y as int / B::spec_size()
            ==> (#[trigger] out.1@[by * (size.x as int / B::spec_size()) + bx])
                == exists|dx: u32, dy: u32| dx < B::spec_size() && dy < B::spec_size()
                    && #[trigger] spec_pixel_differs(
                        radiance@, opacity@, size.x as int, size.y as int,
                        bx * B::spec_size() + dx, by * B::spec_size() + dy),
{
    let bsz = B::size();
    let bw = size.x / bsz;
    let bh = size.y / bsz;
    proof {
        vstd::arithmetic::div_mod::lemma_fundamental_div_mod(size.x as int, B::spec_size());
        vstd::arithmetic::div_mod::lemma_fundamental_div_mod(size.y as int, B::spec_size());
        assert(bw * B::spec_size() == size.x && bh * B::spec_size() == size.y
            && bw <= 8192 && bh <= 8192 && bw >= 1 && bh >= 1) by (nonlinear_arith)
            requires
                bw == size.x as int / B::spec_size() && bh == size.y as int / B::spec_size()
                && 1 <= B::spec_size() <= 8 && 1 <= size.x <= 8192 && 1 <= size.y <= 8192
                && size.x as int % B::spec_size() == 0 && size.y as int % B::spec_size() == 0
                && size.x as int == B::spec_size() * (size.x as int / B::spec_size())
                    + size.x as int % B::spec_size()
                && size.y as int == B::spec_size() * (size.y as int / B::spec_size())
                    + size.y as int % B::spec_size();
    }
    let mut blocks: Vec<B> = Vec::new();
    let mut flags: Vec<bool> = Vec::new();
    let mut by: u32 = 0;
    while by < bh
        invariant
            by <= bh,
            blocks@.len() == by * bw,
            flags@.len() == by * bw,
            forall|pbx: int, pby: int, dx: u32, dy: u32|
                0 <= pbx < bw && 0 <= pby < by && dx < B::spec_size() && dy < B::spec_size()
                ==> (#[trigger] blocks@[pby * bw + pbx].spec_get(dx, dy))
                    == spec_pixel_differs(radiance@, opacity@, size.x as int, size.y as int,
                        pbx * B::spec_size() + dx, pby * B::spec_size() + dy),
            forall|pbx: int, pby: int|
                0 <= pbx < bw && 0 <= pby < by
                ==> (#[trigger] flags@[pby * bw + pbx])
                    == exists|dx: u32, dy: u32| dx < B::spec_size() && dy < B::spec_size()
                        && #[trigger] spec_pixel_differs(
                            radiance@, opacity@, size.x as int, size.y as int,
                            pbx * B::spec_size() + dx, pby * B::spec_size() + dy),
        decreases bh - by,
    {
        let mut bx: u32 = 0;
        proof {
            assert forall|pbx: int, pby: int, dx: u32, dy: u32|
                0 <= pbx < bw && 0 <= pby < bh && pby * bw + pbx < by * bw + bx
                && dx < B::spec_size() && dy < B::spec_size()
                implies (#[trigger] blocks@[pby * bw + pbx].spec_get(dx, dy))
                    == spec_pixel_differs(radiance@, opacity@, size.x as int, size.y as int,
                        pbx * B::spec_size() + dx, pby * B::spec_size() + dy) by {
                assert(pby < by) by (nonlinear_arith)
                    requires 0 <= pbx < bw && pby * bw + pbx < by * bw && bw >= 1 && pby >= 0;
            }
            assert forall|pbx: int, pby: int|
                0 <= pbx < bw && 0 <= pby < bh && pby * bw + pbx < by * bw + bx
                implies (#[trigger] flags@[pby * bw + pbx])
                    == exists|dx: u32, dy: u32| dx < B::spec_size() && dy < B::spec_size()
                        && #[trigger] spec_pixel_differs(
                            radiance@, opacity@, size.x as int, size.y as int,
                            pbx * B::spec_size() + dx, pby * B::spec_size() + dy) by {
                assert(pby < by) by (nonlinear_arith)
                    requires 0 <= pbx < bw && pby * bw + pbx < by * bw && bw >= 1 && pby >= 0;
            }
        }
        while bx < bw
            invariant
                by < bh,
                bx <= bw,
                blocks@.len() == by * bw + bx,
                flags@.len() == by * bw + bx,
                forall|pbx: int, pby: int, dx: u32, dy: u32|
                    0 <= pbx < bw && 0 <= pby < bh && pby * bw + pbx < by * bw + bx
                    && dx < B::spec_size() && dy < B::spec_size()
                    ==> (#[trigger] blocks@[pby * bw + pbx].spec_get(dx, dy))
                        == spec_pixel_differs(radiance@, opacity@, size.x as int, size.y as int,
                            pbx * B::spec_size() + dx, pby * B::spec_size() + dy),
                forall|pbx: int, pby: int|
                    0 <= pbx < bw && 0 <= pby < bh && pby * bw + pbx < by * bw + bx
                    ==> (#[trigger] flags@[pby * bw + pbx])
                        == exists|dx: u32, dy: u32| dx < B::spec_size() && dy < B::spec_size()
                            && #[trigger] spec_pixel_differs(
                                radiance@, opacity@, size.x as int, size.y as int,
                                pbx * B::spec_size() + dx, pby * B::spec_size() + dy),
            decreases bw - bx,
        {
            proof {
                assert((bx + 1) * B::spec_size() <= bw * B::spec_size()
                    && (by + 1) * B::spec_size() <= bh * B::spec_size()) by (nonlinear_arith)
                    requires bx < bw && by < bh && B::spec_size() >= 1;
            }
            let (block, flag) = build_block::<B>(radiance, opacity, size, bx, by);
            let ghost old_blocks = blocks@;
            let ghost old_flags = flags@;
            blocks.push(block);
            flags.push(flag);
            bx = bx + 1;
            proof {
                let obx = bx as int - 1;
                assert(old_blocks.len() == by * bw + obx);
                assert forall|pbx: int, pby: int, dx: u32, dy: u32|
                    0 <= pbx < bw && 0 <= pby < bh && pby * bw + pbx < by * bw + bx
                    && dx < B::spec_size() && dy < B::spec_size()
                    implies (#[trigger] blocks@[pby * bw + pbx].spec_get(dx, dy))
                        == spec_pixel_differs(radiance@, opacity@, size.x as int, size.y as int,
                            pbx * B::spec_size() + dx, pby * B::spec_size() + dy) by {
                    assert(pby * bw + pbx >= 0) by (nonlinear_arith)
                        requires pbx >= 0 && pby >= 0 && bw >= 1;
                    if pby * bw + pbx < by * bw + obx {
                        assert(blocks@[pby * bw + pbx] == old_blocks[pby * bw + pbx]);
                    } else {
                        assert(pby * bw + pbx == by * bw + obx);
                        lemma_grid_index_unique(bw as int, pbx, pby, obx, by as int);
                        assert(blocks@[pby * bw + pbx] == block);
                    }
                }
                assert forall|pbx: int, pby: int|
                    0 <= pbx < bw && 0 <= pby < bh && pby * bw + pbx < by * bw + bx
                    implies (#[trigger] flags@[pby * bw + pbx])
                        == exists|dx: u32, dy: u32| dx < B::spec_size() && dy < B::spec_size()
                            && #[trigger] spec_pixel_differs(
                                radiance@, opacity@, size.x as int, size.y as int,
                                pbx * B::spec_size() + dx, pby * B::spec_size() + dy) by {
                    assert(pby * bw + pbx >= 0) by (nonlinear_arith)
                        requires pbx >= 0 && pby >= 0 && bw >= 1;
                    if pby * bw + pbx < by * bw + obx {
                        assert(flags@[pby * bw + pbx] == old_flags[pby * bw + pbx]);
                    } else {
                        assert(pby * bw + pbx == by * bw + obx);
                        lemma_grid_index_unique(bw as int, pbx, pby, obx, by as int);
                        assert(flags@[pby * bw + pbx] == flag);
                    }
                }
            }
        }
        by = by + 1;
        proof {
            assert(by * bw == (by - 1) * bw + bw) by (nonlinear_arith);
            assert forall|pbx: int, pby: int, dx: u32, dy: u32|
                0 <= pbx < bw && 0 <= pby < by && dx < B::spec_size() && dy < B::spec_size()
                implies (#[trigger] blocks@[pby * bw + pbx].spec_get(dx, dy))
                    == spec_pixel_differs(radiance@, opacity@, size.x as int, size.y as int,
                        pbx * B::spec_size() + dx, pby * B::spec_size() + dy) by {
                assert(0 <= pby * bw + pbx < by * bw) by (nonlinear_arith)
                    requires 0 <= pbx < bw && 0 <= pby < by as int && bw >= 1;
            }
            assert forall|pbx: int, pby: int|
                0 <= pbx < bw && 0 <= pby < by
                implies (#[trigger] flags@[pby * bw + pbx])
                    == exists|dx: u32, dy: u32| dx < B::spec_size() && dy < B::spec_size()
                        && #[trigger] spec_pixel_differs(
                            radiance@, opacity@, size.x as int, size.y as int,
                            pbx * B::spec_size() + dx, pby * B::spec_size() + dy) by {
                assert(0 <= pby * bw + pbx < by * bw) by (nonlinear_arith)
                    requires 0 <= pbx < bw && 0 <= pby < by as int && bw >= 1;
            }
        }
    }
    proof {
        assert(by * bw == bh * bw && bh * bw == bw * bh) by (nonlinear_arith)
            requires by == bh;
    }
    (blocks, flags)
}

/// Whether (x, y) is the pixel (qx, qy) itself or one of its 4-connected
/// neighbors.
pub open spec fn spec_adjacent_or_equal(qx: int, qy: int, x: int, y: int) -> bool {
    ||| (x == qx && y == qy)
    ||| (x == qx && (y == qy + 1 || y + 1 == qy))
    ||| (y == qy && (x == qx + 1 || x + 1 == qx))
}

/// On a grid uniform except at (qx, qy), every pixel other than the
/// disturbance holds the common value pair.
proof fn lemma_uniform_value(
    radiance: Seq<Rgb>,
    opacity: Seq<Rgb>,
    w: int,
    h: int,
    qx: int,
    qy: int,
    vr: Rgb,
    vo: Rgb,
    a: int,
    b: int,
)
    requires
        1 <= w <= 8192,
        1 <= h <= 8192,
        radiance.len() == w * h,
        opacity.len() == w * h,
        0 <= qx < w,
        0 <= qy < h,
        forall|p: int| 0 <= p < w * h && p != qy * w + qx
            ==> (#[trigger] radiance[p]) == vr && opacity[p] == vo,
        0 <= a < w,
        0 <= b < h,
        !(a == qx && b == qy),
    ensures
        radiance[b * w + a] == vr,
        opacity[b * w + a] == vo,
{
    assert(0 <= b * w + a && b * w + a < w * h) by (nonlinear_arith)
        requires 0 <= a < w && 0 <= b < h && w >= 1;
    if b * w + a == qy * w + qx {
        lemma_grid_index_unique(w, a, b, qx, qy);
        assert(false);
    }
}

/// A single disturbance marks exactly itself and its in-bounds 4-neighbors:
/// on a grid whose every other pixel holds one common value pair, a pixel
/// differs from a neighbor exactly when it is the disturbed pixel or is
/// 4-adjacent to it. Through `build_difference_mask`'s ensures this pins the
/// whole mask: set bits appear only on that cross, so only tiles meeting it
/// carry a nonempty flag; with no disturbed pixel at all (a uniform grid)
/// `spec_pixel_differs` is everywhere false and the mask is all empty.
pub proof fn lemma_single_disturbance(
    radiance: Seq<Rgb>,
    opacity: Seq<Rgb>,
    w: int,
    h: int,
    qx: int,
    qy: int,
    vr: Rgb,
    vo: Rgb,
)
    requires
        2 <= w <= 8192,
        2 <= h <= 8192,
        radiance.len() == w * h,
        opacity.len() == w * h,
        0 <= qx < w,
        0 <= qy < h,
        forall|p: int| 0 <= p < w * h && p != qy * w + qx
            ==> (#[trigger] radiance[p]) == vr && opacity[p] == vo,
        radiance[qy * w + qx] != vr || opacity[qy * w + qx] != vo,
    ensures
        forall|x: int, y: int| 0 <= x < w && 0 <= y < h
            ==> ((#[trigger] spec_pixel_differs(radiance, opacity, w, h, x, y))
                <==> spec_adjacent_or_equal(qx, qy, x, y)),
{
    assert(0 <= qy * w + qx && qy * w + qx < w * h) by (nonlinear_arith)
        requires 0 <= qx < w && 0 <= qy < h && w >= 1;
    assert forall|x: int, y: int| 0 <= x < w && 0 <= y < h
        implies ((#[trigger] spec_pixel_differs(radiance, opacity, w, h, x, y))
            <==> spec_adjacent_or_equal(qx, qy, x, y)) by {
        let q = qy * w + qx;
        assert(0 <= y * w + x && y * w + x < w * h) by (nonlinear_arith)
            requires 0 <= x < w && 0 <= y < h && w >= 1;
        if x == qx && y == qy {
            // The disturbance differs from whichever horizontal neighbor the
            // grid provides.
            if qx + 1 < w {
                lemma_uniform_value(radiance, opacity, w, h, qx, qy, vr, vo, qx + 1, qy);
                assert(spec_pixel_differs(radiance, opacity, w, h, x, y));
            } else {
                lemma_uniform_value(radiance, opacity, w, h, qx, qy, vr, vo, qx - 1, qy);
                assert(spec_pixel_differs(radiance, opacity, w, h, x, y));
            }
        } else if spec_adjacent_or_equal(qx, qy, x, y) {
            // A neighbor of the disturbance differs from the disturbance.
            lemma_uniform_value(radiance, opacity, w, h, qx, qy, vr, vo, x, y);
            assert(spec_pixel_differs(radiance, opacity, w, h, x, y));
        } else {
            // Everywhere else, every in-bounds comparison sees the common
            // value pair on both sides.
            lemma_uniform_value(radiance, opacity, w, h, qx, qy, vr, vo, x, y);
            if x + 1 < w {
                lemma_uniform_value(radiance, opacity, w, h, qx, qy, vr, vo, x + 1, y);
            }
            if x > 0 {
                lemma_uniform_value(radiance, opacity, w, h, qx, qy, vr, vo, x - 1, y);
            }
            if y + 1 < h {
                lemma_uniform_value(radiance, opacity, w, h, qx, qy, vr, vo, x, y + 1);
            }
            if y > 0 {
                lemma_uniform_value(radiance, opacity, w, h, qx, qy, vr, vo, x, y - 1);
            }
            assert(!spec_pixel_differs(radiance, opacity, w, h, x, y));
        }
    }
}

} // verus!

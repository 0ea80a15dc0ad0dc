//! Integer hash utilities used to decorrelate stochastic merge samples, and
//! small array helpers.

use vstd::prelude::*;

verus! {

/// One u32 wide: arithmetic in the hashes wraps at this modulus.
pub const WORD: u64 = 0x1_0000_0000;

/// Wrapping 32-bit sum.
pub fn wrap_add(a: u32, b: u32) -> (r: u32)
    ensures
        r == (a + b) % (WORD as int),
{
    (((a as u64) + (b as u64)) % WORD) as u32
}

/// Wrapping 32-bit product.
pub fn wrap_mul(a: u32, b: u32) -> (r: u32)
    ensures
        r == (a * b) % (WORD as int),
{
    proof {
        assert(a * b <= 0xffff_ffff * 0xffff_ffff) by (nonlinear_arith)
            requires a <= 0xffff_ffffu32 && b <= 0xffff_ffffu32;
        assert((a * b) % (WORD as int) < WORD) by (nonlinear_arith)
            requires a >= 0 && b >= 0;
    }
    (((a as u64) * (b as u64)) % WORD) as u32
}

/// One mixing round of the three-lane hash: each lane absorbs the product of
/// the other two.
pub open spec fn spec_mix(v: (u32, u32, u32)) -> (u32, u32, u32) {
    let x = ((v.0 + (v.1 * v.2) % (WORD as int)) % (WORD as int)) as u32;
    let y = ((v.1 + (v.2 * x) % (WORD as int)) % (WORD as int)) as u32;
    let z = ((v.2 + (x * y) % (WORD as int)) % (WORD as int)) as u32;
    (x, y, z)
}

/// The linear-congruential step applied to each lane.
pub open spec fn spec_lcg(x: u32) -> u32 {
    (((x * 1664525) % (WORD as int) + 1013904223) % (WORD as int)) as u32
}

/// The whole three-lane hash: LCG step, mix, xorshift, mix.
#[verifier::opaque]
pub open spec fn spec_pcg3d(v: [u32; 3]) -> [u32; 3] {
    let w = (spec_lcg(v[0]), spec_lcg(v[1]), spec_lcg(v[2]));
    let m = spec_mix(w);
    let s = (m.0 ^ (m.0 >> 16), m.1 ^ (m.1 >> 16), m.2 ^ (m.2 >> 16));
    let f = spec_mix(s);
    [f.0, f.1, f.2]
}

/// A deterministic three-lane integer hash with good avalanche behavior,
/// used to turn dispatch coordinates into pseudo-random samples.
pub fn pcg3d(v: [u32; 3]) -> (r: [u32; 3])
    ensures
        r@ =~= spec_pcg3d(v)@,
{
    proof {
        reveal(spec_pcg3d);
    }
    let a = wrap_add(wrap_mul(v[0], 1664525), 1013904223);
    let b = wrap_add(wrap_mul(v[1], 1664525), 1013904223);
    let c = wrap_add(wrap_mul(v[2], 1664525), 1013904223);
    let a = wrap_add(a, wrap_mul(b, c));
    let b = wrap_add(b, wrap_mul(c, a));
    let c = wrap_add(c, wrap_mul(a, b));
    let a = a ^ (a >> 16);
    let b = b ^ (b >> 16);
    let c = c ^ (c >> 16);
    let a2 = wrap_add(a, wrap_mul(b, c));
    let b2 = wrap_add(b, wrap_mul(c, a2));
    let c2 = wrap_add(c, wrap_mul(a2, b2));
    [a2, b2, c2]
}

/// A single-lane variant of the hash for per-pixel decisions: the three-lane
/// hash seeded with one value, first lane kept.
pub fn pcg(v: u32) -> (r: u32)
    ensures
        r == spec_pcg3d([v, v, v])@[0],
{
    let out = pcg3d([v, v, v]);
    out[0]
}

/// A Q16 fraction in [0, SCALE) drawn from each lane of the hash: the high
/// sixteen bits of each lane.
pub fn pcg3d_unit(v: [u32; 3]) -> (r: [u64; 3])
    ensures
        r@ =~= seq![
            (spec_pcg3d(v)@[0] >> 16) as u64,
            (spec_pcg3d(v)@[1] >> 16) as u64,
            (spec_pcg3d(v)@[2] >> 16) as u64,
        ],
        r[0] < 0x10000,
        r[1] < 0x10000,
        r[2] < 0x10000,
{
    let h = pcg3d(v);
    proof {
        assert(forall|x: u32| (x >> 16) < 0x10000u32) by (bit_vector);
    }
    [(h[0] >> 16) as u64, (h[1] >> 16) as u64, (h[2] >> 16) as u64]
}

/// Zips two coordinate triples with a binary operation.
pub fn zip3<F: Fn(u32, u32) -> u32>(a: [u32; 3], b: [u32; 3], f: F) -> (r: [u32; 3])
    requires
        f.requires((a[0], b[0])),
        f.requires((a[1], b[1])),
        f.requires((a[2], b[2])),
    ensures
        f.ensures((a[0], b[0]), r[0]),
        f.ensures((a[1], b[1]), r[1]),
        f.ensures((a[2], b[2]), r[2]),
{
    [f(a[0], b[0]), f(a[1], b[1]), f(a[2], b[2])]
}

} // verus!

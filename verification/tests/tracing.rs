use amida::cascade::{Interval, Vec2q, Vec2u};
use amida::color::{Fluence, Rgb};
use amida::fixed::SCALE;
use amida::mask::build_difference_mask;
use amida::trace::{trace_radiance, trace_radiance_simple, Block, TraceWorld};

const S: i64 = SCALE as i64;

/// A world with every cell dark and transparent except the listed ones.
fn world_with(
    w: u32,
    h: u32,
    cells: &[(u32, u32, Rgb, Rgb)],
) -> TraceWorld<bool> {
    let mut radiance = vec![Rgb { r: 0, g: 0, b: 0 }; (w * h) as usize];
    let mut opacity = vec![Rgb { r: 0, g: 0, b: 0 }; (w * h) as usize];
    for &(x, y, rad, op) in cells {
        radiance[(y * w + x) as usize] = rad;
        opacity[(y * w + x) as usize] = op;
    }
    let (diff, diff_blocks) =
        build_difference_mask::<bool>(&radiance, &opacity, Vec2u { x: w, y: h });
    TraceWorld {
        size: Vec2u { x: w, y: h },
        radiance,
        opacity,
        environment: vec![],
        diff,
        diff_blocks,
    }
}

#[test]
fn empty_interval_traces_transparent() {
    let one = Rgb { r: SCALE, g: SCALE, b: SCALE };
    let world = world_with(4, 4, &[(2, 2, one, one)]);
    // near > far: nothing is traced, whatever the ray.
    let f = trace_radiance(
        &world,
        Vec2q { x: S / 2, y: S / 2 },
        Vec2q { x: S, y: 0 },
        Interval { near: 3 * S, far: S },
    );
    assert_eq!(f, Fluence::transparent());
    let g = trace_radiance_simple(
        &world,
        Vec2q { x: 2 * S, y: 2 * S },
        Vec2q { x: 0, y: -S },
        Interval { near: 1, far: 0 },
    );
    assert_eq!(g, Fluence::transparent());
}

#[test]
fn uniform_world_traces_transparent() {
    let world = world_with(4, 4, &[]);
    let f = trace_radiance(
        &world,
        Vec2q { x: S / 2, y: 5 * S / 2 },
        Vec2q { x: S, y: 0 },
        Interval { near: 0, far: 4 * S },
    );
    assert_eq!(f.radiance, Rgb { r: 0, g: 0, b: 0 });
    assert_eq!(f.transmittance, Rgb { r: SCALE, g: SCALE, b: SCALE });
}

#[test]
fn tracers_agree_on_absorption_free_worlds() {
    // Radiance varies (so difference bits are set and both marching paths are
    // exercised) but nothing absorbs: both variants return the transparent
    // fluence for every ray, as the agreement lemma states.
    let zero = Rgb { r: 0, g: 0, b: 0 };
    let bright = Rgb { r: 3 * SCALE, g: SCALE, b: 7 };
    let world = world_with(8, 8, &[(3, 4, bright, zero), (6, 1, bright, zero)]);
    let rays = [
        (Vec2q { x: S / 2, y: 4 * S + S / 2 }, Vec2q { x: S, y: 0 }),
        (Vec2q { x: 6 * S, y: 7 * S }, Vec2q { x: -46341, y: -46341 }),
        (Vec2q { x: 3 * S, y: 0 }, Vec2q { x: 0, y: S }),
    ];
    for (start, dir) in rays {
        let iv = Interval { near: 0, far: 8 * S };
        let a = trace_radiance(&world, start, dir, iv);
        let b = trace_radiance_simple(&world, start, dir, iv);
        assert_eq!(a, Fluence::transparent());
        assert_eq!(b, Fluence::transparent());
        assert_eq!(a, b);
    }
}

#[test]
fn tracers_agree_through_one_emitter() {
    // An axis-aligned ray through the single opaque emitter: the tile march
    // and the per-pixel march produce the same exact fluence.
    let one = Rgb { r: SCALE, g: SCALE, b: SCALE };
    let world = world_with(4, 4, &[(2, 2, one, one)]);
    let start = Vec2q { x: S / 2, y: 2 * S + S / 2 };
    let dir = Vec2q { x: S, y: 0 };
    let iv = Interval { near: 0, far: 4 * S };
    assert_eq!(
        trace_radiance(&world, start, dir, iv),
        trace_radiance_simple(&world, start, dir, iv)
    );
}

#[test]
fn single_opaque_emitter_exact_fluence() {
    // A ray crossing one emissive, opacity-one cell for exactly one unit of
    // length gathers radiance SCALE * (1 - 1/e) and keeps transmittance
    // floor(SCALE / e), exactly.
    let one = Rgb { r: SCALE, g: SCALE, b: SCALE };
    let world = world_with(4, 4, &[(2, 2, one, one)]);
    let f = trace_radiance(
        &world,
        Vec2q { x: S / 2, y: 2 * S + S / 2 },
        Vec2q { x: S, y: 0 },
        Interval { near: 0, far: 4 * S },
    );
    assert_eq!(f.transmittance, Rgb { r: 24109, g: 24109, b: 24109 });
    let expect = (SCALE - 24109) * SCALE / SCALE;
    assert_eq!(f.radiance, Rgb { r: expect, g: expect, b: expect });
}

#[test]
fn trace_misses_the_emitter_row() {
    let one = Rgb { r: SCALE, g: SCALE, b: SCALE };
    let world = world_with(4, 4, &[(2, 2, one, one)]);
    // A ray along row 0 never touches cell (2,2).
    let f = trace_radiance(
        &world,
        Vec2q { x: S / 2, y: S / 2 },
        Vec2q { x: S, y: 0 },
        Interval { near: 0, far: 4 * S },
    );
    assert_eq!(f.radiance, Rgb { r: 0, g: 0, b: 0 });
    assert_eq!(f.transmittance, Rgb { r: SCALE, g: SCALE, b: SCALE });
}

#[test]
fn difference_mask_marks_only_the_disturbance() {
    // One differing pixel among uniform neighbors: exactly that pixel and
    // its 4-connected neighbors carry bits; faraway tiles stay empty.
    let one = Rgb { r: SCALE, g: SCALE, b: SCALE };
    let mut radiance = vec![Rgb { r: 0, g: 0, b: 0 }; 64];
    let opacity = vec![Rgb { r: 0, g: 0, b: 0 }; 64];
    radiance[(3 * 8 + 4) as usize] = one;
    let (diff, flags) =
        build_difference_mask::<bool>(&radiance, &opacity, Vec2u { x: 8, y: 8 });
    let marked: Vec<(u32, u32)> = (0..8u32)
        .flat_map(|y| (0..8u32).map(move |x| (x, y)))
        .filter(|&(x, y)| diff[(y * 8 + x) as usize])
        .collect();
    let expect = vec![(4, 2), (3, 3), (4, 3), (5, 3), (4, 4)];
    let mut sorted = marked.clone();
    sorted.sort_by_key(|&(x, y)| (y, x));
    let mut expect_sorted = expect.clone();
    expect_sorted.sort_by_key(|&(x, y)| (y, x));
    assert_eq!(sorted, expect_sorted);
    // With a one-pixel tile, flags agree with bits.
    for (i, &f) in flags.iter().enumerate() {
        assert_eq!(f, diff[i]);
    }
}

#[test]
fn difference_mask_uniform_grid_is_empty() {
    let one = Rgb { r: 100, g: 200, b: 300 };
    let radiance = vec![one; 64];
    let opacity = vec![one; 64];
    let (diff, flags) =
        build_difference_mask::<u64>(&radiance, &opacity, Vec2u { x: 8, y: 8 });
    assert_eq!(diff.len(), 1);
    assert!(<u64 as Block>::is_empty(diff[0]));
    assert!(!flags[0]);
}

#[test]
fn difference_mask_packed_tiles() {
    // The same single-disturbance grid through 4x4-pixel tiles: only the
    // tiles overlapping the marked cross report any difference.
    let one = Rgb { r: SCALE, g: SCALE, b: SCALE };
    let mut radiance = vec![Rgb { r: 0, g: 0, b: 0 }; 64];
    let opacity = vec![Rgb { r: 0, g: 0, b: 0 }; 64];
    radiance[(3 * 8 + 4) as usize] = one;
    let (diff, flags) =
        build_difference_mask::<u16>(&radiance, &opacity, Vec2u { x: 8, y: 8 });
    assert_eq!(diff.len(), 4);
    // The cross spans tiles (1,0) and (0,0)? Pixel (4,3) sits in tile (1,0);
    // neighbor (3,3) in tile (0,0); (4,4) in tile (1,1).
    assert!(flags[0 * 2 + 1]);
    assert!(flags[0 * 2 + 0]);
    assert!(flags[1 * 2 + 1]);
    assert!(!flags[1 * 2 + 0]);
    assert!(<u16 as Block>::get(diff[1], Vec2u { x: 0, y: 3 }));
}

#[test]
fn block_bit_operations() {
    let mut b: u64 = <u64 as Block>::empty();
    assert!(<u64 as Block>::is_empty(b));
    <u64 as Block>::set(&mut b, Vec2u { x: 3, y: 5 });
    assert!(!<u64 as Block>::is_empty(b));
    assert!(<u64 as Block>::get(b, Vec2u { x: 3, y: 5 }));
    assert!(!<u64 as Block>::get(b, Vec2u { x: 5, y: 3 }));
    let mut c: u16 = <u16 as Block>::empty();
    <u16 as Block>::set(&mut c, Vec2u { x: 1, y: 2 });
    assert!(<u16 as Block>::get(c, Vec2u { x: 1, y: 2 }));
    assert!(!<u16 as Block>::get(c, Vec2u { x: 2, y: 1 }));
}

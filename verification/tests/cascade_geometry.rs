use amida::cascade::{
    CascadeSettings, CascadeSize, CascadeStorage, Interval, RayLocation, Vec2u,
};
use amida::color::Rgb;
use amida::fixed::SCALE;
use std::collections::HashSet;

fn small_settings() -> CascadeSettings {
    CascadeSettings {
        base_interval: Interval { near: 0, far: SCALE as i64 },
        base_probe_spacing: SCALE,
        base_size: CascadeSize { probes: Vec2u { x: 2, y: 2 }, facings: 2 },
        num_cascades: 2,
        spatial_factor: 1,
        angular_factor: 2,
    }
}

#[test]
fn level_bookkeeping_exact() {
    let s = small_settings();
    assert_eq!(s.spacing(), 2);
    assert_eq!(s.branches(), 4);
    assert_eq!(s.cascade_total_size(), 2 * 2 * 2);
    let l0 = s.level_size(0);
    assert_eq!((l0.probes.x, l0.probes.y, l0.facings), (2, 2, 2));
    let l1 = s.level_size(1);
    assert_eq!((l1.probes.x, l1.probes.y, l1.facings), (1, 1, 8));
}

#[test]
fn intervals_partition_radially() {
    let s = small_settings();
    let i0 = s.interval(0);
    let i1 = s.interval(1);
    // Level 0 starts at the base near bound; each level starts where the
    // previous one ends; ends grow by the angular growth factor squared.
    assert_eq!(i0.near, 0);
    assert_eq!(i0.far, SCALE as i64);
    assert_eq!(i1.near, i0.far);
    assert_eq!(i1.far, 4 * SCALE as i64);
}

#[test]
fn probe_locations_are_cell_centers() {
    let s = small_settings();
    let loc = s.probe_location(Vec2u { x: 0, y: 1 }, 0);
    assert_eq!(loc.x, (SCALE / 2) as i64);
    assert_eq!(loc.y, (SCALE + SCALE / 2) as i64);
    // One level up the spacing doubles.
    let loc1 = s.probe_location(Vec2u { x: 0, y: 0 }, 1);
    assert_eq!(loc1.x, SCALE as i64);
    assert_eq!(loc1.y, SCALE as i64);
}

#[test]
fn facing_directions_are_unit_length() {
    let s = small_settings();
    for f in 0..2 {
        let d = s.facing_direction(f, 0);
        let len2 = (d.x * d.x + d.y * d.y) as f64;
        let len = len2.sqrt() / SCALE as f64;
        assert!((len - 1.0).abs() < 0.01, "facing {f} length {len}");
    }
}

#[test]
fn bilinear_samples_center_and_weights() {
    let s = small_settings();
    let samples = s.bilinear_samples(Vec2u { x: 0, y: 0 }, 1);
    // The next level has a single probe: everything clamps onto it.
    assert_eq!(samples.base_index, Vec2u { x: 0, y: 0 });
    assert_eq!(samples.fract.x, 0);
    assert_eq!(samples.fract.y, 0);
    let (p0, w0) = samples.sample(0);
    assert_eq!(p0, Vec2u { x: 0, y: 0 });
    assert_eq!(w0, SCALE);
    let (p3, w3) = samples.sample(3);
    assert_eq!(p3, Vec2u { x: 1, y: 1 });
    assert_eq!(w3, 0);
}

#[test]
fn bilinear_weights_partition_within_rounding() {
    // At the worst-case fraction the four truncated weights still sum to
    // within three Q16 units of one.
    let cases = [
        (0i64, 0i64),
        ((SCALE - 1) as i64, (SCALE - 1) as i64),
        (12345i64, 54321i64),
        (1i64, (SCALE - 1) as i64),
    ];
    for (fx, fy) in cases {
        let samples = amida::cascade::BilinearSamples {
            base_index: Vec2u { x: 0, y: 0 },
            fract: amida::cascade::Vec2q { x: fx, y: fy },
        };
        let mut sum = 0u64;
        for k in 0..4u32 {
            let (_, w) = samples.sample(k);
            assert!(w <= SCALE);
            sum += w;
        }
        assert!(sum <= SCALE, "sum {sum} for fract ({fx},{fy})");
        assert!(sum >= SCALE - 3, "sum {sum} for fract ({fx},{fy})");
    }
}

#[test]
fn to_index_is_bijective_over_valid_rays() {
    // For settings whose levels exactly fill their slices, `to_index` hits
    // every index in [0, total * levels) exactly once.
    let s = small_settings();
    let storage: CascadeStorage<Rgb> = CascadeStorage::new(s, Rgb { r: 0, g: 0, b: 0 });
    let total = s.cascade_total_size() * s.num_cascades as u64;
    let mut seen: HashSet<usize> = HashSet::new();
    for level in 0..s.num_cascades {
        let size = s.level_size(level);
        for py in 0..size.probes.y {
            for px in 0..size.probes.x {
                for f in 0..size.facings {
                    let ray = RayLocation {
                        probe: Vec2u { x: px, y: py },
                        facing: f,
                        level,
                    };
                    let idx = storage.to_index(ray);
                    assert!((idx as u64) < total);
                    assert!(seen.insert(idx), "index {idx} hit twice");
                }
            }
        }
    }
    assert_eq!(seen.len() as u64, total);
}

#[test]
fn storage_read_back_after_write() {
    let s = small_settings();
    let mut storage: CascadeStorage<Rgb> = CascadeStorage::new(s, Rgb { r: 0, g: 0, b: 0 });
    let ray = RayLocation { probe: Vec2u { x: 1, y: 0 }, facing: 1, level: 0 };
    let other = RayLocation { probe: Vec2u { x: 0, y: 1 }, facing: 0, level: 0 };
    storage.write(ray, Rgb { r: 7, g: 8, b: 9 });
    assert_eq!(storage.read(ray), Rgb { r: 7, g: 8, b: 9 });
    assert_eq!(storage.read(other), Rgb { r: 0, g: 0, b: 0 });
}

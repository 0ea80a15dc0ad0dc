use amida::cascade::{CascadeSettings, CascadeSize, Interval, RayLocation, Vec2u};
use amida::color::Rgb;
use amida::fixed::SCALE;
use amida::mask::build_difference_mask;
use amida::radiance::{MergeVariant, RadianceCascades, TuningSettings};
use amida::trace::TraceWorld;

const S: i64 = SCALE as i64;

fn tuning() -> TuningSettings {
    TuningSettings {
        block_sizes: vec![(vec![0, 1, 2, 3, 4, 5], [8, 8, 1])],
    }
}

fn flat_world(w: u32, h: u32, env: Rgb, env_len: usize) -> TraceWorld<bool> {
    let radiance = vec![Rgb { r: 0, g: 0, b: 0 }; (w * h) as usize];
    let opacity = vec![Rgb { r: 0, g: 0, b: 0 }; (w * h) as usize];
    let (diff, diff_blocks) =
        build_difference_mask::<bool>(&radiance, &opacity, Vec2u { x: w, y: h });
    TraceWorld {
        size: Vec2u { x: w, y: h },
        radiance,
        opacity,
        environment: vec![env; env_len],
        diff,
        diff_blocks,
    }
}

fn small_settings() -> CascadeSettings {
    CascadeSettings {
        base_interval: Interval { near: 0, far: S },
        base_probe_spacing: SCALE,
        base_size: CascadeSize { probes: Vec2u { x: 4, y: 4 }, facings: 4 },
        num_cascades: 2,
        spatial_factor: 1,
        angular_factor: 2,
    }
}

#[test]
fn merge_kernel_count_is_three() {
    let engine = RadianceCascades::new(small_settings(), tuning());
    assert_eq!(engine.merge_kernel_count(), 3);
}

#[test]
fn uniform_environment_propagates_exactly() {
    // In an empty world every connecting ray is transparent, so each level's
    // merge hands the environment radiance down unchanged: after one update,
    // every stored entry equals the environment value exactly. This checks
    // the whole reference pipeline (trace, bilinear pick, prefilter average,
    // level ordering) end to end.
    let env = Rgb { r: 1000, g: 2000, b: 3000 };
    // The environment has one entry per stored facing at the boundary.
    let world = flat_world(4, 4, env, 16);
    for variant in [
        MergeVariant::SingleStochastic,
        MergeVariant::FullStochastic,
    ] {
        let mut engine = RadianceCascades::new(small_settings(), tuning());
        engine.update(&world, variant);
        let s = engine.cascade_settings();
        for level in 0..s.num_cascades {
            let size = engine.radiance.settings().level_size(level);
            for py in 0..size.probes.y {
                for px in 0..size.probes.x {
                    for f in 0..size.facings {
                        let got = engine.radiance.read(RayLocation {
                            probe: Vec2u { x: px, y: py },
                            facing: f,
                            level,
                        });
                        assert_eq!(got, env, "variant {variant:?} at {px},{py},{f},{level}");
                    }
                }
            }
        }
        assert_eq!(engine.probe_radiance(Vec2u { x: 2, y: 1 }, 0), env);
    }
}

#[test]
fn zero_environment_stays_dark() {
    let world = flat_world(4, 4, Rgb { r: 0, g: 0, b: 0 }, 16);
    let mut engine = RadianceCascades::new(small_settings(), tuning());
    engine.update(&world, MergeVariant::BilinearFix);
    assert_eq!(
        engine.probe_radiance(Vec2u { x: 0, y: 0 }, 0),
        Rgb { r: 0, g: 0, b: 0 }
    );
}

#[test]
fn emissive_pixel_lights_nearby_probes_more() {
    // A 64x64 world, transparent except one emissive opaque pixel in the
    // middle, dark environment, four cascade levels: the finest-level
    // radiance is brightest at the emitter and falls off with distance.
    let settings = CascadeSettings {
        base_interval: Interval { near: 0, far: S },
        base_probe_spacing: SCALE,
        base_size: CascadeSize { probes: Vec2u { x: 64, y: 64 }, facings: 4 },
        num_cascades: 4,
        spatial_factor: 1,
        angular_factor: 2,
    };
    let w = 64u32;
    let one = Rgb { r: SCALE, g: SCALE, b: SCALE };
    let mut radiance = vec![Rgb { r: 0, g: 0, b: 0 }; (w * w) as usize];
    let mut opacity = vec![Rgb { r: 0, g: 0, b: 0 }; (w * w) as usize];
    radiance[(32 * w + 32) as usize] = one;
    opacity[(32 * w + 32) as usize] = one;
    let (diff, diff_blocks) =
        build_difference_mask::<bool>(&radiance, &opacity, Vec2u { x: w, y: w });
    let world = TraceWorld {
        size: Vec2u { x: w, y: w },
        radiance,
        opacity,
        environment: vec![Rgb { r: 0, g: 0, b: 0 }; 256],
        diff,
        diff_blocks,
    };
    let mut engine = RadianceCascades::new(settings, tuning());
    engine.update(&world, MergeVariant::BilinearFix);
    let at = |x: u32, y: u32| engine.probe_radiance(Vec2u { x, y }, 0).r;
    let v_far = at(0, 0);
    let v_mid = at(16, 16);
    let v_near = at(32, 32);
    assert!(v_near > 0, "the emitter itself is lit");
    assert!(v_mid < v_near, "mid {v_mid} < near {v_near}");
    assert!(v_far < v_mid, "far {v_far} < mid {v_mid}");
}

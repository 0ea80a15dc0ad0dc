use amida::cascade::Vec2u;
use amida::color::Rgb;
use amida::data::{Brush, BrushInput, LoadedMaterial, Material, MaterialVector, Settings};
use amida::fixed::SCALE;
use amida::radiance::TuningSettings;
use amida::utils::{pcg, pcg3d, pcg3d_unit, zip3};
use amida::world::{downsample_env, resolve_palette, PaletteError, World};

#[test]
fn default_settings_values() {
    let s = Settings::default();
    assert_eq!(s.world_size, [512, 512]);
    assert_eq!(s.pixel_size, 2);
    assert_eq!(s.cascades.num_cascades, 6);
    assert_eq!(s.cascades.base_size.facings, 4);
    assert_eq!(s.bounce_cascades.num_cascades, 5);
    assert_eq!(s.bounce_cascades.base_size.probes, Vec2u { x: 256, y: 256 });
    assert_eq!(s.bounce_cascades.base_interval.near, 98304);
    assert_eq!(s.brush_radius, 5 * SCALE);
    assert_eq!(s.materials, "materials.ron");
    assert_eq!(s.brushes.len(), 5);
    assert_eq!(s.brushes[2].0, BrushInput::Mouse(2));
    assert_eq!(s.brushes[2].1, Brush::Single("light".to_owned()));
    assert_eq!(
        s.brushes[0].1,
        Brush::Random(vec!["wall1".to_owned(), "wall2".to_owned(), "wall3".to_owned()])
    );
    assert_eq!(s.bounce_tuning.block_sizes[1], (vec![1, 2], [16, 4, 2]));
    assert_eq!(s.display_tuning.block_sizes[2], (vec![4, 5, 6, 7], [32, 2, 2]));
}

#[test]
fn material_resolution_cases() {
    let zero = Rgb { r: 0, g: 0, b: 0 };
    let one = Rgb { r: SCALE, g: SCALE, b: SCALE };
    // A diffuse surface defaults to fully opaque and shows its own color.
    let m = LoadedMaterial::from(Material {
        diffuse: MaterialVector::Repeat(SCALE / 2),
        ..Material::default()
    });
    assert_eq!(m.opacity, one);
    assert_eq!(m.display_diffuse, Rgb { r: SCALE / 2, g: SCALE / 2, b: SCALE / 2 });
    assert_eq!(m.emissive, zero);
    // A bare emitter is opaque with a white display surface.
    let l = LoadedMaterial::from(Material {
        emissive: MaterialVector::Vector(Rgb { r: 1, g: 2, b: 3 }),
        ..Material::default()
    });
    assert_eq!(l.emissive, Rgb { r: 1, g: 2, b: 3 });
    assert_eq!(l.opacity, one);
    assert_eq!(l.display_diffuse, one);
    // A bare absorber keeps everything else dark.
    let g = LoadedMaterial::from(Material {
        opacity: MaterialVector::Repeat(7),
        ..Material::default()
    });
    assert_eq!(g.opacity, Rgb { r: 7, g: 7, b: 7 });
    assert_eq!(g.emissive, zero);
    // Nothing at all: a white display surface only.
    let n = LoadedMaterial::from(Material::default());
    assert_eq!(n.display_diffuse, one);
    assert_eq!(n.opacity, zero);
}

#[test]
fn brush_as_slice_shapes() {
    let single = Brush::Single("light".to_owned());
    assert_eq!(single.as_slice(), &["light".to_owned()]);
    let random = Brush::Random(vec!["a".to_owned(), "b".to_owned()]);
    assert_eq!(random.as_slice().len(), 2);
    assert_eq!(random.as_slice()[1], "b");
}

#[test]
fn tuning_later_entries_win() {
    let t = TuningSettings {
        block_sizes: vec![
            (vec![0, 1], [4, 4, 1]),
            (vec![1], [8, 8, 1]),
        ],
    };
    let loaded = t.load(2);
    assert_eq!(loaded.block_sizes, vec![[4, 4, 1], [8, 8, 1]]);
    assert_eq!(loaded.assignments, vec![0, 1]);
}

#[test]
fn hash_utilities() {
    // The hashes are deterministic and scramble their input.
    assert_eq!(pcg3d([1, 2, 3]), pcg3d([1, 2, 3]));
    assert_ne!(pcg3d([1, 2, 3]), [1, 2, 3]);
    assert_ne!(pcg3d([1, 2, 3]), pcg3d([1, 2, 4]));
    assert_eq!(pcg(77), pcg3d([77, 77, 77])[0]);
    for v in pcg3d_unit([9, 8, 7]) {
        assert!(v < SCALE);
    }
    let m = zip3([1, 5, 3], [4, 2, 6], |a: u32, b: u32| if a > b { a } else { b });
    assert_eq!(m, [4, 5, 6]);
}

#[test]
fn world_write_pixel_round_trip() {
    let mut world = World::new(4, 4);
    world.load_default();
    let m = LoadedMaterial::from(Material {
        emissive: MaterialVector::Repeat(123),
        ..Material::default()
    });
    world.write_pixel(Vec2u { x: 3, y: 1 }, m);
    assert_eq!(world.emissive[(1 * 4 + 3) as usize], Rgb { r: 123, g: 123, b: 123 });
    assert_eq!(world.display_diffuse[0], Rgb { r: SCALE, g: SCALE, b: SCALE });
    assert_eq!(world.width(), 4);
    assert_eq!(world.height(), 4);
}

fn materials_table() -> Vec<(String, LoadedMaterial)> {
    vec![
        (
            "light".to_owned(),
            LoadedMaterial::from(Material {
                emissive: MaterialVector::Repeat(SCALE),
                ..Material::default()
            }),
        ),
        (
            "empty".to_owned(),
            LoadedMaterial::from(Material::default()),
        ),
    ]
}

#[test]
fn palette_resolution_and_painting() {
    let materials = materials_table();
    let palette = vec![
        ("#ff0000".to_owned(), Brush::Single("light".to_owned())),
        ("black".to_owned(), Brush::Single("empty".to_owned())),
    ];
    let resolved = resolve_palette(&palette, &materials).unwrap();
    // The color parser really parsed the strings (it did not hand the text
    // back): named and hex colors become concrete RGBA bytes.
    assert_eq!(resolved.colors[0], [255, 0, 0, 255]);
    assert_eq!(resolved.colors[1], [0, 0, 0, 255]);
    let mut world = World::new(2, 2);
    let pixels = vec![
        [255, 0, 0, 255],
        [0, 0, 0, 255],
        [0, 0, 0, 255],
        [255, 0, 0, 255],
    ];
    world.load_palette(&pixels, &resolved, &materials).unwrap();
    assert_eq!(world.emissive[0], Rgb { r: SCALE, g: SCALE, b: SCALE });
    assert_eq!(world.emissive[1], Rgb { r: 0, g: 0, b: 0 });
    assert_eq!(world.emissive[3], Rgb { r: SCALE, g: SCALE, b: SCALE });
}

#[test]
fn palette_error_variants() {
    let materials = materials_table();
    let bad_color = vec![("no-such-color-word".to_owned(), Brush::Single("light".to_owned()))];
    assert_eq!(
        resolve_palette(&bad_color, &materials).unwrap_err(),
        PaletteError::BadColor
    );
    let unknown = vec![("#00ff00".to_owned(), Brush::Single("missing".to_owned()))];
    assert_eq!(
        resolve_palette(&unknown, &materials).unwrap_err(),
        PaletteError::UnknownMaterial
    );
    let empty = vec![("#00ff00".to_owned(), Brush::Random(vec![]))];
    assert_eq!(
        resolve_palette(&empty, &materials).unwrap_err(),
        PaletteError::EmptyBrush
    );
    let palette = vec![("#ff0000".to_owned(), Brush::Single("light".to_owned()))];
    let resolved = resolve_palette(&palette, &materials).unwrap();
    let mut world = World::new(1, 1);
    let err = world
        .load_palette(&vec![[1, 2, 3, 4]], &resolved, &materials)
        .unwrap_err();
    assert_eq!(err, PaletteError::UnknownColor);
    // A failed paint leaves the world untouched.
    assert_eq!(world.emissive[0], Rgb { r: 0, g: 0, b: 0 });
}

#[test]
fn downsample_env_exact_averages() {
    let data = vec![
        Rgb { r: 1, g: 10, b: 100 },
        Rgb { r: 2, g: 20, b: 200 },
        Rgb { r: 3, g: 30, b: 300 },
        Rgb { r: 4, g: 40, b: 400 },
    ];
    let out = downsample_env(&data, 2);
    // Channel-wise floor averages of each half.
    assert_eq!(out[0], Rgb { r: 1, g: 15, b: 150 });
    assert_eq!(out[1], Rgb { r: 3, g: 35, b: 350 });
    let whole = downsample_env(&data, 1);
    assert_eq!(whole[0], Rgb { r: 2, g: 25, b: 250 });
}

//! Application configuration and material data: what the painting and
//! settings-loading harness hands the renderer, as plain Q16 values.

use vstd::prelude::*;
use crate::cascade::{CascadeSettings, CascadeSize, Interval, Vec2u};
use crate::color::Rgb;
use crate::fixed::SCALE;
use crate::radiance::TuningSettings;

verus! {

/// Relies on core::slice::from_ref: a one-element slice over a reference.
pub assume_specification<T>[ core::slice::from_ref ](s: &T) -> (r: &[T])
    ensures
        r@ =~= seq![*s],
;

/// One input binding a brush can hang off: a mouse button or a key, by the
/// windowing layer's numeric code.
#[derive(Debug, Clone, Copy, PartialEq, Eq, Hash, Structural)]
pub enum BrushInput {
    Mouse(u32),
    Key(u32),
}

/// What one brush paints: a single material, or a random pick per pixel.
#[derive(Debug, Clone, PartialEq)]
pub enum Brush {
    Single(String),
    Random(Vec<String>),
}

impl Brush {
    /// The material names this brush paints with, as character sequences.
    pub open spec fn spec_names(self) -> Seq<Seq<char>> {
        match self {
            Brush::Single(value) => seq![value@],
            Brush::Random(values) => values@.map(|i: int, e: String| e@),
        }
    }

    /// The material names of this brush, as a slice.
    pub fn as_slice(&self) -> (r: &[String])
        ensures
            r@ =~= match self {
                Brush::Single(value) => seq![*value],
                Brush::Random(values) => values@,
            },
            r@.len() == self.spec_names().len(),
            forall|j: int| 0 <= j < r@.len()
                ==> (#[trigger] r@[j])@ == self.spec_names()[j],
    {
        match self {
            Brush::Single(value) => core::slice::from_ref(value),
            Brush::Random(values) => values.as_slice(),
        }
    }
}

/// One component of a material description: a single value repeated across
/// channels, a full three-channel value, or left unset.
#[derive(Debug, Clone, Copy, PartialEq, Eq, Structural)]
pub enum MaterialVector {
    Repeat(u64),
    Vector(Rgb),
    Unset,
}

impl Default for MaterialVector {
    /// An unspecified component.
    fn default() -> (r: Self)
        ensures
            r == MaterialVector::Unset,
    {
        MaterialVector::Unset
    }
}

impl MaterialVector {
    /// Spec-level mirror of `as_vec3`.
    pub open spec fn spec_as_vec3(self) -> Option<Rgb> {
        match self {
            MaterialVector::Repeat(value) => Some(Rgb { r: value, g: value, b: value }),
            MaterialVector::Vector(value) => Some(value),
            MaterialVector::Unset => None,
        }
    }

    /// This component as a three-channel value, if set.
    pub fn as_vec3(&self) -> (r: Option<Rgb>)
        ensures
            r == self.spec_as_vec3(),
    {
        match self {
            MaterialVector::Repeat(value) => Some(Rgb { r: *value, g: *value, b: *value }),
            MaterialVector::Vector(value) => Some(*value),
            MaterialVector::Unset => None,
        }
    }
}

/// A material as described in a materials table, component by component.
#[derive(Debug, Clone, Copy, PartialEq, Eq, Structural, Default)]
pub struct Material {
    pub emissive: MaterialVector,
    pub diffuse: MaterialVector,
    pub opacity: MaterialVector,
    pub display_emissive: MaterialVector,
    pub display_diffuse: MaterialVector,
    pub display_opacity: MaterialVector,
}

/// A material with every component resolved, ready to paint into the world
/// grids.
#[derive(Debug, Clone, Copy, PartialEq, Eq, Structural)]
pub struct LoadedMaterial {
    pub emissive: Rgb,
    pub diffuse: Rgb,
    pub opacity: Rgb,
    pub display_emissive: Rgb,
    pub display_diffuse: Rgb,
    pub display_opacity: Rgb,
}

/// How an unresolved material fills in its unset components: a diffuse
/// surface defaults opaque, a bare emitter defaults opaque with a white
/// display surface, a bare absorber carries only its opacity, and
/// display-only entries keep everything else dark.
pub open spec fn spec_load_material(material: Material) -> LoadedMaterial {
    let zero = Rgb { r: 0, g: 0, b: 0 };
    let one = Rgb { r: SCALE, g: SCALE, b: SCALE };
    let emissive = material.emissive.spec_as_vec3();
    let diffuse = material.diffuse.spec_as_vec3();
    let opacity = material.opacity.spec_as_vec3();
    let display_emissive = material.display_emissive.spec_as_vec3();
    let display_diffuse = material.display_diffuse.spec_as_vec3();
    let display_opacity = material.display_opacity.spec_as_vec3();
    if diffuse is Some {
        let op = if opacity is Some { opacity->0 } else { one };
        LoadedMaterial {
            emissive: if emissive is Some { emissive->0 } else { zero },
            diffuse: diffuse->0,
            opacity: op,
            display_emissive: if display_emissive is Some { display_emissive->0 } else { zero },
            display_diffuse: if display_diffuse is Some { display_diffuse->0 } else { diffuse->0 },
            display_opacity: if display_opacity is Some { display_opacity->0 } else { op },
        }
    } else if emissive is Some {
        let op = if opacity is Some { opacity->0 } else { one };
        LoadedMaterial {
            emissive: emissive->0,
            diffuse: zero,
            opacity: op,
            display_emissive: if display_emissive is Some { display_emissive->0 } else { zero },
            display_diffuse: if display_diffuse is Some { display_diffuse->0 } else { one },
            display_opacity: if display_opacity is Some { display_opacity->0 } else { op },
        }
    } else if opacity is Some {
        LoadedMaterial {
            emissive: zero,
            diffuse: zero,
            opacity: opacity->0,
            display_emissive: if display_emissive is Some { display_emissive->0 } else { zero },
            display_diffuse: if display_diffuse is Some { display_diffuse->0 } else { one },
            display_opacity: if display_opacity is Some { display_opacity->0 } else { opacity->0 },
        }
    } else if display_emissive is Some {
        LoadedMaterial {
            emissive: zero,
            diffuse: zero,
            opacity: zero,
            display_emissive: display_emissive->0,
            display_diffuse: if display_diffuse is Some { display_diffuse->0 } else { zero },
            display_opacity: if display_opacity is Some { display_opacity->0 } else { zero },
        }
    } else if display_diffuse is Some {
        LoadedMaterial {
            emissive: zero,
            diffuse: zero,
            opacity: zero,
            display_emissive: zero,
            display_diffuse: display_diffuse->0,
            display_opacity: if display_opacity is Some { display_opacity->0 } else { zero },
        }
    } else {
        LoadedMaterial {
            emissive: zero,
            diffuse: zero,
            opacity: zero,
            display_emissive: zero,
            display_diffuse: one,
            display_opacity: if display_opacity is Some { display_opacity->0 } else { zero },
        }
    }
}

impl From<Material> for LoadedMaterial {
    /// Resolves a material's unset components; see `spec_load_material`.
    fn from(material: Material) -> (r: Self) {
        let zero = Rgb { r: 0, g: 0, b: 0 };
        let one = Rgb { r: SCALE, g: SCALE, b: SCALE };
        let emissive = material.emissive.as_vec3();
        let diffuse = material.diffuse.as_vec3();
        let opacity = material.opacity.as_vec3();
        let display_emissive = material.display_emissive.as_vec3();
        let display_diffuse = material.display_diffuse.as_vec3();
        let display_opacity = material.display_opacity.as_vec3();
        if let Some(diffuse) = diffuse {
            let op = opacity.unwrap_or(one);
            Self {
                emissive: emissive.unwrap_or(zero),
                diffuse,
                opacity: op,
                display_emissive: display_emissive.unwrap_or(zero),
                display_diffuse: display_diffuse.unwrap_or(diffuse),
                display_opacity: display_opacity.unwrap_or(op),
            }
        } else if let Some(emissive) = emissive {
            let op = opacity.unwrap_or(one);
            Self {
                emissive,
                diffuse: zero,
                opacity: op,
                display_emissive: display_emissive.unwrap_or(zero),
                display_diffuse: display_diffuse.unwrap_or(one),
                display_opacity: display_opacity.unwrap_or(op),
            }
        } else if let Some(opacity) = opacity {
            Self {
                emissive: zero,
                diffuse: zero,
                opacity,
                display_emissive: display_emissive.unwrap_or(zero),
                display_diffuse: display_diffuse.unwrap_or(one),
                display_opacity: display_opacity.unwrap_or(opacity),
            }
        } else if let Some(display_emissive) = display_emissive {
            Self {
                emissive: zero,
                diffuse: zero,
                opacity: zero,
                display_emissive,
                display_diffuse: display_diffuse.unwrap_or(zero),
                display_opacity: display_opacity.unwrap_or(zero),
            }
        } else if let Some(display_diffuse) = display_diffuse {
            Self {
                emissive: zero,
                diffuse: zero,
                opacity: zero,
                display_emissive: zero,
                display_diffuse,
                display_opacity: display_opacity.unwrap_or(zero),
            }
        } else {
            Self {
                emissive: zero,
                diffuse: zero,
                opacity: zero,
                display_emissive: zero,
                display_diffuse: one,
                display_opacity: display_opacity.unwrap_or(zero),
            }
        }
    }
}

impl vstd::std_specs::convert::FromSpecImpl<Material> for LoadedMaterial {
    open spec fn obeys_from_spec() -> bool {
        true
    }

    open spec fn from_spec(material: Material) -> LoadedMaterial {
        spec_load_material(material)
    }
}

/// The application's whole configuration: world size, the two cascade
/// hierarchies with their tuning, frame-loop toggles, and the brush table.
#[derive(Debug, Clone, PartialEq)]
pub struct Settings {
    pub world_size: [u32; 2],
    pub pixel_size: u32,
    pub dpi: u64,
    pub bounce_cascades: CascadeSettings,
    pub bounce_tuning: TuningSettings,
    pub cascades: CascadeSettings,
    pub display_tuning: TuningSettings,
    pub merge_variant: usize,
    pub num_bounces: usize,
    pub paused: bool,
    pub run_final: bool,
    pub show_diff: bool,
    pub raw_radiance: bool,
    pub display_level: u32,
    pub brush_radius: u64,
    pub draw_square: bool,
    pub materials: String,
    pub brushes: Vec<(BrushInput, Brush)>,
}

impl Default for Settings {
    /// The stock configuration: a 512x512 world, a five-level bounce cascade
    /// over 256x256 probes with 16 facings, a six-level display cascade over
    /// 512x512 probes with 4 facings, and the default brush table.
    fn default() -> (r: Self)
        ensures
            r.world_size == [512u32, 512u32],
            r.pixel_size == 2,
            r.dpi == SCALE,
            r.bounce_cascades == (CascadeSettings {
                base_interval: Interval { near: 98304, far: 393216 },
                base_probe_spacing: 131072,
                base_size: CascadeSize { probes: Vec2u { x: 256, y: 256 }, facings: 16 },
                num_cascades: 5,
                spatial_factor: 1,
                angular_factor: 2,
            }),
            r.cascades == (CascadeSettings {
                base_interval: Interval { near: 0, far: 65536 },
                base_probe_spacing: 65536,
                base_size: CascadeSize { probes: Vec2u { x: 512, y: 512 }, facings: 4 },
                num_cascades: 6,
                spatial_factor: 1,
                angular_factor: 2,
            }),
            r.bounce_tuning.block_sizes@.len() == 3,
            r.bounce_tuning.block_sizes@[0].0@ == seq![0u32],
            r.bounce_tuning.block_sizes@[0].1@ == seq![4u32, 8u32, 4u32],
            r.bounce_tuning.block_sizes@[1].0@ == seq![1u32, 2u32],
            r.bounce_tuning.block_sizes@[1].1@ == seq![16u32, 4u32, 2u32],
            r.bounce_tuning.block_sizes@[2].0@ == seq![3u32, 4u32, 5u32, 6u32],
            r.bounce_tuning.block_sizes@[2].1@ == seq![32u32, 2u32, 2u32],
            r.display_tuning.block_sizes@.len() == 3,
            r.display_tuning.block_sizes@[0].0@ == seq![0u32, 1u32],
            r.display_tuning.block_sizes@[0].1@ == seq![4u32, 8u32, 4u32],
            r.display_tuning.block_sizes@[1].0@ == seq![2u32, 3u32],
            r.display_tuning.block_sizes@[1].1@ == seq![16u32, 4u32, 2u32],
            r.display_tuning.block_sizes@[2].0@ == seq![4u32, 5u32, 6u32, 7u32],
            r.display_tuning.block_sizes@[2].1@ == seq![32u32, 2u32, 2u32],
            r.merge_variant == 0,
            r.num_bounces == 0,
            !r.paused,
            r.run_final,
            !r.show_diff,
            !r.raw_radiance,
            r.display_level == 0,
            r.brush_radius == 5 * SCALE,
            !r.draw_square,
            r.materials@ == "materials.ron"@,
            r.brushes@.len() == 5,
            r.brushes@[0].0 == BrushInput::Mouse(0),
            r.brushes@[0].1 matches Brush::Random(values) && values@.len() == 3
                && values@[0]@ == "wall1"@ && values@[1]@ == "wall2"@
                && values@[2]@ == "wall3"@,
            r.brushes@[1].0 == BrushInput::Mouse(1),
            r.brushes@[1].1 matches Brush::Single(value) && value@ == "empty"@,
            r.brushes@[2].0 == BrushInput::Mouse(2),
            r.brushes@[2].1 matches Brush::Single(value) && value@ == "light"@,
            r.brushes@[3].0 == BrushInput::Mouse(3),
            r.brushes@[3].1 matches Brush::Single(value) && value@ == "redglass"@,
            r.brushes@[4].0 == BrushInput::Mouse(4),
            r.brushes@[4].1 matches Brush::Single(value) && value@ == "blueglass"@,
    {
        let bounce_tuning = TuningSettings {
            block_sizes: vec![
                (vec![0u32], [4u32, 8, 4]),
                (vec![1u32, 2], [16u32, 4, 2]),
                (vec![3u32, 4, 5, 6], [32u32, 2, 2]),
            ],
        };
        let display_tuning = TuningSettings {
            block_sizes: vec![
                (vec![0u32, 1], [4u32, 8, 4]),
                (vec![2u32, 3], [16u32, 4, 2]),
                (vec![4u32, 5, 6, 7], [32u32, 2, 2]),
            ],
        };
        let brushes: Vec<(BrushInput, Brush)> = vec![
            (BrushInput::Mouse(0), Brush::Random(vec![
                "wall1".to_owned(),
                "wall2".to_owned(),
                "wall3".to_owned(),
            ])),
            (BrushInput::Mouse(1), Brush::Single("empty".to_owned())),
            (BrushInput::Mouse(2), Brush::Single("light".to_owned())),
            (BrushInput::Mouse(3), Brush::Single("redglass".to_owned())),
            (BrushInput::Mouse(4), Brush::Single("blueglass".to_owned())),
        ];
        Settings {
            world_size: [512, 512],
            pixel_size: 2,
            dpi: SCALE,
            bounce_cascades: CascadeSettings {
                base_interval: Interval { near: 98304, far: 393216 },
                base_probe_spacing: 131072,
                base_size: CascadeSize { probes: Vec2u { x: 256, y: 256 }, facings: 16 },
                num_cascades: 5,
                spatial_factor: 1,
                angular_factor: 2,
            },
            bounce_tuning,
            cascades: CascadeSettings {
                base_interval: Interval { near: 0, far: 65536 },
                base_probe_spacing: 65536,
                base_size: CascadeSize { probes: Vec2u { x: 512, y: 512 }, facings: 4 },
                num_cascades: 6,
                spatial_factor: 1,
                angular_factor: 2,
            },
            display_tuning,
            merge_variant: 0,
            num_bounces: 0,
            paused: false,
            run_final: true,
            show_diff: false,
            raw_radiance: false,
            display_level: 0,
            brush_radius: 5 * SCALE,
            draw_square: false,
            materials: "materials.ron".to_owned(),
            brushes,
        }
    }
}

} // verus!

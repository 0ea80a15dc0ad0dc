//! The world grids the renderer reads: per-pixel emissive, diffuse and
//! opacity layers (plus separate display variants), palette-based painting,
//! and environment downsampling.

use vstd::prelude::*;
use crate::cascade::Vec2u;
use crate::color::{Rgb, CELL_RADIANCE_MAX, OPACITY_MAX};
use crate::data::{Brush, LoadedMaterial};
use crate::fixed::SCALE;
use crate::utils::{pcg, spec_pcg3d};

verus! {

/// What a css color string parses to, as 8-bit RGBA, if it parses at all.
pub uninterp spec fn css_rgba8_of(s: Seq<char>) -> Option<[u8; 4]>;

/// Relies on csscolorparser::parse and Color::to_rgba8: whether a color
/// string parses, and to which 8-bit RGBA value, depends on the string
/// alone.
#[verifier::external_body]
fn parse_css_color(s: &str) -> (r: Option<[u8; 4]>)
    ensures
        r == css_rgba8_of(s@),
{
    match csscolorparser::parse(s) {
        Ok(color) => Some(color.to_rgba8()),
        Err(_) => None,
    }
}

/// A resolved material's channels are within the renderer's cell bounds.
pub open spec fn spec_material_wf(m: LoadedMaterial) -> bool {
    &&& m.emissive.all_le(CELL_RADIANCE_MAX as int)
    &&& m.diffuse.all_le(SCALE as int)
    &&& m.opacity.all_le(OPACITY_MAX as int)
    &&& m.display_emissive.all_le(CELL_RADIANCE_MAX as int)
    &&& m.display_diffuse.all_le(SCALE as int)
    &&& m.display_opacity.all_le(OPACITY_MAX as int)
}

/// The grid state of the world: one value per pixel per layer, row-major.
pub struct World {
    pub size: Vec2u,
    pub emissive: Vec<Rgb>,
    pub diffuse: Vec<Rgb>,
    pub opacity: Vec<Rgb>,
    pub display_emissive: Vec<Rgb>,
    pub display_diffuse: Vec<Rgb>,
    pub display_opacity: Vec<Rgb>,
}

impl World {
    /// Every layer covers the grid, and every cell is within the renderer's
    /// value bounds.
    pub open spec fn wf(self) -> bool {
        &&& 1 <= self.size.x <= 8192
        &&& 1 <= self.size.y <= 8192
        &&& self.emissive@.len() == self.size.x * self.size.y
        &&& self.diffuse@.len() == self.size.x * self.size.y
        &&& self.opacity@.len() == self.size.x * self.size.y
        &&& self.display_emissive@.len() == self.size.x * self.size.y
        &&& self.display_diffuse@.len() == self.size.x * self.size.y
        &&& self.display_opacity@.len() == self.size.x * self.size.y
        &&& forall|i: int| 0 <= i < self.emissive@.len()
            ==> (#[trigger] self.emissive@[i]).all_le(CELL_RADIANCE_MAX as int)
        &&& forall|i: int| 0 <= i < self.diffuse@.len()
            ==> (#[trigger] self.diffuse@[i]).all_le(SCALE as int)
        &&& forall|i: int| 0 <= i < self.opacity@.len()
            ==> (#[trigger] self.opacity@[i]).all_le(OPACITY_MAX as int)
        &&& forall|i: int| 0 <= i < self.display_emissive@.len()
            ==> (#[trigger] self.display_emissive@[i]).all_le(CELL_RADIANCE_MAX as int)
        &&& forall|i: int| 0 <= i < self.display_diffuse@.len()
            ==> (#[trigger] self.display_diffuse@[i]).all_le(SCALE as int)
        &&& forall|i: int| 0 <= i < self.display_opacity@.len()
            ==> (#[trigger] self.display_opacity@[i]).all_le(OPACITY_MAX as int)
    }

    /// An all-dark, fully transparent world of the given size.
    pub fn new(width: u32, height: u32) -> (out: World)
        requires
            1 <= width <= 8192,
            1 <= height <= 8192,
        ensures
            out.wf(),
            out.size == (Vec2u { x: width, y: height }),
            forall|i: int| 0 <= i < out.emissive@.len()
                ==> (#[trigger] out.emissive@[i]) == (Rgb { r: 0, g: 0, b: 0 }),
    {
        proof {
            assert(width * height <= 8192 * 8192) by (nonlinear_arith)
                requires width <= 8192u32 && height <= 8192u32;
            assert(width * height >= 1) by (nonlinear_arith)
                requires width >= 1u32 && height >= 1u32;
        }
        let len = (width as usize) * (height as usize);
        World {
            size: Vec2u { x: width, y: height },
            emissive: filled(len, Rgb { r: 0, g: 0, b: 0 }),
            diffuse: filled(len, Rgb { r: 0, g: 0, b: 0 }),
            opacity: filled(len, Rgb { r: 0, g: 0, b: 0 }),
            display_emissive: filled(len, Rgb { r: 0, g: 0, b: 0 }),
            display_diffuse: filled(len, Rgb { r: 0, g: 0, b: 0 }),
            display_opacity: filled(len, Rgb { r: 0, g: 0, b: 0 }),
        }
    }

    /// World width in pixels.
    pub fn width(&self) -> (w: u32)
        ensures
            w == self.size.x,
    {
        self.size.x
    }

    /// World height in pixels.
    pub fn height(&self) -> (h: u32)
        ensures
            h == self.size.y,
    {
        self.size.y
    }

    /// The default world content: a plain white display surface.
    pub fn load_default(&mut self)
        requires
            old(self).wf(),
        ensures
            final(self).wf(),
            final(self).size == old(self).size,
            final(self).emissive == old(self).emissive,
            final(self).diffuse == old(self).diffuse,
            final(self).opacity == old(self).opacity,
            final(self).display_emissive == old(self).display_emissive,
            final(self).display_opacity == old(self).display_opacity,
            forall|i: int| 0 <= i < final(self).display_diffuse@.len()
                ==> (#[trigger] final(self).display_diffuse@[i])
                    == (Rgb { r: SCALE, g: SCALE, b: SCALE }),
            final(self).display_diffuse@.len() == old(self).display_diffuse@.len(),
    {
        let len = self.display_diffuse.len();
        self.display_diffuse = filled(len, Rgb { r: SCALE, g: SCALE, b: SCALE });
    }

    /// Writes one material into every layer at one pixel.
    pub fn write_pixel(&mut self, pos: Vec2u, material: LoadedMaterial)
        requires
            old(self).wf(),
            pos.x < old(self).size.x,
            pos.y < old(self).size.y,
            spec_material_wf(material),
        ensures
            final(self).wf(),
            final(self).size == old(self).size,
            ({
                let idx = pos.y * old(self).size.x + pos.x;
                &&& final(self).emissive@ == old(self).emissive@.update(idx as int, material.emissive)
                &&& final(self).diffuse@ == old(self).diffuse@.update(idx as int, material.diffuse)
                &&& final(self).opacity@ == old(self).opacity@.update(idx as int, material.opacity)
                &&& final(self).display_emissive@
                    == old(self).display_emissive@.update(idx as int, material.display_emissive)
                &&& final(self).display_diffuse@
                    == old(self).display_diffuse@.update(idx as int, material.display_diffuse)
                &&& final(self).display_opacity@
                    == old(self).display_opacity@.update(idx as int, material.display_opacity)
            }),
    {
        proof {
            assert(pos.y * self.size.x + pos.x < self.size.x * self.size.y
                && 0 <= pos.y * self.size.x + pos.x
                && pos.y * self.size.x <= 8192 * 8192) by (nonlinear_arith)
                requires
                    pos.x < self.size.x && pos.y < self.size.y
                    && 1 <= self.size.x <= 8192 && 1 <= self.size.y <= 8192;
        }
        let idx = (pos.y as usize) * (self.size.x as usize) + (pos.x as usize);
        self.emissive.set(idx, material.emissive);
        self.diffuse.set(idx, material.diffuse);
        self.opacity.set(idx, material.opacity);
        self.display_emissive.set(idx, material.display_emissive);
        self.display_diffuse.set(idx, material.display_diffuse);
        self.display_opacity.set(idx, material.display_opacity);
    }
}

/// A vector of `len` copies of `fill`.
fn filled(len: usize, fill: Rgb) -> (out: Vec<Rgb>)
    ensures
        out@.len() == len,
        forall|i: int| 0 <= i < len ==> (#[trigger] out@[i]) == fill,
{
    let mut out: Vec<Rgb> = Vec::new();
    while out.len() < len
        invariant
            out@.len() <= len,
            forall|i: int| 0 <= i < out@.len() ==> (#[trigger] out@[i]) == fill,
        decreases len - out@.len(),
    {
        out.push(fill);
    }
    out
}

/// Why a palette could not be applied to a world.
#[derive(Debug, Clone, Copy, PartialEq, Eq, Structural)]
pub enum PaletteError {
    /// A palette entry's color string did not parse.
    BadColor,
    /// A brush named a material absent from the materials table.
    UnknownMaterial,
    /// A brush listed no materials at all.
    EmptyBrush,
    /// An image pixel's color appeared in no palette entry.
    UnknownColor,
}

/// The first materials-table index whose name matches, or -1.
pub open spec fn spec_find_name(names: Seq<Seq<char>>, name: Seq<char>) -> int
    decreases names.len(),
{
    if names.len() == 0 {
        -1
    } else if names[0] == name {
        0
    } else {
        let r = spec_find_name(names.skip(1), name);
        if r == -1 {
            -1
        } else {
            r + 1
        }
    }
}

/// The first resolved palette entry whose color matches, or -1.
pub open spec fn spec_find_color(colors: Seq<[u8; 4]>, c: [u8; 4]) -> int
    decreases colors.len(),
{
    if colors.len() == 0 {
        -1
    } else if colors[0] == c {
        0
    } else {
        let r = spec_find_color(colors.skip(1), c);
        if r == -1 {
            -1
        } else {
            r + 1
        }
    }
}

/// The material names of a materials table.
pub open spec fn spec_material_names(materials: Seq<(String, LoadedMaterial)>) -> Seq<Seq<char>> {
    materials.map(|i: int, e: (String, LoadedMaterial)| e.0@)
}

/// Finds a material by name.
#[verifier::loop_isolation(false)]
fn find_material(materials: &Vec<(String, LoadedMaterial)>, name: &String) -> (r: Option<usize>)
    ensures
        r is Some ==> spec_find_name(spec_material_names(materials@), name@) == r->0
            && r->0 < materials@.len(),
        r is None ==> spec_find_name(spec_material_names(materials@), name@) == -1,
{
    let ghost names = spec_material_names(materials@);
    proof {
        assert(names.skip(0) =~= names);
    }
    let mut i: usize = 0;
    while i < materials.len()
        invariant
            i <= materials@.len(),
            names == spec_material_names(materials@),
            spec_find_name(names.skip(i as int), name@) >= 0
                ==> spec_find_name(names, name@) == spec_find_name(names.skip(i as int), name@) + i,
            spec_find_name(names.skip(i as int), name@) == -1
                ==> spec_find_name(names, name@) == -1,
        decreases materials@.len() - i,
    {
        let found = materials[i].0.eq(name);
        proof {
            assert(names.skip(i as int)[0] == names[i as int]);
            assert(names.skip(i as int).skip(1) =~= names.skip(i as int + 1));
        }
        if found {
            return Some(i);
        }
        i = i + 1;
    }
    proof {
        assert(names.skip(i as int).len() == 0);
    }
    None
}

/// A palette entry resolved for painting: its 8-bit RGBA key and the
/// materials-table indices its brush draws from.
#[derive(Debug, Clone)]
pub struct ResolvedPalette {
    pub colors: Vec<[u8; 4]>,
    pub brushes: Vec<Vec<u32>>,
}

impl ResolvedPalette {
    /// Every brush is nonempty and indexes the materials table.
    pub open spec fn wf(self, nmaterials: int) -> bool {
        &&& self.brushes@.len() == self.colors@.len()
        &&& forall|i: int| 0 <= i < self.brushes@.len()
            ==> (#[trigger] self.brushes@[i])@.len() >= 1
        &&& forall|i: int, j: int| 0 <= i < self.brushes@.len()
            && 0 <= j < self.brushes@[i]@.len()
            ==> (#[trigger] self.brushes@[i]@[j]) < nmaterials
    }
}

/// Whether a palette can be resolved against a materials table: every color
/// key parses, every brush lists at least one name, and every name appears
/// in the table.
pub open spec fn spec_palette_resolves(
    palette: Seq<(String, Brush)>,
    materials: Seq<(String, LoadedMaterial)>,
) -> bool {
    forall|i: int| 0 <= i < palette.len() ==> {
        &&& (#[trigger] css_rgba8_of(palette[i].0@)) is Some
        &&& palette[i].1.spec_names().len() >= 1
        &&& forall|j: int| 0 <= j < palette[i].1.spec_names().len()
            ==> spec_find_name(spec_material_names(materials),
                #[trigger] palette[i].1.spec_names()[j]) >= 0
    }
}

/// Resolves a palette: parses every color key and maps every brush's
/// material names to materials-table indices. Succeeds exactly when the
/// palette resolves; otherwise the error names the first failure: a color
/// that does not parse, an empty brush, or an unknown material name.
#[verifier::loop_isolation(false)]
pub fn resolve_palette(
    palette: &Vec<(String, Brush)>,
    materials: &Vec<(String, LoadedMaterial)>,
) -> (out: Result<ResolvedPalette, PaletteError>)
    requires
        materials@.len() < 0x1_0000_0000,
    ensures
        spec_palette_resolves(palette@, materials@) ==> out is Ok,
        out is Ok ==> out->Ok_0.wf(materials@.len() as int)
            && out->Ok_0.colors@.len() == palette@.len(),
        out is Ok ==> forall|i: int| 0 <= i < palette@.len()
            ==> css_rgba8_of(palette@[i].0@) == Some((#[trigger] out->Ok_0.colors@[i])),
        out is Err ==> (out->Err_0 == PaletteError::BadColor
            || out->Err_0 == PaletteError::EmptyBrush
            || out->Err_0 == PaletteError::UnknownMaterial),
        out == Err::<ResolvedPalette, PaletteError>(PaletteError::BadColor)
            ==> exists|i: int| 0 <= i < palette@.len()
                && (#[trigger] css_rgba8_of(palette@[i].0@)) is None,
        out == Err::<ResolvedPalette, PaletteError>(PaletteError::EmptyBrush)
            ==> exists|i: int| 0 <= i < palette@.len()
                && (#[trigger] palette@[i].1.spec_names()).len() == 0,
        out == Err::<ResolvedPalette, PaletteError>(PaletteError::UnknownMaterial)
            ==> exists|i: int, j: int| 0 <= i < palette@.len()
                && 0 <= j < palette@[i].1.spec_names().len()
                && spec_find_name(spec_material_names(materials@),
                    #[trigger] palette@[i].1.spec_names()[j]) == -1,
{
    let mut colors: Vec<[u8; 4]> = Vec::new();
    let mut brushes: Vec<Vec<u32>> = Vec::new();
    let mut i: usize = 0;
    while i < palette.len()
        invariant
            i <= palette@.len(),
            colors@.len() == i,
            brushes@.len() == i,
            forall|t: int| 0 <= t < i
                ==> css_rgba8_of(palette@[t].0@) == Some((#[trigger] colors@[t])),
            forall|t: int| 0 <= t < i ==> (#[trigger] brushes@[t])@.len() >= 1,
            forall|t: int, j: int| 0 <= t < i && 0 <= j < brushes@[t]@.len()
                ==> (#[trigger] brushes@[t]@[j]) < materials@.len(),
        decreases palette@.len() - i,
    {
        let color = match parse_css_color(palette[i].0.as_str()) {
            Some(c) => c,
            None => {
                proof {
                    assert(css_rgba8_of(palette@[i as int].0@) is None);
                }
                return Err(PaletteError::BadColor);
            }
        };
        let names = palette[i].1.as_slice();
        if names.len() == 0 {
            proof {
                assert(palette@[i as int].1.spec_names().len() == 0);
            }
            return Err(PaletteError::EmptyBrush);
        }
        let mut brush: Vec<u32> = Vec::new();
        let mut j: usize = 0;
        while j < names.len()
            invariant
                j <= names@.len(),
                brush@.len() == j,
                names@.len() >= 1,
                forall|t: int| 0 <= t < j ==> (#[trigger] brush@[t]) < materials@.len(),
                materials@.len() < 0x1_0000_0000,
            decreases names@.len() - j,
        {
            match find_material(materials, &names[j]) {
                Some(mi) => {
                    brush.push(mi as u32);
                }
                None => {
                    proof {
                        assert(names@[j as int]@ == palette@[i as int].1.spec_names()[j as int]);
                        assert(spec_find_name(spec_material_names(materials@),
                            palette@[i as int].1.spec_names()[j as int]) == -1);
                    }
                    return Err(PaletteError::UnknownMaterial);
                }
            }
            j = j + 1;
        }
        colors.push(color);
        brushes.push(brush);
        i = i + 1;
    }
    Ok(ResolvedPalette { colors, brushes })
}

/// The material index painted at one pixel: the pixel's palette entry is
/// looked up by color, and the brush picks a material pseudo-randomly from
/// the pixel coordinates.
pub open spec fn spec_palette_pick(
    resolved_colors: Seq<[u8; 4]>,
    resolved_brushes: Seq<Vec<u32>>,
    c: [u8; 4],
    x: int,
    y: int,
) -> Option<u32> {
    let e = spec_find_color(resolved_colors, c);
    if e == -1 {
        None
    } else {
        let brush = resolved_brushes[e]@;
        let h = spec_pcg3d([
            (x * 65536 + y) as u32,
            (x * 65536 + y) as u32,
            (x * 65536 + y) as u32,
        ])@[0];
        Some(brush[(h as int) % (brush.len() as int)])
    }
}

/// Finds the palette entry of one color.
#[verifier::loop_isolation(false)]
fn find_color_entry(resolved: &ResolvedPalette, c: [u8; 4]) -> (r: Option<usize>)
    ensures
        r is Some ==> spec_find_color(resolved.colors@, c) == r->0
            && r->0 < resolved.colors@.len(),
        r is None ==> spec_find_color(resolved.colors@, c) == -1,
{
    let ghost colors = resolved.colors@;
    proof {
        assert(colors.skip(0) =~= colors);
    }
    let mut i: usize = 0;
    while i < resolved.colors.len()
        invariant
            i <= colors.len(),
            colors == resolved.colors@,
            spec_find_color(colors.skip(i as int), c) >= 0
                ==> spec_find_color(colors, c) == spec_find_color(colors.skip(i as int), c) + i,
            spec_find_color(colors.skip(i as int), c) == -1
                ==> spec_find_color(colors, c) == -1,
        decreases colors.len() - i,
    {
        let e = resolved.colors[i];
        let found = e[0] == c[0] && e[1] == c[1] && e[2] == c[2] && e[3] == c[3];
        proof {
            assert(colors.skip(i as int)[0] == colors[i as int]);
            assert(colors.skip(i as int).skip(1) =~= colors.skip(i as int + 1));
            if found {
                assert(e =~= c);
            }
        }
        if found {
            return Some(i);
        }
        proof {
            assert(e != c) by {
                if e == c {
                    assert(e[0] == c[0] && e[1] == c[1] && e[2] == c[2] && e[3] == c[3]);
                }
            };
        }
        i = i + 1;
    }
    proof {
        assert(colors.skip(i as int).len() == 0);
    }
    None
}

impl World {
    /// Paints a whole decoded palette image into the world: every pixel's
    /// color selects a palette entry, whose brush picks a material from the
    /// pixel's coordinate hash. Succeeds exactly when every pixel's color
    /// appears in some entry; otherwise the world is left unchanged.
    #[verifier::loop_isolation(false)]
    #[verifier::rlimit(100)]
    pub fn load_palette(
        &mut self,
        pixels: &Vec<[u8; 4]>,
        resolved: &ResolvedPalette,
        materials: &Vec<(String, LoadedMaterial)>,
    ) -> (out: Result<(), PaletteError>)
        requires
            old(self).wf(),
            pixels@.len() == old(self).size.x * old(self).size.y,
            resolved.wf(materials@.len() as int),
            forall|i: int| 0 <= i < materials@.len()
                ==> spec_material_wf((#[trigger] materials@[i]).1),
        ensures
            final(self).wf(),
            final(self).size == old(self).size,
            (forall|p: int| 0 <= p < pixels@.len()
                ==> spec_find_color(resolved.colors@, #[trigger] pixels@[p]) != -1)
                ==> out is Ok,
            out is Err ==> *final(self) == *old(self)
                && out->Err_0 == PaletteError::UnknownColor
                && exists|p: int| 0 <= p < pixels@.len()
                    && spec_find_color(resolved.colors@, #[trigger] pixels@[p]) == -1,
            out is Ok ==> forall|p: int| #![trigger final(self).emissive@[p]]
                0 <= p < pixels@.len()
                ==> {
                    let w = final(self).size.x as int;
                    let pick = spec_palette_pick(resolved.colors@, resolved.brushes@,
                        pixels@[p], p % w, p / w);
                    &&& pick is Some
                    &&& final(self).emissive@[p] == materials@[pick->0 as int].1.emissive
                    &&& final(self).diffuse@[p] == materials@[pick->0 as int].1.diffuse
                    &&& final(self).opacity@[p] == materials@[pick->0 as int].1.opacity
                    &&& final(self).display_emissive@[p]
                        == materials@[pick->0 as int].1.display_emissive
                    &&& final(self).display_diffuse@[p]
                        == materials@[pick->0 as int].1.display_diffuse
                    &&& final(self).display_opacity@[p]
                        == materials@[pick->0 as int].1.display_opacity
                },
    {
        let w = self.size.x;
        let h = self.size.y;
        proof {
            assert(w * h <= 8192 * 8192 && w * h >= 1) by (nonlinear_arith)
                requires 1 <= w <= 8192 && 1 <= h <= 8192;
        }
        let len: usize = (w as usize) * (h as usize);
        // First resolve every pixel (no mutation), then apply.
        let mut picks: Vec<u32> = Vec::new();
        let mut p: usize = 0;
        while p < len
            invariant
                p <= len,
                picks@.len() == p,
                forall|t: int| #![trigger pixels@[t]] 0 <= t < p
                    ==> spec_palette_pick(resolved.colors@, resolved.brushes@,
                        pixels@[t], t % (w as int), t / (w as int)) is Some
                        && picks@[t] == spec_palette_pick(resolved.colors@, resolved.brushes@,
                            pixels@[t], t % (w as int), t / (w as int))->0
                        && picks@[t] < materials@.len(),
            decreases len - p,
        {
            let px = (p % (w as usize)) as u32;
            let py = (p / (w as usize)) as u32;
            proof {
                vstd::arithmetic::div_mod::lemma_fundamental_div_mod(p as int, w as int);
                assert(p as int / (w as int) < h) by (nonlinear_arith)
                    requires
                        p < w * h && w >= 1
                        && p as int == (w as int) * (p as int / (w as int)) + p as int % (w as int)
                        && 0 <= p as int % (w as int) < w;
            }
            let c = pixels[p];
            let e = match find_color_entry(resolved, c) {
                Some(e) => e,
                None => {
                    proof {
                        assert(spec_find_color(resolved.colors@, pixels@[p as int]) == -1);
                    }
                    return Err(PaletteError::UnknownColor);
                }
            };
            let brush = &resolved.brushes[e];
            let hash = pcg(px * 65536 + py);
            let bi = (hash as usize) % brush.len();
            let pick = brush[bi];
            let ghost old_picks = picks@;
            picks.push(pick);
            p = p + 1;
            proof {
                let t0 = p as int - 1;
                assert(t0 % (w as int) == px && t0 / (w as int) == py);
                assert(spec_find_color(resolved.colors@, pixels@[t0]) == e as int);
                let brush_seq = resolved.brushes@[e as int]@;
                assert(brush_seq == brush@);
                let seedv = (t0 % (w as int)) * 65536 + t0 / (w as int);
                assert(seedv == px * 65536 + py);
                assert((seedv as u32) == (px * 65536 + py) as u32);
                assert(hash == spec_pcg3d([seedv as u32, seedv as u32, seedv as u32])@[0]);
                assert(0 <= (hash as int) % (brush_seq.len() as int) < brush_seq.len()
                    && (hash as int) % (brush_seq.len() as int) == bi as int) by (nonlinear_arith)
                    requires
                        brush_seq.len() >= 1 && hash >= 0
                        && bi == (hash as int) % (brush_seq.len() as int);
                assert(pick == brush_seq[(hash as int) % (brush_seq.len() as int)]);
                let cur = spec_palette_pick(resolved.colors@, resolved.brushes@,
                    pixels@[t0], t0 % (w as int), t0 / (w as int));
                assert(cur is Some && cur->0 == pick && pick < materials@.len());
                assert forall|t: int| #![trigger pixels@[t]] 0 <= t < p
                    implies spec_palette_pick(resolved.colors@, resolved.brushes@,
                            pixels@[t], t % (w as int), t / (w as int)) is Some
                        && picks@[t] == spec_palette_pick(resolved.colors@, resolved.brushes@,
                            pixels@[t], t % (w as int), t / (w as int))->0
                        && picks@[t] < materials@.len() by {
                    if t < t0 {
                        assert(picks@[t] == old_picks[t]);
                        assert(pixels@[t] == pixels@[t]);
                    } else {
                        assert(picks@[t] == pick);
                    }
                }
            }
        }
        // Apply the picks.
        let mut p2: usize = 0;
        while p2 < len
            invariant
                p2 <= len,
                self.wf(),
                self.size == old(self).size,
                w == self.size.x,
                h == self.size.y,
                len == w * h,
                picks@.len() == len,
                forall|t: int| #![trigger pixels@[t]] 0 <= t < len
                    ==> spec_palette_pick(resolved.colors@, resolved.brushes@,
                        pixels@[t], t % (w as int), t / (w as int)) is Some
                        && picks@[t] == spec_palette_pick(resolved.colors@, resolved.brushes@,
                            pixels@[t], t % (w as int), t / (w as int))->0
                        && picks@[t] < materials@.len(),
                forall|t: int| #![trigger self.emissive@[t]] 0 <= t < p2
                    ==> {
                        &&& self.emissive@[t] == materials@[picks@[t] as int].1.emissive
                        &&& self.diffuse@[t] == materials@[picks@[t] as int].1.diffuse
                        &&& self.opacity@[t] == materials@[picks@[t] as int].1.opacity
                        &&& self.display_emissive@[t]
                            == materials@[picks@[t] as int].1.display_emissive
                        &&& self.display_diffuse@[t]
                            == materials@[picks@[t] as int].1.display_diffuse
                        &&& self.display_opacity@[t]
                            == materials@[picks@[t] as int].1.display_opacity
                    },
                forall|t: int| #![trigger self.emissive@[t]] p2 <= t < len
                    ==> {
                        &&& self.emissive@[t] == old(self).emissive@[t]
                        &&& self.diffuse@[t] == old(self).diffuse@[t]
                        &&& self.opacity@[t] == old(self).opacity@[t]
                        &&& self.display_emissive@[t] == old(self).display_emissive@[t]
                        &&& self.display_diffuse@[t] == old(self).display_diffuse@[t]
                        &&& self.display_opacity@[t] == old(self).display_opacity@[t]
                    },
            decreases len - p2,
        {
            let px = (p2 % (w as usize)) as u32;
            let py = (p2 / (w as usize)) as u32;
            proof {
                vstd::arithmetic::div_mod::lemma_fundamental_div_mod(p2 as int, w as int);
                assert(p2 as int / (w as int) < h) by (nonlinear_arith)
                    requires
                        p2 < w * h && w >= 1
                        && p2 as int == (w as int) * (p2 as int / (w as int)) + p2 as int % (w as int)
                        && 0 <= p2 as int % (w as int) < w;
                // Mention the pixel so the pick invariants instantiate here.
                assert(pixels@[p2 as int] == pixels@[p2 as int]);
                assert(py * w + px == p2) by (nonlinear_arith)
                    requires
                        px == p2 as int % (w as int) && py == p2 as int / (w as int) && w >= 1
                        && p2 as int == (w as int) * (p2 as int / (w as int)) + p2 as int % (w as int);
            }
            let pick = picks[p2];
            let m = materials[pick as usize].1;
            let ghost before = *self;
            self.write_pixel(Vec2u { x: px, y: py }, m);
            p2 = p2 + 1;
            proof {
                assert forall|t: int| #![trigger self.emissive@[t]] 0 <= t < p2
                    implies {
                        &&& self.emissive@[t] == materials@[picks@[t] as int].1.emissive
                        &&& self.diffuse@[t] == materials@[picks@[t] as int].1.diffuse
                        &&& self.opacity@[t] == materials@[picks@[t] as int].1.opacity
                        &&& self.display_emissive@[t]
                            == materials@[picks@[t] as int].1.display_emissive
                        &&& self.display_diffuse@[t]
                            == materials@[picks@[t] as int].1.display_diffuse
                        &&& self.display_opacity@[t]
                            == materials@[picks@[t] as int].1.display_opacity
                    } by {
                    if t < p2 - 1 {
                        assert(self.emissive@[t] == before.emissive@[t]);
                        assert(before.emissive@[t] == materials@[picks@[t] as int].1.emissive);
                    }
                }
                assert forall|t: int| #![trigger self.emissive@[t]] p2 <= t < len
                    implies {
                        &&& self.emissive@[t] == old(self).emissive@[t]
                        &&& self.diffuse@[t] == old(self).diffuse@[t]
                        &&& self.opacity@[t] == old(self).opacity@[t]
                        &&& self.display_emissive@[t] == old(self).display_emissive@[t]
                        &&& self.display_diffuse@[t] == old(self).display_diffuse@[t]
                        &&& self.display_opacity@[t] == old(self).display_opacity@[t]
                    } by {
                    assert(self.emissive@[t] == before.emissive@[t]);
                }
            }
        }
        Ok(())
    }
}

/// Channel-wise sum of the first n entries of a chunk starting at `base`.
pub open spec fn spec_chunk_sum(data: Seq<Rgb>, base: int, n: nat) -> (int, int, int)
    decreases n,
{
    if n == 0 {
        (0, 0, 0)
    } else {
        let rest = spec_chunk_sum(data, base, (n - 1) as nat);
        let v = data[base + n - 1];
        (rest.0 + v.r, rest.1 + v.g, rest.2 + v.b)
    }
}

/// Downsamples a high-resolution environment map onto a coarser boundary
/// buffer: each output entry is the channel-wise average of its chunk of
/// input entries.
#[verifier::loop_isolation(false)]
#[verifier::rlimit(100)]
pub fn downsample_env(data: &Vec<Rgb>, count: usize) -> (out: Vec<Rgb>)
    requires
        count >= 1,
        count <= data@.len(),
        data@.len() as int % count as int == 0,
        data@.len() < 0x1_0000_0000,
        forall|i: int| 0 <= i < data@.len()
            ==> (#[trigger] data@[i]).all_le(CELL_RADIANCE_MAX as int),
    ensures
        out@.len() == count,
        ({
            let ratio = data@.len() as int / count as int;
            forall|i: int| 0 <= i < count
                ==> {
                    let sum = spec_chunk_sum(data@, i * ratio, ratio as nat);
                    (#[trigger] out@[i]) == (Rgb {
                        r: (sum.0 / ratio) as u64,
                        g: (sum.1 / ratio) as u64,
                        b: (sum.2 / ratio) as u64,
                    })
                }
        }),
{
    let ratio = data.len() / count;
    proof {
        vstd::arithmetic::div_mod::lemma_fundamental_div_mod(data@.len() as int, count as int);
        assert(ratio >= 1 && ratio * count == data@.len() && count * ratio == data@.len())
            by (nonlinear_arith)
            requires
                ratio == data@.len() as int / count as int && count >= 1
                && count <= data@.len() && data@.len() as int % count as int == 0
                && data@.len() == count * (data@.len() as int / count as int)
                    + data@.len() as int % count as int;
    }
    let mut out: Vec<Rgb> = Vec::new();
    let mut i: usize = 0;
    while i < count
        invariant
            i <= count,
            out@.len() == i,
            ratio == data@.len() as int / count as int,
            ratio >= 1,
            ratio * count == data@.len(),
            forall|t: int| 0 <= t < i
                ==> {
                    let sum = spec_chunk_sum(data@, t * ratio, ratio as nat);
                    (#[trigger] out@[t]) == (Rgb {
                        r: (sum.0 / ratio as int) as u64,
                        g: (sum.1 / ratio as int) as u64,
                        b: (sum.2 / ratio as int) as u64,
                    })
                },
        decreases count - i,
    {
        proof {
            assert((i + 1) * ratio <= count * ratio && i * ratio >= 0) by (nonlinear_arith)
                requires 0 <= i < count && ratio >= 1;
            assert((i + 1) * ratio == i * ratio + ratio) by (nonlinear_arith);
        }
        let base = i * ratio;
        let mut sum_r: u128 = 0;
        let mut sum_g: u128 = 0;
        let mut sum_b: u128 = 0;
        let mut j: usize = 0;
        while j < ratio
            invariant
                j <= ratio,
                base == i * ratio,
                i < count,
                ratio * count == data@.len(),
                ratio >= 1,
                (sum_r as int, sum_g as int, sum_b as int)
                    == spec_chunk_sum(data@, base as int, j as nat),
                sum_r <= j * CELL_RADIANCE_MAX,
                sum_g <= j * CELL_RADIANCE_MAX,
                sum_b <= j * CELL_RADIANCE_MAX,
            decreases ratio - j,
        {
            proof {
                assert(base + j < (i + 1) * ratio && (i + 1) * ratio <= count * ratio)
                    by (nonlinear_arith)
                    requires
                        base == i * ratio && 0 <= j < ratio && 0 <= i < count && ratio >= 1;
                assert((j + 1) * CELL_RADIANCE_MAX == j * CELL_RADIANCE_MAX + CELL_RADIANCE_MAX)
                    by (nonlinear_arith);
                assert(j * CELL_RADIANCE_MAX <= 0x1_0000_0000 * CELL_RADIANCE_MAX)
                    by (nonlinear_arith)
                    requires 0 <= j <= 0x1_0000_0000;
            }
            let v = data[base + j];
            sum_r = sum_r + v.r as u128;
            sum_g = sum_g + v.g as u128;
            sum_b = sum_b + v.b as u128;
            j = j + 1;
        }
        proof {
            assert(sum_r as int / (ratio as int) <= CELL_RADIANCE_MAX
                && sum_g as int / (ratio as int) <= CELL_RADIANCE_MAX
                && sum_b as int / (ratio as int) <= CELL_RADIANCE_MAX) by (nonlinear_arith)
                requires
                    sum_r <= ratio * CELL_RADIANCE_MAX && sum_g <= ratio * CELL_RADIANCE_MAX
                    && sum_b <= ratio * CELL_RADIANCE_MAX && ratio >= 1
                    && sum_r >= 0 && sum_g >= 0 && sum_b >= 0;
        }
        out.push(Rgb {
            r: (sum_r / (ratio as u128)) as u64,
            g: (sum_g / (ratio as u128)) as u64,
            b: (sum_b / (ratio as u128)) as u64,
        });
        i = i + 1;
    }
    out
}

} // verus!

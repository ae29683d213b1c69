//! The procedural materials. Each one reads a handful of signals in
//! thousandths, sampled from a noise field or derived from the time tick,
//! and walks a fixed ladder of thresholds to a color.

use vstd::prelude::*;
use crate::color::{Color, lemma_scale_keeps_order};
use crate::geometry::{div_floor, isqrt, sqrt_floor, lemma_mul_bound, lemma_sqrt_exists};
use crate::noise::{fbm, fbm_noise};
use crate::raster::Fragment;

verus! {

/// A number limited to the range from `lo` to `hi`.
pub open spec fn clamp(v: int, lo: int, hi: int) -> int {
    if v < lo {
        lo
    } else if v > hi {
        hi
    } else {
        v
    }
}

fn clamp_to(v: i64, lo: i64, hi: i64) -> (c: i64)
    requires
        lo <= hi,
    ensures
        c == clamp(v as int, lo as int, hi as int),
{
    if v < lo {
        lo
    } else if v > hi {
        hi
    } else {
        v
    }
}

/// What the Sun reads. With `t` the time tick, the caller takes the
/// signals from the noise field and from the sine and cosine of `t`.
#[derive(Debug, Clone, Copy, PartialEq, Eq, Structural)]
pub struct SunSignals {
    /// The slow pulse of the whole disc, from 0 to 1000: half of one plus
    /// the sine of `0.01 t`.
    pub pulsate: i32,
    /// Surface noise, at `(0.1 t, 0.1 t)`: how far the core turns into flare.
    pub surface: i32,
    /// Eruption noise, at `(0.02 t, cos 0.02 t)`: above 800 the disc flares up.
    pub eruption: i32,
    /// The strength of the corona, from 0 to 1000: the size of the cosine
    /// of `0.005 t`.
    pub corona: i32,
    /// The slow wave of the halo, from 0 to 1000: the size of the sine of
    /// `0.002 t`.
    pub halo: i32,
}

/// The color of the Sun: core blended into flare by the surface noise,
/// plus the corona; dimmed by the pulse and brightened by half during an
/// eruption; plus a halo of half its wave.
pub open spec fn sun_color(s: SunSignals) -> Color {
    let core = (Color { r: 255, g: 140, b: 0 }).lerp_spec(
        Color { r: 255, g: 69, b: 0 },
        s.surface as int,
    );
    let corona = (Color { r: 255, g: 255, b: 160 }).scale_spec(s.corona as int);
    let flare: int = if s.eruption > 800 {
        1500
    } else {
        1000
    };
    let body = core.add_spec(corona).scale_spec(s.pulsate as int).scale_spec(flare);
    let halo = (Color { r: 255, g: 215, b: 0 }).scale_spec(clamp(s.halo as int / 2, 0, 1000));
    body.add_spec(halo)
}

pub fn sun_shader(signals: &SunSignals) -> (color: Color)
    ensures
        color == sun_color(*signals),
{
    let core_color: Color = Color::new(255, 140, 0);
    let flare_color: Color = Color::new(255, 69, 0);
    let corona_color: Color = Color::new(255, 255, 160);
    let core: Color = core_color.lerp(&flare_color, signals.surface as i64);
    let corona: Color = corona_color.scale(signals.corona as i64);
    let flare_intensity: i64 = if signals.eruption > 800 {
        1500
    } else {
        1000
    };
    let body: Color = core.saturating_add(&corona).scale(signals.pulsate as i64).scale(
        flare_intensity,
    );
    let halo_color: Color = Color::new(255, 215, 0);
    let half: i64 = div_floor(signals.halo as i128, 2) as i64;
    let halo_intensity: i64 = clamp_to(half, 0, 1000);
    body.saturating_add(&halo_color.scale(halo_intensity))
}

/// What the Earth reads at a fragment. With `(x, y)` the fragment's
/// place on the surface and `t` the time tick, the caller samples the noise
/// field; octave `i` of a layered noise is sampled a tenth of `i` farther
/// along both axes.
#[derive(Debug, Clone, Copy)]
pub struct EarthSignals {
    /// Terrain noise at `(15 x, 15 y)`, one sample for each of six octaves.
    pub terrain: [i32; 6],
    /// Biome noise at `50 (x, y)` moved by `0.005 t`: ocean below 300,
    /// desert above 500, mountain above 700.
    pub biome: i32,
    /// Cloud noise at `100 (x, y)` moved by `0.02 t`: thin cloud above
    /// 600, solid cloud above 800.
    pub cloud: i32,
}

/// The color of the ground for a biome: mountain blended into land by the
/// terrain above 700, desert dimmed by the terrain above 500, land scaled
/// by the terrain otherwise.
pub open spec fn biome_color(terrain: int, biome: int) -> Color {
    if biome > 700 {
        (Color { r: 139, g: 137, b: 137 }).lerp_spec(Color { r: 34, g: 139, b: 34 }, terrain)
    } else if biome > 500 {
        (Color { r: 210, g: 180, b: 140 }).scale_spec(clamp(1000 - terrain, 500, 1000))
    } else {
        (Color { r: 34, g: 139, b: 34 }).scale_spec(terrain)
    }
}

/// The color of the surface: below a biome of 300, ocean blended into the
/// ground by the biome's share of 300; the ground otherwise.
pub open spec fn surface_color(terrain: int, biome: int) -> Color {
    if biome < 300 {
        (Color { r: 0, g: 102, b: 204 }).lerp_spec(biome_color(terrain, biome), biome * 10 / 3)
    } else {
        biome_color(terrain, biome)
    }
}

/// The surface seen through the clouds: solid cloud above 800, ice
/// blended half and half with the surface above 600, the surface otherwise.
pub open spec fn clouded_color(terrain: int, biome: int, cloud: int) -> Color {
    if cloud > 800 {
        Color { r: 255, g: 255, b: 255 }
    } else if cloud > 600 {
        (Color { r: 240, g: 248, b: 255 }).lerp_spec(surface_color(terrain, biome), 500)
    } else {
        surface_color(terrain, biome)
    }
}

/// The Earth's own light factor: six tenths, plus four tenths of the
/// terrain times the depth coordinate limited to one whole either way.
pub open spec fn earth_light(terrain: int, z: int) -> int {
    600 + (400 * terrain * clamp(z, -1000, 1000)) / 1_000_000
}

/// The color of the Earth at a fragment.
pub open spec fn earth_color(f: Fragment, s: EarthSignals) -> Color {
    let terrain = fbm(s.terrain@);
    clouded_color(terrain, s.biome as int, s.cloud as int).scale_spec(
        earth_light(terrain, f.vertex_position.z as int),
    ).scale_spec(f.intensity as int)
}

pub fn earth_shader(fragment: &Fragment, signals: &EarthSignals) -> (color: Color)
    ensures
        color == earth_color(*fragment, *signals),
{
    let ocean_color: Color = Color::new(0, 102, 204);
    let land_color: Color = Color::new(34, 139, 34);
    let desert_color: Color = Color::new(210, 180, 140);
    let mountain_color: Color = Color::new(139, 137, 137);
    let cloud_color: Color = Color::new(255, 255, 255);
    let ice_color: Color = Color::new(240, 248, 255);

    let terrain: i64 = fbm_noise(signals.terrain.as_slice());
    let biome: i64 = signals.biome as i64;
    let cloud: i64 = signals.cloud as i64;

    let biome_color: Color = if biome > 700 {
        mountain_color.lerp(&land_color, terrain)
    } else if biome > 500 {
        desert_color.scale(clamp_to(1000 - terrain, 500, 1000))
    } else {
        land_color.scale(terrain)
    };

    let surface_color: Color = if biome < 300 {
        let share: i64 = div_floor((biome * 10) as i128, 3) as i64;
        ocean_color.lerp(&biome_color, share)
    } else {
        biome_color
    };

    let final_color: Color = if cloud > 800 {
        cloud_color
    } else if cloud > 600 {
        ice_color.lerp(&surface_color, 500)
    } else {
        surface_color
    };

    let z: i64 = clamp_to(fragment.vertex_position.z as i64, -1000, 1000);
    proof {
        lemma_mul_bound(400 * terrain as int, z as int, 2_147_483_648_000int, 1000);
        assert(400 * terrain * z == (400 * terrain) * z) by (nonlinear_arith);
    }
    let lit: i64 = div_floor((400 * terrain * z) as i128, 1_000_000) as i64;
    let light_factor: i64 = 600 + lit;

    final_color.scale(light_factor).scale(fragment.intensity)
}

/// What Mars reads at a fragment. With `(x, y, z)` the fragment's place
/// on the surface, `(u, v)` that place divided by the size of `z`, but by
/// no less than a tenth, and `t` the time tick, the caller samples the noise
/// field.
#[derive(Debug, Clone, Copy)]
pub struct MarsSignals {
    /// Fine surface noise at `60 (u, v)` moved by `0.3 t`, one sample for
    /// each of five octaves.
    pub fine: [i32; 5],
    /// Crater noise in three dimensions, at `40 (u, v, z)` with `u` and
    /// `v` moved by `0.15 t`: a crater above 750.
    pub crater: i32,
    /// Rock noise at `20 (u, v)`, one sample for each of six octaves.
    pub rock: [i32; 6],
    /// Where rocks may lie at all: noise at `25 (u, v)`.
    pub rock_mask: i32,
}

/// How rocky the ground is: the mask times the rock noise, from 0 to 1000.
pub open spec fn rock_factor(rock: int, mask: int) -> int {
    clamp((mask * rock) / 1000, 0, 1000)
}

/// The lit ground of Mars: a crater above 750, dimmed by its own depth;
/// else rock where the rock factor is above 600; else sand blended into
/// ridge by the fine noise. Each is scaled by the light the fragment receives.
pub open spec fn mars_ground(fine: int, crater: int, rock: int, mask: int, intensity: int) -> Color {
    if crater > 750 {
        (Color { r: 105, g: 54, b: 36 }).scale_spec(clamp(1000 - crater, 500, 1000)).scale_spec(
            intensity,
        )
    } else if rock_factor(rock, mask) > 600 {
        (Color { r: 150, g: 75, b: 45 }).scale_spec(rock_factor(rock, mask)).scale_spec(intensity)
    } else {
        (Color { r: 210, g: 77, b: 38 }).lerp_spec(Color { r: 130, g: 60, b: 35 }, fine).scale_spec(
            intensity,
        )
    }
}

/// Mars's own light factor: one half, plus half the depth coordinate
/// limited to one whole either way.
pub open spec fn mars_light(z: int) -> int {
    500 + clamp(z, -1000, 1000) / 2
}

/// The color of Mars at a fragment.
pub open spec fn mars_color(f: Fragment, s: MarsSignals) -> Color {
    mars_ground(
        fbm(s.fine@),
        s.crater as int,
        fbm(s.rock@),
        s.rock_mask as int,
        f.intensity as int,
    ).scale_spec(mars_light(f.vertex_position.z as int))
}

pub fn mars_shader(fragment: &Fragment, signals: &MarsSignals) -> (color: Color)
    ensures
        color == mars_color(*fragment, *signals),
{
    let sand_color: Color = Color::new(210, 77, 38);
    let rock_color: Color = Color::new(150, 75, 45);
    let crater_color: Color = Color::new(105, 54, 36);
    let ridge_color: Color = Color::new(130, 60, 35);

    let fine_noise: i64 = fbm_noise(signals.fine.as_slice());
    let crater_noise: i64 = signals.crater as i64;
    let rock_noise: i64 = fbm_noise(signals.rock.as_slice());
    let rock_mask: i64 = signals.rock_mask as i64;
    proof {
        lemma_mul_bound(rock_mask as int, rock_noise as int, 0x8000_0000, 5_368_709_120);
    }
    let product: i128 = (rock_mask as i128) * (rock_noise as i128);
    let small_rock_factor: i64 = clamp_to(div_floor(product, 1000) as i64, 0, 1000);

    let surface_color: Color = if crater_noise > 750 {
        crater_color.scale(clamp_to(1000 - crater_noise, 500, 1000)).scale(fragment.intensity)
    } else if small_rock_factor > 600 {
        rock_color.scale(small_rock_factor).scale(fragment.intensity)
    } else {
        sand_color.lerp(&ridge_color, fine_noise).scale(fragment.intensity)
    };

    let z: i64 = clamp_to(fragment.vertex_position.z as i64, -1000, 1000);
    let light_factor: i64 = 500 + div_floor(z as i128, 2) as i64;
    surface_color.scale(light_factor)
}

/// What Jupiter reads at a fragment. With `(x, y)` the fragment's place
/// on the surface and `t` a fiftieth of the time tick, the caller samples
/// the noise field.
#[derive(Debug, Clone, Copy)]
pub struct JupiterSignals {
    /// The wave that draws the bands along the latitude, from -1000 to
    /// 1000: the sine of `15 y` plus the sine of `2 t`.
    pub wave: i32,
    /// Flow noise at `(1.5 x + 0.05 t, 3 y)`, one sample for each of six octaves.
    pub flow: [i32; 6],
    /// Turbulence noise at `(10 x + 0.3 t, 10 y)`.
    pub turbulence: i32,
}

/// How far down the ladder of bands a point is: the wave plus half the
/// flow, moved into the range from zero to one whole, and stirred by a
/// fifth of the turbulence.
pub open spec fn wave_intensity(wave: int, flow: int, turbulence: int) -> int {
    ((2 * wave + flow + 2000) * (5000 + turbulence)) / 20000
}

/// The color of the bands: yellow blended into beige, then brown, then
/// dark brown, by one half, four fifths and the whole of the wave intensity.
pub open spec fn band_color(intensity: int) -> Color {
    (Color { r: 255, g: 239, b: 170 }).lerp_spec(
        Color { r: 230, g: 220, b: 170 },
        intensity / 2,
    ).lerp_spec(Color { r: 180, g: 120, b: 70 }, intensity * 4 / 5).lerp_spec(
        Color { r: 120, g: 70, b: 40 },
        intensity,
    )
}

/// The strength of the great red spot at a point of the surface: one
/// whole at its center, falling to nothing a quarter away from it.
pub open spec fn spot_intensity(x: int, y: int) -> int {
    clamp(1000 - 4 * sqrt_floor((x + 200) * (x + 200) + (y - 200) * (y - 200)), 0, 1000)
}

/// The gain that turbulence adds at the end, limited to 1200.
pub open spec fn turbulence_gain(turbulence: int) -> int {
    clamp(1000 + turbulence * 3 / 20, 0, 1200)
}

/// The color of Jupiter at a fragment: the storm color where the spot is
/// stronger than 700, the lit bands elsewhere, times the turbulence gain.
pub open spec fn jupiter_color(f: Fragment, s: JupiterSignals) -> Color {
    let spot = spot_intensity(f.vertex_position.x as int, f.vertex_position.y as int);
    let base = if spot > 700 {
        (Color { r: 255, g: 69, b: 0 }).scale_spec(spot)
    } else {
        band_color(wave_intensity(s.wave as int, fbm(s.flow@), s.turbulence as int)).scale_spec(
            f.intensity as int,
        )
    };
    base.scale_spec(turbulence_gain(s.turbulence as int))
}

pub fn jupiter_shader(fragment: &Fragment, signals: &JupiterSignals) -> (color: Color)
    ensures
        color == jupiter_color(*fragment, *signals),
{
    let band_yellow: Color = Color::new(255, 239, 170);
    let band_beige: Color = Color::new(230, 220, 170);
    let band_brown: Color = Color::new(180, 120, 70);
    let band_dark_brown: Color = Color::new(120, 70, 40);
    let storm_color: Color = Color::new(255, 69, 0);

    let wave: i64 = signals.wave as i64;
    let fbm_value: i64 = fbm_noise(signals.flow.as_slice());
    let turbulence: i64 = signals.turbulence as i64;

    let level: i64 = 2 * wave + fbm_value + 2000;
    let stir: i64 = 5000 + turbulence;
    proof {
        lemma_mul_bound(level as int, stir as int, 0x4_0000_0000, 0x1_0000_0000);
    }
    let wave_intensity: i64 = div_floor((level as i128) * (stir as i128), 20000) as i64;

    let band_color: Color = band_yellow.lerp(
        &band_beige,
        div_floor(wave_intensity as i128, 2) as i64,
    ).lerp(&band_brown, div_floor((wave_intensity as i128) * 4, 5) as i64).lerp(
        &band_dark_brown,
        wave_intensity,
    );

    let dx: i64 = fragment.vertex_position.x as i64 + 200;
    let dy: i64 = fragment.vertex_position.y as i64 - 200;
    proof {
        lemma_mul_bound(dx as int, dx as int, 0x8000_00c8, 0x8000_00c8);
        lemma_mul_bound(dy as int, dy as int, 0x8000_00c8, 0x8000_00c8);
        assert(dx * dx >= 0 && dy * dy >= 0) by (nonlinear_arith);
    }
    let dist2: u64 = ((dx as i128) * (dx as i128) + (dy as i128) * (dy as i128)) as u64;
    let dist: i64 = isqrt(dist2) as i64;
    let red_spot_intensity: i64 = clamp_to(1000 - 4 * dist, 0, 1000);

    let final_color: Color = if red_spot_intensity > 700 {
        storm_color.scale(red_spot_intensity)
    } else {
        band_color.scale(fragment.intensity)
    };

    let gain: i64 = clamp_to(1000 + div_floor((turbulence * 3) as i128, 20) as i64, 0, 1200);
    final_color.scale(gain)
}

/// What Saturn reads at a fragment. With `r` the fragment's distance
/// from the axis, `a` its angle about the axis, `l` its latitude and `t`
/// the time tick, the caller samples the noise field.
#[derive(Debug, Clone, Copy)]
pub struct SaturnSignals {
    /// Ring noise at `(10 r, 5 a + 0.05 t)`, one sample for each of four octaves.
    pub ring: [i32; 4],
    /// The wave that runs outwards through the rings, from -1000 to
    /// 1000: the sine of `6 r` plus the sine of `0.1 t`.
    pub wave: i32,
    /// Band noise along the latitude, at `(25 l + 0.01 t, 0)`, one sample
    /// for each of six octaves.
    pub band: [i32; 6],
}

/// The color of a ring: one grey blended into the next by the wave where
/// the ring noise is above 700 or above 400, the lightest grey dimmed by
/// the ring noise otherwise.
pub open spec fn ring_color(ring: int, wave: int) -> Color {
    if ring > 700 {
        (Color { r: 192, g: 192, b: 192 }).lerp_spec(
            Color { r: 169, g: 169, b: 169 },
            wave / 2 + 500,
        )
    } else if ring > 400 {
        (Color { r: 169, g: 169, b: 169 }).lerp_spec(
            Color { r: 220, g: 220, b: 220 },
            wave / 2 + 500,
        )
    } else {
        (Color { r: 220, g: 220, b: 220 }).scale_spec(800 + ring / 5)
    }
}

/// The color of a band of the planet itself, by four bins of the band noise.
pub open spec fn saturn_band_color(band: int) -> Color {
    if band > 750 {
        Color { r: 210, g: 180, b: 140 }
    } else if band > 500 {
        Color { r: 170, g: 140, b: 110 }
    } else if band > 250 {
        Color { r: 240, g: 230, b: 140 }
    } else {
        Color { r: 200, g: 160, b: 100 }
    }
}

/// How opaque the rings are at a distance from the axis: four fifths
/// near the planet, falling outwards over the last whole, never under a tenth.
pub open spec fn ring_opacity(radius: int) -> int {
    if clamp(2500 - radius, 0, 1000) * 4 / 5 < 100 {
        100
    } else {
        clamp(2500 - radius, 0, 1000) * 4 / 5
    }
}

/// Whether a point at the given squared distance from the axis, in
/// millionths, lies in the rings: farther than one whole and nearer than
/// two and a half.
pub open spec fn in_rings(radius2: int) -> bool {
    1_000_000 < radius2 < 6_250_000
}

/// The color of Saturn at a fragment: the lit ring color times the ring
/// opacity in the rings, the lit band color elsewhere.
pub open spec fn saturn_color(f: Fragment, s: SaturnSignals) -> Color {
    let x = f.vertex_position.x as int;
    let z = f.vertex_position.z as int;
    let radius2 = x * x + z * z;
    if in_rings(radius2) {
        ring_color(fbm(s.ring@), s.wave as int).scale_spec(f.intensity as int).scale_spec(
            ring_opacity(sqrt_floor(radius2)),
        )
    } else {
        saturn_band_color(fbm(s.band@)).scale_spec(f.intensity as int)
    }
}

pub fn saturn_shader(fragment: &Fragment, signals: &SaturnSignals) -> (color: Color)
    ensures
        color == saturn_color(*fragment, *signals),
{
    let band_color1: Color = Color::new(210, 180, 140);
    let band_color2: Color = Color::new(170, 140, 110);
    let band_color3: Color = Color::new(240, 230, 140);
    let band_color4: Color = Color::new(200, 160, 100);
    let ring_color1: Color = Color::new(192, 192, 192);
    let ring_color2: Color = Color::new(169, 169, 169);
    let ring_color3: Color = Color::new(220, 220, 220);

    let x: i64 = fragment.vertex_position.x as i64;
    let z: i64 = fragment.vertex_position.z as i64;
    proof {
        lemma_mul_bound(x as int, x as int, 0x8000_0000, 0x8000_0000);
        lemma_mul_bound(z as int, z as int, 0x8000_0000, 0x8000_0000);
        assert(x * x >= 0 && z * z >= 0) by (nonlinear_arith);
    }
    let radius2: u64 = ((x as i128) * (x as i128) + (z as i128) * (z as i128)) as u64;

    if radius2 > 1_000_000 && radius2 < 6_250_000 {
        let radius: i64 = isqrt(radius2) as i64;
        let ring_noise: i64 = fbm_noise(signals.ring.as_slice());
        let blend: i64 = div_floor(signals.wave as i128, 2) as i64 + 500;
        let ring_color: Color = if ring_noise > 700 {
            ring_color1.lerp(&ring_color2, blend)
        } else if ring_noise > 400 {
            ring_color2.lerp(&ring_color3, blend)
        } else {
            ring_color3.scale(800 + div_floor(ring_noise as i128, 5) as i64)
        };
        let falloff: i64 = clamp_to(2500 - radius, 0, 1000) * 4 / 5;
        let ring_opacity: i64 = if falloff < 100 {
            100
        } else {
            falloff
        };
        ring_color.scale(fragment.intensity).scale(ring_opacity)
    } else {
        let band_noise: i64 = fbm_noise(signals.band.as_slice());
        let band_color: Color = if band_noise > 750 {
            band_color1
        } else if band_noise > 500 {
            band_color2
        } else if band_noise > 250 {
            band_color3
        } else {
            band_color4
        };
        band_color.scale(fragment.intensity)
    }
}

/// The five materials.
#[derive(Debug, Clone, Copy, PartialEq, Eq, Structural)]
pub enum Material {
    Sun,
    Earth,
    Mars,
    Jupiter,
    Saturn,
}

/// The signals of one material.
#[derive(Debug, Clone, Copy)]
pub enum Signals {
    Sun(SunSignals),
    Earth(EarthSignals),
    Mars(MarsSignals),
    Jupiter(JupiterSignals),
    Saturn(SaturnSignals),
}

impl Material {
    /// The material that a shader index selects: 0 to 4 in the order Sun,
    /// Earth, Mars, Jupiter, Saturn.
    pub open spec fn of_index(index: int) -> Option<Material> {
        if index == 0 {
            Some(Material::Sun)
        } else if index == 1 {
            Some(Material::Earth)
        } else if index == 2 {
            Some(Material::Mars)
        } else if index == 3 {
            Some(Material::Jupiter)
        } else if index == 4 {
            Some(Material::Saturn)
        } else {
            None
        }
    }

    pub fn from_index(index: usize) -> (m: Option<Material>)
        ensures
            m == Material::of_index(index as int),
    {
        if index == 0 {
            Some(Material::Sun)
        } else if index == 1 {
            Some(Material::Earth)
        } else if index == 2 {
            Some(Material::Mars)
        } else if index == 3 {
            Some(Material::Jupiter)
        } else if index == 4 {
            Some(Material::Saturn)
        } else {
            None
        }
    }
}

impl Signals {
    /// The material the signals were sampled for.
    pub open spec fn material(self) -> Material {
        match self {
            Signals::Sun(_) => Material::Sun,
            Signals::Earth(_) => Material::Earth,
            Signals::Mars(_) => Material::Mars,
            Signals::Jupiter(_) => Material::Jupiter,
            Signals::Saturn(_) => Material::Saturn,
        }
    }
}

/// The color a material gives a fragment.
pub open spec fn material_color(f: Fragment, s: Signals) -> Color {
    match s {
        Signals::Sun(sun) => sun_color(sun),
        Signals::Earth(earth) => earth_color(f, earth),
        Signals::Mars(mars) => mars_color(f, mars),
        Signals::Jupiter(jupiter) => jupiter_color(f, jupiter),
        Signals::Saturn(saturn) => saturn_color(f, saturn),
    }
}

/// The color of a fragment under a shader index: that of the material the
/// index selects, from the signals sampled for it; black for an index
/// that selects no material, or for signals of another material.
pub open spec fn shade_color(shader_index: int, f: Fragment, s: Signals) -> Color {
    if Material::of_index(shader_index) == Some(s.material()) {
        material_color(f, s)
    } else {
        Color { r: 0, g: 0, b: 0 }
    }
}

/// Shades a fragment with the material that `shader_index` selects.
pub fn shade(shader_index: usize, fragment: &Fragment, signals: &Signals) -> (color: Color)
    ensures
        color == shade_color(shader_index as int, *fragment, *signals),
{
    match signals {
        Signals::Sun(sun) => {
            if shader_index == 0 {
                sun_shader(sun)
            } else {
                Color::black()
            }
        },
        Signals::Earth(earth) => {
            if shader_index == 1 {
                earth_shader(fragment, earth)
            } else {
                Color::black()
            }
        },
        Signals::Mars(mars) => {
            if shader_index == 2 {
                mars_shader(fragment, mars)
            } else {
                Color::black()
            }
        },
        Signals::Jupiter(jupiter) => {
            if shader_index == 3 {
                jupiter_shader(fragment, jupiter)
            } else {
                Color::black()
            }
        },
        Signals::Saturn(saturn) => {
            if shader_index == 4 {
                saturn_shader(fragment, saturn)
            } else {
                Color::black()
            }
        },
    }
}

/// Every threshold of the ladders is strict: a signal exactly on a
/// threshold takes the branch below it, the same at every evaluation.
pub proof fn lemma_thresholds_are_strict(
    f: Fragment,
    sun: SunSignals,
    terrain: int,
    biome: int,
    fine: int,
    rock: int,
    mask: int,
    wave: int,
)
    ensures
        sun.eruption == 800 ==> sun_color(sun) == sun_color((SunSignals { eruption: 0, ..sun })),
        clouded_color(terrain, biome, 800) == (Color { r: 240, g: 248, b: 255 }).lerp_spec(
            surface_color(terrain, biome),
            500,
        ),
        clouded_color(terrain, biome, 600) == surface_color(terrain, biome),
        surface_color(terrain, 300) == biome_color(terrain, 300),
        biome_color(terrain, 700) == (Color { r: 210, g: 180, b: 140 }).scale_spec(
            clamp(1000 - terrain, 500, 1000),
        ),
        biome_color(terrain, 500) == (Color { r: 34, g: 139, b: 34 }).scale_spec(terrain),
        mars_ground(fine, 750, rock, mask, f.intensity as int) == mars_ground(
            fine,
            0,
            rock,
            mask,
            f.intensity as int,
        ),
        rock_factor(rock, mask) == 600 ==> mars_ground(fine, 0, rock, mask, f.intensity as int)
            == (Color { r: 210, g: 77, b: 38 }).lerp_spec(
            (Color { r: 130, g: 60, b: 35 }),
            fine,
        ).scale_spec(f.intensity as int),
        ring_color(700, wave) == (Color { r: 169, g: 169, b: 169 }).lerp_spec(
            (Color { r: 220, g: 220, b: 220 }),
            wave / 2 + 500,
        ),
        ring_color(400, wave) == (Color { r: 220, g: 220, b: 220 }).scale_spec(880),
        saturn_band_color(750) == (Color { r: 170, g: 140, b: 110 }),
        saturn_band_color(500) == (Color { r: 240, g: 230, b: 140 }),
        saturn_band_color(250) == (Color { r: 200, g: 160, b: 100 }),
        !in_rings(1_000_000),
        !in_rings(6_250_000),
{
}

/// The great red spot is stronger than 700 exactly within 75
/// thousandths of its center.
pub proof fn lemma_spot_boundary(x: int, y: int)
    ensures
        spot_intensity(x, y) > 700 <==> (x + 200) * (x + 200) + (y - 200) * (y - 200) < 5625,
{
    let d2 = (x + 200) * (x + 200) + (y - 200) * (y - 200);
    assert(d2 >= 0) by (nonlinear_arith)
        requires
            d2 == (x + 200) * (x + 200) + (y - 200) * (y - 200),
    ;
    lemma_sqrt_exists(d2);
    let r = sqrt_floor(d2);
    if r < 75 {
        assert((r + 1) * (r + 1) <= 5625) by (nonlinear_arith)
            requires
                0 <= r < 75,
        ;
    } else {
        assert(r * r >= 5625) by (nonlinear_arith)
            requires
                r >= 75,
        ;
    }
}

/// Open ocean: where the biome noise is not positive and the cloud noise
/// is at most 600, the Earth shows the ocean color alone, dimmed by the
/// light, and so no channel is stronger than blue and none weaker than red.
pub proof fn lemma_open_ocean(f: Fragment, s: EarthSignals)
    requires
        s.biome <= 0,
        s.cloud <= 600,
    ensures
        earth_color(f, s) == (Color { r: 0, g: 102, b: 204 }).scale_spec(
            earth_light(fbm(s.terrain@), f.vertex_position.z as int),
        ).scale_spec(f.intensity as int),
        earth_color(f, s).r <= earth_color(f, s).g <= earth_color(f, s).b,
{
    let terrain = fbm(s.terrain@);
    let light = earth_light(terrain, f.vertex_position.z as int);
    let ocean = Color { r: 0, g: 102, b: 204 };
    assert(s.biome as int * 10 / 3 <= 0);
    crate::color::lemma_mix_endpoints(0, biome_color(terrain, s.biome as int).r as int);
    crate::color::lemma_mix_endpoints(102, biome_color(terrain, s.biome as int).g as int);
    crate::color::lemma_mix_endpoints(204, biome_color(terrain, s.biome as int).b as int);
    assert(surface_color(terrain, s.biome as int) == ocean);
    lemma_scale_keeps_order(0, 102, light);
    lemma_scale_keeps_order(102, 204, light);
    let lit = ocean.scale_spec(light);
    lemma_scale_keeps_order(lit.r as int, lit.g as int, f.intensity as int);
    lemma_scale_keeps_order(lit.g as int, lit.b as int, f.intensity as int);
}

} // verus!

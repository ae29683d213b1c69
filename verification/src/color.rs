//! Colors with three 8-bit channels, and the blends the materials are built from.

use vstd::prelude::*;

verus! {

/// A fraction limited to the range from zero to one whole.
pub open spec fn clamp_unit(t: int) -> int {
    if t < 0 {
        0
    } else if t > 1000 {
        1000
    } else {
        t
    }
}

/// The channel value a fraction `t` of the way from `a` to `b`, rounded to
/// the nearest integer, halves upwards. Meant for `0 <= t <= 1000`.
pub open spec fn mix(a: int, b: int, t: int) -> int {
    (a * (1000 - t) + b * t + 500) / 1000
}

/// A channel value multiplied by a factor in thousandths, rounded down and
/// limited to what a channel can hold.
pub open spec fn scale_channel(c: int, factor: int) -> int {
    if factor <= 0 {
        0
    } else if (c * factor) / 1000 > 255 {
        255
    } else {
        (c * factor) / 1000
    }
}

/// The sum of two channel values, limited to what a channel can hold.
pub open spec fn add_channel(a: int, b: int) -> int {
    if a + b > 255 {
        255
    } else {
        a + b
    }
}

#[derive(Debug, Clone, Copy, PartialEq, Eq, Structural)]
pub struct Color {
    pub r: u8,
    pub g: u8,
    pub b: u8,
}

/// A mixed channel lies between its two ends.
pub proof fn lemma_mix_bounds(a: int, b: int, t: int)
    requires
        0 <= a <= 255,
        0 <= b <= 255,
        0 <= t <= 1000,
    ensures
        0 <= mix(a, b, t) <= 255,
        a <= b ==> a <= mix(a, b, t) <= b,
        b <= a ==> b <= mix(a, b, t) <= a,
{
    assert(a * (1000 - t) >= 0 && b * t >= 0) by (nonlinear_arith)
        requires
            0 <= a,
            0 <= b,
            0 <= t <= 1000,
    ;
    if a <= b {
        assert(a * (1000 - t) + b * t >= a * 1000 && a * (1000 - t) + b * t <= b * 1000)
            by (nonlinear_arith)
            requires
                a <= b,
                0 <= t <= 1000,
        ;
    } else {
        assert(a * (1000 - t) + b * t <= a * 1000 && a * (1000 - t) + b * t >= b * 1000)
            by (nonlinear_arith)
            requires
                b <= a,
                0 <= t <= 1000,
        ;
    }
}

fn mix_channel(a: u8, b: u8, t: i64) -> (c: u8)
    requires
        0 <= t <= 1000,
    ensures
        c == mix(a as int, b as int, t as int),
{
    proof {
        lemma_mix_bounds(a as int, b as int, t as int);
        assert(0 <= a as int * (1000 - t as int) <= 255000 && 0 <= b as int * t as int <= 255000)
            by (nonlinear_arith)
            requires
                0 <= a <= 255,
                0 <= b <= 255,
                0 <= t <= 1000,
        ;
    }
    let wa: i64 = a as i64 * (1000 - t);
    let wb: i64 = b as i64 * t;
    let c: i64 = (wa + wb + 500) / 1000;
    c as u8
}

fn scale_one(c: u8, factor: i64) -> (s: u8)
    ensures
        s == scale_channel(c as int, factor as int),
{
    if factor <= 0 {
        0
    } else if factor >= 256000 {
        // Any non-zero channel saturates; zero stays zero.
        proof {
            if c > 0 {
                assert((c as int * factor as int) / 1000 > 255) by (nonlinear_arith)
                    requires
                        c >= 1,
                        factor >= 256000,
                ;
            } else {
                assert(c as int * factor as int == 0) by (nonlinear_arith)
                    requires
                        c == 0,
                ;
            }
        }
        if c > 0 {
            255
        } else {
            0
        }
    } else {
        assert(0 <= c as int * factor as int <= 255 * 256000) by (nonlinear_arith)
            requires
                0 <= c <= 255,
                0 < factor < 256000,
        ;
        let p: i64 = (c as i64 * factor) / 1000;
        if p > 255 {
            255
        } else {
            p as u8
        }
    }
}

fn add_one(a: u8, b: u8) -> (s: u8)
    ensures
        s == add_channel(a as int, b as int),
{
    let sum: u16 = a as u16 + b as u16;
    if sum > 255 {
        255
    } else {
        sum as u8
    }
}

impl Color {
    /// The packed form `0x00RRGGBB` as a number.
    pub open spec fn hex(self) -> int {
        self.r * 65536 + self.g * 256 + self.b
    }

    /// The blend a fraction `t` (in thousandths, limited to one whole) of
    /// the way from `self` to `other`.
    pub open spec fn lerp_spec(self, other: Color, t: int) -> Color {
        Color {
            r: mix(self.r as int, other.r as int, clamp_unit(t)) as u8,
            g: mix(self.g as int, other.g as int, clamp_unit(t)) as u8,
            b: mix(self.b as int, other.b as int, clamp_unit(t)) as u8,
        }
    }

    /// Every channel multiplied by `factor` thousandths.
    pub open spec fn scale_spec(self, factor: int) -> Color {
        Color {
            r: scale_channel(self.r as int, factor) as u8,
            g: scale_channel(self.g as int, factor) as u8,
            b: scale_channel(self.b as int, factor) as u8,
        }
    }

    /// The channel-wise saturating sum.
    pub open spec fn add_spec(self, other: Color) -> Color {
        Color {
            r: add_channel(self.r as int, other.r as int) as u8,
            g: add_channel(self.g as int, other.g as int) as u8,
            b: add_channel(self.b as int, other.b as int) as u8,
        }
    }

    pub fn new(r: u8, g: u8, b: u8) -> (c: Color)
        ensures
            c == (Color { r, g, b }),
    {
        Color { r, g, b }
    }

    pub fn black() -> (c: Color)
        ensures
            c == (Color { r: 0, g: 0, b: 0 }),
    {
        Color { r: 0, g: 0, b: 0 }
    }

    /// Packs the channels as `0x00RRGGBB`.
    pub fn to_hex(&self) -> (h: u32)
        ensures
            h == self.hex(),
            h <= 0xFF_FFFF,
    {
        let r: u32 = self.r as u32;
        let g: u32 = self.g as u32;
        let b: u32 = self.b as u32;
        assert(((r << 16) | (g << 8) | b) == r * 65536 + g * 256 + b) by (bit_vector)
            requires
                r < 256,
                g < 256,
                b < 256,
        ;
        (r << 16) | (g << 8) | b
    }

    /// Unpacks `0x00RRGGBB`; the top byte is ignored.
    pub fn from_hex(h: u32) -> (c: Color)
        ensures
            c.r == (h / 65536) % 256,
            c.g == (h / 256) % 256,
            c.b == h % 256,
            h <= 0xFF_FFFF ==> c.hex() == h,
    {
        assert(((h >> 16) & 0xFF) == (h / 65536) % 256 && ((h >> 8) & 0xFF) == (h / 256) % 256
            && (h & 0xFF) == h % 256) by (bit_vector);
        let r: u8 = ((h >> 16) & 0xFF) as u8;
        let g: u8 = ((h >> 8) & 0xFF) as u8;
        let b: u8 = (h & 0xFF) as u8;
        Color { r, g, b }
    }

    /// Blends towards `other` by `t` thousandths; `t` is limited to the
    /// range from 0 to 1000 first.
    pub fn lerp(&self, other: &Color, t: i64) -> (c: Color)
        ensures
            c == self.lerp_spec(*other, t as int),
    {
        let t: i64 = if t < 0 {
            0
        } else if t > 1000 {
            1000
        } else {
            t
        };
        Color {
            r: mix_channel(self.r, other.r, t),
            g: mix_channel(self.g, other.g, t),
            b: mix_channel(self.b, other.b, t),
        }
    }

    /// Multiplies every channel by `factor` thousandths, rounding down and
    /// saturating; a factor of zero or less gives black.
    pub fn scale(&self, factor: i64) -> (c: Color)
        ensures
            c == self.scale_spec(factor as int),
    {
        Color {
            r: scale_one(self.r, factor),
            g: scale_one(self.g, factor),
            b: scale_one(self.b, factor),
        }
    }

    /// Adds channel by channel, saturating at 255.
    pub fn saturating_add(&self, other: &Color) -> (c: Color)
        ensures
            c == self.add_spec(*other),
    {
        Color {
            r: add_one(self.r, other.r),
            g: add_one(self.g, other.g),
            b: add_one(self.b, other.b),
        }
    }
}

/// Blending by nothing keeps the first color, and blending by one whole
/// gives the second.
pub proof fn lemma_lerp_endpoints(a: Color, b: Color)
    ensures
        a.lerp_spec(b, 0) == a,
        a.lerp_spec(b, 1000) == b,
{
    lemma_mix_endpoints(a.r as int, b.r as int);
    lemma_mix_endpoints(a.g as int, b.g as int);
    lemma_mix_endpoints(a.b as int, b.b as int);
}

/// A channel mixed by nothing is the first end; mixed by one whole, the second.
pub proof fn lemma_mix_endpoints(a: int, b: int)
    ensures
        mix(a, b, 0) == a,
        mix(a, b, 1000) == b,
{
    assert(a * (1000 - 0) + b * 0 + 500 == a * 1000 + 500);
    assert(a * (1000 - 1000) + b * 1000 + 500 == b * 1000 + 500);
}

/// Each channel of a blend moves monotonically from the first color's
/// channel towards the second's as the fraction grows.
pub proof fn lemma_lerp_monotone(a: Color, b: Color, s: int, t: int)
    requires
        0 <= s <= t <= 1000,
    ensures
        a.r <= b.r ==> a.lerp_spec(b, s).r <= a.lerp_spec(b, t).r,
        a.r >= b.r ==> a.lerp_spec(b, s).r >= a.lerp_spec(b, t).r,
        a.g <= b.g ==> a.lerp_spec(b, s).g <= a.lerp_spec(b, t).g,
        a.g >= b.g ==> a.lerp_spec(b, s).g >= a.lerp_spec(b, t).g,
        a.b <= b.b ==> a.lerp_spec(b, s).b <= a.lerp_spec(b, t).b,
        a.b >= b.b ==> a.lerp_spec(b, s).b >= a.lerp_spec(b, t).b,
{
    lemma_mix_monotone(a.r as int, b.r as int, s, t);
    lemma_mix_monotone(a.g as int, b.g as int, s, t);
    lemma_mix_monotone(a.b as int, b.b as int, s, t);
    lemma_mix_bounds(a.r as int, b.r as int, s);
    lemma_mix_bounds(a.r as int, b.r as int, t);
    lemma_mix_bounds(a.g as int, b.g as int, s);
    lemma_mix_bounds(a.g as int, b.g as int, t);
    lemma_mix_bounds(a.b as int, b.b as int, s);
    lemma_mix_bounds(a.b as int, b.b as int, t);
}

/// A mixed channel is monotone in the fraction.
pub proof fn lemma_mix_monotone(a: int, b: int, s: int, t: int)
    requires
        0 <= s <= t <= 1000,
    ensures
        a <= b ==> mix(a, b, s) <= mix(a, b, t),
        a >= b ==> mix(a, b, s) >= mix(a, b, t),
{
    let ns: int = a * (1000 - s) + b * s + 500;
    let nt: int = a * (1000 - t) + b * t + 500;
    if a <= b {
        assert(ns <= nt) by (nonlinear_arith)
            requires
                a <= b,
                s <= t,
                ns == a * (1000 - s) + b * s + 500,
                nt == a * (1000 - t) + b * t + 500,
        ;
    }
    if a >= b {
        assert(ns >= nt) by (nonlinear_arith)
            requires
                a >= b,
                s <= t,
                ns == a * (1000 - s) + b * s + 500,
                nt == a * (1000 - t) + b * t + 500,
        ;
    }
}

/// Scaling keeps the order of two channel values.
pub proof fn lemma_scale_keeps_order(a: int, b: int, factor: int)
    requires
        0 <= a <= b,
    ensures
        0 <= scale_channel(a, factor) <= scale_channel(b, factor) <= 255,
{
    if factor > 0 {
        assert(0 <= a * factor <= b * factor) by (nonlinear_arith)
            requires
                0 <= a <= b,
                factor > 0,
        ;
        vstd::arithmetic::div_mod::lemma_div_is_ordered(a * factor, b * factor, 1000);
        vstd::arithmetic::div_mod::lemma_div_is_ordered(0, a * factor, 1000);
    }
}

} // verus!

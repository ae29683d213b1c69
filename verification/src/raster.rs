//! The rasterizer: which pixels a screen-space triangle covers, and what
//! each covered pixel carries.
//!
//! Screen coordinates are thousandths of a pixel; pixel `(x, y)` is
//! sampled at its center. Coverage is decided by the sign of three exact
//! edge functions, with a top-left tie-break on edges that pass through a
//! pixel center, so that triangles sharing an edge never both claim, and
//! never both drop, a pixel on it.

use vstd::prelude::*;
use vstd::arithmetic::div_mod::{lemma_div_is_ordered, lemma_div_multiples_vanish};
use crate::color::Color;
use crate::geometry::{Vec2, Vec3, edge, edge_function, div_floor, isqrt, sqrt_floor, lemma_mul_bound};

verus! {

/// The direction the light comes from, in thousandths.
pub const LIGHT_X: i64 = 0;

pub const LIGHT_Y: i64 = 0;

pub const LIGHT_Z: i64 = 1000;

/// A mesh vertex: what the mesh gives, and what the transform stage derives.
#[derive(Debug, Clone, Copy, PartialEq, Eq, Structural)]
pub struct Vertex {
    /// Position in object space.
    pub position: Vec3,
    /// Normal in object space.
    pub normal: Vec3,
    pub tex_coords: Vec2,
    pub color: Color,
    /// Position on the screen: `x` and `y` in thousandths of a pixel, `z` the depth.
    pub transformed_position: Vec3,
    /// Normal in world space.
    pub transformed_normal: Vec3,
}

/// One covered pixel of one triangle, with its interpolated attributes.
#[derive(Debug, Clone, Copy, PartialEq, Eq, Structural)]
pub struct Fragment {
    pub x: usize,
    pub y: usize,
    pub depth: i64,
    pub color: Color,
    /// The point of the surface in object space: the domain of shading.
    pub vertex_position: Vec3,
    /// How much light the surface receives, from 0 to 1000.
    pub intensity: i64,
}

impl Vertex {
    /// A vertex as a mesh gives it: white, and not yet transformed, so
    /// that the derived fields repeat the given ones.
    pub fn new(position: Vec3, normal: Vec3, tex_coords: Vec2) -> (v: Vertex)
        ensures
            v == (Vertex {
                position,
                normal,
                tex_coords,
                color: Color { r: 255, g: 255, b: 255 },
                transformed_position: position,
                transformed_normal: normal,
            }),
    {
        Vertex {
            position,
            normal,
            tex_coords,
            color: Color::new(255, 255, 255),
            transformed_position: position,
            transformed_normal: normal,
        }
    }
}

/// The coordinate of a pixel's center.
pub open spec fn center(i: int) -> int {
    i * 1000 + 500
}

/// The tie-break: an edge owns the pixel centers on it when it runs upwards
/// on the screen, or level and to the right. Of an edge and its reverse
/// exactly one owns.
pub open spec fn owns_edge(dx: int, dy: int) -> bool {
    dy < 0 || (dy == 0 && dx > 0)
}

/// Whether a point with edge function `e` is on the inner side of an edge
/// of direction `(dx, dy)`.
pub open spec fn inside_edge(e: int, dx: int, dy: int) -> bool {
    e > 0 || (e == 0 && owns_edge(dx, dy))
}

/// Twice the signed area of the triangle on the screen.
pub open spec fn area2(a: Vec3, b: Vec3, c: Vec3) -> int {
    edge(a.x as int, a.y as int, b.x as int, b.y as int, c.x as int, c.y as int)
}

/// The edge function of the edge from `a` to `b` at the point `(px, py)`.
pub open spec fn edge_at(a: Vec3, b: Vec3, px: int, py: int) -> int {
    edge(a.x as int, a.y as int, b.x as int, b.y as int, px, py)
}

/// Whether the point lies inside the edge from `a` to `b`.
pub open spec fn inside(a: Vec3, b: Vec3, px: int, py: int) -> bool {
    inside_edge(edge_at(a, b, px, py), b.x - a.x, b.y - a.y)
}

/// Coverage of a point by a triangle of positive area: inside all three edges.
pub open spec fn covers_oriented(a: Vec3, b: Vec3, c: Vec3, px: int, py: int) -> bool {
    inside(a, b, px, py) && inside(b, c, px, py) && inside(c, a, px, py)
}

/// Coverage of a point by a triangle given in either winding. A triangle
/// without area covers nothing.
pub open spec fn covers(a: Vec3, b: Vec3, c: Vec3, px: int, py: int) -> bool {
    if area2(a, b, c) > 0 {
        covers_oriented(a, b, c, px, py)
    } else if area2(a, b, c) < 0 {
        covers_oriented(a, c, b, px, py)
    } else {
        false
    }
}

/// The weighted mean of three values, rounded down.
pub open spec fn interp(wa: int, wb: int, wc: int, va: int, vb: int, vc: int) -> int {
    (wa * va + wb * vb + wc * vc) / (wa + wb + wc)
}

/// The light a surface of normal `(nx, ny, nz)` receives: the cosine of
/// the angle to the light, in thousandths, limited to 0..1000. A normal
/// without length receives none.
pub open spec fn intensity_of(nx: int, ny: int, nz: int) -> int {
    let len = sqrt_floor(nx * nx + ny * ny + nz * nz);
    let dot = nx * LIGHT_X + ny * LIGHT_Y + nz * LIGHT_Z;
    if len == 0 || dot <= 0 {
        0
    } else if dot / len > 1000 {
        1000
    } else {
        dot / len
    }
}

/// The fragment of a triangle of positive area at pixel `(x, y)`: every
/// attribute is the mean of the vertices' attributes weighted by the edge
/// functions opposite to them.
pub open spec fn fragment_at(a: Vertex, b: Vertex, c: Vertex, x: int, y: int) -> Fragment {
    let ta = a.transformed_position;
    let tb = b.transformed_position;
    let tc = c.transformed_position;
    let wa = edge_at(tb, tc, center(x), center(y));
    let wb = edge_at(tc, ta, center(x), center(y));
    let wc = edge_at(ta, tb, center(x), center(y));
    let nx = interp(wa, wb, wc, a.transformed_normal.x as int, b.transformed_normal.x as int, c.transformed_normal.x as int);
    let ny = interp(wa, wb, wc, a.transformed_normal.y as int, b.transformed_normal.y as int, c.transformed_normal.y as int);
    let nz = interp(wa, wb, wc, a.transformed_normal.z as int, b.transformed_normal.z as int, c.transformed_normal.z as int);
    Fragment {
        x: x as usize,
        y: y as usize,
        depth: interp(wa, wb, wc, ta.z as int, tb.z as int, tc.z as int) as i64,
        color: Color {
            r: interp(wa, wb, wc, a.color.r as int, b.color.r as int, c.color.r as int) as u8,
            g: interp(wa, wb, wc, a.color.g as int, b.color.g as int, c.color.g as int) as u8,
            b: interp(wa, wb, wc, a.color.b as int, b.color.b as int, c.color.b as int) as u8,
        },
        vertex_position: Vec3 {
            x: interp(wa, wb, wc, a.position.x as int, b.position.x as int, c.position.x as int) as i32,
            y: interp(wa, wb, wc, a.position.y as int, b.position.y as int, c.position.y as int) as i32,
            z: interp(wa, wb, wc, a.position.z as int, b.position.z as int, c.position.z as int) as i32,
        },
        intensity: intensity_of(nx, ny, nz) as i64,
    }
}

/// The least of three numbers.
pub open spec fn min3(a: int, b: int, c: int) -> int {
    if a <= b && a <= c {
        a
    } else if b <= c {
        b
    } else {
        c
    }
}

/// The greatest of three numbers.
pub open spec fn max3(a: int, b: int, c: int) -> int {
    if a >= b && a >= c {
        a
    } else if b >= c {
        b
    } else {
        c
    }
}

/// A weighted mean with weights that are not negative lies between the
/// least and the greatest of the values.
pub proof fn lemma_interp_bounds(wa: int, wb: int, wc: int, va: int, vb: int, vc: int)
    requires
        wa >= 0,
        wb >= 0,
        wc >= 0,
        wa + wb + wc > 0,
    ensures
        min3(va, vb, vc) <= interp(wa, wb, wc, va, vb, vc) <= max3(va, vb, vc),
{
    let lo = min3(va, vb, vc);
    let hi = max3(va, vb, vc);
    let s = wa + wb + wc;
    let n = wa * va + wb * vb + wc * vc;
    assert(s * lo <= n <= s * hi) by (nonlinear_arith)
        requires
            wa >= 0,
            wb >= 0,
            wc >= 0,
            s == wa + wb + wc,
            n == wa * va + wb * vb + wc * vc,
            lo <= va <= hi,
            lo <= vb <= hi,
            lo <= vc <= hi,
    ;
    lemma_div_is_ordered(s * lo, n, s);
    lemma_div_is_ordered(n, s * hi, s);
    lemma_div_multiples_vanish(lo, s);
    lemma_div_multiples_vanish(hi, s);
}

fn interpolate(wa: i128, wb: i128, wc: i128, va: i64, vb: i64, vc: i64) -> (r: i64)
    requires
        0 <= wa <= 0x8_0000_0000_0000_0000,
        0 <= wb <= 0x8_0000_0000_0000_0000,
        0 <= wc <= 0x8_0000_0000_0000_0000,
        wa + wb + wc > 0,
        -0x8000_0000 <= va <= 0x8000_0000,
        -0x8000_0000 <= vb <= 0x8000_0000,
        -0x8000_0000 <= vc <= 0x8000_0000,
    ensures
        r == interp(wa as int, wb as int, wc as int, va as int, vb as int, vc as int),
        min3(va as int, vb as int, vc as int) <= r <= max3(va as int, vb as int, vc as int),
{
    proof {
        lemma_mul_bound(wa as int, va as int, 0x8_0000_0000_0000_0000, 0x8000_0000);
        lemma_mul_bound(wb as int, vb as int, 0x8_0000_0000_0000_0000, 0x8000_0000);
        lemma_mul_bound(wc as int, vc as int, 0x8_0000_0000_0000_0000, 0x8000_0000);
        lemma_interp_bounds(wa as int, wb as int, wc as int, va as int, vb as int, vc as int);
    }
    let n: i128 = wa * (va as i128) + wb * (vb as i128) + wc * (vc as i128);
    let q: i128 = div_floor(n, wa + wb + wc);
    q as i64
}

fn intensity(nx: i64, ny: i64, nz: i64) -> (i: i64)
    requires
        -0x8000_0000 <= nx <= 0x8000_0000,
        -0x8000_0000 <= ny <= 0x8000_0000,
        -0x8000_0000 <= nz <= 0x8000_0000,
    ensures
        i == intensity_of(nx as int, ny as int, nz as int),
        0 <= i <= 1000,
{
    proof {
        lemma_mul_bound(nx as int, nx as int, 0x8000_0000, 0x8000_0000);
        lemma_mul_bound(ny as int, ny as int, 0x8000_0000, 0x8000_0000);
        lemma_mul_bound(nz as int, nz as int, 0x8000_0000, 0x8000_0000);
        assert(nx * nx >= 0 && ny * ny >= 0 && nz * nz >= 0) by (nonlinear_arith);
    }
    let sx: i128 = (nx as i128) * (nx as i128);
    let sy: i128 = (ny as i128) * (ny as i128);
    let sz: i128 = (nz as i128) * (nz as i128);
    let len2: u64 = (sx + sy + sz) as u64;
    let len: u64 = isqrt(len2);
    let dot: i64 = nx * LIGHT_X + ny * LIGHT_Y + nz * LIGHT_Z;
    if len == 0 || dot <= 0 {
        0
    } else {
        let q: i64 = dot / (len as i64);
        if q > 1000 {
            1000
        } else {
            q
        }
    }
}

fn owns(dx: i64, dy: i64) -> (o: bool)
    ensures
        o == owns_edge(dx as int, dy as int),
{
    dy < 0 || (dy == 0 && dx > 0)
}

/// The edge function of the edge from `a` to `b` at the center of pixel
/// `(x, y)`, and whether that center is inside the edge.
fn edge_test(a: &Vec3, b: &Vec3, x: usize, y: usize) -> (r: (i128, bool))
    requires
        x <= 0x40_0000,
        y <= 0x40_0000,
    ensures
        r.0 == edge_at(*a, *b, center(x as int), center(y as int)),
        r.1 == inside(*a, *b, center(x as int), center(y as int)),
        -0x8_0000_0000_0000_0000 <= r.0 <= 0x8_0000_0000_0000_0000,
{
    let px: i64 = x as i64 * 1000 + 500;
    let py: i64 = y as i64 * 1000 + 500;
    let e: i128 = edge_function(a.x as i64, a.y as i64, b.x as i64, b.y as i64, px, py);
    let o: bool = owns(b.x as i64 - a.x as i64, b.y as i64 - a.y as i64);
    (e, e > 0 || (e == 0 && o))
}

/// The first pixel column (or row) that can hold a center at or after `min`,
/// and is on the screen.
pub open spec fn box_lo(min: int) -> int {
    if min / 1000 < 0 {
        0
    } else {
        min / 1000
    }
}

/// One past the last pixel column (or row) that can hold a center at or
/// before `max`, and is below `limit`.
pub open spec fn box_hi(max: int, limit: int) -> int {
    if max / 1000 + 1 <= 0 {
        0
    } else if max / 1000 + 1 > limit {
        limit
    } else {
        max / 1000 + 1
    }
}

/// The fragments of a triangle of positive area in row `y`, for the
/// columns from `x_lo` up to but excluding `x_hi`, from left to right.
pub open spec fn row_fragments(a: Vertex, b: Vertex, c: Vertex, y: int, x_lo: int, x_hi: int) -> Seq<
    Fragment,
>
    decreases x_hi - x_lo,
{
    if x_hi <= x_lo {
        Seq::empty()
    } else {
        let rest = row_fragments(a, b, c, y, x_lo, x_hi - 1);
        if covers_oriented(
            a.transformed_position,
            b.transformed_position,
            c.transformed_position,
            center(x_hi - 1),
            center(y),
        ) {
            rest.push(fragment_at(a, b, c, x_hi - 1, y))
        } else {
            rest
        }
    }
}

/// The fragments of a triangle of positive area in the rows from `y_lo`
/// up to but excluding `y_hi`, row by row from the top.
pub open spec fn box_fragments(
    a: Vertex,
    b: Vertex,
    c: Vertex,
    y_lo: int,
    y_hi: int,
    x_lo: int,
    x_hi: int,
) -> Seq<Fragment>
    decreases y_hi - y_lo,
{
    if y_hi <= y_lo {
        Seq::empty()
    } else {
        box_fragments(a, b, c, y_lo, y_hi - 1, x_lo, x_hi) + row_fragments(
            a,
            b,
            c,
            y_hi - 1,
            x_lo,
            x_hi,
        )
    }
}

/// The fragments of a triangle of positive area on a screen of the given
/// size: those of its bounding box, clipped to the screen.
pub open spec fn oriented_fragments(a: Vertex, b: Vertex, c: Vertex, width: int, height: int) -> Seq<
    Fragment,
> {
    let ta = a.transformed_position;
    let tb = b.transformed_position;
    let tc = c.transformed_position;
    box_fragments(
        a,
        b,
        c,
        box_lo(min3(ta.y as int, tb.y as int, tc.y as int)),
        box_hi(max3(ta.y as int, tb.y as int, tc.y as int), height),
        box_lo(min3(ta.x as int, tb.x as int, tc.x as int)),
        box_hi(max3(ta.x as int, tb.x as int, tc.x as int), width),
    )
}

/// The fragments of a triangle in either winding, in scan order. A
/// triangle without area has none.
pub open spec fn triangle_fragments(a: Vertex, b: Vertex, c: Vertex, width: int, height: int) -> Seq<
    Fragment,
> {
    let area = area2(a.transformed_position, b.transformed_position, c.transformed_position);
    if area > 0 {
        oriented_fragments(a, b, c, width, height)
    } else if area < 0 {
        oriented_fragments(a, c, b, width, height)
    } else {
        Seq::empty()
    }
}

fn least(a: i32, b: i32, c: i32) -> (m: i32)
    ensures
        m == min3(a as int, b as int, c as int),
{
    if a <= b && a <= c {
        a
    } else if b <= c {
        b
    } else {
        c
    }
}

fn greatest(a: i32, b: i32, c: i32) -> (m: i32)
    ensures
        m == max3(a as int, b as int, c as int),
{
    if a >= b && a >= c {
        a
    } else if b >= c {
        b
    } else {
        c
    }
}

fn range_lo(min: i32) -> (lo: usize)
    ensures
        lo == box_lo(min as int),
        lo <= 0x40_0000,
{
    if min < 0 {
        0
    } else {
        (min / 1000) as usize
    }
}

fn range_hi(max: i32, limit: usize) -> (hi: usize)
    ensures
        hi == box_hi(max as int, limit as int),
        hi <= 0x40_0000,
        hi <= limit,
{
    if max < 0 {
        0
    } else {
        let raw: usize = (max / 1000) as usize + 1;
        if raw > limit {
            limit
        } else {
            raw
        }
    }
}

/// The fragment at a covered pixel, from the three edge functions there.
fn make_fragment(a: &Vertex, b: &Vertex, c: &Vertex, x: usize, y: usize, wa: i128, wb: i128, wc: i128) -> (f: Fragment)
    requires
        wa == edge_at(b.transformed_position, c.transformed_position, center(x as int), center(y as int)),
        wb == edge_at(c.transformed_position, a.transformed_position, center(x as int), center(y as int)),
        wc == edge_at(a.transformed_position, b.transformed_position, center(x as int), center(y as int)),
        0 <= wa <= 0x8_0000_0000_0000_0000,
        0 <= wb <= 0x8_0000_0000_0000_0000,
        0 <= wc <= 0x8_0000_0000_0000_0000,
        wa + wb + wc > 0,
    ensures
        f == fragment_at(*a, *b, *c, x as int, y as int),
{
    let depth: i64 = interpolate(wa, wb, wc, a.transformed_position.z as i64, b.transformed_position.z as i64, c.transformed_position.z as i64);
    let r: i64 = interpolate(wa, wb, wc, a.color.r as i64, b.color.r as i64, c.color.r as i64);
    let g: i64 = interpolate(wa, wb, wc, a.color.g as i64, b.color.g as i64, c.color.g as i64);
    let bl: i64 = interpolate(wa, wb, wc, a.color.b as i64, b.color.b as i64, c.color.b as i64);
    let px: i64 = interpolate(wa, wb, wc, a.position.x as i64, b.position.x as i64, c.position.x as i64);
    let py: i64 = interpolate(wa, wb, wc, a.position.y as i64, b.position.y as i64, c.position.y as i64);
    let pz: i64 = interpolate(wa, wb, wc, a.position.z as i64, b.position.z as i64, c.position.z as i64);
    let nx: i64 = interpolate(wa, wb, wc, a.transformed_normal.x as i64, b.transformed_normal.x as i64, c.transformed_normal.x as i64);
    let ny: i64 = interpolate(wa, wb, wc, a.transformed_normal.y as i64, b.transformed_normal.y as i64, c.transformed_normal.y as i64);
    let nz: i64 = interpolate(wa, wb, wc, a.transformed_normal.z as i64, b.transformed_normal.z as i64, c.transformed_normal.z as i64);
    Fragment {
        x,
        y,
        depth,
        color: Color::new(r as u8, g as u8, bl as u8),
        vertex_position: Vec3::new(px as i32, py as i32, pz as i32),
        intensity: intensity(nx, ny, nz),
    }
}

/// Scans the clipped bounding box of a triangle of positive area.
fn scan(a: &Vertex, b: &Vertex, c: &Vertex, width: usize, height: usize) -> (out: Vec<Fragment>)
    requires
        area2(a.transformed_position, b.transformed_position, c.transformed_position) > 0,
    ensures
        out@ == oriented_fragments(*a, *b, *c, width as int, height as int),
{
    let ta: Vec3 = a.transformed_position;
    let tb: Vec3 = b.transformed_position;
    let tc: Vec3 = c.transformed_position;
    let x_lo: usize = range_lo(least(ta.x, tb.x, tc.x));
    let x_hi: usize = range_hi(greatest(ta.x, tb.x, tc.x), width);
    let y_lo: usize = range_lo(least(ta.y, tb.y, tc.y));
    let y_hi: usize = range_hi(greatest(ta.y, tb.y, tc.y), height);
    let mut out: Vec<Fragment> = Vec::new();
    let mut y: usize = y_lo;
    while y < y_hi
        invariant
            y_hi <= 0x40_0000,
            x_hi <= 0x40_0000,
            ta == a.transformed_position,
            tb == b.transformed_position,
            tc == c.transformed_position,
            area2(ta, tb, tc) > 0,
            y_lo <= y,
            y <= y_hi || y == y_lo,
            out@ == box_fragments(*a, *b, *c, y_lo as int, y as int, x_lo as int, x_hi as int),
        decreases y_hi - y,
    {
        let mut x: usize = x_lo;
        let ghost before: Seq<Fragment> = out@;
        while x < x_hi
            invariant
                y < y_hi <= 0x40_0000,
                x_hi <= 0x40_0000,
                ta == a.transformed_position,
                tb == b.transformed_position,
                tc == c.transformed_position,
                area2(ta, tb, tc) > 0,
                x_lo <= x,
                x <= x_hi || x == x_lo,
                out@ == before + row_fragments(*a, *b, *c, y as int, x_lo as int, x as int),
            decreases x_hi - x,
        {
            let ab: (i128, bool) = edge_test(&ta, &tb, x, y);
            let bc: (i128, bool) = edge_test(&tb, &tc, x, y);
            let ca: (i128, bool) = edge_test(&tc, &ta, x, y);
            if ab.1 && bc.1 && ca.1 {
                proof {
                    crate::geometry::lemma_edge_sum(
                        ta.x as int,
                        ta.y as int,
                        tb.x as int,
                        tb.y as int,
                        tc.x as int,
                        tc.y as int,
                        center(x as int),
                        center(y as int),
                    );
                }
                let f: Fragment = make_fragment(a, b, c, x, y, bc.0, ca.0, ab.0);
                out.push(f);
            }
            proof {
                let row = row_fragments(*a, *b, *c, y as int, x_lo as int, x as int);
                let next = row_fragments(*a, *b, *c, y as int, x_lo as int, x as int + 1);
                if ab.1 && bc.1 && ca.1 {
                    assert(next == row.push(fragment_at(*a, *b, *c, x as int, y as int)));
                    assert((before + row).push(fragment_at(*a, *b, *c, x as int, y as int))
                        =~= before + next);
                } else {
                    assert(next == row);
                }
            }
            x = x + 1;
        }
        assert(row_fragments(*a, *b, *c, y as int, x_lo as int, x as int) == row_fragments(
            *a,
            *b,
            *c,
            y as int,
            x_lo as int,
            x_hi as int,
        ));
        y = y + 1;
    }
    out
}

/// Rasterizes one triangle onto a screen of `width` by `height` pixels:
/// one fragment for every pixel of the screen whose center the triangle
/// covers, in scan order. A triangle without area gives no fragment.
pub fn triangle(v1: &Vertex, v2: &Vertex, v3: &Vertex, width: usize, height: usize) -> (out: Vec<Fragment>)
    ensures
        out@ == triangle_fragments(*v1, *v2, *v3, width as int, height as int),
{
    let a: Vec3 = v1.transformed_position;
    let b: Vec3 = v2.transformed_position;
    let c: Vec3 = v3.transformed_position;
    let area: i128 = edge_function(a.x as i64, a.y as i64, b.x as i64, b.y as i64, c.x as i64, c.y as i64);
    if area > 0 {
        scan(v1, v2, v3, width, height)
    } else if area < 0 {
        proof {
            crate::geometry::lemma_edge_reverse(
                a.x as int,
                a.y as int,
                c.x as int,
                c.y as int,
                b.x as int,
                b.y as int,
            );
            crate::geometry::lemma_edge_rotate(
                c.x as int,
                c.y as int,
                a.x as int,
                a.y as int,
                b.x as int,
                b.y as int,
            );
        }
        scan(v1, v3, v2, width, height)
    } else {
        Vec::new()
    }
}

} // verus!

//! Exact integer geometry: vectors in thousandths, the edge function,
//! floor division and the integer square root.

use vstd::prelude::*;

verus! {

/// A pair of coordinates in thousandths.
#[derive(Debug, Clone, Copy, PartialEq, Eq, Structural)]
pub struct Vec2 {
    pub x: i32,
    pub y: i32,
}

/// A triple of coordinates in thousandths.
#[derive(Debug, Clone, Copy, PartialEq, Eq, Structural)]
pub struct Vec3 {
    pub x: i32,
    pub y: i32,
    pub z: i32,
}

impl Vec2 {
    pub fn new(x: i32, y: i32) -> (v: Vec2)
        ensures
            v == (Vec2 { x, y }),
    {
        Vec2 { x, y }
    }
}

impl Vec3 {
    pub fn new(x: i32, y: i32, z: i32) -> (v: Vec3)
        ensures
            v == (Vec3 { x, y, z }),
    {
        Vec3 { x, y, z }
    }
}

/// The edge function: twice the signed area of the triangle `a`, `b`, `p`.
/// It is zero exactly when `p` lies on the line through `a` and `b`, and
/// its sign tells the side.
pub open spec fn edge(ax: int, ay: int, bx: int, by: int, px: int, py: int) -> int {
    (bx - ax) * (py - ay) - (by - ay) * (px - ax)
}

/// Whether `r` is the integer square root of `n`: the greatest number
/// whose square does not exceed `n`.
pub open spec fn is_sqrt(n: int, r: int) -> bool {
    0 <= r && r * r <= n < (r + 1) * (r + 1)
}

/// The integer square root of a number that is not negative.
pub open spec fn sqrt_floor(n: int) -> int {
    choose|r: int| is_sqrt(n, r)
}

/// The product of two bounded numbers is bounded by the product of the bounds.
pub proof fn lemma_mul_bound(a: int, b: int, ma: int, mb: int)
    requires
        -ma <= a <= ma,
        -mb <= b <= mb,
    ensures
        -(ma * mb) <= a * b <= ma * mb,
{
    assert(-(ma * mb) <= a * b <= ma * mb) by (nonlinear_arith)
        requires
            -ma <= a <= ma,
            -mb <= b <= mb,
    ;
}

/// The edge function written out as a sum of products of coordinates.
pub proof fn lemma_edge_expand(ax: int, ay: int, bx: int, by: int, px: int, py: int)
    ensures
        edge(ax, ay, bx, by, px, py) == bx * py - bx * ay - ax * py - by * px + by * ax + ay * px,
{
    assert((bx - ax) * (py - ay) == bx * py - bx * ay - ax * py + ax * ay) by (nonlinear_arith);
    assert((by - ay) * (px - ax) == by * px - by * ax - ay * px + ay * ax) by (nonlinear_arith);
    assert(ax * ay == ay * ax) by (nonlinear_arith);
}

/// Swapping the two ends of an edge negates the edge function.
pub proof fn lemma_edge_reverse(ax: int, ay: int, bx: int, by: int, px: int, py: int)
    ensures
        edge(bx, by, ax, ay, px, py) == -edge(ax, ay, bx, by, px, py),
{
    lemma_edge_expand(ax, ay, bx, by, px, py);
    lemma_edge_expand(bx, by, ax, ay, px, py);
    assert(ax * by == by * ax && ay * bx == bx * ay) by (nonlinear_arith);
}

/// Rotating the three points leaves the edge function unchanged.
pub proof fn lemma_edge_rotate(ax: int, ay: int, bx: int, by: int, cx: int, cy: int)
    ensures
        edge(bx, by, cx, cy, ax, ay) == edge(ax, ay, bx, by, cx, cy),
{
    lemma_edge_expand(ax, ay, bx, by, cx, cy);
    lemma_edge_expand(bx, by, cx, cy, ax, ay);
    assert(cx * ay == ay * cx && cx * by == by * cx && bx * ay == ay * bx && cy * ax == ax * cy
        && cy * bx == bx * cy && by * ax == ax * by) by (nonlinear_arith);
}

/// The three edge functions of a triangle at any point add up to twice
/// the triangle's signed area.
pub proof fn lemma_edge_sum(
    ax: int,
    ay: int,
    bx: int,
    by: int,
    cx: int,
    cy: int,
    px: int,
    py: int,
)
    ensures
        edge(bx, by, cx, cy, px, py) + edge(cx, cy, ax, ay, px, py) + edge(ax, ay, bx, by, px, py)
            == edge(ax, ay, bx, by, cx, cy),
{
    lemma_edge_expand(bx, by, cx, cy, px, py);
    lemma_edge_expand(cx, cy, ax, ay, px, py);
    lemma_edge_expand(ax, ay, bx, by, px, py);
    lemma_edge_expand(ax, ay, bx, by, cx, cy);
    assert(cx * by == by * cx && cy * bx == bx * cy && ax * cy == cy * ax && ay * cx == cx * ay
        && bx * ay == ay * bx && by * ax == ax * by) by (nonlinear_arith);
}

/// No number has two integer square roots.
pub proof fn lemma_sqrt_unique(n: int, r: int, s: int)
    requires
        is_sqrt(n, r),
        is_sqrt(n, s),
    ensures
        r == s,
{
    if r < s {
        assert((r + 1) * (r + 1) <= s * s) by (nonlinear_arith)
            requires
                0 <= r,
                r + 1 <= s,
        ;
    } else if s < r {
        assert((s + 1) * (s + 1) <= r * r) by (nonlinear_arith)
            requires
                0 <= s,
                s + 1 <= r,
        ;
    }
}

/// Every number that is not negative has an integer square root.
pub proof fn lemma_sqrt_exists(n: int)
    requires
        n >= 0,
    ensures
        is_sqrt(n, sqrt_floor(n)),
{
    assert((n + 1) * (n + 1) > n) by (nonlinear_arith)
        requires
            n >= 0,
    ;
    lemma_sqrt_below(n, n + 1);
}

/// Searching downwards from a number whose square exceeds `n` finds the
/// integer square root of `n`.
proof fn lemma_sqrt_below(n: int, hi: int)
    requires
        n >= 0,
        hi >= 1,
        hi * hi > n,
    ensures
        exists|r: int| is_sqrt(n, r),
    decreases hi,
{
    let r = hi - 1;
    if r * r <= n {
        assert(is_sqrt(n, r));
    } else {
        assert(r >= 1) by (nonlinear_arith)
            requires
                r * r > n,
                n >= 0,
                r >= 0,
        ;
        lemma_sqrt_below(n, r);
    }
}

/// The edge function of points whose coordinates stay within `2^32`.
pub fn edge_function(ax: i64, ay: i64, bx: i64, by: i64, px: i64, py: i64) -> (e: i128)
    requires
        -0x1_0000_0000 <= ax <= 0x1_0000_0000,
        -0x1_0000_0000 <= ay <= 0x1_0000_0000,
        -0x1_0000_0000 <= bx <= 0x1_0000_0000,
        -0x1_0000_0000 <= by <= 0x1_0000_0000,
        -0x1_0000_0000 <= px <= 0x1_0000_0000,
        -0x1_0000_0000 <= py <= 0x1_0000_0000,
    ensures
        e == edge(ax as int, ay as int, bx as int, by as int, px as int, py as int),
        -0x8_0000_0000_0000_0000 <= e <= 0x8_0000_0000_0000_0000,
{
    let ux: i128 = (bx - ax) as i128;
    let uy: i128 = (by - ay) as i128;
    let vx: i128 = (px - ax) as i128;
    let vy: i128 = (py - ay) as i128;
    proof {
        lemma_mul_bound(ux as int, vy as int, 0x2_0000_0000, 0x2_0000_0000);
        lemma_mul_bound(uy as int, vx as int, 0x2_0000_0000, 0x2_0000_0000);
    }
    ux * vy - uy * vx
}

/// Division rounding towards negative infinity.
pub fn div_floor(n: i128, d: i128) -> (q: i128)
    requires
        d > 0,
        n > -0x4000_0000_0000_0000_0000_0000_0000_0000,
    ensures
        q == n as int / d as int,
        n >= 0 ==> 0 <= q <= n,
        n < 0 ==> n <= q < 0,
{
    if n >= 0 {
        assert(0 <= n as int / d as int <= n) by (nonlinear_arith)
            requires
                n >= 0,
                d > 0,
        ;
        n / d
    } else {
        let m: i128 = -n;
        let q: i128 = m / d;
        let r: i128 = m % d;
        proof {
            let ni = n as int;
            let di = d as int;
            assert(m == q * d + r && 0 <= r < d) by (nonlinear_arith)
                requires
                    m >= 0,
                    d > 0,
                    q == m as int / d as int,
                    r == m as int % d as int,
            ;
            assert(q >= 0 && q <= m && (r > 0 ==> q + 1 <= m)) by (nonlinear_arith)
                requires
                    m == q * d + r,
                    0 <= r < d,
                    m > 0,
            ;
            if r == 0 {
                assert(q > 0) by (nonlinear_arith)
                    requires
                        m == q * d + r,
                        r == 0,
                        m > 0,
                        d > 0,
                ;
                assert(ni == (-q) * di + 0) by (nonlinear_arith)
                    requires
                        ni == -(m as int),
                        m == q * d + r,
                        r == 0,
                        di == d,
                ;
                vstd::arithmetic::div_mod::lemma_fundamental_div_mod_converse(ni, di, -q, 0);
            } else {
                assert(ni == (-q - 1) * di + (di - r)) by (nonlinear_arith)
                    requires
                        ni == -(m as int),
                        m == q * d + r,
                        di == d,
                ;
                vstd::arithmetic::div_mod::lemma_fundamental_div_mod_converse(
                    ni,
                    di,
                    -q - 1,
                    di - r,
                );
            }
        }
        if r == 0 {
            -q
        } else {
            -q - 1
        }
    }
}

/// The integer square root.
pub fn isqrt(n: u64) -> (r: u64)
    ensures
        is_sqrt(n as int, r as int),
        r == sqrt_floor(n as int),
        r < 0x1_0000_0000,
{
    let mut lo: u64 = 0;
    let mut hi: u64 = 0x1_0000_0000;
    assert(lo * lo <= n < hi * hi) by (nonlinear_arith)
        requires
            lo == 0,
            hi == 0x1_0000_0000,
            0 <= n < 0x1_0000_0000_0000_0000,
    ;
    while hi - lo > 1
        invariant
            lo < hi <= 0x1_0000_0000,
            lo * lo <= n < hi * hi,
        decreases hi - lo,
    {
        let mid: u64 = lo + (hi - lo) / 2;
        assert(mid * mid < 0x1_0000_0000_0000_0000) by (nonlinear_arith)
            requires
                0 <= mid < 0x1_0000_0000,
        ;
        if mid * mid <= n {
            lo = mid;
        } else {
            hi = mid;
        }
    }
    proof {
        assert(hi == lo + 1);
        assert(is_sqrt(n as int, lo as int));
        lemma_sqrt_unique(n as int, lo as int, sqrt_floor(n as int));
    }
    lo
}

} // verus!

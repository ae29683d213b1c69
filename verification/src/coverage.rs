//! What the coverage rule guarantees: weights that add up, a result that
//! does not depend on how a triangle's vertices are listed, and shared
//! edges without cracks or double coverage.

use vstd::prelude::*;
use crate::geometry::{Vec3, edge, lemma_edge_reverse, lemma_edge_rotate, lemma_edge_sum};
use crate::raster::{
    Fragment, Vertex, area2, box_fragments, box_hi, box_lo, center, covers, covers_oriented,
    edge_at, fragment_at, inside, max3, min3, oriented_fragments, owns_edge, row_fragments,
    triangle_fragments,
};

verus! {

/// Whether the point lies on the line through `a` and `b`, strictly
/// between the two.
pub open spec fn strictly_between(a: Vec3, b: Vec3, px: int, py: int) -> bool {
    &&& edge_at(a, b, px, py) == 0
    &&& (px - a.x) * (b.x - a.x) + (py - a.y) * (b.y - a.y) > 0
    &&& (b.x - px) * (b.x - a.x) + (b.y - py) * (b.y - a.y) > 0
}

/// Of an edge that has a direction and of its reverse, exactly one owns
/// the points on it.
pub proof fn lemma_owner_is_unique(dx: int, dy: int)
    requires
        dx != 0 || dy != 0,
    ensures
        owns_edge(dx, dy) != owns_edge(-dx, -dy),
{
}

/// A point on the first edge of a triangle of positive area, strictly
/// between the edge's ends, is strictly inside the other two edges. The
/// coordinates are taken relative to the first vertex: `u` is the second
/// vertex, `c` the third, `p` the point.
proof fn lemma_between_is_inside(ux: int, uy: int, c1: int, c2: int, qx: int, qy: int)
    requires
        ux * c2 - uy * c1 > 0,
        ux * qy - uy * qx == 0,
        qx * ux + qy * uy > 0,
        (ux - qx) * ux + (uy - qy) * uy > 0,
    ensures
        (c1 - ux) * (qy - uy) - (c2 - uy) * (qx - ux) > 0,
        (0 - c1) * (qy - c2) - (0 - c2) * (qx - c1) > 0,
{
    let area = ux * c2 - uy * c1;
    let len = ux * ux + uy * uy;
    let along = qx * ux + qy * uy;
    let back = (ux - qx) * ux + (uy - qy) * uy;
    let second = (c1 - ux) * (qy - uy) - (c2 - uy) * (qx - ux);
    let third = (0 - c1) * (qy - c2) - (0 - c2) * (qx - c1);
    // The point, scaled by the squared length, is the edge scaled by `along`.
    let sx = qx * len;
    let sy = qy * len;
    assert(sx == along * ux) by (nonlinear_arith)
        requires
            sx == qx * (ux * ux + uy * uy),
            along == qx * ux + qy * uy,
            ux * qy - uy * qx == 0,
    ;
    assert(sy == along * uy) by (nonlinear_arith)
        requires
            sy == qy * (ux * ux + uy * uy),
            along == qx * ux + qy * uy,
            ux * qy - uy * qx == 0,
    ;
    assert(along + back == len) by (nonlinear_arith)
        requires
            along == qx * ux + qy * uy,
            back == (ux - qx) * ux + (uy - qy) * uy,
            len == ux * ux + uy * uy,
    ;
    // Both edge functions are affine in the point.
    let k1 = c1 - ux;
    let k2 = c2 - uy;
    assert(second == k1 * qy - k2 * qx + area) by (nonlinear_arith)
        requires
            second == (c1 - ux) * (qy - uy) - (c2 - uy) * (qx - ux),
            k1 == c1 - ux,
            k2 == c2 - uy,
            area == ux * c2 - uy * c1,
    ;
    assert(third == c2 * qx - c1 * qy) by (nonlinear_arith)
        requires
            third == (0 - c1) * (qy - c2) - (0 - c2) * (qx - c1),
    ;
    assert(k1 * uy - k2 * ux == -area) by (nonlinear_arith)
        requires
            k1 == c1 - ux,
            k2 == c2 - uy,
            area == ux * c2 - uy * c1,
    ;
    assert(second * len == k1 * sy - k2 * sx + area * len) by (nonlinear_arith)
        requires
            second == k1 * qy - k2 * qx + area,
            sx == qx * len,
            sy == qy * len,
    ;
    assert(k1 * sy - k2 * sx == along * (k1 * uy - k2 * ux)) by (nonlinear_arith)
        requires
            sx == along * ux,
            sy == along * uy,
    ;
    assert(second * len == area * back) by (nonlinear_arith)
        requires
            second * len == k1 * sy - k2 * sx + area * len,
            k1 * sy - k2 * sx == along * (k1 * uy - k2 * ux),
            k1 * uy - k2 * ux == -area,
            along + back == len,
    ;
    assert(third * len == c2 * sx - c1 * sy) by (nonlinear_arith)
        requires
            third == c2 * qx - c1 * qy,
            sx == qx * len,
            sy == qy * len,
    ;
    assert(c2 * sx - c1 * sy == along * area) by (nonlinear_arith)
        requires
            sx == along * ux,
            sy == along * uy,
            area == ux * c2 - uy * c1,
    ;
    assert(len > 0);
    assert(second > 0) by (nonlinear_arith)
        requires
            second * len == area * back,
            area > 0,
            back > 0,
            len > 0,
    ;
    assert(third > 0) by (nonlinear_arith)
        requires
            third * len == along * area,
            area > 0,
            along > 0,
            len > 0,
    ;
}

/// The three weights of a point: the edge functions opposite to each
/// vertex, with the sign that makes them count positive inside.
pub open spec fn weights(a: Vec3, b: Vec3, c: Vec3, px: int, py: int) -> (int, int, int) {
    if area2(a, b, c) >= 0 {
        (edge_at(b, c, px, py), edge_at(c, a, px, py), edge_at(a, b, px, py))
    } else {
        (-edge_at(b, c, px, py), -edge_at(c, a, px, py), -edge_at(a, b, px, py))
    }
}

/// Twice the area of the triangle, without sign.
pub open spec fn total_weight(a: Vec3, b: Vec3, c: Vec3) -> int {
    if area2(a, b, c) >= 0 {
        area2(a, b, c)
    } else {
        -area2(a, b, c)
    }
}

/// At every point the three weights add up to the total weight, so that
/// the barycentric coordinates add up to one; and at a covered point the
/// total is positive and no weight is negative or exceeds it.
pub proof fn lemma_weights_sum(a: Vec3, b: Vec3, c: Vec3, px: int, py: int)
    ensures
        weights(a, b, c, px, py).0 + weights(a, b, c, px, py).1 + weights(a, b, c, px, py).2
            == total_weight(a, b, c),
        covers(a, b, c, px, py) ==> {
            &&& total_weight(a, b, c) > 0
            &&& 0 <= weights(a, b, c, px, py).0 <= total_weight(a, b, c)
            &&& 0 <= weights(a, b, c, px, py).1 <= total_weight(a, b, c)
            &&& 0 <= weights(a, b, c, px, py).2 <= total_weight(a, b, c)
        },
{
    lemma_edge_sum(a.x as int, a.y as int, b.x as int, b.y as int, c.x as int, c.y as int, px, py);
    if area2(a, b, c) < 0 {
        lemma_edge_reverse(a.x as int, a.y as int, c.x as int, c.y as int, px, py);
        lemma_edge_reverse(c.x as int, c.y as int, b.x as int, b.y as int, px, py);
        lemma_edge_reverse(b.x as int, b.y as int, a.x as int, a.y as int, px, py);
    }
}

/// Coverage does not depend on which vertex is listed first.
pub proof fn lemma_covers_rotate(a: Vec3, b: Vec3, c: Vec3, px: int, py: int)
    ensures
        covers(b, c, a, px, py) == covers(a, b, c, px, py),
{
    lemma_edge_rotate(a.x as int, a.y as int, b.x as int, b.y as int, c.x as int, c.y as int);
}

/// Coverage does not depend on the winding in which the vertices are listed.
pub proof fn lemma_covers_swap(a: Vec3, b: Vec3, c: Vec3, px: int, py: int)
    ensures
        covers(a, c, b, px, py) == covers(a, b, c, px, py),
{
    lemma_area_swap(a, b, c);
}

/// Listing a triangle in the other winding negates its signed area.
pub proof fn lemma_area_swap(a: Vec3, b: Vec3, c: Vec3)
    ensures
        area2(a, c, b) == -area2(a, b, c),
        area2(b, a, c) == -area2(a, b, c),
{
    lemma_edge_reverse(a.x as int, a.y as int, b.x as int, b.y as int, c.x as int, c.y as int);
    lemma_edge_rotate(a.x as int, a.y as int, c.x as int, c.y as int, b.x as int, b.y as int);
    lemma_edge_rotate(c.x as int, c.y as int, b.x as int, b.y as int, a.x as int, a.y as int);
    lemma_edge_reverse(c.x as int, c.y as int, b.x as int, b.y as int, a.x as int, a.y as int);
    lemma_edge_rotate(b.x as int, b.y as int, c.x as int, c.y as int, a.x as int, a.y as int);
    lemma_edge_rotate(c.x as int, c.y as int, a.x as int, a.y as int, b.x as int, b.y as int);
}

/// A triangle with area has two different first vertices.
proof fn lemma_area_needs_edge(a: Vec3, b: Vec3, c: Vec3)
    requires
        area2(a, b, c) != 0,
    ensures
        b.x - a.x != 0 || b.y - a.y != 0,
{
    if b.x - a.x == 0 && b.y - a.y == 0 {
        assert((b.x - a.x) * (c.y - a.y) - (b.y - a.y) * (c.x - a.x) == 0) by (nonlinear_arith)
            requires
                b.x - a.x == 0,
                b.y - a.y == 0,
        ;
    }
}

/// On the first edge of a triangle of positive area, strictly between
/// its ends, coverage is decided by the tie-break alone.
proof fn lemma_edge_point_coverage(a: Vec3, b: Vec3, c: Vec3, px: int, py: int)
    requires
        area2(a, b, c) > 0,
        strictly_between(a, b, px, py),
    ensures
        covers_oriented(a, b, c, px, py) == owns_edge(b.x - a.x, b.y - a.y),
{
    let ux = b.x - a.x;
    let uy = b.y - a.y;
    let c1 = c.x - a.x;
    let c2 = c.y - a.y;
    let qx = px - a.x;
    let qy = py - a.y;
    lemma_between_is_inside(ux, uy, c1, c2, qx, qy);
    assert(edge_at(b, c, px, py) == (c1 - ux) * (qy - uy) - (c2 - uy) * (qx - ux)) by {
        assert(c.x - b.x == c1 - ux && py - b.y == qy - uy && c.y - b.y == c2 - uy && px - b.x == qx
            - ux);
    }
    assert(edge_at(c, a, px, py) == (0 - c1) * (qy - c2) - (0 - c2) * (qx - c1)) by {
        assert(a.x - c.x == 0 - c1 && py - c.y == qy - c2 && a.y - c.y == 0 - c2 && px - c.x == qx
            - c1);
    }
}

/// Walking an edge the other way keeps a point strictly between its ends.
proof fn lemma_between_reverse(a: Vec3, b: Vec3, px: int, py: int)
    requires
        strictly_between(a, b, px, py),
    ensures
        strictly_between(b, a, px, py),
{
    lemma_edge_reverse(a.x as int, a.y as int, b.x as int, b.y as int, px, py);
    assert((px - b.x) * (a.x - b.x) + (py - b.y) * (a.y - b.y) == (b.x - px) * (b.x - a.x) + (b.y
        - py) * (b.y - a.y)) by (nonlinear_arith);
    assert((a.x - px) * (a.x - b.x) + (a.y - py) * (a.y - b.y) == (px - a.x) * (b.x - a.x) + (py
        - a.y) * (b.y - a.y)) by (nonlinear_arith);
}

/// Whether `c` and `d` lie strictly on opposite sides of the line through
/// `a` and `b`: the triangles `a b c` and `b a d` then share that edge and
/// nothing else.
pub open spec fn opposite_sides(a: Vec3, b: Vec3, c: Vec3, d: Vec3) -> bool {
    (area2(a, b, c) > 0 && area2(a, b, d) < 0) || (area2(a, b, c) < 0 && area2(a, b, d) > 0)
}

/// No overdraw: two triangles that share an edge, with their third
/// vertices on opposite sides of it, never cover the same point.
pub proof fn lemma_no_overdraw(a: Vec3, b: Vec3, c: Vec3, d: Vec3, px: int, py: int)
    requires
        opposite_sides(a, b, c, d),
    ensures
        !(covers(a, b, c, px, py) && covers(b, a, d, px, py)),
{
    lemma_area_swap(a, b, d);
    lemma_area_swap(a, b, c);
    lemma_area_needs_edge(a, b, c);
    lemma_owner_is_unique(b.x - a.x, b.y - a.y);
    lemma_edge_reverse(a.x as int, a.y as int, b.x as int, b.y as int, px, py);
    if area2(a, b, c) > 0 {
        // `a b c` tests the edge from `a` to `b`, `b a d` the edge from `b` to `a`.
        assert(covers(a, b, c, px, py) ==> inside(a, b, px, py));
        assert(covers(b, a, d, px, py) ==> inside(b, a, px, py));
    } else {
        // Listed in the other winding, `a c b` tests the edge from `b` to
        // `a`, and `b d a` the edge from `a` to `b`.
        assert(covers(a, b, c, px, py) ==> inside(b, a, px, py));
        assert(covers(b, a, d, px, py) ==> inside(a, b, px, py));
    }
}

/// No crack and no overdraw on the shared edge: of two triangles that
/// share an edge, with their third vertices on opposite sides of it,
/// exactly one covers each point of the edge strictly between its ends.
pub proof fn lemma_shared_edge_covered_once(a: Vec3, b: Vec3, c: Vec3, d: Vec3, px: int, py: int)
    requires
        opposite_sides(a, b, c, d),
        strictly_between(a, b, px, py),
    ensures
        covers(a, b, c, px, py) != covers(b, a, d, px, py),
{
    lemma_area_swap(a, b, d);
    lemma_area_swap(a, b, c);
    lemma_area_needs_edge(a, b, c);
    lemma_owner_is_unique(b.x - a.x, b.y - a.y);
    lemma_between_reverse(a, b, px, py);
    if area2(a, b, c) > 0 {
        lemma_edge_point_coverage(a, b, c, px, py);
        lemma_edge_point_coverage(b, a, d, px, py);
    } else {
        lemma_edge_point_coverage(b, a, c, px, py);
        lemma_edge_point_coverage(a, b, d, px, py);
        assert(covers(a, b, c, px, py) == covers_oriented(b, a, c, px, py));
        assert(covers(b, a, d, px, py) == covers_oriented(a, b, d, px, py));
    }
}

/// The three weights of a point, each multiplied by its vertex's offset
/// from the point along one axis, cancel. The coordinates are relative to
/// the point.
proof fn lemma_weighted_offsets_cancel(a1: int, a2: int, b1: int, b2: int, c1: int, c2: int)
    ensures
        (b1 * c2 - b2 * c1) * a1 + (c1 * a2 - c2 * a1) * b1 + (a1 * b2 - a2 * b1) * c1 == 0,
        (b1 * c2 - b2 * c1) * a2 + (c1 * a2 - c2 * a1) * b2 + (a1 * b2 - a2 * b1) * c2 == 0,
{
    assert((b1 * c2 - b2 * c1) * a1 + (c1 * a2 - c2 * a1) * b1 + (a1 * b2 - a2 * b1) * c1 == 0)
        by (nonlinear_arith);
    assert((b1 * c2 - b2 * c1) * a2 + (c1 * a2 - c2 * a1) * b2 + (a1 * b2 - a2 * b1) * c2 == 0)
        by (nonlinear_arith);
}

/// Weights that are not negative and not all zero cannot cancel offsets
/// that all have the same strict sign.
proof fn lemma_no_cancel(wa: int, wb: int, wc: int, oa: int, ob: int, oc: int)
    requires
        wa >= 0,
        wb >= 0,
        wc >= 0,
        wa + wb + wc > 0,
        wa * oa + wb * ob + wc * oc == 0,
    ensures
        !(oa > 0 && ob > 0 && oc > 0),
        !(oa < 0 && ob < 0 && oc < 0),
{
    if oa > 0 && ob > 0 && oc > 0 {
        assert(wa * oa + wb * ob + wc * oc > 0) by (nonlinear_arith)
            requires
                wa >= 0,
                wb >= 0,
                wc >= 0,
                wa + wb + wc > 0,
                oa > 0,
                ob > 0,
                oc > 0,
        ;
    }
    if oa < 0 && ob < 0 && oc < 0 {
        assert(wa * oa + wb * ob + wc * oc < 0) by (nonlinear_arith)
            requires
                wa >= 0,
                wb >= 0,
                wc >= 0,
                wa + wb + wc > 0,
                oa < 0,
                ob < 0,
                oc < 0,
        ;
    }
}

/// A covered point lies within the triangle's bounding box.
pub proof fn lemma_covered_in_box(a: Vec3, b: Vec3, c: Vec3, px: int, py: int)
    requires
        area2(a, b, c) > 0,
        covers_oriented(a, b, c, px, py),
    ensures
        min3(a.x as int, b.x as int, c.x as int) <= px <= max3(a.x as int, b.x as int, c.x as int),
        min3(a.y as int, b.y as int, c.y as int) <= py <= max3(a.y as int, b.y as int, c.y as int),
{
    let a1 = a.x - px;
    let a2 = a.y - py;
    let b1 = b.x - px;
    let b2 = b.y - py;
    let c1 = c.x - px;
    let c2 = c.y - py;
    let wa = edge_at(b, c, px, py);
    let wb = edge_at(c, a, px, py);
    let wc = edge_at(a, b, px, py);
    lemma_edge_sum(a.x as int, a.y as int, b.x as int, b.y as int, c.x as int, c.y as int, px, py);
    assert(wa == b1 * c2 - b2 * c1) by (nonlinear_arith)
        requires
            wa == (c.x - b.x) * (py - b.y) - (c.y - b.y) * (px - b.x),
            b1 == b.x - px,
            b2 == b.y - py,
            c1 == c.x - px,
            c2 == c.y - py,
    ;
    assert(wb == c1 * a2 - c2 * a1) by (nonlinear_arith)
        requires
            wb == (a.x - c.x) * (py - c.y) - (a.y - c.y) * (px - c.x),
            a1 == a.x - px,
            a2 == a.y - py,
            c1 == c.x - px,
            c2 == c.y - py,
    ;
    assert(wc == a1 * b2 - a2 * b1) by (nonlinear_arith)
        requires
            wc == (b.x - a.x) * (py - a.y) - (b.y - a.y) * (px - a.x),
            a1 == a.x - px,
            a2 == a.y - py,
            b1 == b.x - px,
            b2 == b.y - py,
    ;
    lemma_weighted_offsets_cancel(a1, a2, b1, b2, c1, c2);
    lemma_no_cancel(wa, wb, wc, a1, b1, c1);
    lemma_no_cancel(wa, wb, wc, a2, b2, c2);
}

/// Whether the fragments come in scan order: row by row from the top,
/// and from left to right within a row. No pixel then occurs twice.
pub open spec fn in_scan_order(frags: Seq<Fragment>) -> bool {
    forall|i: int, j: int|
        0 <= i < j < frags.len() ==> frags[i].y < frags[j].y || (frags[i].y == frags[j].y
            && frags[i].x < frags[j].x)
}

/// What a row of fragments holds: one fragment for each covered pixel of
/// the row, from left to right, and nothing else.
proof fn lemma_row(a: Vertex, b: Vertex, c: Vertex, y: int, x_lo: int, x_hi: int)
    requires
        0 <= y <= usize::MAX,
        0 <= x_lo,
        x_hi <= usize::MAX,
    ensures
        ({
            let row = row_fragments(a, b, c, y, x_lo, x_hi);
            &&& forall|i: int|
                0 <= i < row.len() ==> {
                    &&& (#[trigger] row[i]).y == y
                    &&& x_lo <= row[i].x < x_hi
                    &&& row[i] == fragment_at(a, b, c, row[i].x as int, y)
                    &&& covers_oriented(
                        a.transformed_position,
                        b.transformed_position,
                        c.transformed_position,
                        center(row[i].x as int),
                        center(y),
                    )
                }
            &&& forall|i: int, j: int| 0 <= i < j < row.len() ==> row[i].x < row[j].x
            &&& forall|x: int|
                x_lo <= x < x_hi && #[trigger] covers_oriented(
                    a.transformed_position,
                    b.transformed_position,
                    c.transformed_position,
                    center(x),
                    center(y),
                ) ==> exists|i: int| 0 <= i < row.len() && (#[trigger] row[i]).x == x
        }),
    decreases x_hi - x_lo,
{
    if x_hi > x_lo {
        lemma_row(a, b, c, y, x_lo, x_hi - 1);
        let rest = row_fragments(a, b, c, y, x_lo, x_hi - 1);
        let row = row_fragments(a, b, c, y, x_lo, x_hi);
        let ta = a.transformed_position;
        let tb = b.transformed_position;
        let tc = c.transformed_position;
        if covers_oriented(ta, tb, tc, center(x_hi - 1), center(y)) {
            assert(row == rest.push(fragment_at(a, b, c, x_hi - 1, y)));
            assert(row[rest.len() as int].x == x_hi - 1);
            assert forall|x: int|
                x_lo <= x < x_hi && #[trigger] covers_oriented(
                    ta,
                    tb,
                    tc,
                    center(x),
                    center(y),
                ) implies exists|i: int| 0 <= i < row.len() && (#[trigger] row[i]).x == x by {
                if x < x_hi - 1 {
                    let i = choose|i: int| 0 <= i < rest.len() && (#[trigger] rest[i]).x == x;
                    assert(row[i].x == x);
                } else {
                    assert(row[rest.len() as int].x == x);
                }
            }
        } else {
            assert(row == rest);
        }
    }
}

/// What the fragments of a run of rows hold: one fragment for each
/// covered pixel of the box, in scan order, and nothing else.
proof fn lemma_box(a: Vertex, b: Vertex, c: Vertex, y_lo: int, y_hi: int, x_lo: int, x_hi: int)
    requires
        0 <= y_lo,
        y_hi <= usize::MAX,
        0 <= x_lo,
        x_hi <= usize::MAX,
    ensures
        ({
            let frags = box_fragments(a, b, c, y_lo, y_hi, x_lo, x_hi);
            &&& forall|i: int|
                0 <= i < frags.len() ==> {
                    &&& y_lo <= (#[trigger] frags[i]).y < y_hi
                    &&& x_lo <= frags[i].x < x_hi
                    &&& frags[i] == fragment_at(a, b, c, frags[i].x as int, frags[i].y as int)
                    &&& covers_oriented(
                        a.transformed_position,
                        b.transformed_position,
                        c.transformed_position,
                        center(frags[i].x as int),
                        center(frags[i].y as int),
                    )
                }
            &&& in_scan_order(frags)
            &&& forall|x: int, y: int|
                x_lo <= x < x_hi && y_lo <= y < y_hi && #[trigger] covers_oriented(
                    a.transformed_position,
                    b.transformed_position,
                    c.transformed_position,
                    center(x),
                    center(y),
                ) ==> exists|i: int|
                    0 <= i < frags.len() && (#[trigger] frags[i]).x == x && frags[i].y == y
        }),
    decreases y_hi - y_lo,
{
    if y_hi > y_lo {
        lemma_box(a, b, c, y_lo, y_hi - 1, x_lo, x_hi);
        lemma_row(a, b, c, y_hi - 1, x_lo, x_hi);
        let above = box_fragments(a, b, c, y_lo, y_hi - 1, x_lo, x_hi);
        let row = row_fragments(a, b, c, y_hi - 1, x_lo, x_hi);
        let frags = box_fragments(a, b, c, y_lo, y_hi, x_lo, x_hi);
        let ta = a.transformed_position;
        let tb = b.transformed_position;
        let tc = c.transformed_position;
        assert(frags == above + row);
        assert forall|i: int| 0 <= i < frags.len() implies {
            &&& y_lo <= (#[trigger] frags[i]).y < y_hi
            &&& x_lo <= frags[i].x < x_hi
            &&& frags[i] == fragment_at(a, b, c, frags[i].x as int, frags[i].y as int)
            &&& covers_oriented(ta, tb, tc, center(frags[i].x as int), center(frags[i].y as int))
        } by {
            if i < above.len() {
                assert(frags[i] == above[i]);
            } else {
                assert(frags[i] == row[i - above.len()]);
            }
        }
        assert forall|i: int, j: int| 0 <= i < j < frags.len() implies frags[i].y < frags[j].y || (
        frags[i].y == frags[j].y && frags[i].x < frags[j].x) by {
            if j < above.len() {
                assert(frags[i] == above[i] && frags[j] == above[j]);
            } else if i < above.len() {
                assert(frags[i] == above[i] && frags[j] == row[j - above.len()]);
            } else {
                assert(frags[i] == row[i - above.len()] && frags[j] == row[j - above.len()]);
            }
        }
        assert forall|x: int, y: int|
            x_lo <= x < x_hi && y_lo <= y < y_hi && #[trigger] covers_oriented(
                ta,
                tb,
                tc,
                center(x),
                center(y),
            ) implies exists|i: int|
            0 <= i < frags.len() && (#[trigger] frags[i]).x == x && frags[i].y == y by {
            if y < y_hi - 1 {
                let i = choose|i: int|
                    0 <= i < above.len() && (#[trigger] above[i]).x == x && above[i].y == y;
                assert(frags[i] == above[i]);
            } else {
                let i = choose|i: int| 0 <= i < row.len() && (#[trigger] row[i]).x == x;
                assert(frags[above.len() + i] == row[i]);
            }
        }
    }
}

/// The rasterizer reports exactly the covered pixels of the screen, each
/// once: every fragment of a triangle sits on a pixel of the screen whose
/// center the triangle covers, the fragments come in scan order, and every
/// pixel of the screen whose center the triangle covers has a fragment.
pub proof fn lemma_fragments_are_the_covered_pixels(
    a: Vertex,
    b: Vertex,
    c: Vertex,
    width: int,
    height: int,
)
    requires
        0 <= width <= usize::MAX,
        0 <= height <= usize::MAX,
    ensures
        ({
            let frags = triangle_fragments(a, b, c, width, height);
            let ta = a.transformed_position;
            let tb = b.transformed_position;
            let tc = c.transformed_position;
            &&& forall|i: int|
                0 <= i < frags.len() ==> {
                    &&& (#[trigger] frags[i]).x < width
                    &&& frags[i].y < height
                    &&& covers(ta, tb, tc, center(frags[i].x as int), center(frags[i].y as int))
                }
            &&& in_scan_order(frags)
            &&& forall|x: int, y: int|
                0 <= x < width && 0 <= y < height && #[trigger] covers(
                    ta,
                    tb,
                    tc,
                    center(x),
                    center(y),
                ) ==> exists|i: int|
                    0 <= i < frags.len() && (#[trigger] frags[i]).x == x && frags[i].y == y
        }),
{
    let ta = a.transformed_position;
    let tb = b.transformed_position;
    let tc = c.transformed_position;
    lemma_area_swap(ta, tb, tc);
    if area2(ta, tb, tc) > 0 {
        lemma_oriented_fragments(a, b, c, width, height);
    } else if area2(ta, tb, tc) < 0 {
        lemma_oriented_fragments(a, c, b, width, height);
    }
}

/// The same for a triangle of positive area.
proof fn lemma_oriented_fragments(a: Vertex, b: Vertex, c: Vertex, width: int, height: int)
    requires
        0 <= width <= usize::MAX,
        0 <= height <= usize::MAX,
        area2(a.transformed_position, b.transformed_position, c.transformed_position) > 0,
    ensures
        ({
            let frags = oriented_fragments(a, b, c, width, height);
            let ta = a.transformed_position;
            let tb = b.transformed_position;
            let tc = c.transformed_position;
            &&& forall|i: int|
                0 <= i < frags.len() ==> {
                    &&& (#[trigger] frags[i]).x < width
                    &&& frags[i].y < height
                    &&& covers_oriented(
                        ta,
                        tb,
                        tc,
                        center(frags[i].x as int),
                        center(frags[i].y as int),
                    )
                }
            &&& in_scan_order(frags)
            &&& forall|x: int, y: int|
                0 <= x < width && 0 <= y < height && #[trigger] covers_oriented(
                    ta,
                    tb,
                    tc,
                    center(x),
                    center(y),
                ) ==> exists|i: int|
                    0 <= i < frags.len() && (#[trigger] frags[i]).x == x && frags[i].y == y
        }),
{
    let ta = a.transformed_position;
    let tb = b.transformed_position;
    let tc = c.transformed_position;
    let y_lo = box_lo(min3(ta.y as int, tb.y as int, tc.y as int));
    let y_hi = box_hi(max3(ta.y as int, tb.y as int, tc.y as int), height);
    let x_lo = box_lo(min3(ta.x as int, tb.x as int, tc.x as int));
    let x_hi = box_hi(max3(ta.x as int, tb.x as int, tc.x as int), width);
    let frags = oriented_fragments(a, b, c, width, height);
    lemma_box(a, b, c, y_lo, y_hi, x_lo, x_hi);
    assert forall|x: int, y: int|
        0 <= x < width && 0 <= y < height && #[trigger] covers_oriented(
            ta,
            tb,
            tc,
            center(x),
            center(y),
        ) implies exists|i: int|
        0 <= i < frags.len() && (#[trigger] frags[i]).x == x && frags[i].y == y by {
        lemma_covered_in_box(ta, tb, tc, center(x), center(y));
        assert(x_lo <= x < x_hi);
        assert(y_lo <= y < y_hi);
    }
}

/// Whether a fragment list holds a fragment for the pixel at `(x, y)`.
pub open spec fn has_fragment(frags: Seq<Fragment>, x: int, y: int) -> bool {
    exists|i: int| 0 <= i < frags.len() && (#[trigger] frags[i]).x == x && frags[i].y == y
}

/// A triangle has a fragment for a pixel of the screen exactly when it
/// covers the pixel's center; and its fragments come in scan order, so
/// never two for one pixel.
pub proof fn lemma_fragment_iff_covered(
    a: Vertex,
    b: Vertex,
    c: Vertex,
    width: int,
    height: int,
    x: int,
    y: int,
)
    requires
        0 <= x < width <= usize::MAX,
        0 <= y < height <= usize::MAX,
    ensures
        has_fragment(triangle_fragments(a, b, c, width, height), x, y) == covers(
            a.transformed_position,
            b.transformed_position,
            c.transformed_position,
            center(x),
            center(y),
        ),
        in_scan_order(triangle_fragments(a, b, c, width, height)),
{
    lemma_fragments_are_the_covered_pixels(a, b, c, width, height);
    let frags = triangle_fragments(a, b, c, width, height);
    if has_fragment(frags, x, y) {
        let i = choose|i: int| 0 <= i < frags.len() && (#[trigger] frags[i]).x == x && frags[i].y == y;
        assert(covers(
            a.transformed_position,
            b.transformed_position,
            c.transformed_position,
            center(frags[i].x as int),
            center(frags[i].y as int),
        ));
    }
}

/// The rasterizer leaves no crack and draws nothing twice along a shared
/// edge: of two triangles that share an edge, with their third vertices on
/// opposite sides of it, exactly one has a fragment for each pixel of the
/// screen whose center lies on the edge strictly between its ends.
pub proof fn lemma_shared_edge_one_fragment(
    a: Vertex,
    b: Vertex,
    c: Vertex,
    d: Vertex,
    width: int,
    height: int,
    x: int,
    y: int,
)
    requires
        0 <= x < width <= usize::MAX,
        0 <= y < height <= usize::MAX,
        opposite_sides(
            a.transformed_position,
            b.transformed_position,
            c.transformed_position,
            d.transformed_position,
        ),
        strictly_between(a.transformed_position, b.transformed_position, center(x), center(y)),
    ensures
        has_fragment(triangle_fragments(a, b, c, width, height), x, y) != has_fragment(
            triangle_fragments(b, a, d, width, height),
            x,
            y,
        ),
{
    lemma_fragment_iff_covered(a, b, c, width, height, x, y);
    lemma_fragment_iff_covered(b, a, d, width, height, x, y);
    lemma_shared_edge_covered_once(
        a.transformed_position,
        b.transformed_position,
        c.transformed_position,
        d.transformed_position,
        center(x),
        center(y),
    );
}

/// Whether the point lies strictly inside the quad `a b c d`, whose
/// vertices are listed in order around it, in either winding, and which
/// the diagonal from `a` to `c` splits into two triangles with area.
pub open spec fn strictly_inside_quad(a: Vec3, b: Vec3, c: Vec3, d: Vec3, px: int, py: int) -> bool {
    ||| {
        &&& area2(a, b, c) > 0
        &&& area2(a, c, d) > 0
        &&& edge_at(a, b, px, py) > 0
        &&& edge_at(b, c, px, py) > 0
        &&& edge_at(c, d, px, py) > 0
        &&& edge_at(d, a, px, py) > 0
    }
    ||| {
        &&& area2(a, b, c) < 0
        &&& area2(a, c, d) < 0
        &&& edge_at(a, b, px, py) < 0
        &&& edge_at(b, c, px, py) < 0
        &&& edge_at(c, d, px, py) < 0
        &&& edge_at(d, a, px, py) < 0
    }
}

/// A quad drawn as two triangles has no crack and no overdraw inside:
/// every point strictly inside it is covered by exactly one of the two.
pub proof fn lemma_quad_covered_once(a: Vec3, b: Vec3, c: Vec3, d: Vec3, px: int, py: int)
    requires
        strictly_inside_quad(a, b, c, d, px, py),
    ensures
        covers(a, b, c, px, py) != covers(a, c, d, px, py),
{
    lemma_area_swap(a, b, c);
    lemma_area_swap(a, c, d);
    lemma_area_needs_edge(a, c, d);
    lemma_owner_is_unique(c.x - a.x, c.y - a.y);
    lemma_edge_reverse(a.x as int, a.y as int, c.x as int, c.y as int, px, py);
    lemma_edge_reverse(a.x as int, a.y as int, b.x as int, b.y as int, px, py);
    lemma_edge_reverse(b.x as int, b.y as int, c.x as int, c.y as int, px, py);
    lemma_edge_reverse(c.x as int, c.y as int, d.x as int, d.y as int, px, py);
    lemma_edge_reverse(d.x as int, d.y as int, a.x as int, a.y as int, px, py);
    if area2(a, b, c) > 0 {
        assert(covers(a, b, c, px, py) == inside(c, a, px, py));
        assert(covers(a, c, d, px, py) == inside(a, c, px, py));
    } else {
        assert(covers(a, b, c, px, py) == inside(a, c, px, py));
        assert(covers(a, c, d, px, py) == inside(c, a, px, py));
    }
}

/// The same of the rasterizer: every pixel of the screen whose center
/// lies strictly inside the quad has a fragment from exactly one of the
/// two triangles.
pub proof fn lemma_quad_one_fragment(
    a: Vertex,
    b: Vertex,
    c: Vertex,
    d: Vertex,
    width: int,
    height: int,
    x: int,
    y: int,
)
    requires
        0 <= x < width <= usize::MAX,
        0 <= y < height <= usize::MAX,
        strictly_inside_quad(
            a.transformed_position,
            b.transformed_position,
            c.transformed_position,
            d.transformed_position,
            center(x),
            center(y),
        ),
    ensures
        has_fragment(triangle_fragments(a, b, c, width, height), x, y) != has_fragment(
            triangle_fragments(a, c, d, width, height),
            x,
            y,
        ),
{
    lemma_fragment_iff_covered(a, b, c, width, height, x, y);
    lemma_fragment_iff_covered(a, c, d, width, height, x, y);
    lemma_quad_covered_once(
        a.transformed_position,
        b.transformed_position,
        c.transformed_position,
        d.transformed_position,
        center(x),
        center(y),
    );
}

} // verus!

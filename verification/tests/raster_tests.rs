use solar_raster::color::Color;
use solar_raster::framebuffer::Framebuffer;
use solar_raster::geometry::{div_floor, edge_function, isqrt, Vec2, Vec3};
use solar_raster::pipeline::{assemble, rasterize, Triangle};
use solar_raster::raster::{triangle, Fragment, Vertex};

fn at(x: i32, y: i32, z: i32) -> Vertex {
    let mut v = Vertex::new(Vec3::new(0, 0, 0), Vec3::new(0, 0, 1000), Vec2::new(0, 0));
    v.transformed_position = Vec3::new(x, y, z);
    v
}

fn colored(x: i32, y: i32, color: Color) -> Vertex {
    let mut v = at(x, y, 0);
    v.color = color;
    v
}

fn places(frags: &[Fragment]) -> Vec<(usize, usize)> {
    frags.iter().map(|f| (f.x, f.y)).collect()
}

#[test]
fn vertex_new_repeats_the_given_fields() {
    let v = Vertex::new(Vec3::new(1, 2, 3), Vec3::new(4, 5, 6), Vec2::new(7, 8));
    assert_eq!(v.position, Vec3::new(1, 2, 3));
    assert_eq!(v.normal, Vec3::new(4, 5, 6));
    assert_eq!(v.tex_coords, Vec2::new(7, 8));
    assert_eq!(v.color, Color::new(255, 255, 255));
    assert_eq!(v.transformed_position, Vec3::new(1, 2, 3));
    assert_eq!(v.transformed_normal, Vec3::new(4, 5, 6));
}

#[test]
fn edge_function_is_twice_the_signed_area() {
    assert_eq!(edge_function(0, 0, 4000, 0, 0, 4000), 16_000_000);
    assert_eq!(edge_function(0, 0, 0, 4000, 4000, 0), -16_000_000);
    assert_eq!(edge_function(0, 0, 10, 10, 5, 5), 0);
    assert_eq!(
        edge_function(-0x1_0000_0000, -0x1_0000_0000, 0x1_0000_0000, -0x1_0000_0000, 0x1_0000_0000, 0x1_0000_0000),
        0x4_0000_0000_0000_0000
    );
}

#[test]
fn div_floor_rounds_towards_negative_infinity() {
    assert_eq!(div_floor(7, 2), 3);
    assert_eq!(div_floor(-7, 2), -4);
    assert_eq!(div_floor(-8, 2), -4);
    assert_eq!(div_floor(-1, 1000), -1);
    assert_eq!(div_floor(0, 5), 0);
    assert_eq!(div_floor(-5, 1), -5);
}

#[test]
fn isqrt_is_the_floor_of_the_root() {
    assert_eq!(isqrt(0), 0);
    assert_eq!(isqrt(1), 1);
    assert_eq!(isqrt(3), 1);
    assert_eq!(isqrt(4), 2);
    assert_eq!(isqrt(5624), 74);
    assert_eq!(isqrt(5625), 75);
    assert_eq!(isqrt(999_999), 999);
    assert_eq!(isqrt(u64::MAX), 0xFFFF_FFFF);
}

#[test]
fn right_triangle_covers_its_pixels() {
    let frags = triangle(&at(0, 0, 0), &at(4000, 0, 0), &at(0, 4000, 0), 8, 8);
    assert_eq!(places(&frags), vec![(0, 0), (1, 0), (2, 0), (0, 1), (1, 1), (0, 2)]);
}

#[test]
fn winding_does_not_change_coverage() {
    let a = at(0, 0, 0);
    let b = at(4000, 0, 0);
    let c = at(0, 4000, 0);
    let expected = places(&triangle(&a, &b, &c, 8, 8));
    assert_eq!(places(&triangle(&a, &c, &b, 8, 8)), expected);
    assert_eq!(places(&triangle(&b, &c, &a, 8, 8)), expected);
    assert_eq!(places(&triangle(&c, &b, &a, 8, 8)), expected);
}

#[test]
fn degenerate_triangle_gives_no_fragment() {
    // Three points on a line.
    assert!(triangle(&at(0, 0, 0), &at(2000, 2000, 0), &at(4000, 4000, 0), 8, 8).is_empty());
    // Two equal points.
    assert!(triangle(&at(0, 0, 0), &at(0, 0, 0), &at(4000, 4000, 0), 8, 8).is_empty());
    // One point three times.
    assert!(triangle(&at(1500, 1500, 0), &at(1500, 1500, 0), &at(1500, 1500, 0), 8, 8).is_empty());
}

#[test]
fn triangle_is_clipped_to_the_screen() {
    let a = at(-10_000, -10_000, 0);
    let b = at(30_000, -10_000, 0);
    let c = at(-10_000, 30_000, 0);
    let frags = triangle(&a, &b, &c, 3, 2);
    assert_eq!(places(&frags), vec![(0, 0), (1, 0), (2, 0), (0, 1), (1, 1), (2, 1)]);
    assert!(triangle(&a, &b, &c, 0, 0).is_empty());
    assert!(triangle(&a, &b, &c, 0, 5).is_empty());
}

#[test]
fn triangle_off_screen_gives_no_fragment() {
    assert!(triangle(&at(-5000, -5000, 0), &at(-1000, -5000, 0), &at(-5000, -1000, 0), 8, 8).is_empty());
    assert!(triangle(&at(9000, 9000, 0), &at(12000, 9000, 0), &at(9000, 12000, 0), 8, 8).is_empty());
}

#[test]
fn extreme_coordinates_are_handled() {
    let a = at(i32::MIN, i32::MIN, i32::MIN);
    let b = at(i32::MAX, i32::MIN, i32::MAX);
    let c = at(0, i32::MAX, 0);
    let frags = triangle(&a, &b, &c, 3, 3);
    assert_eq!(frags.len(), 9);
    for f in frags.iter() {
        assert!(i32::MIN as i64 <= f.depth && f.depth <= i32::MAX as i64);
    }
    // The slanted edge of this one passes just above and left of the screen.
    let d = at(i32::MIN, i32::MAX, 0);
    assert!(triangle(&a, &b, &d, 2, 2).is_empty());
    // Half of a huge square: the diagonal's centers belong to this half.
    let e = at(i32::MAX, i32::MAX, 0);
    assert_eq!(places(&triangle(&a, &b, &e, 2, 2)), vec![(0, 0), (1, 0), (1, 1)]);
}

#[test]
fn shared_edge_pixels_are_covered_exactly_once() {
    // A square split along its diagonal, which passes through pixel centers.
    let p00 = at(0, 0, 0);
    let p10 = at(4000, 0, 0);
    let p11 = at(4000, 4000, 0);
    let p01 = at(0, 4000, 0);
    let upper = places(&triangle(&p00, &p10, &p11, 4, 4));
    let lower = places(&triangle(&p00, &p11, &p01, 4, 4));
    assert_eq!(upper.len(), 10);
    assert_eq!(lower.len(), 6);
    for y in 0..4 {
        for x in 0..4 {
            let n = upper.iter().filter(|p| **p == (x, y)).count()
                + lower.iter().filter(|p| **p == (x, y)).count();
            assert_eq!(n, 1, "pixel ({}, {})", x, y);
        }
    }
    // The diagonal belongs to one side as a whole.
    for i in 0..4 {
        assert!(upper.contains(&(i, i)));
    }
}

#[test]
fn shared_edge_in_any_listing_is_covered_exactly_once() {
    let a = at(500, 500, 0);
    let b = at(6500, 3500, 0);
    let c = at(5500, 500, 0);
    let d = at(1500, 5500, 0);
    let listings_one = [[a, b, c], [b, c, a], [c, a, b], [a, c, b], [c, b, a], [b, a, c]];
    let listings_two = [[a, b, d], [b, d, a], [d, a, b], [a, d, b], [d, b, a], [b, a, d]];
    for one in listings_one.iter() {
        for two in listings_two.iter() {
            let first = places(&triangle(&one[0], &one[1], &one[2], 8, 8));
            let second = places(&triangle(&two[0], &two[1], &two[2], 8, 8));
            for p in first.iter() {
                assert!(!second.contains(p), "pixel {:?} drawn twice", p);
            }
            // Centers on the shared edge, strictly between its ends.
            for p in [(2, 1), (4, 2)] {
                assert!(first.contains(&p) != second.contains(&p), "pixel {:?}", p);
            }
        }
    }
}

#[test]
fn horizontal_and_vertical_edges_follow_the_top_left_rule() {
    // Edges through the centers of row 0, row 2, column 0 and column 2.
    let frags = triangle(&at(500, 500, 0), &at(2500, 500, 0), &at(500, 2500, 0), 4, 4);
    // The top edge and the left edge own their centers, the slanted edge does not.
    assert_eq!(places(&frags), vec![(0, 0), (1, 0), (0, 1)]);
    let square_top = triangle(&at(500, 500, 0), &at(2500, 500, 0), &at(2500, 2500, 0), 4, 4);
    // The right edge does not own its centers.
    assert_eq!(places(&square_top), vec![(0, 0), (1, 0), (1, 1)]);
}

#[test]
fn fragments_come_in_scan_order() {
    let frags = triangle(&at(300, 200, 0), &at(7800, 1900, 0), &at(2500, 7700, 0), 8, 8);
    assert!(!frags.is_empty());
    for pair in frags.windows(2) {
        assert!((pair[0].y, pair[0].x) < (pair[1].y, pair[1].x));
    }
}

#[test]
fn weights_add_up_and_are_not_negative() {
    let a = (300i64, 200i64);
    let b = (7800i64, 1900i64);
    let c = (2500i64, 7700i64);
    let area = edge_function(a.0, a.1, b.0, b.1, c.0, c.1);
    assert!(area > 0);
    let frags = triangle(&at(300, 200, 0), &at(7800, 1900, 0), &at(2500, 7700, 0), 8, 8);
    for f in frags.iter() {
        let px = f.x as i64 * 1000 + 500;
        let py = f.y as i64 * 1000 + 500;
        let wa = edge_function(b.0, b.1, c.0, c.1, px, py);
        let wb = edge_function(c.0, c.1, a.0, a.1, px, py);
        let wc = edge_function(a.0, a.1, b.0, b.1, px, py);
        assert_eq!(wa + wb + wc, area);
        assert!(wa >= 0 && wb >= 0 && wc >= 0);
    }
}

#[test]
fn depth_is_interpolated() {
    let frags = triangle(&at(0, 0, 0), &at(4000, 0, 4000), &at(0, 4000, 8000), 4, 4);
    // depth = x + 2 y at the pixel center, in thousandths.
    for f in frags.iter() {
        let expected = (f.x as i64 * 1000 + 500) + 2 * (f.y as i64 * 1000 + 500);
        assert_eq!(f.depth, expected);
    }
    assert_eq!(frags[0].depth, 1500);
}

#[test]
fn depth_of_a_flat_triangle_is_constant() {
    let frags = triangle(&at(0, 0, -777), &at(4000, 0, -777), &at(0, 4000, -777), 4, 4);
    assert_eq!(frags.len(), 6);
    for f in frags.iter() {
        assert_eq!(f.depth, -777);
    }
}

#[test]
fn position_is_interpolated() {
    let mut a = at(0, 0, 0);
    let mut b = at(4000, 0, 0);
    let mut c = at(0, 4000, 0);
    a.position = Vec3::new(-1000, 0, 500);
    b.position = Vec3::new(1000, 0, 500);
    c.position = Vec3::new(-1000, 2000, 500);
    let frags = triangle(&a, &b, &c, 4, 4);
    let f = frags.iter().find(|f| (f.x, f.y) == (1, 1)).unwrap();
    assert_eq!(f.vertex_position, Vec3::new(-250, 750, 500));
    let g = frags.iter().find(|g| (g.x, g.y) == (0, 0)).unwrap();
    assert_eq!(g.vertex_position, Vec3::new(-750, 250, 500));
}

#[test]
fn intensity_follows_the_normal() {
    let mut a = at(0, 0, 0);
    let mut b = at(4000, 0, 0);
    let mut c = at(0, 4000, 0);
    // Facing the light.
    for v in [&mut a, &mut b, &mut c] {
        v.transformed_normal = Vec3::new(0, 0, 1000);
    }
    assert!(triangle(&a, &b, &c, 4, 4).iter().all(|f| f.intensity == 1000));
    // Facing away: no light.
    for v in [&mut a, &mut b, &mut c] {
        v.transformed_normal = Vec3::new(0, 0, -1000);
    }
    assert!(triangle(&a, &b, &c, 4, 4).iter().all(|f| f.intensity == 0));
    // Side on: no light.
    for v in [&mut a, &mut b, &mut c] {
        v.transformed_normal = Vec3::new(1000, 0, 0);
    }
    assert!(triangle(&a, &b, &c, 4, 4).iter().all(|f| f.intensity == 0));
    // 3-4-5: the cosine is four fifths, whatever the length.
    for v in [&mut a, &mut b, &mut c] {
        v.transformed_normal = Vec3::new(300, 0, 400);
    }
    assert!(triangle(&a, &b, &c, 4, 4).iter().all(|f| f.intensity == 800));
    // No normal at all: no light.
    for v in [&mut a, &mut b, &mut c] {
        v.transformed_normal = Vec3::new(0, 0, 0);
    }
    assert!(triangle(&a, &b, &c, 4, 4).iter().all(|f| f.intensity == 0));
}

#[test]
fn assemble_groups_by_three_and_drops_the_rest() {
    let vs: Vec<Option<Vertex>> = (0..8).map(|i| Some(at(i, i, i))).collect();
    let tris = assemble(&vs);
    assert_eq!(tris.len(), 2);
    assert_eq!(tris[0], Triangle { v1: at(0, 0, 0), v2: at(1, 1, 1), v3: at(2, 2, 2) });
    assert_eq!(tris[1], Triangle { v1: at(3, 3, 3), v2: at(4, 4, 4), v3: at(5, 5, 5) });
    assert!(assemble(&Vec::new()).is_empty());
    assert!(assemble(&vec![Some(at(0, 0, 0)), Some(at(1, 1, 1))]).is_empty());
}

#[test]
fn assemble_skips_a_triple_with_a_missing_vertex() {
    let vs = vec![
        Some(at(0, 0, 0)),
        None,
        Some(at(2, 2, 2)),
        Some(at(3, 3, 3)),
        Some(at(4, 4, 4)),
        Some(at(5, 5, 5)),
        None,
        None,
        None,
    ];
    let tris = assemble(&vs);
    assert_eq!(tris, vec![Triangle { v1: at(3, 3, 3), v2: at(4, 4, 4), v3: at(5, 5, 5) }]);
}

#[test]
fn rasterize_concatenates_in_triangle_order() {
    let t1 = Triangle { v1: at(0, 0, 1), v2: at(4000, 0, 1), v3: at(4000, 4000, 1) };
    let t2 = Triangle { v1: at(0, 0, 2), v2: at(4000, 4000, 2), v3: at(0, 4000, 2) };
    let frags = rasterize(&vec![t2, t1], 4, 4);
    assert_eq!(frags.len(), 16);
    assert!(frags[..6].iter().all(|f| f.depth == 2));
    assert!(frags[6..].iter().all(|f| f.depth == 1));
    assert!(rasterize(&Vec::new(), 4, 4).is_empty());
}

#[test]
fn quad_fills_the_viewport_with_interpolated_corner_colors() {
    let n: usize = 8;
    let side = 8000;
    let c00 = Color::new(0, 0, 50);
    let c10 = Color::new(200, 0, 50);
    let c01 = Color::new(0, 100, 50);
    let c11 = Color::new(200, 100, 50);
    let vs = vec![
        Some(colored(0, 0, c00)),
        Some(colored(side, 0, c10)),
        Some(colored(side, side, c11)),
        Some(colored(0, 0, c00)),
        Some(colored(side, side, c11)),
        Some(colored(0, side, c01)),
    ];
    let frags = rasterize(&assemble(&vs), n, n);
    assert_eq!(frags.len(), n * n);
    let mut fb = Framebuffer::new(n, n);
    for f in frags.iter() {
        fb.commit(f.x, f.y, f.depth, f.color, 0);
    }
    for y in 0..n {
        for x in 0..n {
            let r = 200.0 * (x as f64 + 0.5) / n as f64;
            let g = 100.0 * (y as f64 + 0.5) / n as f64;
            let c = Color::from_hex(fb.pixel(x, y).unwrap().color);
            assert!((c.r as f64 - r).abs() <= 1.0, "red at ({}, {}): {} for {}", x, y, c.r, r);
            assert!((c.g as f64 - g).abs() <= 1.0, "green at ({}, {}): {} for {}", x, y, c.g, g);
            assert_eq!(c.b, 50);
        }
    }
    // Exact values at two pixels: rounding is downwards.
    assert_eq!(Color::from_hex(fb.pixel(0, 0).unwrap().color), Color::new(12, 6, 50));
    assert_eq!(Color::from_hex(fb.pixel(7, 7).unwrap().color), Color::new(187, 93, 50));
}

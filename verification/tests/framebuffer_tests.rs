use solar_raster::color::Color;
use solar_raster::framebuffer::{Framebuffer, DEPTH_INFINITY};
use solar_raster::skybox::Skybox;

#[test]
fn new_buffer_is_black_and_empty() {
    let fb = Framebuffer::new(4, 3);
    assert_eq!(fb.width(), 4);
    assert_eq!(fb.height(), 3);
    assert_eq!(fb.buffer().len(), 12);
    for y in 0..3 {
        for x in 0..4 {
            let p = fb.pixel(x, y).unwrap();
            assert_eq!((p.color, p.depth, p.emission), (0, DEPTH_INFINITY, 0));
        }
    }
}

#[test]
fn empty_buffer_has_no_pixels() {
    let mut fb = Framebuffer::new(0, 5);
    assert_eq!(fb.buffer().len(), 0);
    assert!(fb.pixel(0, 0).is_none());
    fb.point_with_emission(0, 0, 1, 1);
    fb.clear();
    assert_eq!(fb.buffer().len(), 0);
}

#[test]
fn new_buffer_draws_white_by_default() {
    let mut fb = Framebuffer::new(2, 2);
    fb.point_with_emission(1, 0, 10, 7);
    let p = fb.pixel(1, 0).unwrap();
    assert_eq!((p.color, p.depth, p.emission), (0xFFFFFF, 10, 7));
}

#[test]
fn pixel_outside_is_none() {
    let fb = Framebuffer::new(4, 3);
    assert!(fb.pixel(4, 0).is_none());
    assert!(fb.pixel(0, 3).is_none());
    assert!(fb.pixel(usize::MAX, usize::MAX).is_none());
}

#[test]
fn nearer_sample_wins() {
    let mut fb = Framebuffer::new(4, 3);
    fb.set_current_color(0x111111);
    fb.point_with_emission(2, 1, 500, 1);
    fb.set_current_color(0x222222);
    fb.point_with_emission(2, 1, 400, 2);
    let p = fb.pixel(2, 1).unwrap();
    assert_eq!((p.color, p.depth, p.emission), (0x222222, 400, 2));
    assert_eq!(fb.buffer()[1 * 4 + 2], 0x222222);
}

#[test]
fn farther_sample_loses() {
    let mut fb = Framebuffer::new(4, 3);
    fb.set_current_color(0x111111);
    fb.point_with_emission(2, 1, 400, 1);
    fb.set_current_color(0x222222);
    fb.point_with_emission(2, 1, 500, 2);
    let p = fb.pixel(2, 1).unwrap();
    assert_eq!((p.color, p.depth, p.emission), (0x111111, 400, 1));
}

#[test]
fn tie_keeps_the_earlier_sample() {
    let mut fb = Framebuffer::new(4, 3);
    fb.set_current_color(0x111111);
    fb.point_with_emission(0, 0, 400, 1);
    fb.set_current_color(0x222222);
    fb.point_with_emission(0, 0, 400, 2);
    let p = fb.pixel(0, 0).unwrap();
    assert_eq!((p.color, p.depth, p.emission), (0x111111, 400, 1));
}

#[test]
fn infinitely_far_sample_is_never_drawn() {
    let mut fb = Framebuffer::new(1, 1);
    fb.point_with_emission(0, 0, DEPTH_INFINITY, 9);
    let p = fb.pixel(0, 0).unwrap();
    assert_eq!((p.color, p.depth, p.emission), (0, DEPTH_INFINITY, 0));
}

#[test]
fn negative_depth_is_nearer() {
    let mut fb = Framebuffer::new(1, 1);
    fb.point_with_emission(0, 0, 0, 1);
    fb.point_with_emission(0, 0, -1, 2);
    fb.point_with_emission(0, 0, i64::MIN, 3);
    assert_eq!(fb.pixel(0, 0).unwrap().emission, 3);
}

#[test]
fn sample_outside_is_dropped() {
    let mut fb = Framebuffer::new(4, 3);
    fb.point_with_emission(4, 0, 1, 1);
    fb.point_with_emission(0, 3, 1, 1);
    fb.point_with_emission(usize::MAX, usize::MAX, 1, 1);
    // A column past the right edge must not wrap into the next row.
    fb.point_with_emission(5, 0, 1, 1);
    for y in 0..3 {
        for x in 0..4 {
            assert_eq!(fb.pixel(x, y).unwrap().depth, DEPTH_INFINITY);
        }
    }
}

#[test]
fn only_the_addressed_pixel_changes() {
    let mut fb = Framebuffer::new(4, 3);
    fb.point_with_emission(3, 2, 5, 1);
    for y in 0..3 {
        for x in 0..4 {
            let p = fb.pixel(x, y).unwrap();
            if (x, y) == (3, 2) {
                assert_eq!(p.depth, 5);
            } else {
                assert_eq!((p.color, p.depth, p.emission), (0, DEPTH_INFINITY, 0));
            }
        }
    }
    assert_eq!(fb.buffer()[11], 0xFFFFFF);
}

#[test]
fn clear_resets_to_background() {
    let mut fb = Framebuffer::new(4, 3);
    fb.point_with_emission(1, 1, 5, 8);
    fb.set_background_color(0x102030);
    fb.clear();
    for y in 0..3 {
        for x in 0..4 {
            let p = fb.pixel(x, y).unwrap();
            assert_eq!((p.color, p.depth, p.emission), (0x102030, DEPTH_INFINITY, 0));
        }
    }
    // The drawing color survives a clear.
    fb.point_with_emission(0, 0, 1, 0);
    assert_eq!(fb.pixel(0, 0).unwrap().color, 0xFFFFFF);
}

#[test]
fn commit_takes_the_color_along() {
    let mut fb = Framebuffer::new(2, 2);
    fb.commit(1, 1, 100, Color::new(1, 2, 3), 4);
    let p = fb.pixel(1, 1).unwrap();
    assert_eq!((p.color, p.depth, p.emission), (0x010203, 100, 4));
    fb.commit(1, 1, 100, Color::new(9, 9, 9), 5);
    assert_eq!(fb.pixel(1, 1).unwrap().color, 0x010203);
    fb.commit(1, 1, 99, Color::new(9, 9, 9), 5);
    assert_eq!(fb.pixel(1, 1).unwrap().color, 0x090909);
}

fn commit_in_order(order: &[usize]) -> (u32, i64, u32) {
    let samples: [(i64, Color, u32); 5] = [
        (700, Color::new(1, 0, 0), 1),
        (300, Color::new(2, 0, 0), 2),
        (900, Color::new(3, 0, 0), 3),
        (100, Color::new(4, 0, 0), 4),
        (500, Color::new(5, 0, 0), 5),
    ];
    let mut fb = Framebuffer::new(3, 3);
    for &i in order {
        let (depth, color, emission) = samples[i];
        fb.commit(1, 2, depth, color, emission);
    }
    let p = fb.pixel(1, 2).unwrap();
    (p.color, p.depth, p.emission)
}

#[test]
fn commit_order_does_not_matter() {
    let expected = (0x040000, 100, 4);
    assert_eq!(commit_in_order(&[0, 1, 2, 3, 4]), expected);
    assert_eq!(commit_in_order(&[4, 3, 2, 1, 0]), expected);
    assert_eq!(commit_in_order(&[3, 0, 4, 1, 2]), expected);
    assert_eq!(commit_in_order(&[2, 4, 0, 3, 1]), expected);
    assert_eq!(commit_in_order(&[1, 2, 3, 4, 0]), expected);
}

#[test]
fn clear_color_paints_every_pixel() {
    let mut fb = Framebuffer::new(3, 2);
    fb.set_background_color(0x0000AA);
    fb.point_with_emission(1, 1, 5, 8);
    fb.clear_color(Color::new(7, 8, 9));
    for y in 0..2 {
        for x in 0..3 {
            let p = fb.pixel(x, y).unwrap();
            assert_eq!((p.color, p.depth, p.emission), (0x070809, DEPTH_INFINITY, 0));
        }
    }
    fb.clear();
    assert_eq!(fb.pixel(0, 0).unwrap().color, 0x0000AA);
}

#[test]
fn skybox_paints_the_sky() {
    let sky = Skybox::load("assets/sky");
    let mut fb = Framebuffer::new(3, 2);
    fb.point_with_emission(1, 1, 5, 8);
    sky.render(&mut fb);
    for y in 0..2 {
        for x in 0..3 {
            let p = fb.pixel(x, y).unwrap();
            assert_eq!((p.color, p.depth, p.emission), (0x1E1E32, DEPTH_INFINITY, 0));
        }
    }
    // Anything drawn afterwards lies in front of the sky.
    fb.point_with_emission(0, 0, 1_000_000, 0);
    assert_eq!(fb.pixel(0, 0).unwrap().color, 0xFFFFFF);
}

use solar_raster::color::Color;
use solar_raster::framebuffer::{Framebuffer, DEPTH_INFINITY};
use solar_raster::geometry::{Vec2, Vec3};
use solar_raster::input::{handle_input, CameraMove, Keys};
use solar_raster::pipeline::{assemble, rasterize, render, ShadingInput};
use solar_raster::raster::{Fragment, Vertex};
use solar_raster::shaders::{EarthSignals, Signals, SunSignals};

fn at(x: i32, y: i32, z: i32) -> Vertex {
    let mut v = Vertex::new(Vec3::new(0, 0, 1000), Vec3::new(0, 0, 1000), Vec2::new(0, 0));
    v.transformed_position = Vec3::new(x, y, z);
    v
}

fn sun_input(x: usize, y: usize, depth: i64, pulsate: i32) -> ShadingInput {
    ShadingInput {
        fragment: Fragment {
            x,
            y,
            depth,
            color: Color::new(255, 255, 255),
            vertex_position: Vec3::new(0, 0, 0),
            intensity: 1000,
        },
        signals: Signals::Sun(SunSignals { pulsate, surface: 0, eruption: 0, corona: 0, halo: 0 }),
    }
}

fn no_keys() -> Keys {
    Keys {
        w: false,
        s: false,
        a: false,
        d: false,
        space: false,
        left_shift: false,
        left: false,
        right: false,
        up: false,
        down: false,
    }
}

#[test]
fn render_draws_the_nearest_fragment() {
    let mut fb = Framebuffer::new(4, 4);
    let inputs = vec![sun_input(1, 1, 500, 1000), sun_input(1, 1, 300, 500), sun_input(1, 1, 400, 0)];
    render(&mut fb, &inputs, 0);
    let p = fb.pixel(1, 1).unwrap();
    assert_eq!((p.color, p.depth, p.emission), (0x7F4600, 300, 0));
    assert_eq!(fb.pixel(0, 0).unwrap().depth, DEPTH_INFINITY);
}

#[test]
fn render_does_not_depend_on_fragment_order() {
    let inputs = vec![
        sun_input(1, 1, 500, 1000),
        sun_input(2, 1, 100, 900),
        sun_input(1, 1, 300, 500),
        sun_input(2, 1, 200, 800),
        sun_input(1, 1, 400, 250),
        sun_input(0, 3, 7, 100),
    ];
    let mut forward = Framebuffer::new(4, 4);
    render(&mut forward, &inputs, 0);
    let mut reversed_inputs = inputs.clone();
    reversed_inputs.reverse();
    let mut backward = Framebuffer::new(4, 4);
    render(&mut backward, &reversed_inputs, 0);
    let mut shuffled = Framebuffer::new(4, 4);
    let order = [3, 0, 5, 2, 4, 1];
    let shuffled_inputs: Vec<ShadingInput> = order.iter().map(|&i| inputs[i]).collect();
    render(&mut shuffled, &shuffled_inputs, 0);
    assert_eq!(forward.buffer(), backward.buffer());
    assert_eq!(forward.buffer(), shuffled.buffer());
    for y in 0..4 {
        for x in 0..4 {
            assert_eq!(forward.pixel(x, y).unwrap().depth, backward.pixel(x, y).unwrap().depth);
            assert_eq!(forward.pixel(x, y).unwrap().depth, shuffled.pixel(x, y).unwrap().depth);
        }
    }
    assert_eq!(forward.pixel(1, 1).unwrap().depth, 300);
    assert_eq!(forward.pixel(2, 1).unwrap().depth, 100);
    assert_eq!(forward.pixel(0, 3).unwrap().depth, 7);
}

#[test]
fn render_drops_fragments_off_the_screen() {
    let mut fb = Framebuffer::new(2, 2);
    let inputs = vec![sun_input(2, 0, 1, 1000), sun_input(0, 2, 1, 1000), sun_input(usize::MAX, 0, 1, 1000)];
    render(&mut fb, &inputs, 0);
    assert!(fb.buffer().iter().all(|&c| c == 0));
    // The drawing color was not touched either.
    fb.point_with_emission(0, 0, 1, 0);
    assert_eq!(fb.pixel(0, 0).unwrap().color, 0xFFFFFF);
}

#[test]
fn render_with_unknown_index_draws_black() {
    let mut fb = Framebuffer::new(2, 2);
    fb.set_background_color(0x123456);
    fb.clear();
    render(&mut fb, &vec![sun_input(1, 0, 10, 1000)], 9);
    let p = fb.pixel(1, 0).unwrap();
    assert_eq!((p.color, p.depth), (0, 10));
    assert_eq!(fb.pixel(0, 0).unwrap().color, 0x123456);
}

#[test]
fn render_of_nothing_changes_nothing() {
    let mut fb = Framebuffer::new(2, 2);
    render(&mut fb, &Vec::new(), 0);
    assert!(fb.buffer().iter().all(|&c| c == 0));
}

#[test]
fn earth_triangle_with_low_biome_is_ocean_dominant() {
    let vs = vec![Some(at(500, 300, 10)), Some(at(7600, 2100, 20)), Some(at(1900, 7400, 30))];
    let frags = rasterize(&assemble(&vs), 8, 8);
    assert!(!frags.is_empty());
    let mut inputs: Vec<ShadingInput> = Vec::new();
    for (i, f) in frags.iter().enumerate() {
        // The biome is held well below the ocean threshold of 300.
        let biome = 100 - (i as i32 * 61) % 1100;
        let terrain = [(i as i32 * 137) % 1000, 0, 0, 0, 0, 0];
        inputs.push(ShadingInput {
            fragment: *f,
            signals: Signals::Earth(EarthSignals { terrain, biome, cloud: 0 }),
        });
    }
    let mut fb = Framebuffer::new(8, 8);
    render(&mut fb, &inputs, 1);
    for f in frags.iter() {
        let c = Color::from_hex(fb.pixel(f.x, f.y).unwrap().color);
        assert!(c.b > c.r && c.b > c.g, "pixel ({}, {}) is {:?}", f.x, f.y, c);
    }
}

#[test]
fn two_overlapping_triangles_show_the_nearer_one() {
    let near = vec![Some(at(0, 0, 100)), Some(at(4000, 0, 100)), Some(at(0, 4000, 100))];
    let far = vec![Some(at(0, 0, 200)), Some(at(4000, 0, 200)), Some(at(4000, 4000, 200))];
    let mut both = far.clone();
    both.extend(near.iter().cloned());
    let frags = rasterize(&assemble(&both), 4, 4);
    let mut fb = Framebuffer::new(4, 4);
    for f in frags.iter() {
        let shade = if f.depth == 100 { Color::new(0, 255, 0) } else { Color::new(255, 0, 0) };
        fb.commit(f.x, f.y, f.depth, shade, 0);
    }
    // Covered by both: the nearer one shows.
    assert_eq!(fb.pixel(1, 0).unwrap().color, 0x00FF00);
    assert_eq!(fb.pixel(0, 0).unwrap().color, 0x00FF00);
    // Covered by the far one only.
    assert_eq!(fb.pixel(3, 1).unwrap().color, 0xFF0000);
    // Covered by the near one only.
    assert_eq!(fb.pixel(0, 2).unwrap().color, 0x00FF00);
    // Covered by neither.
    assert_eq!(fb.pixel(0, 3).unwrap().color, 0);
}

#[test]
fn no_key_no_move() {
    assert!(handle_input(&no_keys()).is_empty());
}

#[test]
fn each_key_has_its_move() {
    assert_eq!(handle_input(&Keys { w: true, ..no_keys() }), vec![CameraMove::Forward(5000)]);
    assert_eq!(handle_input(&Keys { s: true, ..no_keys() }), vec![CameraMove::Forward(-5000)]);
    assert_eq!(handle_input(&Keys { a: true, ..no_keys() }), vec![CameraMove::Right(-5000)]);
    assert_eq!(handle_input(&Keys { d: true, ..no_keys() }), vec![CameraMove::Right(5000)]);
    assert_eq!(handle_input(&Keys { space: true, ..no_keys() }), vec![CameraMove::Up(5000)]);
    assert_eq!(handle_input(&Keys { left_shift: true, ..no_keys() }), vec![CameraMove::Up(-5000)]);
    assert_eq!(
        handle_input(&Keys { left: true, ..no_keys() }),
        vec![CameraMove::Rotate { yaw: 50, pitch: 0 }]
    );
    assert_eq!(
        handle_input(&Keys { right: true, ..no_keys() }),
        vec![CameraMove::Rotate { yaw: -50, pitch: 0 }]
    );
    assert_eq!(
        handle_input(&Keys { up: true, ..no_keys() }),
        vec![CameraMove::Rotate { yaw: 0, pitch: 50 }]
    );
    assert_eq!(
        handle_input(&Keys { down: true, ..no_keys() }),
        vec![CameraMove::Rotate { yaw: 0, pitch: -50 }]
    );
}

#[test]
fn all_keys_move_in_a_fixed_order() {
    let all = Keys {
        w: true,
        s: true,
        a: true,
        d: true,
        space: true,
        left_shift: true,
        left: true,
        right: true,
        up: true,
        down: true,
    };
    assert_eq!(
        handle_input(&all),
        vec![
            CameraMove::Forward(5000),
            CameraMove::Forward(-5000),
            CameraMove::Right(-5000),
            CameraMove::Right(5000),
            CameraMove::Up(5000),
            CameraMove::Up(-5000),
            CameraMove::Rotate { yaw: 50, pitch: 0 },
            CameraMove::Rotate { yaw: -50, pitch: 0 },
            CameraMove::Rotate { yaw: 0, pitch: 50 },
            CameraMove::Rotate { yaw: 0, pitch: -50 },
        ]
    );
}

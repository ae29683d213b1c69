use solar_raster::color::Color;

#[test]
fn new_keeps_channels() {
    let c = Color::new(1, 2, 3);
    assert_eq!((c.r, c.g, c.b), (1, 2, 3));
}

#[test]
fn to_hex_packs_channels() {
    assert_eq!(Color::new(0x12, 0x34, 0x56).to_hex(), 0x123456);
    assert_eq!(Color::new(255, 255, 255).to_hex(), 0xFFFFFF);
    assert_eq!(Color::new(0, 0, 1).to_hex(), 1);
    assert_eq!(Color::black().to_hex(), 0);
}

#[test]
fn from_hex_unpacks_and_ignores_top_byte() {
    assert_eq!(Color::from_hex(0x123456), Color::new(0x12, 0x34, 0x56));
    assert_eq!(Color::from_hex(0xAB00_00FF), Color::new(0, 0, 255));
    assert_eq!(Color::from_hex(Color::new(9, 8, 7).to_hex()), Color::new(9, 8, 7));
}

#[test]
fn lerp_endpoints() {
    let a = Color::new(10, 200, 30);
    let b = Color::new(250, 0, 31);
    assert_eq!(a.lerp(&b, 0), a);
    assert_eq!(a.lerp(&b, 1000), b);
}

#[test]
fn lerp_rounds_to_nearest() {
    let a = Color::new(10, 200, 30);
    let b = Color::new(250, 0, 31);
    assert_eq!(a.lerp(&b, 500), Color::new(130, 100, 31));
    assert_eq!(Color::black().lerp(&Color::new(255, 255, 255), 333), Color::new(85, 85, 85));
}

#[test]
fn lerp_clamps_the_fraction() {
    let a = Color::new(10, 200, 30);
    let b = Color::new(250, 0, 31);
    assert_eq!(a.lerp(&b, -5), a);
    assert_eq!(a.lerp(&b, 1001), b);
    assert_eq!(a.lerp(&b, i64::MIN), a);
    assert_eq!(a.lerp(&b, i64::MAX), b);
}

#[test]
fn lerp_is_monotone_in_each_channel() {
    let a = Color::new(10, 200, 77);
    let b = Color::new(250, 0, 77);
    let mut last = a;
    let mut t = 0;
    while t <= 1000 {
        let c = a.lerp(&b, t);
        assert!(c.r >= last.r, "rising channel fell at {}", t);
        assert!(c.g <= last.g, "falling channel rose at {}", t);
        assert_eq!(c.b, 77);
        last = c;
        t += 1;
    }
    assert_eq!(last, b);
}

#[test]
fn scale_rounds_down_and_saturates() {
    let c = Color::new(200, 100, 50);
    assert_eq!(c.scale(1500), Color::new(255, 150, 75));
    assert_eq!(c.scale(500), Color::new(100, 50, 25));
    assert_eq!(c.scale(1000), c);
    assert_eq!(Color::new(1, 2, 3).scale(999), Color::new(0, 1, 2));
}

#[test]
fn scale_by_nothing_or_less_is_black() {
    let c = Color::new(200, 100, 50);
    assert_eq!(c.scale(0), Color::black());
    assert_eq!(c.scale(-1000), Color::black());
    assert_eq!(c.scale(i64::MIN), Color::black());
}

#[test]
fn scale_by_huge_factor_saturates() {
    assert_eq!(Color::new(1, 0, 255).scale(i64::MAX), Color::new(255, 0, 255));
    assert_eq!(Color::new(1, 0, 255).scale(256_000), Color::new(255, 0, 255));
    assert_eq!(Color::new(1, 0, 255).scale(255_999), Color::new(255, 0, 255));
}

#[test]
fn saturating_add_stops_at_white() {
    let a = Color::new(200, 100, 0);
    let b = Color::new(100, 100, 0);
    assert_eq!(a.saturating_add(&b), Color::new(255, 200, 0));
    assert_eq!(a.saturating_add(&Color::black()), a);
}

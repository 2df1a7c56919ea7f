use taiwan_eq_map::config::MapConfig;
use taiwan_eq_map::coords::Coords;
use taiwan_eq_map::raster::{Color, Raster};
use taiwan_eq_map::taiwan_map::{add_station_to_map, blend_pixel, get_rgba_from_intensity, make_box};

fn small_config(width: u32, height: u32) -> MapConfig {
    MapConfig {
        width,
        height,
        box_size: 12,
        box_border: 2,
        icon_size: 2,
        base_long_e4: 0,
        base_lat_e4: 0,
        scale_long_milli: 1000,
        scale_lat_milli: 1000,
    }
}

fn blank(width: u32, height: u32) -> Raster {
    Raster::from_raw(width, height, vec![0u8; (width * height * 4) as usize]).unwrap()
}

fn px(r: &Raster, x: u32, y: u32) -> (u8, u8, u8, u8) {
    let c = r.get_pixel(x, y);
    (c.r, c.g, c.b, c.a)
}

#[test]
fn color_table_matches_the_scale() {
    assert_eq!(get_rgba_from_intensity(0), Some(Color::new(100, 100, 100, 255)));
    assert_eq!(get_rgba_from_intensity(1), Some(Color::new(0, 190, 0, 255)));
    assert_eq!(get_rgba_from_intensity(5), Some(Color::new(255, 0, 0, 255)));
    assert_eq!(get_rgba_from_intensity(7), Some(Color::new(13, 0, 140, 255)));
    assert_eq!(get_rgba_from_intensity(8), Some(Color::new(13, 0, 140, 255)));
    assert_eq!(get_rgba_from_intensity(9), None);
}

#[test]
fn box_fill_writes_and_leaves_the_rest() {
    let mut img = blank(8, 8);
    make_box(&mut img, 2, 4, 1, 3, Color::new(9, 8, 7, 255));
    assert_eq!(px(&img, 2, 1), (9, 8, 7, 255));
    assert_eq!(px(&img, 4, 3), (9, 8, 7, 255));
    assert_eq!(px(&img, 3, 2), (9, 8, 7, 255));
    assert_eq!(px(&img, 1, 1), (0, 0, 0, 0));
    assert_eq!(px(&img, 5, 2), (0, 0, 0, 0));
    assert_eq!(px(&img, 3, 4), (0, 0, 0, 0));
}

#[test]
fn box_overflowing_one_side_writes_only_in_bounds() {
    // The box sticks out past the left and top edges.
    let mut img = blank(8, 8);
    make_box(&mut img, -5, 2, -3, 1, Color::new(1, 2, 3, 255));
    assert_eq!(px(&img, 0, 0), (1, 2, 3, 255));
    assert_eq!(px(&img, 2, 1), (1, 2, 3, 255));
    // The rows and columns just past the box are untouched.
    for i in 0..8 {
        assert_eq!(px(&img, 3, i), (0, 0, 0, 0));
        assert_eq!(px(&img, i, 2), (0, 0, 0, 0));
    }
}

#[test]
fn station_marker_clipped_at_the_corner() {
    let cfg = small_config(20, 20);
    let mut img = blank(20, 20);
    // Bordered square: border 16x16ish around (1,1), fully exceeding the
    // top and left edges; only the in-bounds pixels are written.
    add_station_to_map(&mut img, &cfg, Coords { x: 1, y: 1, intensity: 5 });
    // Inside the colored square.
    assert_eq!(px(&img, 0, 0), (255, 0, 0, 255));
    assert_eq!(px(&img, 7, 7), (255, 0, 0, 255));
    // In the border ring, outside the colored square.
    assert_eq!(px(&img, 8, 0), (0, 0, 0, 255));
    assert_eq!(px(&img, 9, 9), (0, 0, 0, 255));
    // Beyond the border: untouched, adjacent rows not corrupted.
    for i in 0..20 {
        assert_eq!(px(&img, 10, i), (0, 0, 0, 0));
        assert_eq!(px(&img, i, 10), (0, 0, 0, 0));
    }
}

#[test]
fn unknown_class_draws_gray() {
    let cfg = small_config(20, 20);
    let mut img = blank(20, 20);
    add_station_to_map(&mut img, &cfg, Coords { x: 10, y: 10, intensity: 0 });
    assert_eq!(px(&img, 10, 10), (100, 100, 100, 255));
}

#[test]
fn blend_alpha_zero_keeps_destination() {
    let dest = Color::new(10, 20, 30, 255);
    let out = blend_pixel(Color::new(200, 200, 200, 0), dest);
    assert_eq!((out.r, out.g, out.b, out.a), (10, 20, 30, 255));
}

#[test]
fn blend_alpha_full_replaces_destination() {
    let icon = Color::new(200, 150, 90, 255);
    let out = blend_pixel(icon, Color::new(10, 20, 30, 255));
    assert_eq!((out.r, out.g, out.b, out.a), (200, 150, 90, 255));
}

#[test]
fn blend_half_alpha_sits_at_the_midpoint() {
    let out = blend_pixel(Color::new(200, 50, 0, 128), Color::new(100, 100, 100, 255));
    // Exact midpoints are 150, 75 and 50; truncation may land one low.
    assert_eq!(out.r, 150);
    assert_eq!(out.g, 74);
    assert_eq!(out.b, 49);
    assert_eq!(out.a, 255);
    assert!((2 * out.r as i32 - (200 + 100)).abs() <= 2);
    assert!((2 * out.g as i32 - (50 + 100)).abs() <= 2);
    assert!((2 * out.b as i32 - (0 + 100)).abs() <= 2);
}

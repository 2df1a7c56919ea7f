use taiwan_eq_map::config::MapConfig;
use taiwan_eq_map::coords::Coords;

#[test]
fn in_range_point_maps_to_pixel() {
    let cfg = MapConfig::taiwan();
    // long 23.5 deg, lat 121.0 deg, well inside the calibrated region
    let c = Coords::from_coordinates(&cfg, 235000, 1210000, 3).expect("should be on the raster");
    assert_eq!(c.x, 460);
    assert_eq!(c.y, 551);
    assert_eq!(c.intensity, 3);
}

#[test]
fn base_point_maps_to_corner() {
    let cfg = MapConfig::taiwan();
    let c = Coords::from_coordinates(&cfg, 218898, 1192021, 0).expect("corner is on the raster");
    assert_eq!(c.x, 0);
    assert_eq!(c.y, 1000);
}

#[test]
fn second_in_range_point() {
    let cfg = MapConfig::taiwan();
    let c = Coords::from_coordinates(&cfg, 250000, 1220000, 7).expect("should be on the raster");
    assert_eq!(c.x, 717);
    assert_eq!(c.y, 133);
}

#[test]
fn just_below_base_truncates_toward_zero() {
    let cfg = MapConfig::taiwan();
    // One e4 step west of the base latitude scales to a small negative
    // fraction; rounding toward zero keeps it at column 0 rather than
    // pushing it off the raster.
    let c = Coords::from_coordinates(&cfg, 218898, 1192020, 1).expect("still on the raster");
    assert_eq!(c.x, 0);
}

#[test]
fn far_south_longitude_is_rejected() {
    let cfg = MapConfig::taiwan();
    // long 10 deg puts the row at 4318, far past the raster
    assert!(Coords::from_coordinates(&cfg, 100000, 1210000, 1).is_none());
}

#[test]
fn far_west_latitude_is_rejected() {
    let cfg = MapConfig::taiwan();
    // lat 100 deg gives a negative column
    assert!(Coords::from_coordinates(&cfg, 235000, 1000000, 1).is_none());
}

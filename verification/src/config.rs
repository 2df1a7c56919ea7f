use vstd::prelude::*;

verus! {

/// Calibration and drawing configuration for one map raster.
///
/// Geographic coordinates are carried as fixed-point integers:
/// degrees scaled by 10^4 (`*_e4`).  The two linear calibration factors
/// are carried as thousandths (`*_milli`), so a pixel offset is
/// `(coord_e4 - base_e4) * scale_milli / 10^7`, truncated toward zero.
pub struct MapConfig {
    /// Raster width in pixels.
    pub width: u32,
    /// Raster height in pixels.
    pub height: u32,
    /// Side of the inner, intensity-colored station square.
    pub box_size: u32,
    /// Thickness of the black border around a station square.
    pub box_border: u32,
    /// Side of the epicenter icon.
    pub icon_size: u32,
    /// Longitude, in ten-thousandths of a degree, that maps to pixel row `height`.
    pub base_long_e4: i64,
    /// Latitude, in ten-thousandths of a degree, that maps to pixel column 0.
    pub base_lat_e4: i64,
    /// Pixels per degree of longitude, in thousandths.
    pub scale_long_milli: i64,
    /// Pixels per degree of latitude, in thousandths.
    pub scale_lat_milli: i64,
}

impl MapConfig {
    /// Bounds under which every transform and draw computation stays in range.
    pub open spec fn wf(self) -> bool {
        &&& 1 <= self.width <= 100000
        &&& 1 <= self.height <= 100000
        &&& self.box_size <= 100
        &&& self.box_border <= 100
        &&& self.icon_size <= 1000
        &&& 0 < self.scale_long_milli <= 1000000
        &&& 0 < self.scale_lat_milli <= 1000000
        &&& -10000000 <= self.base_long_e4 <= 10000000
        &&& -10000000 <= self.base_lat_e4 <= 10000000
    }

    /// The single calibration this service runs with: the Taiwan map
    /// raster and the factors tuned to it.
    pub fn taiwan() -> (c: MapConfig)
        ensures
            c == spec_taiwan_config(),
            c.wf(),
    {
        MapConfig {
            width: 950,
            height: 1000,
            box_size: 12,
            box_border: 2,
            icon_size: 40,
            base_long_e4: 218898,
            base_lat_e4: 1192021,
            scale_long_milli: 279065,
            scale_lat_milli: 256364,
        }
    }
}

/// The Taiwan calibration as a specification-level value.
pub open spec fn spec_taiwan_config() -> MapConfig {
    MapConfig {
        width: 950,
        height: 1000,
        box_size: 12,
        box_border: 2,
        icon_size: 40,
        base_long_e4: 218898,
        base_lat_e4: 1192021,
        scale_long_milli: 279065,
        scale_lat_milli: 256364,
    }
}

} // verus!

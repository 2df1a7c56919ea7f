use vstd::prelude::*;

use crate::config::MapConfig;

verus! {

/// A location mapped onto the raster, with the intensity class
/// (0 = unknown, 1..=7 = measured) that decides the marker color.
pub struct Coords {
    pub x: u32,
    pub y: u32,
    pub intensity: u8,
}

/// `(diff * scale) / denom`, rounded toward zero, the way a
/// float-to-integer cast rounds.
pub open spec fn scale_trunc(diff: int, scale: int, denom: int) -> int
    recommends
        denom > 0,
{
    if diff >= 0 {
        (diff * scale) / denom
    } else {
        -(((-diff) * scale) / denom)
    }
}

/// Pixel column of a latitude given in ten-thousandths of a degree.
pub open spec fn spec_pixel_x(cfg: MapConfig, lat_e4: int) -> int {
    scale_trunc(lat_e4 - cfg.base_lat_e4, cfg.scale_lat_milli as int, 10000000)
}

/// Pixel row of a longitude given in ten-thousandths of a degree.
pub open spec fn spec_pixel_y(cfg: MapConfig, long_e4: int) -> int {
    cfg.height - scale_trunc(long_e4 - cfg.base_long_e4, cfg.scale_long_milli as int, 10000000)
}

/// The transform accepts a pixel on the closed ranges `[0, width]` and
/// `[0, height]`; the draw routines clip to the raster themselves.
pub open spec fn in_pixel_bounds(cfg: MapConfig, x: int, y: int) -> bool {
    &&& 0 <= x <= cfg.width
    &&& 0 <= y <= cfg.height
}

/// `(diff * scale) / 10^7` rounded toward zero, carried out on
/// magnitudes so that every machine division is on non-negative values.
fn scale_trunc_exec(diff: i64, scale: i64) -> (r: i64)
    requires
        -20000000 <= diff <= 20000000,
        0 < scale <= 1000000,
    ensures
        r == scale_trunc(diff as int, scale as int, 10000000),
        -2000000 <= r <= 2000000,
{
    if diff >= 0 {
        proof {
            assert(0 <= diff * scale <= 20000000000000) by (nonlinear_arith)
                requires
                    0 <= diff <= 20000000,
                    0 < scale <= 1000000,
            ;
        }
        let prod: u64 = (diff as u64) * (scale as u64);
        let q: u64 = prod / 10000000;
        proof {
            vstd::arithmetic::div_mod::lemma_div_is_ordered(
                prod as int,
                20000000000000,
                10000000,
            );
        }
        q as i64
    } else {
        let mag: i64 = -diff;
        proof {
            assert(0 <= mag * scale <= 20000000000000) by (nonlinear_arith)
                requires
                    0 <= mag <= 20000000,
                    0 < scale <= 1000000,
            ;
        }
        let prod: u64 = (mag as u64) * (scale as u64);
        let q: u64 = prod / 10000000;
        proof {
            vstd::arithmetic::div_mod::lemma_div_is_ordered(
                prod as int,
                20000000000000,
                10000000,
            );
        }
        -(q as i64)
    }
}

impl Coords {
    /// Maps a geographic point to an integer pixel point on `cfg`'s
    /// raster, or `None` when the linear transform lands outside it.
    pub fn from_coordinates(cfg: &MapConfig, long_e4: i64, lat_e4: i64, intensity: u8) -> (r:
        Option<Coords>)
        requires
            cfg.wf(),
            -10000000 <= long_e4 <= 10000000,
            -10000000 <= lat_e4 <= 10000000,
        ensures
            in_pixel_bounds(
                *cfg,
                spec_pixel_x(*cfg, lat_e4 as int),
                spec_pixel_y(*cfg, long_e4 as int),
            ) <==> r is Some,
            r matches Some(c) ==> {
                &&& c.x == spec_pixel_x(*cfg, lat_e4 as int)
                &&& c.y == spec_pixel_y(*cfg, long_e4 as int)
                &&& c.intensity == intensity
            },
    {
        let x_val: i64 = scale_trunc_exec(lat_e4 - cfg.base_lat_e4, cfg.scale_lat_milli);
        let y_scaled: i64 = scale_trunc_exec(long_e4 - cfg.base_long_e4, cfg.scale_long_milli);
        let y_val: i64 = cfg.height as i64 - y_scaled;

        if x_val < 0 || x_val > cfg.width as i64 || y_val < 0 || y_val > cfg.height as i64 {
            None
        } else {
            Some(Coords { x: x_val as u32, y: y_val as u32, intensity })
        }
    }
}

} // verus!

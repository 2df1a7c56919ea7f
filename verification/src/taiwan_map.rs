use vstd::prelude::*;

use crate::config::MapConfig;
use crate::coords::{Coords, in_pixel_bounds, spec_pixel_x, spec_pixel_y};
use crate::cwb_api::{Earthquake, EventV, StationV};
use crate::intensity::{classify_ok, classify_value};
use crate::raster::{Color, Raster, raster_dims, raster_pixels};

verus! {

/// The display color of an intensity class: gray for the error
/// sentinel 0, the graded scale for 1..=7, indigo again for 8, and
/// nothing above that.
pub open spec fn spec_color_of_intensity(intensity: int) -> Option<Color> {
    if intensity == 8 || intensity == 7 {
        Some(Color { r: 13, g: 0, b: 140, a: 255 })
    } else if intensity == 6 {
        Some(Color { r: 240, g: 0, b: 255, a: 255 })
    } else if intensity == 5 {
        Some(Color { r: 255, g: 0, b: 0, a: 255 })
    } else if intensity == 4 {
        Some(Color { r: 255, g: 130, b: 0, a: 255 })
    } else if intensity == 3 {
        Some(Color { r: 255, g: 220, b: 0, a: 255 })
    } else if intensity == 2 {
        Some(Color { r: 0, g: 140, b: 0, a: 255 })
    } else if intensity == 1 {
        Some(Color { r: 0, g: 190, b: 0, a: 255 })
    } else if intensity == 0 {
        Some(Color { r: 100, g: 100, b: 100, a: 255 })
    } else {
        None
    }
}

/// Looks an intensity class up in the fixed color table.
pub fn get_rgba_from_intensity(intensity: u8) -> (r: Option<Color>)
    ensures
        r == spec_color_of_intensity(intensity as int),
{
    match intensity {
        8 => Some(Color::new(13, 0, 140, 255)),
        7 => Some(Color::new(13, 0, 140, 255)),
        6 => Some(Color::new(240, 0, 255, 255)),
        5 => Some(Color::new(255, 0, 0, 255)),
        4 => Some(Color::new(255, 130, 0, 255)),
        3 => Some(Color::new(255, 220, 0, 255)),
        2 => Some(Color::new(0, 140, 0, 255)),
        1 => Some(Color::new(0, 190, 0, 255)),
        0 => Some(Color::new(100, 100, 100, 255)),
        _ => None,
    }
}

/// Whether `(px, py)` lies in the closed box `[x0, x1] x [y0, y1]`
/// clipped to a `w x h` raster: exactly the pixels a box fill writes.
pub open spec fn in_clipped_box(
    px: int,
    py: int,
    x0: int,
    x1: int,
    y0: int,
    y1: int,
    w: int,
    h: int,
) -> bool {
    &&& x0 <= px <= x1
    &&& y0 <= py <= y1
    &&& 0 <= px < w
    &&& 0 <= py < h
}

/// Fills the closed box `[x0, x1] x [y0, y1]` with `color`, skipping
/// every address outside the raster; nothing else is touched.
pub fn make_box(img: &mut Raster, x0: i64, x1: i64, y0: i64, y1: i64, color: Color)
    requires
        -1000000 <= x0 <= 1000000,
        -1000000 <= x1 <= 1000000,
        -1000000 <= y0 <= 1000000,
        -1000000 <= y1 <= 1000000,
        raster_dims(*old(img)).0 <= 1000000,
        raster_dims(*old(img)).1 <= 1000000,
    ensures
        raster_dims(*final(img)) == raster_dims(*old(img)),
        forall|px: int, py: int|
            in_clipped_box(
                px,
                py,
                x0 as int,
                x1 as int,
                y0 as int,
                y1 as int,
                raster_dims(*old(img)).0,
                raster_dims(*old(img)).1,
            ) ==> #[trigger] raster_pixels(*final(img))[(px, py)] == color.as_tuple(),
        forall|px: int, py: int|
            !in_clipped_box(
                px,
                py,
                x0 as int,
                x1 as int,
                y0 as int,
                y1 as int,
                raster_dims(*old(img)).0,
                raster_dims(*old(img)).1,
            ) ==> #[trigger] raster_pixels(*final(img))[(px, py)] == raster_pixels(*old(img))[
                (px, py)
            ],
{
    let w: u32 = img.width();
    let h: u32 = img.height();

    if w == 0 || h == 0 || x1 < 0 || y1 < 0 || x0 >= w as i64 || y0 >= h as i64 || x1 < x0 || y1 < y0 {
        return ;
    }
    let cx0: u32 = if x0 < 0 {
        0
    } else {
        x0 as u32
    };
    let cx1: u32 = if x1 >= w as i64 {
        w - 1
    } else {
        x1 as u32
    };
    let cy0: u32 = if y0 < 0 {
        0
    } else {
        y0 as u32
    };
    let cy1: u32 = if y1 >= h as i64 {
        h - 1
    } else {
        y1 as u32
    };

    let mut yy: u32 = cy0;
    while yy <= cy1
        invariant
            raster_dims(*img) == raster_dims(*old(img)),
            raster_dims(*old(img)) == (w as int, h as int),
            0 < w <= 1000000,
            0 < h <= 1000000,
            cy0 <= yy <= cy1 + 1,
            cx0 <= cx1 < w,
            cy0 <= cy1 < h,
            forall|px: int, py: int|
                in_clipped_box(px, py, x0 as int, x1 as int, y0 as int, y1 as int, w as int, h as int) <==> (
                cx0 <= px <= cx1 && cy0 <= py <= cy1),
            forall|px: int, py: int|
                (cx0 <= px <= cx1 && cy0 <= py < yy) ==> #[trigger] raster_pixels(*img)[(px, py)]
                    == color.as_tuple(),
            forall|px: int, py: int|
                !(cx0 <= px <= cx1 && cy0 <= py < yy) ==> #[trigger] raster_pixels(*img)[(px, py)]
                    == raster_pixels(*old(img))[(px, py)],
        decreases cy1 + 1 - yy,
    {
        let mut xx: u32 = cx0;
        while xx <= cx1
            invariant
                raster_dims(*img) == raster_dims(*old(img)),
                raster_dims(*old(img)) == (w as int, h as int),
                0 < w <= 1000000,
                0 < h <= 1000000,
                cy0 <= yy <= cy1,
                cx0 <= xx <= cx1 + 1,
                cx0 <= cx1 < w,
                cy0 <= cy1 < h,
                forall|px: int, py: int|
                    ((cx0 <= px <= cx1 && cy0 <= py < yy) || (cx0 <= px < xx && py == yy))
                        ==> #[trigger] raster_pixels(*img)[(px, py)] == color.as_tuple(),
                forall|px: int, py: int|
                    !((cx0 <= px <= cx1 && cy0 <= py < yy) || (cx0 <= px < xx && py == yy))
                        ==> #[trigger] raster_pixels(*img)[(px, py)] == raster_pixels(*old(img))[
                        (px, py)
                    ],
            decreases cx1 + 1 - xx,
        {
            img.put_pixel(xx, yy, color);
            xx = xx + 1;
        }
        yy = yy + 1;
    }
}

/// Side of the black border square behind a station marker.
pub open spec fn station_back_size(cfg: MapConfig) -> int {
    cfg.box_size + 2 * cfg.box_border
}

/// The closed box `[.0, .1] x [.2, .3]` of the border square centered
/// at `(x, y)`.
pub open spec fn station_outer_box(cfg: MapConfig, x: int, y: int) -> (int, int, int, int) {
    let s = station_back_size(cfg);
    (x - s / 2, x - s / 2 + s, y - s / 2, y - s / 2 + s)
}

/// The closed box of the colored square centered at `(x, y)`.
pub open spec fn station_inner_box(cfg: MapConfig, x: int, y: int) -> (int, int, int, int) {
    let s = cfg.box_size as int;
    (x - s / 2, x - s / 2 + s, y - s / 2, y - s / 2 + s)
}

/// The border's fill as a plain tuple.
pub open spec fn black_pixel() -> (u8, u8, u8, u8) {
    (0u8, 0u8, 0u8, 255u8)
}

/// The colored square's fill for a station of this intensity class.
pub open spec fn station_fill(intensity: int) -> (u8, u8, u8, u8) {
    spec_color_of_intensity(intensity).unwrap().as_tuple()
}

/// Whether `(px, py)` is written by the colored square of a marker
/// centered at `(x, y)` on a `w x h` raster.
pub open spec fn station_inner_covers(
    cfg: MapConfig,
    x: int,
    y: int,
    px: int,
    py: int,
    w: int,
    h: int,
) -> bool {
    let b = station_inner_box(cfg, x, y);
    in_clipped_box(px, py, b.0, b.1, b.2, b.3, w, h)
}

/// Whether `(px, py)` is written by the border square of a marker
/// centered at `(x, y)` on a `w x h` raster.
pub open spec fn station_outer_covers(
    cfg: MapConfig,
    x: int,
    y: int,
    px: int,
    py: int,
    w: int,
    h: int,
) -> bool {
    let b = station_outer_box(cfg, x, y);
    in_clipped_box(px, py, b.0, b.1, b.2, b.3, w, h)
}

/// What one station marker leaves at `(px, py)`, given what stood
/// there before: the intensity color inside, the black border around
/// it, and the old pixel everywhere else.
pub open spec fn station_paint(
    cfg: MapConfig,
    x: int,
    y: int,
    intensity: int,
    px: int,
    py: int,
    w: int,
    h: int,
    prev: (u8, u8, u8, u8),
) -> (u8, u8, u8, u8) {
    if station_inner_covers(cfg, x, y, px, py, w, h) {
        station_fill(intensity)
    } else if station_outer_covers(cfg, x, y, px, py, w, h) {
        black_pixel()
    } else {
        prev
    }
}

/// Draws one station marker: the black border square, then the
/// intensity-colored square on top of it, both clipped to the raster.
pub fn add_station_to_map(img: &mut Raster, cfg: &MapConfig, coordinates: Coords)
    requires
        cfg.wf(),
        coordinates.intensity <= 8,
        coordinates.x <= cfg.width,
        coordinates.y <= cfg.height,
        raster_dims(*old(img)).0 <= 1000000,
        raster_dims(*old(img)).1 <= 1000000,
    ensures
        raster_dims(*final(img)) == raster_dims(*old(img)),
        forall|px: int, py: int|
            #[trigger] raster_pixels(*final(img))[(px, py)] == station_paint(
                *cfg,
                coordinates.x as int,
                coordinates.y as int,
                coordinates.intensity as int,
                px,
                py,
                raster_dims(*old(img)).0,
                raster_dims(*old(img)).1,
                raster_pixels(*old(img))[(px, py)],
            ),
{
    let back_box_size: i64 = cfg.box_size as i64 + cfg.box_border as i64 * 2;
    let box_start_x: i64 = coordinates.x as i64 - back_box_size / 2;
    let box_end_x: i64 = box_start_x + back_box_size;
    let box_start_y: i64 = coordinates.y as i64 - back_box_size / 2;
    let box_end_y: i64 = box_start_y + back_box_size;
    make_box(
        img,
        box_start_x,
        box_end_x,
        box_start_y,
        box_end_y,
        Color::new(0, 0, 0, 255),
    );

    let box_size: i64 = cfg.box_size as i64;
    let box_start_x: i64 = coordinates.x as i64 - box_size / 2;
    let box_end_x: i64 = box_start_x + box_size;
    let box_start_y: i64 = coordinates.y as i64 - box_size / 2;
    let box_end_y: i64 = box_start_y + box_size;
    let color = match get_rgba_from_intensity(coordinates.intensity) {
        Some(c) => c,
        None => Color::new(100, 100, 100, 255),
    };
    make_box(img, box_start_x, box_end_x, box_start_y, box_end_y, color);
}

// ------------------------------------------------------------------
// Alpha blending and the epicenter icon
// ------------------------------------------------------------------

/// One channel of the blend: the icon weighted by its alpha, the
/// destination by the rest, truncated.
pub open spec fn spec_blend_channel(ic: int, mc: int, a: int) -> int {
    (ic * a + mc * (255 - a)) / 255
}

/// What compositing one icon pixel over a destination pixel leaves:
/// alpha 0 keeps the destination, alpha 255 is the icon pixel itself,
/// anything between is the weighted blend with full output alpha.
pub open spec fn spec_blend(icon: (u8, u8, u8, u8), dest: (u8, u8, u8, u8)) -> (u8, u8, u8, u8) {
    if icon.3 == 0 {
        dest
    } else if icon.3 == 255 {
        icon
    } else {
        (
            spec_blend_channel(icon.0 as int, dest.0 as int, icon.3 as int) as u8,
            spec_blend_channel(icon.1 as int, dest.1 as int, icon.3 as int) as u8,
            spec_blend_channel(icon.2 as int, dest.2 as int, icon.3 as int) as u8,
            255u8,
        )
    }
}

/// A blended channel never leaves the byte range.
pub proof fn lemma_blend_channel_in_range(ic: int, mc: int, a: int)
    requires
        0 <= ic <= 255,
        0 <= mc <= 255,
        0 <= a <= 255,
    ensures
        0 <= spec_blend_channel(ic, mc, a) <= 255,
{
    assert(0 <= ic * a + mc * (255 - a) <= 255 * 255) by (nonlinear_arith)
        requires
            0 <= ic <= 255,
            0 <= mc <= 255,
            0 <= a <= 255,
    ;
}

/// An invisible icon pixel never changes the destination; a fully
/// opaque one replaces it outright.
pub proof fn lemma_blend_alpha_extremes(icon: (u8, u8, u8, u8), dest: (u8, u8, u8, u8))
    ensures
        icon.3 == 0 ==> spec_blend(icon, dest) == dest,
        icon.3 == 255 ==> spec_blend(icon, dest) == icon,
{
}

/// At alpha 128 a blended channel sits within one of the exact
/// midpoint of the two channels (doubled here to stay in integers).
pub proof fn lemma_blend_half_alpha_near_midpoint(ic: u8, mc: u8)
    ensures
        -2 <= 2 * spec_blend_channel(ic as int, mc as int, 128) - (ic + mc) <= 2,
{
    let s = ic as int * 128 + mc as int * 127;
    let q = s / 255;
    vstd::arithmetic::div_mod::lemma_fundamental_div_mod(s, 255);
    let r = s % 255;
    assert(0 <= r < 255);
    assert(s == 255 * q + r);
    assert(255 * (2 * q - (ic + mc)) == ic - mc - 2 * r);
}

/// One channel of the blend, in machine arithmetic.
fn blend_channel(ic: u8, mc: u8, a: u8) -> (r: u8)
    ensures
        r as int == spec_blend_channel(ic as int, mc as int, a as int),
{
    proof {
        lemma_blend_channel_in_range(ic as int, mc as int, a as int);
        assert(ic as int * a as int + mc as int * (255 - a as int) <= 255 * 255)
            by (nonlinear_arith)
            requires
                0 <= ic as int <= 255,
                0 <= mc as int <= 255,
                0 <= a as int <= 255,
        ;
    }
    let num: u32 = ic as u32 * a as u32 + mc as u32 * (255 - a as u32);
    (num / 255) as u8
}

/// Composites one icon pixel over one destination pixel.
pub fn blend_pixel(icon: Color, dest: Color) -> (r: Color)
    ensures
        r.as_tuple() == spec_blend(icon.as_tuple(), dest.as_tuple()),
{
    if icon.a == 0 {
        dest
    } else if icon.a == 255 {
        icon
    } else {
        proof {
            lemma_blend_channel_in_range(icon.r as int, dest.r as int, icon.a as int);
            lemma_blend_channel_in_range(icon.g as int, dest.g as int, icon.a as int);
            lemma_blend_channel_in_range(icon.b as int, dest.b as int, icon.a as int);
        }
        Color {
            r: blend_channel(icon.r, dest.r, icon.a),
            g: blend_channel(icon.g, dest.g, icon.a),
            b: blend_channel(icon.b, dest.b, icon.a),
            a: 255,
        }
    }
}

/// Whether `(px, py)` is composited over by an icon whose top-left
/// corner sits at `(bx0, by0)`: inside the icon's square, inside the
/// raster, and backed by a real icon pixel.
pub open spec fn epi_covers(
    epi: Raster,
    bx0: int,
    by0: int,
    size: int,
    px: int,
    py: int,
    w: int,
    h: int,
) -> bool {
    &&& bx0 <= px < bx0 + size
    &&& by0 <= py < by0 + size
    &&& 0 <= px < w
    &&& 0 <= py < h
    &&& px - bx0 < raster_dims(epi).0
    &&& py - by0 < raster_dims(epi).1
}

/// What compositing the icon leaves at `(px, py)`.
pub open spec fn epi_paint(
    epi: Raster,
    bx0: int,
    by0: int,
    size: int,
    px: int,
    py: int,
    w: int,
    h: int,
    prev: (u8, u8, u8, u8),
) -> (u8, u8, u8, u8) {
    if epi_covers(epi, bx0, by0, size, px, py, w, h) {
        spec_blend(raster_pixels(epi)[(px - bx0, py - by0)], prev)
    } else {
        prev
    }
}

/// Alpha-composites the epicenter icon onto the map, centered at
/// `coords`.  Addresses outside the raster, or beyond the icon file's
/// own size, are skipped without error.
pub fn mark_epicenter(img: &mut Raster, epi: &Raster, cfg: &MapConfig, coords: Coords)
    requires
        cfg.wf(),
        coords.x <= cfg.width,
        coords.y <= cfg.height,
        raster_dims(*old(img)).0 <= 1000000,
        raster_dims(*old(img)).1 <= 1000000,
    ensures
        raster_dims(*final(img)) == raster_dims(*old(img)),
        forall|px: int, py: int|
            #[trigger] raster_pixels(*final(img))[(px, py)] == epi_paint(
                *epi,
                coords.x - cfg.icon_size as int / 2,
                coords.y - cfg.icon_size as int / 2,
                cfg.icon_size as int,
                px,
                py,
                raster_dims(*old(img)).0,
                raster_dims(*old(img)).1,
                raster_pixels(*old(img))[(px, py)],
            ),
{
    let w: u32 = img.width();
    let h: u32 = img.height();
    let epi_w: u32 = epi.width();
    let epi_h: u32 = epi.height();
    let size: u32 = cfg.icon_size;
    let bx0: i64 = coords.x as i64 - (size / 2) as i64;
    let by0: i64 = coords.y as i64 - (size / 2) as i64;

    let ghost bx0i = coords.x - cfg.icon_size as int / 2;
    let ghost by0i = coords.y - cfg.icon_size as int / 2;

    let mut xk: u32 = 0;
    while xk < size
        invariant
            raster_dims(*img) == raster_dims(*old(img)),
            raster_dims(*old(img)) == (w as int, h as int),
            raster_dims(*epi) == (epi_w as int, epi_h as int),
            xk <= size,
            size == cfg.icon_size <= 1000,
            bx0 == bx0i,
            by0 == by0i,
            -1000 <= bx0i <= 1000000,
            -1000 <= by0i <= 1000000,
            forall|px: int, py: int|
                (epi_covers(*epi, bx0i, by0i, size as int, px, py, w as int, h as int) && px - bx0i
                    < xk) ==> #[trigger] raster_pixels(*img)[(px, py)] == spec_blend(
                    raster_pixels(*epi)[(px - bx0i, py - by0i)],
                    raster_pixels(*old(img))[(px, py)],
                ),
            forall|px: int, py: int|
                !(epi_covers(*epi, bx0i, by0i, size as int, px, py, w as int, h as int) && px
                    - bx0i < xk) ==> #[trigger] raster_pixels(*img)[(px, py)] == raster_pixels(
                    *old(img),
                )[(px, py)],
        decreases size - xk,
    {
        let mut yk: u32 = 0;
        while yk < size
            invariant
                raster_dims(*img) == raster_dims(*old(img)),
                raster_dims(*old(img)) == (w as int, h as int),
                raster_dims(*epi) == (epi_w as int, epi_h as int),
                xk < size,
                yk <= size,
                size == cfg.icon_size <= 1000,
                bx0 == bx0i,
                by0 == by0i,
                -1000 <= bx0i <= 1000000,
                -1000 <= by0i <= 1000000,
                forall|px: int, py: int|
                    (epi_covers(*epi, bx0i, by0i, size as int, px, py, w as int, h as int) && (px
                        - bx0i < xk || (px - bx0i == xk && py - by0i < yk)))
                        ==> #[trigger] raster_pixels(*img)[(px, py)] == spec_blend(
                        raster_pixels(*epi)[(px - bx0i, py - by0i)],
                        raster_pixels(*old(img))[(px, py)],
                    ),
                forall|px: int, py: int|
                    !(epi_covers(*epi, bx0i, by0i, size as int, px, py, w as int, h as int) && (px
                        - bx0i < xk || (px - bx0i == xk && py - by0i < yk)))
                        ==> #[trigger] raster_pixels(*img)[(px, py)] == raster_pixels(*old(img))[
                        (px, py)
                    ],
            decreases size - yk,
        {
            let x_map: i64 = bx0 + xk as i64;
            let y_map: i64 = by0 + yk as i64;
            if 0 <= x_map && x_map < w as i64 && 0 <= y_map && y_map < h as i64 && xk < epi_w
                && yk < epi_h {
                let icon_pixel = epi.get_pixel(xk, yk);
                let map_pixel = img.get_pixel(x_map as u32, y_map as u32);
                if icon_pixel.a != 0 {
                    let out = blend_pixel(icon_pixel, map_pixel);
                    img.put_pixel(x_map as u32, y_map as u32, out);
                }
            }
            yk = yk + 1;
        }
        xk = xk + 1;
    }
}

// ------------------------------------------------------------------
// Marking a whole event
// ------------------------------------------------------------------

/// A coordinate in the fixed-point range every transform accepts.
pub open spec fn coord_in_range(v: int) -> bool {
    -10000000 <= v <= 10000000
}

/// Every coordinate the event carries is in range: what the binary
/// checks before handing an event over.
pub open spec fn event_in_range(e: EventV) -> bool {
    &&& coord_in_range(e.epicenter_long_e4)
    &&& coord_in_range(e.epicenter_lat_e4)
    &&& forall|i: int, j: int|
        0 <= i < e.areas.len() && 0 <= j < e.areas[i].len() ==> coord_in_range(
            #[trigger] e.areas[i][j].lat_e4,
        ) && coord_in_range(e.areas[i][j].long_e4)
}

/// Where a station's marker lands, if on the raster, with the class
/// its reading parses to (0 when it does not).  The feed hands the
/// station's latitude and longitude to the transform in this order.
pub open spec fn spec_station_point(cfg: MapConfig, st: StationV) -> Option<(int, int, int)> {
    let inten = if classify_ok(st.intensity_raw) {
        classify_value(st.intensity_raw)
    } else {
        0
    };
    let x = spec_pixel_x(cfg, st.long_e4);
    let y = spec_pixel_y(cfg, st.lat_e4);
    if in_pixel_bounds(cfg, x, y) {
        Some((x, y, inten))
    } else {
        None
    }
}

/// What one list of stations, drawn in order, leaves at `(px, py)`.
pub open spec fn stations_paint(
    cfg: MapConfig,
    stations: Seq<StationV>,
    px: int,
    py: int,
    w: int,
    h: int,
    base: (u8, u8, u8, u8),
) -> (u8, u8, u8, u8)
    decreases stations.len(),
{
    if stations.len() == 0 {
        base
    } else {
        let prev = stations_paint(cfg, stations.drop_last(), px, py, w, h, base);
        match spec_station_point(cfg, stations.last()) {
            Some(pt) => station_paint(cfg, pt.0, pt.1, pt.2, px, py, w, h, prev),
            None => prev,
        }
    }
}

/// What the areas' stations, area by area in feed order, leave at
/// `(px, py)`.
pub open spec fn areas_paint(
    cfg: MapConfig,
    areas: Seq<Seq<StationV>>,
    px: int,
    py: int,
    w: int,
    h: int,
    base: (u8, u8, u8, u8),
) -> (u8, u8, u8, u8)
    decreases areas.len(),
{
    if areas.len() == 0 {
        base
    } else {
        stations_paint(cfg, areas.last(), px, py, w, h, areas_paint(
            cfg,
            areas.drop_last(),
            px,
            py,
            w,
            h,
            base,
        ))
    }
}

/// What the epicenter pass leaves at `(px, py)`: the icon composited
/// at the epicenter's pixel when the transform keeps it on the raster,
/// the original pixel otherwise.
pub open spec fn epicenter_base(
    cfg: MapConfig,
    e: EventV,
    epi: Raster,
    px: int,
    py: int,
    w: int,
    h: int,
    orig: (u8, u8, u8, u8),
) -> (u8, u8, u8, u8) {
    let x = spec_pixel_x(cfg, e.epicenter_lat_e4);
    let y = spec_pixel_y(cfg, e.epicenter_long_e4);
    if in_pixel_bounds(cfg, x, y) {
        epi_paint(
            epi,
            x - cfg.icon_size as int / 2,
            y - cfg.icon_size as int / 2,
            cfg.icon_size as int,
            px,
            py,
            w,
            h,
            orig,
        )
    } else {
        orig
    }
}

proof fn lemma_stations_paint_push(
    cfg: MapConfig,
    stations: Seq<StationV>,
    st: StationV,
    px: int,
    py: int,
    w: int,
    h: int,
    base: (u8, u8, u8, u8),
)
    ensures
        stations_paint(cfg, stations.push(st), px, py, w, h, base) == (match spec_station_point(
            cfg,
            st,
        ) {
            Some(pt) => station_paint(
                cfg,
                pt.0,
                pt.1,
                pt.2,
                px,
                py,
                w,
                h,
                stations_paint(cfg, stations, px, py, w, h, base),
            ),
            None => stations_paint(cfg, stations, px, py, w, h, base),
        }),
{
    assert(stations.push(st).drop_last() =~= stations);
}

proof fn lemma_areas_paint_push(
    cfg: MapConfig,
    areas: Seq<Seq<StationV>>,
    area: Seq<StationV>,
    px: int,
    py: int,
    w: int,
    h: int,
    base: (u8, u8, u8, u8),
)
    ensures
        areas_paint(cfg, areas.push(area), px, py, w, h, base) == stations_paint(
            cfg,
            area,
            px,
            py,
            w,
            h,
            areas_paint(cfg, areas, px, py, w, h, base),
        ),
{
    assert(areas.push(area).drop_last() =~= areas);
}

impl Earthquake {
    /// Draws the whole event on the map raster: the epicenter icon
    /// first, then every station marker, area by area in feed order,
    /// so overlapping stations sit on top of the icon.
    pub fn mark_image_with_eq_data(&self, img: &mut Raster, epi: &Raster, cfg: &MapConfig)
        requires
            cfg.wf(),
            event_in_range(self@),
            raster_dims(*old(img)).0 <= 1000000,
            raster_dims(*old(img)).1 <= 1000000,
        ensures
            raster_dims(*final(img)) == raster_dims(*old(img)),
            forall|px: int, py: int|
                #[trigger] raster_pixels(*final(img))[(px, py)] == areas_paint(
                    *cfg,
                    self@.areas,
                    px,
                    py,
                    raster_dims(*old(img)).0,
                    raster_dims(*old(img)).1,
                    epicenter_base(
                        *cfg,
                        self@,
                        *epi,
                        px,
                        py,
                        raster_dims(*old(img)).0,
                        raster_dims(*old(img)).1,
                        raster_pixels(*old(img))[(px, py)],
                    ),
                ),
    {
        let ghost w = raster_dims(*old(img)).0;
        let ghost h = raster_dims(*old(img)).1;

        let epicenter_coords = Coords::from_coordinates(
            cfg,
            self.earthquake_info.epicenter.long,
            self.earthquake_info.epicenter.lat,
            0,
        );
        if let Some(epicenter_coords) = epicenter_coords {
            mark_epicenter(img, epi, cfg, epicenter_coords);
        }

        let ghost base = raster_pixels(*img);
        proof {
            assert forall|px: int, py: int| #[trigger] base[(px, py)] == epicenter_base(
                *cfg,
                self@,
                *epi,
                px,
                py,
                w,
                h,
                raster_pixels(*old(img))[(px, py)],
            ) by {}
        }

        let n_areas: usize = self.intensity.shaking_area.len();
        let mut a: usize = 0;
        while a < n_areas
            invariant
                cfg.wf(),
                event_in_range(self@),
                n_areas == self.intensity.shaking_area.len(),
                a <= n_areas,
                self@.areas.len() == n_areas,
                raster_dims(*img) == (w, h),
                w <= 1000000,
                h <= 1000000,
                forall|px: int, py: int| #[trigger] raster_pixels(*img)[(px, py)] == areas_paint(
                    *cfg,
                    self@.areas.take(a as int),
                    px,
                    py,
                    w,
                    h,
                    base[(px, py)],
                ),
            decreases n_areas - a,
        {
            let n_st: usize = self.intensity.shaking_area[a].eq_station.len();
            proof {
                assert(self@.areas[a as int] == self.intensity.shaking_area@[a as int]@);
                assert(self@.areas[a as int].len() == n_st);
            }
            let mut si: usize = 0;
            while si < n_st
                invariant
                    cfg.wf(),
                    event_in_range(self@),
                    n_areas == self.intensity.shaking_area.len(),
                    a < n_areas,
                    self@.areas.len() == n_areas,
                    n_st == self.intensity.shaking_area[a as int].eq_station.len(),
                    self@.areas[a as int].len() == n_st,
                    si <= n_st,
                    raster_dims(*img) == (w, h),
                    w <= 1000000,
                    h <= 1000000,
                    forall|px: int, py: int| #[trigger] raster_pixels(*img)[(px, py)]
                        == stations_paint(
                        *cfg,
                        self@.areas[a as int].take(si as int),
                        px,
                        py,
                        w,
                        h,
                        areas_paint(*cfg, self@.areas.take(a as int), px, py, w, h, base[(px, py)]),
                    ),
                decreases n_st - si,
            {
                let station = &self.intensity.shaking_area[a].eq_station[si];
                proof {
                    assert(station@ == self@.areas[a as int][si as int]);
                    assert(coord_in_range(self@.areas[a as int][si as int].lat_e4));
                    assert(coord_in_range(self@.areas[a as int][si as int].long_e4));
                }
                let intensity: u8 = match station.convert_station_intensity_to_u8() {
                    Ok(num) => num,
                    Err(_) => 0,
                };
                let coords_opt = Coords::from_coordinates(
                    cfg,
                    station.station_lat,
                    station.station_long,
                    intensity,
                );
                proof {
                    assert(self@.areas[a as int].take(si as int + 1).drop_last() =~= self@.areas[
                        a as int
                    ].take(si as int));
                    assert(self@.areas[a as int].take(si as int + 1) =~= self@.areas[
                        a as int
                    ].take(si as int).push(station@));
                }
                if let Some(coords) = coords_opt {
                    add_station_to_map(img, cfg, coords);
                }
                proof {
                    assert forall|px: int, py: int| #[trigger] raster_pixels(*img)[(px, py)]
                        == stations_paint(
                        *cfg,
                        self@.areas[a as int].take(si as int + 1),
                        px,
                        py,
                        w,
                        h,
                        areas_paint(*cfg, self@.areas.take(a as int), px, py, w, h, base[(px, py)]),
                    ) by {
                        lemma_stations_paint_push(
                            *cfg,
                            self@.areas[a as int].take(si as int),
                            station@,
                            px,
                            py,
                            w,
                            h,
                            areas_paint(
                                *cfg,
                                self@.areas.take(a as int),
                                px,
                                py,
                                w,
                                h,
                                base[(px, py)],
                            ),
                        );
                    }
                }
                si = si + 1;
            }
            proof {
                assert(self@.areas[a as int].take(n_st as int) =~= self@.areas[a as int]);
                assert(self@.areas.take(a as int + 1) =~= self@.areas.take(a as int).push(
                    self@.areas[a as int],
                ));
                assert forall|px: int, py: int| #[trigger] raster_pixels(*img)[(px, py)]
                    == areas_paint(
                    *cfg,
                    self@.areas.take(a as int + 1),
                    px,
                    py,
                    w,
                    h,
                    base[(px, py)],
                ) by {
                    lemma_areas_paint_push(
                        *cfg,
                        self@.areas.take(a as int),
                        self@.areas[a as int],
                        px,
                        py,
                        w,
                        h,
                        base[(px, py)],
                    );
                }
            }
            a = a + 1;
        }
        proof {
            assert(self@.areas.take(n_areas as int) =~= self@.areas);
        }
    }
}

} // verus!

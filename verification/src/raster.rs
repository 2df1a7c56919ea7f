use vstd::prelude::*;

verus! {

/// One RGBA pixel as plain bytes.
#[derive(Clone, Copy, PartialEq, Eq, Structural, Debug)]
pub struct Color {
    pub r: u8,
    pub g: u8,
    pub b: u8,
    pub a: u8,
}

impl Color {
    pub open spec fn as_tuple(self) -> (u8, u8, u8, u8) {
        (self.r, self.g, self.b, self.a)
    }

    pub fn new(r: u8, g: u8, b: u8, a: u8) -> (c: Color)
        ensures
            c == (Color { r, g, b, a }),
    {
        Color { r, g, b, a }
    }
}

/// An RGBA raster, holding image's pixel buffer.  Verus cannot look
/// inside, so `raster_pixels` and `raster_dims` name what it holds and
/// every operation goes through the wrappers below.
#[verifier::external_body]
pub struct Raster {
    img: image::RgbaImage,
}

/// The pixels a raster holds, keyed by `(column, row)`.  The domain is
/// exactly `[0, width) x [0, height)`, though no contract here leans on
/// the domain, only on values at in-range keys.
pub uninterp spec fn raster_pixels(r: Raster) -> Map<(int, int), (u8, u8, u8, u8)>;

/// A raster's `(width, height)`.
pub uninterp spec fn raster_dims(r: Raster) -> (int, int);

impl Raster {
    /// Relies on image::ImageBuffer::from_raw: builds the buffer over
    /// the given bytes, row-major, four bytes per pixel, exactly when
    /// they suffice for the dimensions; extra bytes at the end are
    /// carried along unread.
    #[verifier::external_body]
    pub fn from_raw(width: u32, height: u32, bytes: Vec<u8>) -> (r: Option<Raster>)
        requires
            width * height * 4 <= usize::MAX,
        ensures
            r is Some <==> bytes@.len() >= width * height * 4,
            r matches Some(rr) ==> {
                &&& raster_dims(rr) == (width as int, height as int)
                &&& forall|x: int, y: int|
                    0 <= x < width && 0 <= y < height ==> #[trigger] raster_pixels(rr)[(x, y)] == (
                        bytes@[(y * width + x) * 4],
                        bytes@[(y * width + x) * 4 + 1],
                        bytes@[(y * width + x) * 4 + 2],
                        bytes@[(y * width + x) * 4 + 3],
                    )
            },
    {
        match image::RgbaImage::from_raw(width, height, bytes) {
            Some(img) => Some(Raster { img }),
            None => None,
        }
    }

    /// Relies on image::ImageBuffer::into_raw: the buffer's bytes,
    /// row-major, four per pixel, plus whatever tail the buffer was
    /// built with.
    #[verifier::external_body]
    pub fn into_raw(self) -> (bytes: Vec<u8>)
        ensures
            bytes@.len() >= raster_dims(self).0 * raster_dims(self).1 * 4,
            forall|x: int, y: int|
                0 <= x < raster_dims(self).0 && 0 <= y < raster_dims(self).1
                    ==> #[trigger] raster_pixels(self)[(x, y)] == (
                    bytes@[(y * raster_dims(self).0 + x) * 4],
                    bytes@[(y * raster_dims(self).0 + x) * 4 + 1],
                    bytes@[(y * raster_dims(self).0 + x) * 4 + 2],
                    bytes@[(y * raster_dims(self).0 + x) * 4 + 3],
                ),
    {
        self.img.into_raw()
    }

    /// Relies on image::ImageBuffer::width.
    #[verifier::external_body]
    pub fn width(&self) -> (w: u32)
        ensures
            w as int == raster_dims(*self).0,
    {
        self.img.width()
    }

    /// Relies on image::ImageBuffer::height.
    #[verifier::external_body]
    pub fn height(&self) -> (h: u32)
        ensures
            h as int == raster_dims(*self).1,
    {
        self.img.height()
    }

    /// Relies on image::ImageBuffer::get_pixel, which panics out of
    /// bounds: hence the requires.
    #[verifier::external_body]
    pub fn get_pixel(&self, x: u32, y: u32) -> (p: Color)
        requires
            (x as int) < raster_dims(*self).0,
            (y as int) < raster_dims(*self).1,
        ensures
            raster_pixels(*self)[(x as int, y as int)] == p.as_tuple(),
    {
        let q = self.img.get_pixel(x, y);
        Color { r: q.0[0], g: q.0[1], b: q.0[2], a: q.0[3] }
    }

    /// Relies on image::ImageBuffer::put_pixel, which panics out of
    /// bounds: it stores exactly the given pixel and touches nothing
    /// else.
    #[verifier::external_body]
    pub fn put_pixel(&mut self, x: u32, y: u32, p: Color)
        requires
            (x as int) < raster_dims(*old(self)).0,
            (y as int) < raster_dims(*old(self)).1,
        ensures
            raster_pixels(*final(self)) == raster_pixels(*old(self)).insert(
                (x as int, y as int),
                p.as_tuple(),
            ),
            raster_dims(*final(self)) == raster_dims(*old(self)),
    {
        self.img.put_pixel(x, y, image::Rgba([p.r, p.g, p.b, p.a]));
    }
}

} // verus!

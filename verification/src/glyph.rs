use vstd::prelude::*;
use crate::pixel::{convert_bitmap, AtlasLoadMode, PixelBuffer, RawBitmap};

verus! {

/// Measures of a glyph, in whole pixels.
#[derive(Debug, Copy, Clone, PartialEq, Eq, Structural)]
pub struct GlyphMetrics {
    pub width: u32,
    pub height: u32,
    pub bearing_x: i32,
    pub bearing_y: i32,
    pub advance: i32,
}

/// The measures of a glyph as the rasterizer gives them, in 64ths of a pixel.
#[derive(Debug, Copy, Clone, PartialEq, Eq, Structural)]
pub struct RawMetrics {
    pub width: i64,
    pub height: i64,
    pub bearing_x: i64,
    pub bearing_y: i64,
    pub advance: i64,
}

/// The whole pixels in a length of 64ths of a pixel, rounded towards zero.
pub open spec fn whole_pixels(length: int) -> int {
    if length >= 0 {
        length / 64
    } else {
        -((-length) / 64)
    }
}

impl RawMetrics {
    /// The sizes fit a `u32` and the bearings and the advance an `i32`.
    pub open spec fn representable(self) -> bool {
        &&& 0 <= self.width <= u32::MAX
        &&& 0 <= self.height <= u32::MAX
        &&& i32::MIN <= self.bearing_x <= i32::MAX
        &&& i32::MIN <= self.bearing_y <= i32::MAX
        &&& i32::MIN <= self.advance <= i32::MAX
    }
}

impl GlyphMetrics {
    /// The whole-pixel measures for raw measures that fit.
    pub open spec fn from_raw_spec(raw: RawMetrics) -> Option<GlyphMetrics> {
        if raw.representable() {
            Some(
                GlyphMetrics {
                    width: whole_pixels(raw.width as int) as u32,
                    height: whole_pixels(raw.height as int) as u32,
                    bearing_x: whole_pixels(raw.bearing_x as int) as i32,
                    bearing_y: whole_pixels(raw.bearing_y as int) as i32,
                    advance: whole_pixels(raw.advance as int) as i32,
                },
            )
        } else {
            None
        }
    }

    /// Converts measures in 64ths of a pixel to whole pixels, rounding towards zero.
    /// Measures that do not fit the fields of `GlyphMetrics` have no conversion.
    pub fn from_raw(raw: RawMetrics) -> (metrics: Option<Self>)
        ensures
            metrics == GlyphMetrics::from_raw_spec(raw),
    {
        if raw.width < 0 || raw.width > u32::MAX as i64 || raw.height < 0 || raw.height
            > u32::MAX as i64 {
            return None;
        }
        if raw.bearing_x < i32::MIN as i64 || raw.bearing_x > i32::MAX as i64 || raw.bearing_y
            < i32::MIN as i64 || raw.bearing_y > i32::MAX as i64 || raw.advance < i32::MIN as i64
            || raw.advance > i32::MAX as i64 {
            return None;
        }
        Some(
            GlyphMetrics::new(
                raw.width as u32 / 64,
                raw.height as u32 / 64,
                raw.bearing_x as i32 / 64,
                raw.bearing_y as i32 / 64,
                raw.advance as i32 / 64,
            ),
        )
    }

    /// Creates a GlyphMetrics from the given metrics values.
    pub fn new(width: u32, height: u32, bearing_x: i32, bearing_y: i32, advance: i32) -> (metrics: Self)
        ensures
            metrics == (GlyphMetrics { width, height, bearing_x, bearing_y, advance }),
    {
        Self { width, height, bearing_x, bearing_y, advance }
    }
}

/// A rasterized glyph: its metrics and its image.
#[derive(Debug)]
pub struct Glyph {
    pub metrics: GlyphMetrics,
    pub bitmap: PixelBuffer,
}

impl Glyph {
    /// The glyph is what the rasterizer's bitmap and measures give in this mode: the
    /// bitmap can be read and the measures fit, the glyph's metrics are the measures in
    /// whole pixels, and its image has the bitmap's size in pixels and the bitmap's
    /// colours.
    pub open spec fn renders(self, bitmap: RawBitmap, raw: RawMetrics, mode: AtlasLoadMode) -> bool {
        &&& bitmap.readable(mode)
        &&& raw.representable()
        &&& Some(self.metrics) == GlyphMetrics::from_raw_spec(raw)
        &&& self.bitmap.wf()
        &&& self.bitmap.width == bitmap.pixel_width(mode)
        &&& self.bitmap.height == bitmap.rows
        &&& forall|x: int, y: int|
            0 <= x < self.bitmap.width && 0 <= y < self.bitmap.height
                ==> #[trigger] self.bitmap.pixel(x, y) == bitmap.pixel(mode, x, y)
    }

    /// The glyph is what some bitmap and some measures of a rasterizer give in this
    /// mode.
    pub open spec fn rendered(self, mode: AtlasLoadMode) -> bool {
        exists|bitmap: RawBitmap, raw: RawMetrics| #[trigger] self.renders(bitmap, raw, mode)
    }

    /// Makes a glyph of what the rasterizer gave for a character: the bitmap converted
    /// to an RGB image, and the measures in whole pixels. There is no glyph if the bitmap
    /// cannot be read in this mode or the measures do not fit.
    pub fn from_raster(bitmap: &RawBitmap, raw: RawMetrics, mode: AtlasLoadMode) -> (glyph: Option<
        Self,
    >)
        ensures
            glyph.is_some() == (bitmap.readable(mode) && raw.representable()),
            glyph.is_some() ==> glyph.unwrap().renders(*bitmap, raw, mode),
    {
        if !bitmap.is_readable(mode) {
            return None;
        }
        match GlyphMetrics::from_raw(raw) {
            Some(metrics) => Some(Glyph::new(metrics, convert_bitmap(bitmap, mode))),
            None => None,
        }
    }

    /// Creates a glyph from its metrics and its associated bitmap.
    pub fn new(metrics: GlyphMetrics, bitmap: PixelBuffer) -> (glyph: Self)
        ensures
            glyph.metrics == metrics,
            glyph.bitmap == bitmap,
    {
        Self { metrics, bitmap }
    }
}

} // verus!

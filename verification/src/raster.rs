use vstd::prelude::*;
use crate::glyph::RawMetrics;
use crate::pixel::{AtlasLoadMode, RawBitmap};

verus! {

/// A FreeType library instance. Nothing is known of what it holds.
#[verifier::external_type_specification]
#[verifier::external_body]
pub struct ExLibrary(freetype::Library);

/// A font face of FreeType, with the glyph slot that the last loaded glyph lies in.
/// Nothing is known of what it holds.
#[verifier::external_type_specification]
#[verifier::external_body]
#[verifier::reject_recursive_types(BYTES)]
pub struct ExFace<BYTES>(freetype::Face<BYTES>);

/// An error code of FreeType.
#[verifier::external_type_specification]
#[verifier::external_body]
pub struct ExError(freetype::Error);

/// Calls `freetype::Library::init`, which makes a library instance with the default
/// modules. Nothing is claimed of the outcome.
#[verifier::external_body]
pub(crate) fn init_library() -> (library: Result<freetype::Library, freetype::Error>) {
    freetype::Library::init()
}

/// Calls `freetype::Library::set_lcd_filter` with the default filter. Nothing is claimed
/// of the outcome.
#[verifier::external_body]
pub(crate) fn set_default_lcd_filter(library: &freetype::Library) -> (done: Result<
    (),
    freetype::Error,
>) {
    library.set_lcd_filter(freetype::LcdFilter::LcdFilterDefault)
}

/// Calls `freetype::Library::new_memory_face`, which opens the first face of a font
/// file that is held in memory. Nothing is claimed of the outcome.
#[verifier::external_body]
pub(crate) fn new_memory_face(library: &freetype::Library, font: Vec<u8>) -> (face: Result<
    freetype::Face,
    freetype::Error,
>) {
    library.new_memory_face(font, 0)
}

/// Calls `freetype::Face::set_char_size` with a character height of `size` 64ths of a
/// point and the resolution `dpi`, the width following the height and the horizontal
/// resolution the vertical one. Nothing is claimed of the outcome.
#[verifier::external_body]
pub(crate) fn set_char_size(face: &freetype::Face, size: u32, dpi: u32) -> (done: Result<
    (),
    freetype::Error,
>) {
    face.set_char_size(0, size as isize, 0, dpi)
}

/// Calls `freetype::Face::load_char`, which loads the glyph of a character into the
/// face's glyph slot and renders it: as gray levels, or for `LCD` as subpixels. Nothing
/// is claimed of the outcome.
#[verifier::external_body]
pub(crate) fn load_char(face: &freetype::Face, c: char, mode: AtlasLoadMode) -> (done: Result<
    (),
    freetype::Error,
>) {
    let flags = match mode {
        AtlasLoadMode::Gray => freetype::face::LoadFlag::RENDER,
        AtlasLoadMode::LCD => freetype::face::LoadFlag::RENDER
            | freetype::face::LoadFlag::TARGET_LCD,
    };
    face.load_char(c as usize, flags)
}

/// Calls `freetype::GlyphSlot::bitmap` on the face's glyph slot and copies out the
/// bitmap's bytes, width, rows and pitch. Nothing is claimed of them.
#[verifier::external_body]
pub(crate) fn glyph_bitmap(face: &freetype::Face) -> (bitmap: RawBitmap) {
    let bitmap = face.glyph().bitmap();
    RawBitmap {
        buffer: bitmap.buffer().to_vec(),
        width: bitmap.width(),
        rows: bitmap.rows(),
        pitch: bitmap.pitch(),
    }
}

/// Calls `freetype::GlyphSlot::metrics` on the face's glyph slot and copies out the
/// width, the height, the horizontal bearings and the horizontal advance. Nothing is
/// claimed of them.
#[verifier::external_body]
pub(crate) fn glyph_metrics(face: &freetype::Face) -> (metrics: RawMetrics) {
    let metrics = face.glyph().metrics();
    RawMetrics {
        width: metrics.width as i64,
        height: metrics.height as i64,
        bearing_x: metrics.horiBearingX as i64,
        bearing_y: metrics.horiBearingY as i64,
        advance: metrics.horiAdvance as i64,
    }
}

} // verus!

use vstd::prelude::*;
use crate::glyph::Glyph;
use crate::pixel::AtlasLoadMode;
use crate::raster::{
    glyph_bitmap, glyph_metrics, init_library, load_char, new_memory_face, set_char_size,
    set_default_lcd_filter,
};

verus! {

/// What can go wrong when a font is opened or a glyph is loaded.
#[derive(Debug, Clone, PartialEq, Eq)]
pub enum FontLoaderError {
    /// The FreeType library could not be started.
    LibraryLoadError,
    /// The LCD filter could not be set.
    LcdFilterError,
    /// The font of this name could not be opened.
    FontLoadError(String),
    /// The glyph of this character could not be loaded.
    GlyphLoadError(char),
}

/// Loads single glyphs of one font.
pub struct FontLoader {
    pub(crate) ft_font_face: freetype::Face,
}

impl FontLoader {
    /// Opens the first face of the font file whose bytes are `font`. `font_name` is the
    /// name that the error reports if the bytes are not a font that FreeType can open.
    pub fn new(font: Vec<u8>, font_name: String) -> (result: Result<FontLoader, FontLoaderError>)
        ensures
            match result {
                Ok(_) => true,
                Err(e) => {
                    ||| e == FontLoaderError::LibraryLoadError
                    ||| e == FontLoaderError::LcdFilterError
                    ||| e == FontLoaderError::FontLoadError(font_name)
                },
            },
    {
        let library = match init_library() {
            Ok(library) => library,
            Err(_) => {
                return Err(FontLoaderError::LibraryLoadError);
            },
        };
        if set_default_lcd_filter(&library).is_err() {
            return Err(FontLoaderError::LcdFilterError);
        }
        let answer = new_memory_face(&library, font);
        FontLoader::opened(answer, font_name)
    }

    /// Loads the glyph of `c` at a height of `size` 64ths of a point and a resolution of
    /// `dpi`, rendered in the given mode.
    ///
    /// The glyph is made of the bitmap and the measures that FreeType hands out, as
    /// `Glyph::from_raster` makes it.
    /// The only error is `GlyphLoadError(c)`: the face has no such size, FreeType cannot
    /// load or render the glyph, or what it hands out is no bitmap that can be read in
    /// this mode with measures that fit.
    pub fn load_glyph(&self, c: char, dpi: u32, size: u32, mode: AtlasLoadMode) -> (result: Result<
        Glyph,
        FontLoaderError,
    >)
        ensures
            match result {
                Ok(glyph) => glyph.rendered(mode),
                Err(e) => e == FontLoaderError::GlyphLoadError(c),
            },
    {
        if set_char_size(&self.ft_font_face, size, dpi).is_err() {
            return Err(FontLoaderError::GlyphLoadError(c));
        }
        if load_char(&self.ft_font_face, c, mode).is_err() {
            return Err(FontLoaderError::GlyphLoadError(c));
        }
        let raw_bitmap = glyph_bitmap(&self.ft_font_face);
        let raw_metrics = glyph_metrics(&self.ft_font_face);
        match Glyph::from_raster(&raw_bitmap, raw_metrics, mode) {
            Some(glyph) => {
                assert(glyph.renders(raw_bitmap, raw_metrics, mode));
                Ok(glyph)
            },
            None => Err(FontLoaderError::GlyphLoadError(c)),
        }
    }

    /// The face that the loader takes its glyphs from.
    pub closed spec fn face(self) -> freetype::Face {
        self.ft_font_face
    }

    /// What `new` makes of FreeType's answer when it was asked to open the font: a
    /// loader for the face, or the error that names the font.
    pub fn opened(answer: Result<freetype::Face, freetype::Error>, font_name: String) -> (result:
        Result<FontLoader, FontLoaderError>)
        ensures
            match answer {
                Ok(face) => result.is_ok() && result.unwrap().face() == face,
                Err(_) => result == Err::<FontLoader, FontLoaderError>(
                    FontLoaderError::FontLoadError(font_name),
                ),
            },
    {
        match answer {
            Ok(face) => Ok(FontLoader { ft_font_face: face }),
            Err(_) => Err(FontLoaderError::FontLoadError(font_name)),
        }
    }
}

} // verus!

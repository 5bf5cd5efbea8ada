use vstd::prelude::*;
use crate::atlas::{
    code, lemma_code_injective, lemma_code_is_scalar_value, AtlasGeneratorError,
    AtlasGeneratorOption, FontAtlas,
};
use crate::glyph::Glyph;
use crate::loader::{FontLoader, FontLoaderError};
use crate::node::InsertFailure;
use crate::pixel::AtlasLoadMode;
use crate::raster::{glyph_bitmap, glyph_metrics, load_char, set_char_size};

verus! {

/// Generates the atlases of one font.
pub struct AtlasGenerator {
    ft_font_face: freetype::Face,
    load_mode: AtlasLoadMode,
    options: AtlasGeneratorOption,
}

impl AtlasGenerator {
    /// The options that the generator was made with.
    pub closed spec fn options(self) -> AtlasGeneratorOption {
        self.options
    }

    /// The mode that the generator renders glyphs in.
    pub closed spec fn load_mode(self) -> AtlasLoadMode {
        self.load_mode
    }

    /// The margins are well formed and a page of the chosen size fits in memory.
    pub open spec fn wf(self) -> bool {
        &&& self.options().padding.wf()
        &&& 3 * self.options().size.0 * self.options().size.1 <= usize::MAX
    }

    /// Creates a generator for the font file whose bytes are `font`, with the given
    /// options and load mode. `font_name` is the name that the error reports if the
    /// bytes are not a font that FreeType can open.
    pub fn new(
        font: Vec<u8>,
        font_name: String,
        options: AtlasGeneratorOption,
        load_mode: AtlasLoadMode,
    ) -> (result: Result<AtlasGenerator, FontLoaderError>)
        requires
            options.padding.wf(),
            3 * options.size.0 * options.size.1 <= usize::MAX,
        ensures
            match result {
                Ok(generator) => {
                    &&& generator.wf()
                    &&& generator.options() == options
                    &&& generator.load_mode() == load_mode
                },
                Err(e) => {
                    ||| e == FontLoaderError::LibraryLoadError
                    ||| e == FontLoaderError::LcdFilterError
                    ||| e == FontLoaderError::FontLoadError(font_name)
                },
            },
    {
        match FontLoader::new(font, font_name) {
            Ok(loader) => Ok(
                AtlasGenerator { ft_font_face: loader.ft_font_face, load_mode, options },
            ),
            Err(e) => Err(e),
        }
    }

    /// Generates an atlas of the glyphs of `glyphs`, rendered at a height of `size`
    /// 64ths of a point, taking the characters in their order.
    ///
    /// The first character that cannot be rasterized ends the pass with `LoadError`,
    /// and the first whose glyph, with its margins, is larger than a page with
    /// `InsertError`; no atlas is handed out then. `SizeError` says that the face has no
    /// such size.
    pub fn generate(&self, glyphs: &Vec<char>, size: u32) -> (result: Result<
        FontAtlas,
        AtlasGeneratorError,
    >)
        requires
            self.wf(),
        ensures
            match result {
                Ok(atlas) => {
                    &&& atlas.wf()
                    &&& atlas.width == self.options().size.0
                    &&& atlas.height == self.options().size.1
                    &&& forall|c: char| #[trigger]
                        atlas.entries().contains_key(c) <==> glyphs@.contains(c)
                },
                Err(AtlasGeneratorError::InsertError(c, e)) => {
                    &&& glyphs@.contains(c)
                    &&& e.kind == InsertFailure::DoesNotFit
                },
                Err(AtlasGeneratorError::LoadError(c)) => glyphs@.contains(c),
                Err(AtlasGeneratorError::SizeError) => true,
            },
    {
        if set_char_size(&self.ft_font_face, size, self.options.dpi).is_err() {
            return Err(AtlasGeneratorError::SizeError);
        }
        let mut atlas = FontAtlas::new(self.options.size);

        let mut i: usize = 0;
        while i < glyphs.len()
            invariant
                self.wf(),
                0 <= i <= glyphs@.len(),
                atlas.wf(),
                atlas.width == self.options().size.0,
                atlas.height == self.options().size.1,
                forall|k: u32| #[trigger]
                    atlas.map@.contains_key(k) <==> exists|j: int|
                        0 <= j < i && #[trigger] code(glyphs@[j]) == k,
            decreases glyphs@.len() - i,
        {
            let c = glyphs[i];
            let glyph = match self.load_glyph(c) {
                Ok(glyph) => glyph,
                Err(e) => {
                    return Err(e);
                },
            };
            let ghost before = atlas.map@;
            proof {
                lemma_code_is_scalar_value(c);
            }
            match atlas.add_glyph(c, &glyph, &self.options.padding) {
                Ok(()) => {},
                Err(e) => {
                    return Err(e);
                },
            }
            proof {
                assert forall|k: u32| #[trigger]
                    atlas.map@.contains_key(k) <==> exists|j: int|
                        0 <= j < i + 1 && #[trigger] code(glyphs@[j]) == k by {
                    if k == code(c) {
                        assert(code(glyphs@[i as int]) == k);
                    } else if before.contains_key(k) {
                        let j = choose|j: int| 0 <= j < i && #[trigger] code(glyphs@[j]) == k;
                        assert(0 <= j < i + 1 && code(glyphs@[j]) == k);
                    } else if exists|j: int| 0 <= j < i + 1 && #[trigger] code(glyphs@[j]) == k {
                        let j = choose|j: int| 0 <= j < i + 1 && #[trigger] code(glyphs@[j]) == k;
                        assert(0 <= j < i && code(glyphs@[j]) == k);
                    }
                }
            }
            i += 1;
        }
        proof {
            assert forall|c: char| #[trigger]
                atlas.entries().contains_key(c) <==> glyphs@.contains(c) by {
                if atlas.map@.contains_key(code(c)) {
                    let j = choose|j: int| 0 <= j < i && #[trigger] code(glyphs@[j]) == code(c);
                    lemma_code_injective(glyphs@[j], c);
                }
                if glyphs@.contains(c) {
                    let j = choose|j: int| 0 <= j < glyphs@.len() && glyphs@[j] == c;
                    assert(code(glyphs@[j]) == code(c));
                }
            }
        }
        Ok(atlas)
    }

    /// Loads the glyph of `c` at the size that was last set, rendered in the generator's
    /// load mode.
    ///
    /// The glyph is made of what FreeType hands out, as `Glyph::from_raster` makes it.
    /// The only error is `LoadError(c)`: FreeType cannot load or render the glyph, or
    /// what it hands out is no bitmap that can be read in this mode with measures that fit.
    pub fn load_glyph(&self, c: char) -> (result: Result<Glyph, AtlasGeneratorError>)
        ensures
            match result {
                Ok(glyph) => glyph.rendered(self.load_mode()),
                Err(e) => e == AtlasGeneratorError::LoadError(c),
            },
    {
        if load_char(&self.ft_font_face, c, self.load_mode).is_err() {
            return Err(AtlasGeneratorError::LoadError(c));
        }
        let raw_bitmap = glyph_bitmap(&self.ft_font_face);
        let raw_metrics = glyph_metrics(&self.ft_font_face);
        match Glyph::from_raster(&raw_bitmap, raw_metrics, self.load_mode) {
            Some(glyph) => {
                assert(glyph.renders(raw_bitmap, raw_metrics, self.load_mode));
                Ok(glyph)
            },
            None => Err(AtlasGeneratorError::LoadError(c)),
        }
    }
}

} // verus!

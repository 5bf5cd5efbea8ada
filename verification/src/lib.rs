//! Packs the glyphs of a font into texture pages.
//!
//! A [`Node`] tree cuts a page into rectangles and hands them out one by one. A
//! [`atlas::FontAtlas`] keeps pages of equal size and, for each character, the place of its
//! glyph; a glyph that finds no room on the last page goes to a new one. An
//! [`atlas::AtlasGenerator`] has FreeType render the glyphs, converts their bitmaps to RGB
//! and packs them with margins around each.
//!
//! Contracts are stated over the leaves of a tree in reading order (`Node::view`), over
//! the pixels of an image (`PixelBuffer::pixel`) and over the entries of an atlas
//! (`FontAtlas::entries`).

pub mod atlas;
pub mod generator;
pub mod glyph;
pub mod loader;
pub mod node;
pub mod packing;
pub mod page;
pub mod pixel;
pub mod raster;
pub mod rectangle;
pub mod text;

pub use glyph::{Glyph, GlyphMetrics};
pub use loader::{FontLoader, FontLoaderError};
pub use node::{InsertFailure, Leaf, Node, NodeInsertError};
pub use rectangle::Rectangle;

//! A text and rectangle drawing core: a glyph atlas cache backed by a
//! rectangle packing allocator, a box-model layout tree, and a greedy
//! line-wrapping text flow engine.
//!
//! All coordinates are integer pixels. Rasterization and the GPU are
//! collaborators outside this crate: the cache receives rasterized glyph
//! bitmaps as plain values and hands back the atlas coordinates at which
//! the caller uploads them.

use vstd::prelude::*;

mod atlas;
mod glyph;
mod layout;
mod packer;
mod quad;
mod store;
mod text_renderer;

pub use atlas::AtlasCache;
pub use atlas::CacheView;
pub use atlas::lemma_eviction_respects_recency;
pub use atlas::lemma_second_lookup_hits;
pub use glyph::CachedGlyph;
pub use glyph::GlyphError;
pub use glyph::GlyphMetrics;
pub use glyph::RasterGlyph;
pub use glyph::Region;
pub use glyph::UploadOp;
pub use glyph::is_whitespace_char;
pub use glyph::padded_rgba;
pub use layout::Bbox;
pub use layout::COORD_LIMIT;
pub use layout::Hbox;
pub use layout::MAX_CHILDREN;
pub use layout::Thing;
pub use layout::Vbox;
pub use layout::child_bbox;
pub use layout::layout;
pub use quad::Color;
pub use quad::QuadRenderer;
pub use quad::RectQuad;
pub use text_renderer::MAX_FONT_SIZE;
pub use text_renderer::MAX_LINES;
pub use text_renderer::MAX_LINE_LEN;
pub use text_renderer::MAX_QUADS;
pub use text_renderer::MAX_TEXT_LEN;
pub use text_renderer::ORIGIN_LIMIT;
pub use text_renderer::TextRenderer;
pub use text_renderer::TextVertex;
pub use text_renderer::lemma_uniform_wrap_height;

verus! {

} // verus!

//! Solid rectangle batching: per-frame colored quads in layout space.

use vstd::prelude::*;
use crate::layout::Bbox;

verus! {

/// An RGBA color with 8-bit channels. The renderer maps each channel to
/// `[0, 1]` when it builds GPU vertices.
#[derive(Debug, Clone, Copy, PartialEq, Eq, Structural)]
pub struct Color {
    pub r: u8,
    pub g: u8,
    pub b: u8,
    pub a: u8,
}

/// One solid rectangle to draw this frame.
#[derive(Debug, Clone, Copy)]
pub struct RectQuad {
    pub bbox: Bbox,
    pub color: Color,
}

/// The per-frame batch of solid rectangles. Cleared and rebuilt every frame;
/// the renderer consumes `instances` once per frame.
pub struct QuadRenderer {
    pub instances: Vec<RectQuad>,
}

impl QuadRenderer {
    pub fn new() -> (q: QuadRenderer)
        ensures
            q.instances@ =~= Seq::<RectQuad>::empty(),
    {
        QuadRenderer { instances: Vec::new() }
    }

    pub fn clear(&mut self)
        ensures
            final(self).instances@ =~= Seq::<RectQuad>::empty(),
    {
        self.instances.clear();
    }

    /// Append one solid rectangle covering `bbox`.
    pub fn add_instance(&mut self, color: Color, bbox: &Bbox)
        ensures
            final(self).instances@ == old(self).instances@.push(
                RectQuad { bbox: *bbox, color },
            ),
    {
        self.instances.push(RectQuad { bbox: *bbox, color });
    }
}

} // verus!

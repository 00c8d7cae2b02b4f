//! The box-model layout tree: axis-aligned bounding boxes, and a closed
//! set of node variants that recursively partition a rectangle among
//! children, emitting solid rectangles and text runs.

use vstd::prelude::*;
use crate::glyph::RasterGlyph;
use crate::quad::Color;
use crate::quad::QuadRenderer;
use crate::quad::RectQuad;
use crate::text_renderer::MAX_LINES;
use crate::text_renderer::MAX_LINE_LEN;
use crate::text_renderer::MAX_TEXT_LEN;
use crate::text_renderer::TextRenderer;
use crate::text_renderer::metrics_agree;
use crate::text_renderer::rasters_wf;

verus! {

broadcast use
    vstd::std_specs::vec::axiom_vec_decreases_to_view,
    vstd::seq::axiom_seq_index_decreases;

/// Largest magnitude a layout coordinate may have. Keeping coordinates in
/// this range lets every sum and difference of a handful of coordinates fit
/// comfortably in an `i64`.
pub const COORD_LIMIT: i64 = 0x1_0000_0000;

/// An axis-aligned rectangle in layout space, `min` the bottom-left corner
/// and `max` the top-right corner. Degenerate (zero-area) boxes are allowed.
#[derive(Debug, Clone, Copy)]
pub struct Bbox {
    pub min: (i64, i64),
    pub max: (i64, i64),
}

impl Bbox {
    /// Well-formed: corners ordered and coordinates small enough that
    /// box arithmetic cannot overflow.
    pub open spec fn wf(self) -> bool {
        &&& self.min.0 <= self.max.0
        &&& self.min.1 <= self.max.1
        &&& -COORD_LIMIT <= self.min.0
        &&& -COORD_LIMIT <= self.min.1
        &&& self.max.0 <= COORD_LIMIT
        &&& self.max.1 <= COORD_LIMIT
    }

    pub fn new(x0: i64, y0: i64, x1: i64, y1: i64) -> (b: Bbox)
        requires
            x0 <= x1,
            y0 <= y1,
            -COORD_LIMIT <= x0,
            -COORD_LIMIT <= y0,
            x1 <= COORD_LIMIT,
            y1 <= COORD_LIMIT,
        ensures
            b.wf(),
            b.min == (x0, y0),
            b.max == (x1, y1),
    {
        Bbox { min: (x0, y0), max: (x1, y1) }
    }

    pub open spec fn spec_width(self) -> int {
        self.max.0 - self.min.0
    }

    pub open spec fn spec_height(self) -> int {
        self.max.1 - self.min.1
    }

    pub fn width(&self) -> (w: i64)
        requires
            self.wf(),
        ensures
            w == self.spec_width(),
    {
        self.max.0 - self.min.0
    }

    pub fn height(&self) -> (h: i64)
        requires
            self.wf(),
        ensures
            h == self.spec_height(),
    {
        self.max.1 - self.min.1
    }

    /// The midpoint of the box, rounded toward negative infinity on each
    /// axis (coordinates are integer pixels).
    pub fn center(&self) -> (c: (i64, i64))
        requires
            self.wf(),
        ensures
            c.0 == (self.min.0 + self.spec_width() / 2),
            c.1 == (self.min.1 + self.spec_height() / 2),
    {
        let w = self.max.0 - self.min.0;
        let h = self.max.1 - self.min.1;
        (self.min.0 + w / 2, self.min.1 + h / 2)
    }

    /// The top-left corner: y grows upward, so this pairs the smallest x
    /// with the largest y.
    pub fn top_left(&self) -> (c: (i64, i64))
        requires
            self.wf(),
        ensures
            c == (self.min.0, self.max.1),
    {
        (self.min.0, self.max.1)
    }

    pub open spec fn spec_inside(self, px: int, py: int) -> bool {
        &&& self.min.0 <= px <= self.max.0
        &&& self.min.1 <= py <= self.max.1
    }

    /// Returns true if the point lies inside the box, edges included.
    pub fn inside(&self, pos: (i64, i64)) -> (r: bool)
        ensures
            r == self.spec_inside(pos.0 as int, pos.1 as int),
    {
        let x_inside = self.min.0 <= pos.0 && pos.0 <= self.max.0;
        let y_inside = self.min.1 <= pos.1 && pos.1 <= self.max.1;
        x_inside && y_inside
    }
}

/// One node of the UI content tree, declared by the application each
/// frame: leaf content, or a container splitting its box among children.
pub enum Thing {
    /// One line of text over a solid background.
    Text { text: String, text_color: Color, background_color: Color },
    /// Several lines of text over a solid background, optionally wrapped
    /// against the node's box.
    TextMultiLine {
        text: Vec<String>,
        wrap_text: bool,
        text_color: Color,
        background_color: Color,
    },
    /// A solid rectangle.
    Quad { color: Color },
    /// A rectangle filled by an externally supplied texture.
    TexturedQuad {},
    /// Children side by side, left to right in insertion order.
    Hbox(Hbox),
    /// Children stacked; the first inserted child takes the bottom row.
    Vbox(Vbox),
}

/// A horizontal container: children split the box into equal columns,
/// left to right in insertion order.
pub struct Hbox {
    elements: Vec<Thing>,
}

impl View for Hbox {
    type V = Seq<Thing>;

    closed spec fn view(&self) -> Seq<Thing> {
        self.elements@
    }
}

impl Hbox {
    pub fn new(elements: Vec<Thing>) -> (r: Hbox)
        ensures
            r@ == elements@,
    {
        Hbox { elements }
    }

    pub fn elements(&self) -> (r: &Vec<Thing>)
        ensures
            r@ == self@,
    {
        &self.elements
    }
}

/// A vertical container: children split the box into equal rows, the
/// first inserted child at the bottom, the last at the top.
pub struct Vbox {
    elements: Vec<Thing>,
}

impl View for Vbox {
    type V = Seq<Thing>;

    closed spec fn view(&self) -> Seq<Thing> {
        self.elements@
    }
}

impl Vbox {
    pub fn new(elements: Vec<Thing>) -> (r: Vbox)
        ensures
            r@ == elements@,
    {
        Vbox { elements }
    }

    pub fn elements(&self) -> (r: &Vec<Thing>)
        ensures
            r@ == self@,
    {
        &self.elements
    }
}

/// The box assigned to child `i` of `n` when `parent` is split. A
/// horizontal split gives child `i` the x-range
/// `[min_x + i*(width/n), min_x + (i+1)*(width/n))` at full height; a
/// vertical split gives child `i` the row at position `n-1-i` counted
/// from the top, so the first inserted child takes the bottom row and
/// the last inserted child the top row, at full width. Division
/// truncates; any remainder is left undrawn at the high edge.
pub open spec fn child_bbox_spec(parent: Bbox, i: int, n: int, horizontal: bool) -> Bbox {
    if horizontal {
        let cw = parent.spec_width() / n;
        let x0 = parent.min.0 + i * cw;
        Bbox { min: (x0 as i64, parent.min.1), max: ((x0 + cw) as i64, parent.max.1) }
    } else {
        let ch = parent.spec_height() / n;
        let y0 = parent.min.1 + i * ch;
        Bbox { min: (parent.min.0, y0 as i64), max: (parent.max.0, (y0 + ch) as i64) }
    }
}

/// Most children one container may hold.
pub const MAX_CHILDREN: usize = 0x10000;

/// Compute the box assigned to child `i` of `n`.
pub fn child_bbox(parent: &Bbox, i: usize, n: usize, horizontal: bool) -> (b: Bbox)
    requires
        parent.wf(),
        0 < n <= MAX_CHILDREN,
        i < n,
    ensures
        b == child_bbox_spec(*parent, i as int, n as int, horizontal),
        b.wf(),
{
    proof {
        lemma_child_bbox_wf(*parent, i as int, n as int, horizontal);
        let w = parent.spec_width();
        let h = parent.spec_height();
        let ni = n as int;
        let ii = i as int;
        assert(0 <= ii * (w / ni) <= w && 0 <= ii * (h / ni) <= h) by (nonlinear_arith)
            requires
                0 <= w,
                0 <= h,
                0 < ni,
                0 <= ii < ni,
        ;
    }
    if horizontal {
        let cw = (parent.max.0 - parent.min.0) / (n as i64);
        let x0 = parent.min.0 + (i as i64) * cw;
        Bbox { min: (x0, parent.min.1), max: (x0 + cw, parent.max.1) }
    } else {
        let ch = (parent.max.1 - parent.min.1) / (n as i64);
        let y0 = parent.min.1 + (i as i64) * ch;
        Bbox { min: (parent.min.0, y0), max: (parent.max.0, y0 + ch) }
    }
}

/// A child's box lies inside its parent and is well-formed.
pub proof fn lemma_child_bbox_wf(parent: Bbox, i: int, n: int, horizontal: bool)
    requires
        parent.wf(),
        0 < n,
        0 <= i < n,
    ensures
        child_bbox_spec(parent, i, n, horizontal).wf(),
        parent.min.0 <= child_bbox_spec(parent, i, n, horizontal).min.0,
        parent.min.1 <= child_bbox_spec(parent, i, n, horizontal).min.1,
        child_bbox_spec(parent, i, n, horizontal).max.0 <= parent.max.0,
        child_bbox_spec(parent, i, n, horizontal).max.1 <= parent.max.1,
{
    let w = parent.spec_width();
    let h = parent.spec_height();
    assert(0 <= w / n && 0 <= i * (w / n) && (i + 1) * (w / n) <= w) by (nonlinear_arith)
        requires
            0 <= w,
            0 < n,
            0 <= i < n,
    ;
    assert(0 <= h / n && 0 <= i * (h / n) && (i + 1) * (h / n) <= h) by (nonlinear_arith)
        requires
            0 <= h,
            0 < n,
            0 <= i < n,
    ;
    assert(i * (h / n) + h / n == (i + 1) * (h / n)) by (nonlinear_arith);
    assert(i * (w / n) + w / n == (i + 1) * (w / n)) by (nonlinear_arith);
}

/// The solid rectangles and textured rectangles that laying out a node
/// against a box emits, in emission order: each leaf contributes against
/// its own box, containers recurse with each child's split box.
pub open spec fn layout_quads_of(t: Thing, b: Bbox) -> (Seq<RectQuad>, Seq<Bbox>)
    decreases t, 0int,
{
    match t {
        Thing::Text { background_color, .. } => (
            seq![RectQuad { bbox: b, color: background_color }],
            Seq::empty(),
        ),
        Thing::TextMultiLine { background_color, .. } => (
            seq![RectQuad { bbox: b, color: background_color }],
            Seq::empty(),
        ),
        Thing::Quad { color } => (seq![RectQuad { bbox: b, color }], Seq::empty()),
        Thing::TexturedQuad {  } => (Seq::empty(), seq![b]),
        Thing::Hbox(hb) => layout_quads_of_list(hb@, b, true, 0),
        Thing::Vbox(vb) => layout_quads_of_list(vb@, b, false, 0),
    }
}

/// The geometry emitted for the children from index `i` on.
pub open spec fn layout_quads_of_list(elems: Seq<Thing>, b: Bbox, horizontal: bool, i: int) -> (
    Seq<RectQuad>,
    Seq<Bbox>,
)
    decreases elems, elems.len() - i, 1int,
{
    if i < 0 || i >= elems.len() {
        (Seq::empty(), Seq::empty())
    } else {
        let head = layout_quads_of(elems[i], child_bbox_spec(b, i, elems.len() as int, horizontal));
        let rest = layout_quads_of_list(elems, b, horizontal, i + 1);
        (head.0 + rest.0, head.1 + rest.1)
    }
}

/// Every text in the tree is within the flow engine's size limits.
pub open spec fn thing_sized(t: Thing) -> bool
    decreases t,
{
    match t {
        Thing::Text { text, .. } => text@.len() <= MAX_TEXT_LEN,
        Thing::TextMultiLine { text, .. } => text@.len() <= MAX_LINES && forall|k: int|
            0 <= k < text@.len() ==> (#[trigger] text@[k])@.len() <= MAX_LINE_LEN,
        Thing::Quad { .. } => true,
        Thing::TexturedQuad { .. } => true,
        Thing::Hbox(hb) => hb@.len() <= MAX_CHILDREN && forall|k: int|
            0 <= k < hb@.len() ==> thing_sized(#[trigger] hb@[k]),
        Thing::Vbox(vb) => vb@.len() <= MAX_CHILDREN && forall|k: int|
            0 <= k < vb@.len() ==> thing_sized(#[trigger] vb@[k]),
    }
}

/// Recursively assign bounding boxes and emit drawable geometry: solid
/// background and foreground rectangles into `quads`, textured
/// rectangles into `textured`, and text runs through the flow engine
/// into `text`. The rectangles emitted are exactly `layout_quads_of`;
/// boxes are recomputed from the parent every call and never persisted.
pub fn layout(
    thing: &Thing,
    parent: &Bbox,
    quads: &mut QuadRenderer,
    textured: &mut Vec<Bbox>,
    text: &mut TextRenderer,
    rasters: &Vec<(char, RasterGlyph)>,
)
    requires
        parent.wf(),
        old(text).wf(),
        rasters_wf(rasters@),
        thing_sized(*thing),
    ensures
        final(text).wf(),
        final(text).font_size == old(text).font_size,
        final(text).atlas@.width == old(text).atlas@.width,
        final(text).atlas@.height == old(text).atlas@.height,
        old(text).vertices@.is_prefix_of(final(text).vertices@),
        old(text).indices@.is_prefix_of(final(text).indices@),
        old(text).uploads@.is_prefix_of(final(text).uploads@),
        final(quads).instances@ == old(quads).instances@ + layout_quads_of(*thing, *parent).0,
        final(textured)@ == old(textured)@ + layout_quads_of(*thing, *parent).1,
        metrics_agree(old(text).atlas@.entries, rasters@) ==> metrics_agree(
            final(text).atlas@.entries,
            rasters@,
        ),
    decreases *thing,
{
    match thing {
        Thing::Text { text: s, text_color, background_color } => {
            quads.add_instance(*background_color, parent);
            let top = parent.top_left();
            text.add_string_to_batch(s.as_str(), rasters, top.0, top.1, *text_color, None);
            proof {
                assert(quads.instances@ =~= old(quads).instances@ + layout_quads_of(
                    *thing,
                    *parent,
                ).0);
                assert(textured@ =~= old(textured)@ + layout_quads_of(*thing, *parent).1);
            }
        },
        Thing::TextMultiLine { text: lines, wrap_text, text_color, background_color } => {
            quads.add_instance(*background_color, parent);
            let top = parent.top_left();
            let wrap = if *wrap_text {
                Some(parent)
            } else {
                None
            };
            text.add_multiline_string_to_batch(
                lines,
                rasters,
                top.0,
                top.1,
                *text_color,
                wrap,
            );
            proof {
                assert(quads.instances@ =~= old(quads).instances@ + layout_quads_of(
                    *thing,
                    *parent,
                ).0);
                assert(textured@ =~= old(textured)@ + layout_quads_of(*thing, *parent).1);
            }
        },
        Thing::Quad { color } => {
            quads.add_instance(*color, parent);
            proof {
                assert(quads.instances@ =~= old(quads).instances@ + layout_quads_of(
                    *thing,
                    *parent,
                ).0);
                assert(textured@ =~= old(textured)@ + layout_quads_of(*thing, *parent).1);
            }
        },
        Thing::TexturedQuad {  } => {
            textured.push(*parent);
            proof {
                assert(quads.instances@ =~= old(quads).instances@ + layout_quads_of(
                    *thing,
                    *parent,
                ).0);
                assert(textured@ =~= old(textured)@ + layout_quads_of(*thing, *parent).1);
            }
        },
        Thing::Hbox(hb) => {
            proof {
                assert(hb@ == hb.elements@);
            }
            layout_children(&hb.elements, parent, true, quads, textured, text, rasters);
        },
        Thing::Vbox(vb) => {
            proof {
                assert(vb@ == vb.elements@);
            }
            layout_children(&vb.elements, parent, false, quads, textured, text, rasters);
        },
    }
}

/// Lay out each child of a container against its split of the parent
/// box, in insertion order.
fn layout_children(
    elems: &Vec<Thing>,
    parent: &Bbox,
    horizontal: bool,
    quads: &mut QuadRenderer,
    textured: &mut Vec<Bbox>,
    text: &mut TextRenderer,
    rasters: &Vec<(char, RasterGlyph)>,
)
    requires
        parent.wf(),
        old(text).wf(),
        rasters_wf(rasters@),
        elems@.len() <= MAX_CHILDREN,
        forall|k: int| 0 <= k < elems@.len() ==> thing_sized(#[trigger] elems@[k]),
    ensures
        final(text).wf(),
        final(text).font_size == old(text).font_size,
        final(text).atlas@.width == old(text).atlas@.width,
        final(text).atlas@.height == old(text).atlas@.height,
        old(text).vertices@.is_prefix_of(final(text).vertices@),
        old(text).indices@.is_prefix_of(final(text).indices@),
        old(text).uploads@.is_prefix_of(final(text).uploads@),
        final(quads).instances@ == old(quads).instances@ + layout_quads_of_list(
            elems@,
            *parent,
            horizontal,
            0,
        ).0,
        final(textured)@ == old(textured)@ + layout_quads_of_list(
            elems@,
            *parent,
            horizontal,
            0,
        ).1,
        metrics_agree(old(text).atlas@.entries, rasters@) ==> metrics_agree(
            final(text).atlas@.entries,
            rasters@,
        ),
    decreases elems@, 0int,
{
    let n = elems.len();
    let mut k: usize = 0;
    while k < n
        invariant
            parent.wf(),
            text.wf(),
            rasters_wf(rasters@),
            n == elems@.len() <= MAX_CHILDREN,
            0 <= k <= n,
            forall|k2: int| 0 <= k2 < elems@.len() ==> thing_sized(#[trigger] elems@[k2]),
            text.font_size == old(text).font_size,
            text.atlas@.width == old(text).atlas@.width,
            text.atlas@.height == old(text).atlas@.height,
            old(text).vertices@.is_prefix_of(text.vertices@),
            old(text).indices@.is_prefix_of(text.indices@),
            old(text).uploads@.is_prefix_of(text.uploads@),
            quads.instances@ + layout_quads_of_list(elems@, *parent, horizontal, k as int).0
                =~= old(quads).instances@ + layout_quads_of_list(
                elems@,
                *parent,
                horizontal,
                0,
            ).0,
            textured@ + layout_quads_of_list(elems@, *parent, horizontal, k as int).1
                =~= old(textured)@ + layout_quads_of_list(elems@, *parent, horizontal, 0).1,
            metrics_agree(old(text).atlas@.entries, rasters@) ==> metrics_agree(
                text.atlas@.entries,
                rasters@,
            ),
        decreases n - k,
    {
        let child = child_bbox(parent, k, n, horizontal);
        let ghost pre_quads = quads.instances@;
        let ghost pre_tex = textured@;
        layout(&elems[k], &child, quads, textured, text, rasters);
        proof {
            let gk = layout_quads_of_list(elems@, *parent, horizontal, k as int);
            let gk1 = layout_quads_of_list(elems@, *parent, horizontal, k as int + 1);
            let head = layout_quads_of(
                elems@[k as int],
                child_bbox_spec(*parent, k as int, n as int, horizontal),
            );
            assert(gk.0 == head.0 + gk1.0 && gk.1 == head.1 + gk1.1);
            assert(quads.instances@ + gk1.0 =~= pre_quads + gk.0);
            assert(textured@ + gk1.1 =~= pre_tex + gk.1);
        }
        k = k + 1;
    }
    proof {
        assert(layout_quads_of_list(elems@, *parent, horizontal, n as int).0
            =~= Seq::<RectQuad>::empty());
        assert(layout_quads_of_list(elems@, *parent, horizontal, n as int).1
            =~= Seq::<Bbox>::empty());
        assert(quads.instances@ =~= quads.instances@ + Seq::<RectQuad>::empty());
        assert(textured@ =~= textured@ + Seq::<Bbox>::empty());
    }
}

} // verus!

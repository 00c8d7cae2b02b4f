//! Bounding boxes and the layout tree: splits, ordering, leaf emission.

use glyph_atlas::Bbox;
use glyph_atlas::Color;
use glyph_atlas::Hbox;
use glyph_atlas::QuadRenderer;
use glyph_atlas::RasterGlyph;
use glyph_atlas::TextRenderer;
use glyph_atlas::Thing;
use glyph_atlas::Vbox;
use glyph_atlas::child_bbox;
use glyph_atlas::layout;

const WHITE: Color = Color { r: 255, g: 255, b: 255, a: 255 };
const BLUE: Color = Color { r: 0, g: 0, b: 255, a: 255 };
const BLACK: Color = Color { r: 0, g: 0, b: 0, a: 255 };

fn corners(b: &Bbox) -> (i64, i64, i64, i64) {
    (b.min.0, b.min.1, b.max.0, b.max.1)
}

#[test]
fn bbox_accessors() {
    let b = Bbox::new(10, 20, 110, 70);
    assert_eq!(b.width(), 100);
    assert_eq!(b.height(), 50);
    assert_eq!(b.center(), (60, 45));
    assert_eq!(b.top_left(), (10, 70));
    assert!(b.inside((10, 20)));
    assert!(b.inside((110, 70)));
    assert!(!b.inside((111, 45)));
    assert!(!b.inside((60, 19)));
}

#[test]
fn hbox_splits_into_equal_columns() {
    let parent = Bbox::new(0, 0, 300, 100);
    let c0 = child_bbox(&parent, 0, 3, true);
    let c1 = child_bbox(&parent, 1, 3, true);
    let c2 = child_bbox(&parent, 2, 3, true);
    assert_eq!(corners(&c0), (0, 0, 100, 100));
    assert_eq!(corners(&c1), (100, 0, 200, 100));
    assert_eq!(corners(&c2), (200, 0, 300, 100));
}

#[test]
fn vbox_puts_the_first_child_in_the_bottom_row() {
    let parent = Bbox::new(0, 0, 100, 200);
    let first = child_bbox(&parent, 0, 2, false);
    let second = child_bbox(&parent, 1, 2, false);
    assert_eq!(corners(&first), (0, 0, 100, 100));
    assert_eq!(corners(&second), (0, 100, 100, 200));
}

#[test]
fn layout_hbox_emits_children_left_to_right() {
    let tree = Thing::Hbox(Hbox::new(vec![
        Thing::Quad { color: WHITE },
        Thing::Quad { color: BLUE },
        Thing::Quad { color: BLACK },
    ]));
    let parent = Bbox::new(0, 0, 300, 100);
    let mut quads = QuadRenderer::new();
    let mut textured: Vec<Bbox> = Vec::new();
    let mut text = TextRenderer::new(64, 64, 12);
    let rasters: Vec<(char, RasterGlyph)> = Vec::new();
    layout(&tree, &parent, &mut quads, &mut textured, &mut text, &rasters);

    assert_eq!(quads.instances.len(), 3);
    assert_eq!(corners(&quads.instances[0].bbox), (0, 0, 100, 100));
    assert_eq!(quads.instances[0].color, WHITE);
    assert_eq!(corners(&quads.instances[1].bbox), (100, 0, 200, 100));
    assert_eq!(quads.instances[1].color, BLUE);
    assert_eq!(corners(&quads.instances[2].bbox), (200, 0, 300, 100));
    assert_eq!(quads.instances[2].color, BLACK);
}

#[test]
fn layout_vbox_inverts_rows() {
    let tree = Thing::Vbox(Vbox::new(vec![
        Thing::Quad { color: WHITE },
        Thing::Quad { color: BLUE },
    ]));
    let parent = Bbox::new(0, 0, 100, 200);
    let mut quads = QuadRenderer::new();
    let mut textured: Vec<Bbox> = Vec::new();
    let mut text = TextRenderer::new(64, 64, 12);
    let rasters: Vec<(char, RasterGlyph)> = Vec::new();
    layout(&tree, &parent, &mut quads, &mut textured, &mut text, &rasters);

    assert_eq!(quads.instances.len(), 2);
    // First inserted child lands in the bottom row.
    assert_eq!(corners(&quads.instances[0].bbox), (0, 0, 100, 100));
    assert_eq!(quads.instances[0].color, WHITE);
    assert_eq!(corners(&quads.instances[1].bbox), (0, 100, 100, 200));
    assert_eq!(quads.instances[1].color, BLUE);
}

#[test]
fn layout_nests_containers() {
    let tree = Thing::Hbox(Hbox::new(vec![
        Thing::Vbox(Vbox::new(vec![
            Thing::Quad { color: WHITE },
            Thing::Quad { color: BLUE },
        ])),
        Thing::Quad { color: BLACK },
    ]));
    let parent = Bbox::new(0, 0, 200, 100);
    let mut quads = QuadRenderer::new();
    let mut textured: Vec<Bbox> = Vec::new();
    let mut text = TextRenderer::new(64, 64, 12);
    let rasters: Vec<(char, RasterGlyph)> = Vec::new();
    layout(&tree, &parent, &mut quads, &mut textured, &mut text, &rasters);

    assert_eq!(quads.instances.len(), 3);
    assert_eq!(corners(&quads.instances[0].bbox), (0, 0, 100, 50));
    assert_eq!(corners(&quads.instances[1].bbox), (0, 50, 100, 100));
    assert_eq!(corners(&quads.instances[2].bbox), (100, 0, 200, 100));
}

#[test]
fn layout_text_leaf_emits_background_and_glyphs() {
    let tree = Thing::Hbox(Hbox::new(vec![Thing::Text {
        text: "ab".to_string(),
        text_color: WHITE,
        background_color: BLACK,
    }]));
    let parent = Bbox::new(0, 0, 100, 50);
    let mut quads = QuadRenderer::new();
    let mut textured: Vec<Bbox> = Vec::new();
    let mut text = TextRenderer::new(64, 64, 12);
    let rasters = vec![
        ('a', ascii_raster()),
        ('b', ascii_raster()),
    ];
    layout(&tree, &parent, &mut quads, &mut textured, &mut text, &rasters);

    assert_eq!(quads.instances.len(), 1);
    assert_eq!(corners(&quads.instances[0].bbox), (0, 0, 100, 50));
    assert_eq!(quads.instances[0].color, BLACK);
    assert_eq!(text.vertices.len(), 2 * 4);
    assert_eq!(text.uploads.len(), 2);
    assert!(textured.is_empty());
}

#[test]
fn layout_textured_leaf_records_its_box() {
    let tree = Thing::Vbox(Vbox::new(vec![
        Thing::TexturedQuad {},
        Thing::Quad { color: BLUE },
    ]));
    let parent = Bbox::new(0, 0, 80, 80);
    let mut quads = QuadRenderer::new();
    let mut textured: Vec<Bbox> = Vec::new();
    let mut text = TextRenderer::new(64, 64, 12);
    let rasters: Vec<(char, RasterGlyph)> = Vec::new();
    layout(&tree, &parent, &mut quads, &mut textured, &mut text, &rasters);

    assert_eq!(quads.instances.len(), 1);
    assert_eq!(textured.len(), 1);
    // The textured quad was inserted first, so it takes the bottom row.
    assert_eq!(corners(&textured[0]), (0, 0, 80, 40));
    assert_eq!(corners(&quads.instances[0].bbox), (0, 40, 80, 80));
}

#[test]
fn layout_wrapped_multiline_leaf() {
    let tree = Thing::Hbox(Hbox::new(vec![Thing::TextMultiLine {
        text: vec!["aaaa".to_string()],
        wrap_text: true,
        text_color: WHITE,
        background_color: BLACK,
    }]));
    // The single column is 20 wide: two glyphs of advance 10 per row.
    let parent = Bbox::new(0, 0, 20, 100);
    let mut quads = QuadRenderer::new();
    let mut textured: Vec<Bbox> = Vec::new();
    let mut text = TextRenderer::new(64, 64, 10);
    let rasters = vec![('a', glyph_atlas::RasterGlyph {
        metrics: glyph_atlas::GlyphMetrics {
            advance_x: 10,
            advance_y: 0,
            bearing_x: 1,
            bearing_y: 3,
            width: 3,
            height: 3,
        },
        bitmap: vec![200; 9],
    })];
    layout(&tree, &parent, &mut quads, &mut textured, &mut text, &rasters);

    assert_eq!(quads.instances.len(), 1);
    // Four glyphs wrapped two per row: all were drawn.
    assert_eq!(text.vertices.len(), 4 * 4);
}

fn ascii_raster() -> RasterGlyph {
    RasterGlyph {
        metrics: glyph_atlas::GlyphMetrics {
            advance_x: 7,
            advance_y: 0,
            bearing_x: 1,
            bearing_y: 5,
            width: 4,
            height: 5,
        },
        bitmap: vec![180; 20],
    }
}

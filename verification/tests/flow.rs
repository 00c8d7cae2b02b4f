//! Text flow: line heights, greedy wrapping, truncation, glyph quads.

use glyph_atlas::Bbox;
use glyph_atlas::Color;
use glyph_atlas::GlyphMetrics;
use glyph_atlas::RasterGlyph;
use glyph_atlas::TextRenderer;

const RED: Color = Color { r: 255, g: 0, b: 0, a: 255 };

fn raster(advance_x: i32, w: u32, h: u32) -> RasterGlyph {
    RasterGlyph {
        metrics: GlyphMetrics {
            advance_x,
            advance_y: 0,
            bearing_x: 1,
            bearing_y: h as i32,
            width: w,
            height: h,
        },
        bitmap: vec![200; (w * h) as usize],
    }
}

fn uniform_rasters(chars: &str, advance_x: i32) -> Vec<(char, RasterGlyph)> {
    chars.chars().map(|c| (c, raster(advance_x, 3, 3))).collect()
}

#[test]
fn unwrapped_text_uses_one_line_height() {
    let mut tr = TextRenderer::new(128, 128, 18);
    let rs = uniform_rasters("hi", 9);
    let used = tr.add_string_to_batch("hi", &rs, 0, 100, RED, None);
    assert_eq!(used, 18);
}

#[test]
fn empty_text_uses_no_height() {
    let mut tr = TextRenderer::new(128, 128, 18);
    let rs: Vec<(char, RasterGlyph)> = Vec::new();
    assert_eq!(tr.add_string_to_batch("", &rs, 0, 100, RED, None), 0);
    let b = Bbox::new(0, 0, 100, 100);
    assert_eq!(tr.add_string_to_batch("", &rs, 0, 100, RED, Some(&b)), 0);
}

#[test]
fn uniform_wrap_fills_a_ceiling_of_lines() {
    // Ten uniform glyphs in a box exactly three advances wide wrap into
    // four lines: ceil(10 / 3) = 4.
    let mut tr = TextRenderer::new(128, 128, 10);
    let rs = uniform_rasters("abcdefghij", 10);
    let b = Bbox::new(0, 0, 30, 100);
    let used = tr.add_string_to_batch("abcdefghij", &rs, 5, 100, RED, Some(&b));
    assert_eq!(used, 4 * 10);
}

#[test]
fn wrap_truncates_at_the_bottom() {
    // Same text, but the box only has room for two baselines.
    let mut tr = TextRenderer::new(128, 128, 10);
    let rs = uniform_rasters("abcdefghij", 10);
    let b = Bbox::new(0, 0, 30, 25);
    let used = tr.add_string_to_batch("abcdefghij", &rs, 5, 25, RED, Some(&b));
    assert_eq!(used, 2 * 10);
}

#[test]
fn whitespace_advances_the_pen_in_wrap_decisions() {
    // "a bc": the space takes the second of three slots on line one, so
    // 'c' wraps; without the space advancing, everything would fit on one
    // line.
    let mut tr = TextRenderer::new(128, 128, 10);
    let mut rs = uniform_rasters("abc", 10);
    rs.push((' ', raster(10, 2, 2)));
    let b = Bbox::new(0, 0, 30, 100);
    let used = tr.add_string_to_batch("a bc", &rs, 0, 100, RED, Some(&b));
    assert_eq!(used, 2 * 10);
}

#[test]
fn whitespace_draws_nothing() {
    let mut tr = TextRenderer::new(128, 128, 10);
    let mut rs = uniform_rasters("ab", 10);
    rs.push((' ', raster(10, 2, 2)));
    tr.add_string_to_batch("a b", &rs, 0, 100, RED, None);
    assert_eq!(tr.vertices.len(), 2 * 4, "two drawable glyphs, four corners each");
    assert_eq!(tr.indices.len(), 2 * 6);
}

#[test]
fn missing_raster_skips_the_character() {
    let mut tr = TextRenderer::new(128, 128, 10);
    let rs = uniform_rasters("ab", 10);
    // 'z' has no raster: it neither draws nor advances, so 'a' and 'b'
    // still wrap as if adjacent.
    let b = Bbox::new(0, 0, 20, 100);
    let used = tr.add_string_to_batch("azb", &rs, 0, 100, RED, Some(&b));
    assert_eq!(used, 10);
    assert_eq!(tr.vertices.len(), 2 * 4);
}

#[test]
fn glyph_quad_geometry_matches_the_pen() {
    let mut tr = TextRenderer::new(64, 64, 12);
    let rs = vec![(
        'a',
        RasterGlyph {
            metrics: GlyphMetrics {
                advance_x: 6,
                advance_y: 0,
                bearing_x: 1,
                bearing_y: 2,
                width: 2,
                height: 2,
            },
            bitmap: vec![9, 9, 9, 9],
        },
    )];
    tr.add_string_to_batch("a", &rs, 50, 100, RED, None);
    assert_eq!(tr.vertices.len(), 4);
    assert_eq!(tr.indices, vec![0, 1, 2, 0, 2, 3]);

    // The glyph is cached; look it up to learn its atlas region.
    let g = {
        let mut uploads = Vec::new();
        tr.atlas.get_or_insert('a', &rs[0].1, &mut uploads).unwrap()
    };
    let reg = g.region.unwrap();
    let (u0, v0) = (reg.min_x + 1, reg.min_y + 1);
    // Baseline is one line height below the top-left origin (50, 100).
    let (x, y) = (50 + 1, 88 + 2 - 2);
    assert_eq!((tr.vertices[0].x, tr.vertices[0].y), (x, y));
    assert_eq!((tr.vertices[0].u, tr.vertices[0].v), (u0, v0 + 2));
    assert_eq!((tr.vertices[1].x, tr.vertices[1].y), (x + 2, y));
    assert_eq!((tr.vertices[2].x, tr.vertices[2].y), (x + 2, y + 2));
    assert_eq!((tr.vertices[2].u, tr.vertices[2].v), (u0 + 2, v0));
    assert_eq!((tr.vertices[3].x, tr.vertices[3].y), (x, y + 2));
    assert_eq!(tr.vertices[0].color, RED);
}

#[test]
fn second_quad_reuses_no_indices() {
    let mut tr = TextRenderer::new(64, 64, 12);
    let rs = uniform_rasters("ab", 6);
    tr.add_string_to_batch("ab", &rs, 0, 100, RED, None);
    assert_eq!(tr.indices, vec![0, 1, 2, 0, 2, 3, 4, 5, 6, 4, 6, 7]);
}

#[test]
fn multiline_advances_by_consumed_height() {
    let mut tr = TextRenderer::new(128, 128, 10);
    let rs = uniform_rasters("abcdefghij", 10);
    let lines = vec!["abcdefghij".to_string(), "abc".to_string()];
    let b = Bbox::new(0, 0, 30, 200);
    // First line wraps into 4 rows, second into 1.
    let total = tr.add_multiline_string_to_batch(&lines, &rs, 0, 200, RED, Some(&b));
    assert_eq!(total, 5 * 10);
}

#[test]
fn multiline_without_wrap_stacks_single_lines() {
    let mut tr = TextRenderer::new(128, 128, 14);
    let rs = uniform_rasters("ab", 7);
    let lines = vec!["ab".to_string(), "ba".to_string(), "aa".to_string()];
    let total = tr.add_multiline_string_to_batch(&lines, &rs, 0, 100, RED, None);
    assert_eq!(total, 3 * 14);
}

#[test]
fn centered_text_draws_every_glyph() {
    let mut tr = TextRenderer::new(128, 128, 12);
    let rs = uniform_rasters("abcd", 6);
    tr.add_string_to_batch_centered("abcd", &rs, 64, 64, RED);
    assert_eq!(tr.vertices.len(), 4 * 4);
    // The run is horizontally centered: total advance 24, so the first
    // pen position is 64 - 12 and the first quad starts at that plus the
    // bearing.
    assert_eq!(tr.vertices[0].x, 64 - 12 + 1);
}

#[test]
fn clear_drops_geometry_but_keeps_the_cache() {
    let mut tr = TextRenderer::new(128, 128, 12);
    let rs = uniform_rasters("ab", 6);
    tr.add_string_to_batch("ab", &rs, 0, 50, RED, None);
    assert!(tr.vertices.len() > 0);
    assert_eq!(tr.atlas.len(), 2);
    tr.clear();
    assert_eq!(tr.vertices.len(), 0);
    assert_eq!(tr.indices.len(), 0);
    assert_eq!(tr.atlas.len(), 2, "the cache survives a frame clear");
}

#[test]
fn line_height_is_the_font_size() {
    let tr = TextRenderer::new(128, 128, 17);
    assert_eq!(tr.line_height(), 17);
}

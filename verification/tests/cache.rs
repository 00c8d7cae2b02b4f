//! Glyph atlas cache behavior: hits, whitespace, eviction order, capacity.

use glyph_atlas::AtlasCache;
use glyph_atlas::GlyphError;
use glyph_atlas::GlyphMetrics;
use glyph_atlas::RasterGlyph;
use glyph_atlas::UploadOp;

fn raster(advance_x: i32, w: u32, h: u32) -> RasterGlyph {
    RasterGlyph {
        metrics: GlyphMetrics {
            advance_x,
            advance_y: 0,
            bearing_x: 1,
            bearing_y: h as i32,
            width: w,
            height: h,
        },
        bitmap: vec![128; (w * h) as usize],
    }
}

#[test]
fn second_lookup_returns_identical_data() {
    let mut cache = AtlasCache::new(64, 64);
    let mut uploads: Vec<UploadOp> = Vec::new();
    let r = raster(7, 3, 3);

    let g1 = cache.get_or_insert('a', &r, &mut uploads).unwrap();
    assert_eq!(uploads.len(), 1);
    assert_eq!(cache.len(), 1);

    let g2 = cache.get_or_insert('a', &r, &mut uploads).unwrap();
    assert_eq!(g1, g2);
    assert_eq!(uploads.len(), 1, "a hit must not upload again");
    assert_eq!(cache.len(), 1);
}

#[test]
fn whitespace_never_touches_the_allocator() {
    let mut cache = AtlasCache::new(16, 16);
    let mut uploads: Vec<UploadOp> = Vec::new();

    // The atlas holds exactly one 16x16 padded glyph (14x14 raster).
    let big = raster(15, 14, 14);
    cache.get_or_insert('a', &big, &mut uploads).unwrap();
    assert_eq!(uploads.len(), 1);
    assert_eq!(cache.len(), 1);

    // Caching a space allocates nothing, uploads nothing, evicts nothing.
    let ws = cache.get_or_insert(' ', &raster(5, 2, 2), &mut uploads).unwrap();
    assert_eq!(ws.region, None);
    assert_eq!(uploads.len(), 1);
    assert_eq!(cache.len(), 2);
    assert!(cache.contains('a'));
    assert!(cache.contains(' '));
}

#[test]
fn eviction_takes_least_recently_used() {
    // Room for exactly two 16x16 padded glyphs.
    let mut cache = AtlasCache::new(16, 32);
    let mut uploads: Vec<UploadOp> = Vec::new();
    let r = raster(15, 14, 14);

    cache.get_or_insert('a', &r, &mut uploads).unwrap();
    cache.get_or_insert('b', &r, &mut uploads).unwrap();
    assert_eq!(cache.len(), 2);

    // Touch 'a' so 'b' becomes least recently used.
    cache.get_or_insert('a', &r, &mut uploads).unwrap();

    cache.get_or_insert('c', &r, &mut uploads).unwrap();
    assert_eq!(cache.len(), 2);
    assert!(cache.contains('a'), "most recently touched entry must survive");
    assert!(!cache.contains('b'), "least recently touched entry is evicted");
    assert!(cache.contains('c'));
}

#[test]
fn eviction_in_insertion_order_without_touches() {
    let mut cache = AtlasCache::new(16, 32);
    let mut uploads: Vec<UploadOp> = Vec::new();
    let r = raster(15, 14, 14);

    cache.get_or_insert('a', &r, &mut uploads).unwrap();
    cache.get_or_insert('b', &r, &mut uploads).unwrap();
    cache.get_or_insert('c', &r, &mut uploads).unwrap();
    assert!(!cache.contains('a'));
    assert!(cache.contains('b'));
    assert!(cache.contains('c'));
}

#[test]
fn contains_does_not_refresh_recency() {
    let mut cache = AtlasCache::new(16, 32);
    let mut uploads: Vec<UploadOp> = Vec::new();
    let r = raster(15, 14, 14);

    cache.get_or_insert('a', &r, &mut uploads).unwrap();
    cache.get_or_insert('b', &r, &mut uploads).unwrap();
    assert!(cache.contains('a'));
    // 'a' is still the least recently used: contains is a pure query.
    cache.get_or_insert('c', &r, &mut uploads).unwrap();
    assert!(!cache.contains('a'));
    assert!(cache.contains('b'));
}

#[test]
fn oversized_glyph_fails_even_when_empty() {
    let mut cache = AtlasCache::new(32, 32);
    let mut uploads: Vec<UploadOp> = Vec::new();

    // Padded to 66x66, far beyond the 32x32 atlas.
    let huge = raster(65, 64, 64);
    let e = cache.get_or_insert('X', &huge, &mut uploads).unwrap_err();
    assert_eq!(e, GlyphError::GlyphTooLarge);
    assert_eq!(cache.len(), 0);
    assert_eq!(uploads.len(), 0);
}

#[test]
fn oversized_glyph_drains_a_full_cache() {
    let mut cache = AtlasCache::new(32, 32);
    let mut uploads: Vec<UploadOp> = Vec::new();
    cache.get_or_insert('a', &raster(7, 4, 4), &mut uploads).unwrap();

    let huge = raster(65, 64, 64);
    let e = cache.get_or_insert('X', &huge, &mut uploads).unwrap_err();
    assert_eq!(e, GlyphError::GlyphTooLarge);
    assert_eq!(cache.len(), 0, "the failed attempt evicted everything");
    assert_eq!(uploads.len(), 1, "no upload for the failed glyph");
}

#[test]
fn empty_bitmap_is_rejected_and_not_cached() {
    let mut cache = AtlasCache::new(64, 64);
    let mut uploads: Vec<UploadOp> = Vec::new();

    let degenerate = raster(6, 0, 0);
    let e = cache.get_or_insert('\u{200b}', &degenerate, &mut uploads).unwrap_err();
    assert_eq!(e, GlyphError::EmptyBitmap);
    assert_eq!(cache.len(), 0);
    assert_eq!(uploads.len(), 0);
}

#[test]
fn upload_is_the_padded_bitmap_at_the_region_origin() {
    let mut cache = AtlasCache::new(64, 64);
    let mut uploads: Vec<UploadOp> = Vec::new();
    let r = RasterGlyph {
        metrics: GlyphMetrics {
            advance_x: 3,
            advance_y: 0,
            bearing_x: 0,
            bearing_y: 2,
            width: 2,
            height: 2,
        },
        bitmap: vec![10, 20, 30, 40],
    };

    let g = cache.get_or_insert('q', &r, &mut uploads).unwrap();
    let reg = g.region.expect("a drawable glyph owns a region");
    assert_eq!(uploads.len(), 1);
    let up = &uploads[0];
    assert_eq!(up.x, reg.min_x as u32);
    assert_eq!(up.y, reg.min_y as u32);
    assert_eq!(up.width, 4);
    assert_eq!(up.height, 4);
    assert_eq!(up.pixels.len(), 4 * 4 * 4);

    let px = |x: usize, y: usize| -> [u8; 4] {
        let base = 4 * (y * 4 + x);
        [
            up.pixels[base],
            up.pixels[base + 1],
            up.pixels[base + 2],
            up.pixels[base + 3],
        ]
    };
    // Transparent border all around.
    assert_eq!(px(0, 0), [0, 0, 0, 0]);
    assert_eq!(px(3, 0), [0, 0, 0, 0]);
    assert_eq!(px(0, 3), [0, 0, 0, 0]);
    assert_eq!(px(3, 3), [0, 0, 0, 0]);
    assert_eq!(px(2, 0), [0, 0, 0, 0]);
    // Interior: white with the coverage as alpha, row-major.
    assert_eq!(px(1, 1), [255, 255, 255, 10]);
    assert_eq!(px(2, 1), [255, 255, 255, 20]);
    assert_eq!(px(1, 2), [255, 255, 255, 30]);
    assert_eq!(px(2, 2), [255, 255, 255, 40]);
}

#[test]
fn release_and_reuse_never_exhausts_the_atlas() {
    // One glyph fits at a time; a hundred alternating insertions must all
    // succeed, each reusing the space the previous eviction released.
    let mut cache = AtlasCache::new(16, 16);
    let mut uploads: Vec<UploadOp> = Vec::new();
    let r = raster(15, 14, 14);
    for i in 0..100u32 {
        let c = char::from_u32('a' as u32 + (i % 26)).unwrap();
        let g = cache
            .get_or_insert(c, &r, &mut uploads)
            .expect("freed space must be reusable");
        assert!(g.region.is_some());
        // Alternate with a second alphabet so every round is a miss that
        // must reuse just-released space.
        let other = char::from_u32('A' as u32 + (i % 26)).unwrap();
        cache.get_or_insert(other, &r, &mut uploads).expect("freed space must be reusable");
    }
}

//! Glyph data as plain values: rasterizer output, cached placements, and
//! the padded RGBA pixel buffer uploaded into the atlas texture.

use vstd::prelude::*;

verus! {

/// Largest bitmap edge the cache accepts, in pixels.
pub const MAX_GLYPH_EDGE: u32 = 0x4000;

/// Largest magnitude of an advance or bearing, in pixels.
pub const MAX_METRIC: i32 = 0x100000;

/// Font metrics of one rasterized glyph, in integer pixels.
/// `advance` is the pen displacement after drawing; `bearing` is the offset
/// from the pen position to the bitmap's top-left corner.
#[derive(Debug, Clone, Copy, PartialEq, Eq, Structural)]
pub struct GlyphMetrics {
    pub advance_x: i32,
    pub advance_y: i32,
    pub bearing_x: i32,
    pub bearing_y: i32,
    pub width: u32,
    pub height: u32,
}

impl GlyphMetrics {
    pub open spec fn wf(self) -> bool {
        &&& self.width <= MAX_GLYPH_EDGE
        &&& self.height <= MAX_GLYPH_EDGE
        &&& -MAX_METRIC <= self.advance_x <= MAX_METRIC
        &&& -MAX_METRIC <= self.advance_y <= MAX_METRIC
        &&& -MAX_METRIC <= self.bearing_x <= MAX_METRIC
        &&& -MAX_METRIC <= self.bearing_y <= MAX_METRIC
    }
}

/// What the external rasterizer hands back for one character: metrics plus
/// a `width x height` single-channel coverage bitmap in row-major order.
#[derive(Debug, Clone)]
pub struct RasterGlyph {
    pub metrics: GlyphMetrics,
    pub bitmap: Vec<u8>,
}

impl RasterGlyph {
    pub open spec fn wf(self) -> bool {
        &&& self.metrics.wf()
        &&& self.bitmap@.len() == self.metrics.width * self.metrics.height
    }
}

/// A rectangle of atlas pixels owned by the packing allocator, together
/// with the allocator's handle for it.
#[derive(Debug, Clone, Copy, PartialEq, Eq)]
pub struct Region {
    pub id: u32,
    pub min_x: i32,
    pub min_y: i32,
    pub max_x: i32,
    pub max_y: i32,
}

/// True if the two regions share no pixel.
pub open spec fn regions_disjoint(a: Region, b: Region) -> bool {
    ||| a.max_x <= b.min_x
    ||| b.max_x <= a.min_x
    ||| a.max_y <= b.min_y
    ||| b.max_y <= a.min_y
}

/// One memoized glyph: its character, its metrics, and where its padded
/// bitmap sits in the atlas. `region` is `None` exactly for whitespace,
/// which draws nothing and owns no atlas space.
#[derive(Debug, Clone, Copy, PartialEq, Eq)]
pub struct CachedGlyph {
    pub ch: char,
    pub metrics: GlyphMetrics,
    pub region: Option<Region>,
}

/// Why the cache could not produce a drawable glyph for a character.
#[derive(Debug, Clone, Copy, PartialEq, Eq, Structural)]
pub enum GlyphError {
    /// Even a fully empty atlas cannot hold the padded bitmap.
    GlyphTooLarge,
    /// The rasterized bitmap has zero width or height; there is nothing
    /// to place and the character is not cached.
    EmptyBitmap,
}

/// One pending write into the shared atlas texture: `pixels` is an RGBA
/// buffer of `width x height` pixels to place with its top-left corner at
/// `(x, y)` in atlas space.
#[derive(Debug, Clone)]
pub struct UploadOp {
    pub x: u32,
    pub y: u32,
    pub width: u32,
    pub height: u32,
    pub pixels: Vec<u8>,
}

/// The whitespace class: the characters with the Unicode `White_Space`
/// property. These advance the pen but never occupy atlas space.
pub open spec fn is_ws(c: char) -> bool {
    ||| c == ' '
    ||| c == '\t'
    ||| c == '\n'
    ||| c == '\u{0b}'
    ||| c == '\u{0c}'
    ||| c == '\r'
    ||| c == '\u{85}'
    ||| c == '\u{a0}'
    ||| c == '\u{1680}'
    ||| ('\u{2000}' <= c && c <= '\u{200a}')
    ||| c == '\u{2028}'
    ||| c == '\u{2029}'
    ||| c == '\u{202f}'
    ||| c == '\u{205f}'
    ||| c == '\u{3000}'
}

/// Runtime test for the whitespace class.
pub fn is_whitespace_char(c: char) -> (r: bool)
    ensures
        r == is_ws(c),
{
    c == ' ' || c == '\t' || c == '\n' || c == '\u{0b}' || c == '\u{0c}' || c == '\r'
        || c == '\u{85}' || c == '\u{a0}' || c == '\u{1680}'
        || ('\u{2000}' <= c && c <= '\u{200a}') || c == '\u{2028}' || c == '\u{2029}'
        || c == '\u{202f}' || c == '\u{205f}' || c == '\u{3000}'
}

/// The byte at channel `k` of padded pixel `(px, py)`: opaque white with
/// the glyph's coverage as alpha in the interior, transparent black on the
/// one-pixel border.
pub open spec fn padded_byte(bm: Seq<u8>, w: int, h: int, px: int, py: int, k: int) -> u8 {
    if 1 <= px <= w && 1 <= py <= h {
        if k < 3 {
            255u8
        } else {
            bm[(py - 1) * w + (px - 1)]
        }
    } else {
        0u8
    }
}

/// `out` is exactly the padded RGBA buffer for the `w x h` coverage
/// bitmap `bm`.
pub open spec fn is_padded_rgba(out: Seq<u8>, bm: Seq<u8>, w: int, h: int) -> bool {
    &&& out.len() == (w + 2) * (h + 2) * 4
    &&& forall|px: int, py: int, k: int|
        0 <= px < w + 2 && 0 <= py < h + 2 && 0 <= k < 4 ==> out[4 * (py * (w + 2) + px) + k]
            == padded_byte(bm, w, h, px, py, k)
}

proof fn lemma_row_major_bound(py2: int, px2: int, py: int, pw: int)
    by (nonlinear_arith)
    requires
        0 <= px2 < pw,
        0 <= py2 < py,
    ensures
        4 * (py2 * pw + px2) + 3 < 4 * (py * pw),
{
}

/// Build the RGBA buffer for a glyph bitmap padded by one transparent pixel
/// on every edge, so that bilinear filtering never samples a neighbor.
pub fn padded_rgba(bitmap: &Vec<u8>, w: u32, h: u32) -> (out: Vec<u8>)
    requires
        1 <= w <= MAX_GLYPH_EDGE,
        1 <= h <= MAX_GLYPH_EDGE,
        bitmap@.len() == w * h,
    ensures
        is_padded_rgba(out@, bitmap@, w as int, h as int),
{
    let pw: usize = w as usize + 2;
    let ph: usize = h as usize + 2;
    let wu: usize = w as usize;
    let mut out: Vec<u8> = Vec::new();
    let mut py: usize = 0;
    while py < ph
        invariant
            1 <= w <= MAX_GLYPH_EDGE,
            1 <= h <= MAX_GLYPH_EDGE,
            bitmap@.len() == w * h,
            pw == w + 2,
            ph == h + 2,
            wu == w,
            0 <= py <= ph,
            out@.len() == 4 * (py * pw),
            forall|px2: int, py2: int, k: int|
                0 <= px2 < pw && 0 <= py2 < py && 0 <= k < 4 ==> #[trigger] out@[4 * (py2 * pw
                    + px2) + k] == padded_byte(bitmap@, w as int, h as int, px2, py2, k),
        decreases ph - py,
    {
        let mut px: usize = 0;
        while px < pw
            invariant
                1 <= w <= MAX_GLYPH_EDGE,
                1 <= h <= MAX_GLYPH_EDGE,
                bitmap@.len() == w * h,
                pw == w + 2,
                ph == h + 2,
                wu == w,
                0 <= py < ph,
                0 <= px <= pw,
                out@.len() == 4 * (py * pw + px),
                forall|px2: int, py2: int, k: int|
                    0 <= px2 < pw && 0 <= py2 < py && 0 <= k < 4 ==> #[trigger] out@[4 * (py2
                        * pw + px2) + k] == padded_byte(bitmap@, w as int, h as int, px2, py2, k),
                forall|px2: int, k: int|
                    0 <= px2 < px && 0 <= k < 4 ==> #[trigger] out@[4 * (py * pw + px2) + k]
                        == padded_byte(bitmap@, w as int, h as int, px2, py as int, k),
            decreases pw - px,
        {
            if 1 <= px && px <= wu && 1 <= py && py <= h as usize {
                proof {
                    assert((py - 1) * wu + (px - 1) < w * h && (py - 1) * wu <= 0x10000000)
                        by (nonlinear_arith)
                        requires
                            1 <= py <= h,
                            1 <= px <= wu,
                            wu == w,
                            1 <= w <= MAX_GLYPH_EDGE,
                            h <= MAX_GLYPH_EDGE,
                    ;
                }
                let bi: usize = (py - 1) * wu + (px - 1);
                let a = bitmap[bi];
                out.push(255);
                out.push(255);
                out.push(255);
                out.push(a);
            } else {
                out.push(0);
                out.push(0);
                out.push(0);
                out.push(0);
            }
            proof {
                assert forall|px2: int, py2: int, k: int|
                    0 <= px2 < pw && 0 <= py2 < py && 0 <= k < 4 implies #[trigger] out@[4 * (
                py2 * pw + px2) + k] == padded_byte(bitmap@, w as int, h as int, px2, py2, k) by {
                    lemma_row_major_bound(py2, px2, py as int, pw as int);
                }
            }
            px = px + 1;
        }
        proof {
            assert forall|px2: int, py2: int, k: int|
                0 <= px2 < pw && 0 <= py2 < py + 1 && 0 <= k < 4 implies #[trigger] out@[4 * (
            py2 * pw + px2) + k] == padded_byte(bitmap@, w as int, h as int, px2, py2, k) by {
                lemma_row_major_bound(py2, px2, py + 1, pw as int);
            }
            assert(4 * (py * pw + pw) == 4 * ((py + 1) * pw)) by (nonlinear_arith);
        }
        py = py + 1;
    }
    proof {
        assert(4 * (ph * pw) == (w + 2) * (h + 2) * 4) by (nonlinear_arith)
            requires
                pw == w + 2,
                ph == h + 2,
        ;
        assert forall|px: int, py: int, k: int|
            0 <= px < w + 2 && 0 <= py < h + 2 && 0 <= k < 4 implies out@[4 * (py * (w + 2)
            + px) + k] == padded_byte(bitmap@, w as int, h as int, px, py, k) by {
            assert(out@[4 * (py * (pw as int) + px) + k] == padded_byte(
                bitmap@,
                w as int,
                h as int,
                px,
                py,
                k,
            ));
        }
    }
    out
}

} // verus!

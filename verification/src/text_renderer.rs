//! The text flow engine: walks characters, queries the glyph atlas cache,
//! and emits quad geometry, wrapping greedily against an optional box.

use vstd::prelude::*;
use crate::atlas::AtlasCache;
use crate::glyph::CachedGlyph;
use crate::glyph::RasterGlyph;
use crate::glyph::UploadOp;
use crate::glyph::MAX_METRIC;
use crate::glyph::is_whitespace_char;
use crate::glyph::is_ws;
use crate::layout::Bbox;
use crate::layout::COORD_LIMIT;
use crate::packer::MAX_CANVAS_EDGE;
use crate::quad::Color;
use crate::store::distinct_keys;
use crate::store::entry_glyph;
use crate::store::find_entry;
use crate::store::has_entry;
use crate::store::lemma_find_entry;
use crate::store::lemma_find_entry_witness;
use crate::store::lemma_refresh_shape;
use crate::store::refresh_entry;

verus! {

/// Largest pen coordinate magnitude the flow engine accepts; pen motion
/// from any accepted text stays far inside `i64`.
pub const PEN_LIMIT: i64 = 0x10_0000_0000_0000;

/// Largest line height (font size) accepted.
pub const MAX_FONT_SIZE: i64 = 0x10000;

/// Most glyph quads one batch holds; keeps every index within `u16`.
pub const MAX_QUADS: usize = 0x4000;

/// Longest text one call accepts, in characters.
pub const MAX_TEXT_LEN: usize = 0x1000_0000;

/// Largest text origin magnitude one call accepts.
pub const ORIGIN_LIMIT: i64 = 0x100_0000_0000;

/// Most lines one multiline call accepts.
pub const MAX_LINES: usize = 0x100;

/// Longest line one multiline call accepts, in characters.
pub const MAX_LINE_LEN: usize = 0x1000;

/// One corner of a glyph quad: position in layout space, texture
/// coordinates in atlas pixels (the renderer divides by the atlas size),
/// and the text color.
#[derive(Debug, Clone, Copy, PartialEq, Eq, Structural)]
pub struct TextVertex {
    pub x: i64,
    pub y: i64,
    pub u: i32,
    pub v: i32,
    pub color: Color,
}

/// The four corners of one glyph quad drawn with its bottom-left pen
/// corner at `(px, py)`: the bitmap rectangle offset by the bearing, with
/// texture coordinates skipping the one-pixel padding border.
pub open spec fn glyph_vertices(g: CachedGlyph, px: int, py: int, color: Color) -> Seq<
    TextVertex,
> {
    let reg = g.region->Some_0;
    let x = px + g.metrics.bearing_x;
    let y = py + g.metrics.bearing_y - g.metrics.height;
    let w = g.metrics.width as int;
    let h = g.metrics.height as int;
    let u0 = reg.min_x + 1;
    let v0 = reg.min_y + 1;
    let u1 = u0 + w;
    let v1 = v0 + h;
    seq![
        TextVertex { x: x as i64, y: y as i64, u: u0 as i32, v: v1 as i32, color },
        TextVertex { x: (x + w) as i64, y: y as i64, u: u1 as i32, v: v1 as i32, color },
        TextVertex { x: (x + w) as i64, y: (y + h) as i64, u: u1 as i32, v: v0 as i32, color },
        TextVertex { x: x as i64, y: (y + h) as i64, u: u0 as i32, v: v0 as i32, color },
    ]
}

/// The six indices of quad number `q`: two triangles over its four
/// corners, counter-clockwise.
pub open spec fn glyph_indices(q: int) -> Seq<u16> {
    seq![
        (4 * q) as u16,
        (4 * q + 1) as u16,
        (4 * q + 2) as u16,
        (4 * q) as u16,
        (4 * q + 2) as u16,
        (4 * q + 3) as u16,
    ]
}

/// Index of the first raster for `c` in a raster set, or `-1`.
pub open spec fn raster_find(rs: Seq<(char, RasterGlyph)>, c: char) -> int
    decreases rs.len(),
{
    if rs.len() == 0 {
        -1
    } else if rs[0].0 == c {
        0
    } else {
        let r = raster_find(rs.drop_first(), c);
        if r < 0 {
            -1
        } else {
            r + 1
        }
    }
}

pub open spec fn raster_has(rs: Seq<(char, RasterGlyph)>, c: char) -> bool {
    raster_find(rs, c) >= 0
}

/// The raster for `c`; meaningful only when `raster_has(rs, c)`.
pub open spec fn raster_of(rs: Seq<(char, RasterGlyph)>, c: char) -> RasterGlyph {
    rs[raster_find(rs, c)].1
}

/// Every raster in the set is well-formed.
pub open spec fn rasters_wf(rs: Seq<(char, RasterGlyph)>) -> bool {
    forall|i: int| 0 <= i < rs.len() ==> (#[trigger] rs[i]).1.wf()
}

/// What `raster_find` finds.
pub proof fn lemma_raster_find(rs: Seq<(char, RasterGlyph)>, c: char)
    ensures
        raster_has(rs, c) ==> 0 <= raster_find(rs, c) < rs.len() && rs[raster_find(rs, c)].0
            == c,
        !raster_has(rs, c) ==> forall|i: int| 0 <= i < rs.len() ==> (#[trigger] rs[i]).0 != c,
    decreases rs.len(),
{
    if rs.len() > 0 && rs[0].0 != c {
        lemma_raster_find(rs.drop_first(), c);
        assert forall|i: int|
            !raster_has(rs, c) && 0 <= i < rs.len() implies (#[trigger] rs[i]).0 != c by {
            if i > 0 {
                assert(rs.drop_first()[i - 1] == rs[i]);
            }
        }
    }
}

/// How far the pen moves for one character, or `None` when it does not
/// move at all: a character with no raster (the rasterizer failed on it)
/// and a non-whitespace character with an empty bitmap are skipped whole.
pub open spec fn flow_adv(rs: Seq<(char, RasterGlyph)>, c: char) -> Option<(int, int)> {
    if !raster_has(rs, c) {
        None
    } else {
        let m = raster_of(rs, c).metrics;
        if is_ws(c) || (1 <= m.width && 1 <= m.height) {
            Some((m.advance_x as int, m.advance_y as int))
        } else {
            None
        }
    }
}

/// The pen state of the authoritative wrapping pass.
pub struct WrapState {
    pub pen_x: int,
    pub pen_y: int,
    pub used: int,
    pub line_open: bool,
    pub stopped: bool,
}

/// The pen before the first character: at the wrap box's left edge, one
/// line height below the origin, with no height consumed yet.
pub open spec fn wrap_init(b: Bbox, y: int, h: int) -> WrapState {
    WrapState { pen_x: b.min.0 as int, pen_y: y - h, used: 0, line_open: false, stopped: false }
}

/// One character of the wrapping pass. If the character's advance would
/// carry the pen past the box's right edge, the pen wraps to the left
/// edge one line down before drawing; if the pen's baseline then lies
/// outside the box vertically, the pass stops for good. A line's height
/// is consumed when its first character lands on it.
pub open spec fn wrap_step(st: WrapState, adv: Option<(int, int)>, b: Bbox, h: int) -> WrapState {
    if st.stopped {
        st
    } else {
        match adv {
            None => st,
            Some(a) => {
                let wrapping = st.line_open && st.pen_x + a.0 > b.max.0;
                let px = if wrapping {
                    b.min.0 as int
                } else {
                    st.pen_x
                };
                let py = if wrapping {
                    st.pen_y - h
                } else {
                    st.pen_y
                };
                let lo = if wrapping {
                    false
                } else {
                    st.line_open
                };
                if !(b.min.1 <= py <= b.max.1) {
                    WrapState { pen_x: px, pen_y: py, used: st.used, line_open: lo, stopped: true }
                } else {
                    WrapState {
                        pen_x: px + a.0,
                        pen_y: py + a.1,
                        used: if lo {
                            st.used
                        } else {
                            st.used + h
                        },
                        line_open: true,
                        stopped: false,
                    }
                }
            },
        }
    }
}

/// The wrapping pass over a whole text.
pub open spec fn wrap_run(
    cs: Seq<char>,
    rs: Seq<(char, RasterGlyph)>,
    st: WrapState,
    b: Bbox,
    h: int,
) -> WrapState
    decreases cs.len(),
{
    if cs.len() == 0 {
        st
    } else {
        wrap_run(cs.drop_first(), rs, wrap_step(st, flow_adv(rs, cs[0]), b, h), b, h)
    }
}

/// A stopped pass stays stopped and consumes nothing more.
pub proof fn lemma_wrap_run_stopped(
    cs: Seq<char>,
    rs: Seq<(char, RasterGlyph)>,
    st: WrapState,
    b: Bbox,
    h: int,
)
    requires
        st.stopped,
    ensures
        wrap_run(cs, rs, st, b, h) == st,
    decreases cs.len(),
{
    if cs.len() > 0 {
        lemma_wrap_run_stopped(cs.drop_first(), rs, st, b, h);
    }
}

/// A run decomposes around any cut point.
pub proof fn lemma_wrap_run_split(
    cs: Seq<char>,
    rs: Seq<(char, RasterGlyph)>,
    st: WrapState,
    b: Bbox,
    h: int,
    j: int,
)
    requires
        0 <= j <= cs.len(),
    ensures
        wrap_run(cs, rs, st, b, h) == wrap_run(
            cs.skip(j),
            rs,
            wrap_run(cs.take(j), rs, st, b, h),
            b,
            h,
        ),
    decreases j,
{
    if j == 0 {
        assert(cs.take(0) =~= Seq::<char>::empty());
        assert(cs.skip(0) =~= cs);
    } else {
        lemma_wrap_run_split(cs, rs, st, b, h, j - 1);
        assert(cs.take(j) =~= cs.take(j - 1).push(cs[j - 1]));
        lemma_wrap_run_push(cs.take(j - 1), rs, st, b, h, cs[j - 1]);
        let stj1 = wrap_run(cs.take(j - 1), rs, st, b, h);
        assert(cs.skip(j - 1)[0] == cs[j - 1]);
        assert(cs.skip(j - 1).drop_first() =~= cs.skip(j));
        assert(cs.skip(j - 1).len() > 0);
    }
}

/// Running one more character applies one more step.
pub proof fn lemma_wrap_run_push(
    cs: Seq<char>,
    rs: Seq<(char, RasterGlyph)>,
    st: WrapState,
    b: Bbox,
    h: int,
    c: char,
)
    ensures
        wrap_run(cs.push(c), rs, st, b, h) == wrap_step(
            wrap_run(cs, rs, st, b, h),
            flow_adv(rs, c),
            b,
            h,
        ),
    decreases cs.len(),
{
    reveal_with_fuel(wrap_run, 3);
    if cs.len() == 0 {
        assert(cs.push(c)[0] == c);
        assert(cs.push(c).drop_first() =~= Seq::<char>::empty());
    } else {
        assert(cs.push(c)[0] == cs[0]);
        assert(cs.push(c).drop_first() =~= cs.drop_first().push(c));
        lemma_wrap_run_push(
            cs.drop_first(),
            rs,
            wrap_step(st, flow_adv(rs, cs[0]), b, h),
            b,
            h,
            c,
        );
    }
}

/// Measuring one more character adds one more advance.
proof fn lemma_measure_push(cs: Seq<char>, rs: Seq<(char, RasterGlyph)>, c: char)
    ensures
        measure_width(cs.push(c), rs) == measure_width(cs, rs) + (match flow_adv(rs, c) {
            Some(a) => a.0,
            None => 0,
        }),
    decreases cs.len(),
{
    reveal_with_fuel(measure_width, 3);
    if cs.len() == 0 {
        assert(cs.push(c)[0] == c);
        assert(cs.push(c).drop_first() =~= Seq::<char>::empty());
    } else {
        assert(cs.push(c)[0] == cs[0]);
        assert(cs.push(c).drop_first() =~= cs.drop_first().push(c));
        lemma_measure_push(cs.drop_first(), rs, c);
    }
}

/// The height one text line consumes: nothing for empty text, one line
/// height for unwrapped text, and the height of the wrapping pass when a
/// wrap box constrains it.
pub open spec fn flow_height(
    cs: Seq<char>,
    rs: Seq<(char, RasterGlyph)>,
    y: int,
    wrap: Option<Bbox>,
    h: int,
) -> int {
    match wrap {
        None => if cs.len() == 0 {
            0
        } else {
            h
        },
        Some(b) => wrap_run(cs, rs, wrap_init(b, y, h), b, h).used,
    }
}

/// The height a sequence of lines consumes, each line placed with its
/// origin dropped by the heights of the lines before it.
pub open spec fn multiline_height(
    lines: Seq<Seq<char>>,
    rs: Seq<(char, RasterGlyph)>,
    y: int,
    wrap: Option<Bbox>,
    h: int,
) -> int
    decreases lines.len(),
{
    if lines.len() == 0 {
        0
    } else {
        let u = flow_height(lines[0], rs, y, wrap, h);
        u + multiline_height(lines.drop_first(), rs, y - u, wrap, h)
    }
}

/// The unwrapped width of a text: the sum of the advances of the
/// characters that move the pen.
pub open spec fn measure_width(cs: Seq<char>, rs: Seq<(char, RasterGlyph)>) -> int
    decreases cs.len(),
{
    if cs.len() == 0 {
        0
    } else {
        (match flow_adv(rs, cs[0]) {
            Some(a) => a.0,
            None => 0,
        }) + measure_width(cs.drop_first(), rs)
    }
}

/// Lines still to be opened by a wrapping pass that stands `r` characters
/// into its current line, with `m` characters left and `k` characters to
/// a line.
pub open spec fn lines_left(m: int, r: int, k: int) -> int {
    if m <= k - r {
        0
    } else {
        (m - (k - r) + k - 1) / k
    }
}

/// The heart of uniform wrapping: from a pen mid-line, a text of
/// same-advance characters opens exactly `lines_left` more lines.
proof fn lemma_uniform_wrap_aux(
    cs: Seq<char>,
    rs: Seq<(char, RasterGlyph)>,
    b: Bbox,
    h: int,
    a: int,
    k: int,
    st: WrapState,
    r: int,
)
    requires
        1 <= h,
        1 <= a,
        1 <= k,
        b.max.0 - b.min.0 == k * a,
        forall|i: int| 0 <= i < cs.len() ==> flow_adv(rs, #[trigger] cs[i]) == Some((a, 0int)),
        1 <= r <= k,
        st.pen_x == b.min.0 + r * a,
        st.pen_y <= b.max.1,
        st.pen_y - lines_left(cs.len() as int, r, k) * h >= b.min.1,
        st.line_open,
        !st.stopped,
    ensures
        wrap_run(cs, rs, st, b, h).used == st.used + lines_left(cs.len() as int, r, k) * h,
    decreases cs.len(),
{
    let m = cs.len() as int;
    let l = lines_left(m, r, k);
    if m == 0 {
    } else {
        assert(flow_adv(rs, cs[0]) == Some((a, 0int)));
        assert(l >= 0) by (nonlinear_arith)
            requires
                l == lines_left(m, r, k),
                1 <= k,
                m >= 1,
                1 <= r <= k,
        ;
        let st1 = wrap_step(st, flow_adv(rs, cs[0]), b, h);
        assert forall|i: int| 0 <= i < cs.drop_first().len() implies flow_adv(
            rs,
            #[trigger] cs.drop_first()[i],
        ) == Some((a, 0int)) by {
            assert(cs.drop_first()[i] == cs[i + 1]);
        }
        if r < k {
            assert(st.pen_x + a <= b.max.0) by (nonlinear_arith)
                requires
                    st.pen_x == b.min.0 + r * a,
                    b.max.0 - b.min.0 == k * a,
                    r < k,
                    a >= 1,
            ;
            assert(st.pen_y >= b.min.1) by (nonlinear_arith)
                requires
                    st.pen_y - l * h >= b.min.1,
                    l >= 0,
                    h >= 1,
            ;
            assert(st1 == WrapState {
                pen_x: st.pen_x + a,
                pen_y: st.pen_y,
                used: st.used,
                line_open: true,
                stopped: false,
            });
            assert(lines_left(m - 1, r + 1, k) == l) by (nonlinear_arith)
                requires
                    l == lines_left(m, r, k),
                    1 <= r < k,
                    m >= 1,
                    1 <= k,
            ;
            assert(st1.pen_x == b.min.0 + (r + 1) * a) by (nonlinear_arith)
                requires
                    st1.pen_x == b.min.0 + r * a + a,
            ;
            lemma_uniform_wrap_aux(cs.drop_first(), rs, b, h, a, k, st1, r + 1);
        } else {
            assert(st.pen_x + a > b.max.0) by (nonlinear_arith)
                requires
                    st.pen_x == b.min.0 + r * a,
                    b.max.0 - b.min.0 == k * a,
                    r == k,
                    a >= 1,
            ;
            assert(l >= 1) by (nonlinear_arith)
                requires
                    l == lines_left(m, r, k),
                    r == k,
                    m >= 1,
                    1 <= k,
            ;
            assert(st.pen_y - h >= b.min.1) by (nonlinear_arith)
                requires
                    st.pen_y - l * h >= b.min.1,
                    l >= 1,
                    h >= 1,
            ;
            assert(st1 == WrapState {
                pen_x: b.min.0 + a,
                pen_y: st.pen_y - h,
                used: st.used + h,
                line_open: true,
                stopped: false,
            });
            assert(lines_left(m - 1, 1, k) == l - 1) by (nonlinear_arith)
                requires
                    l == lines_left(m, k, k),
                    r == k,
                    m >= 1,
                    1 <= k,
            ;
            assert(st1.pen_x == b.min.0 + 1 * a) by (nonlinear_arith)
                requires
                    st1.pen_x == b.min.0 + a,
            ;
            assert(st1.pen_y - (l - 1) * h >= b.min.1) by (nonlinear_arith)
                requires
                    st1.pen_y == st.pen_y - h,
                    st.pen_y - l * h >= b.min.1,
            ;
            lemma_uniform_wrap_aux(cs.drop_first(), rs, b, h, a, k, st1, 1);
            assert(st.used + h + (l - 1) * h == st.used + l * h) by (nonlinear_arith);
        }
    }
}

/// Uniform wrapping consumes a ceiling of lines: a text of `n` characters
/// of equal advance `a`, wrapped in a box exactly `k` advances wide and
/// tall enough, fills exactly `ceil(n / k)` lines, so the height consumed
/// is `ceil(n / k)` line heights.
pub proof fn lemma_uniform_wrap_height(
    cs: Seq<char>,
    rs: Seq<(char, RasterGlyph)>,
    b: Bbox,
    h: int,
    y: int,
    a: int,
    k: int,
)
    requires
        1 <= h,
        1 <= a,
        1 <= k,
        b.wf(),
        b.max.0 - b.min.0 == k * a,
        forall|i: int| 0 <= i < cs.len() ==> flow_adv(rs, #[trigger] cs[i]) == Some((a, 0int)),
        b.min.1 <= y - h <= b.max.1,
        y - ((cs.len() + k - 1) / k) * h >= b.min.1,
    ensures
        flow_height(cs, rs, y, Some(b), h) == ((cs.len() + k - 1) / k) * h,
{
    let n = cs.len() as int;
    let lines = (n + k - 1) / k;
    let st0 = wrap_init(b, y, h);
    if n == 0 {
        assert(lines == 0) by (nonlinear_arith)
            requires
                lines == (0 + k - 1) / k,
                1 <= k,
        ;
        assert(wrap_run(cs, rs, st0, b, h) == st0);
        assert(lines * h == 0) by (nonlinear_arith)
            requires
                lines == 0,
        ;
    } else {
        assert(flow_adv(rs, cs[0]) == Some((a, 0int)));
        let st1 = wrap_step(st0, flow_adv(rs, cs[0]), b, h);
        assert(st1 == WrapState {
            pen_x: b.min.0 + a,
            pen_y: y - h,
            used: h,
            line_open: true,
            stopped: false,
        });
        assert forall|i: int| 0 <= i < cs.drop_first().len() implies flow_adv(
            rs,
            #[trigger] cs.drop_first()[i],
        ) == Some((a, 0int)) by {
            assert(cs.drop_first()[i] == cs[i + 1]);
        }
        assert(lines >= 1 && lines_left(n - 1, 1, k) == lines - 1) by (nonlinear_arith)
            requires
                lines == (n + k - 1) / k,
                n >= 1,
                1 <= k,
        ;
        assert(st1.pen_x == b.min.0 + 1 * a) by (nonlinear_arith)
            requires
                st1.pen_x == b.min.0 + a,
        ;
        assert(st1.pen_y - (lines - 1) * h >= b.min.1) by (nonlinear_arith)
            requires
                st1.pen_y == y - h,
                y - lines * h >= b.min.1,
        ;
        lemma_uniform_wrap_aux(cs.drop_first(), rs, b, h, a, k, st1, 1);
        assert(h + (lines - 1) * h == lines * h) by (nonlinear_arith);
    }
}

/// The cache agrees with a raster set when every cached character that
/// the set also rasterizes is cached with exactly those metrics. A
/// deterministic rasterizer always satisfies this.
pub open spec fn metrics_agree(
    entries: Seq<(char, CachedGlyph)>,
    rs: Seq<(char, RasterGlyph)>,
) -> bool {
    forall|c: char|
        #![trigger entry_glyph(entries, c)]
        has_entry(entries, c) && raster_has(rs, c) ==> entry_glyph(entries, c).metrics
            == raster_of(rs, c).metrics
}

/// `raster_find` finds the first index holding `c`.
proof fn lemma_raster_find_at(rs: Seq<(char, RasterGlyph)>, c: char, m: int)
    requires
        0 <= m < rs.len(),
        rs[m].0 == c,
        forall|i: int| 0 <= i < m ==> (#[trigger] rs[i]).0 != c,
    ensures
        raster_find(rs, c) == m,
        raster_of(rs, c) == rs[m].1,
    decreases rs.len(),
{
    if m > 0 {
        assert(rs[0].0 != c);
        assert(rs.drop_first()[m - 1] == rs[m]);
        assert forall|i: int| 0 <= i < m - 1 implies (#[trigger] rs.drop_first()[i]).0 != c by {
            assert(rs.drop_first()[i] == rs[i + 1]);
        }
        lemma_raster_find_at(rs.drop_first(), c, m - 1);
    }
}

/// Refreshing recency keeps the cache in agreement with a raster set.
proof fn lemma_agree_refresh(
    s: Seq<(char, CachedGlyph)>,
    rs: Seq<(char, RasterGlyph)>,
    c: char,
)
    requires
        distinct_keys(s),
        has_entry(s, c),
        metrics_agree(s, rs),
    ensures
        metrics_agree(refresh_entry(s, c), rs),
{
    let t = refresh_entry(s, c);
    let k = find_entry(s, c);
    lemma_find_entry(s, c);
    lemma_refresh_shape(s, c);
    assert forall|c2: char|
        has_entry(t, c2) && raster_has(rs, c2) implies #[trigger] entry_glyph(t, c2).metrics
        == raster_of(rs, c2).metrics by {
        lemma_find_entry(t, c2);
        let k2 = find_entry(t, c2);
        let j = if k2 < k {
            k2
        } else if k2 < s.len() - 1 {
            k2 + 1
        } else {
            k
        };
        assert(t[k2] == s[j]);
        lemma_find_entry_witness(s, c2, j);
    }
}

/// After evicting a least-recently-used prefix and inserting a glyph
/// whose metrics match its raster, the cache still agrees with the
/// raster set.
proof fn lemma_agree_insert(
    pre: Seq<(char, CachedGlyph)>,
    post: Seq<(char, CachedGlyph)>,
    rs: Seq<(char, RasterGlyph)>,
    c: char,
    g: CachedGlyph,
    n: int,
)
    requires
        distinct_keys(pre),
        distinct_keys(post),
        metrics_agree(pre, rs),
        0 <= n <= pre.len(),
        post == pre.skip(n).push((c, g)),
        raster_has(rs, c) ==> g.metrics == raster_of(rs, c).metrics,
    ensures
        metrics_agree(post, rs),
{
    assert forall|c2: char|
        has_entry(post, c2) && raster_has(rs, c2) implies #[trigger] entry_glyph(
        post,
        c2,
    ).metrics == raster_of(rs, c2).metrics by {
        lemma_find_entry(post, c2);
        let k2 = find_entry(post, c2);
        if k2 == post.len() - 1 {
            assert(post[k2] == (c, g));
        } else {
            assert(post[k2] == pre[n + k2]);
            lemma_find_entry_witness(pre, c2, n + k2);
        }
    }
}

/// Find the first raster for `c`, scanning in order.
fn find_raster(rasters: &Vec<(char, RasterGlyph)>, c: char) -> (r: Option<usize>)
    ensures
        match r {
            Some(i) => {
                &&& i == raster_find(rasters@, c)
                &&& i < rasters@.len()
                &&& rasters@[i as int].0 == c
                &&& rasters@[i as int].1 == raster_of(rasters@, c)
                &&& raster_has(rasters@, c)
            },
            None => !raster_has(rasters@, c),
        },
{
    let mut i: usize = 0;
    while i < rasters.len()
        invariant
            0 <= i <= rasters@.len(),
            forall|j: int| 0 <= j < i ==> (#[trigger] rasters@[j]).0 != c,
        decreases rasters@.len() - i,
    {
        if rasters[i].0 == c {
            proof {
                lemma_raster_find_at(rasters@, c, i as int);
            }
            return Some(i);
        }
        i = i + 1;
    }
    proof {
        lemma_raster_find(rasters@, c);
        if raster_has(rasters@, c) {
            assert(false);
        }
    }
    None
}

/// The wrap box a call was given, by value.
pub open spec fn wrap_of(w: Option<&Bbox>) -> Option<Bbox> {
    match w {
        Some(b) => Some(*b),
        None => None,
    }
}

/// The text flow engine: walks characters, queries the glyph atlas cache,
/// and emits quad geometry, wrapping greedily against an optional box.
pub struct TextRenderer {
    pub vertices: Vec<TextVertex>,
    pub indices: Vec<u16>,
    pub uploads: Vec<UploadOp>,
    pub atlas: AtlasCache,
    pub font_size: i64,
}

impl TextRenderer {
    /// The batch is quad-aligned and small enough for 16-bit indices, and
    /// the cache is sound.
    pub open spec fn wf(self) -> bool {
        &&& self.indices@.len() % 6 == 0
        &&& self.vertices@.len() * 6 == self.indices@.len() * 4
        &&& self.indices@.len() <= 6 * MAX_QUADS
        &&& self.atlas@.wf()
        &&& 1 <= self.font_size <= MAX_FONT_SIZE
    }

    /// A renderer over a fresh empty atlas.
    pub fn new(atlas_width: u32, atlas_height: u32, font_size: i64) -> (t: TextRenderer)
        requires
            1 <= atlas_width <= MAX_CANVAS_EDGE,
            1 <= atlas_height <= MAX_CANVAS_EDGE,
            1 <= font_size <= MAX_FONT_SIZE,
        ensures
            t.wf(),
            t.vertices@ =~= Seq::empty(),
            t.indices@ =~= Seq::empty(),
            t.uploads@ =~= Seq::empty(),
            t.atlas@.entries =~= Seq::empty(),
            t.atlas@.width == atlas_width,
            t.atlas@.height == atlas_height,
            t.font_size == font_size,
    {
        TextRenderer {
            vertices: Vec::new(),
            indices: Vec::new(),
            uploads: Vec::new(),
            atlas: AtlasCache::new(atlas_width, atlas_height),
            font_size,
        }
    }

    /// Drop this frame's geometry; the cache and pending uploads persist.
    pub fn clear(&mut self)
        ensures
            final(self).vertices@ =~= Seq::empty(),
            final(self).indices@ =~= Seq::empty(),
            final(self).uploads == old(self).uploads,
            final(self).atlas == old(self).atlas,
            final(self).font_size == old(self).font_size,
    {
        self.indices.clear();
        self.vertices.clear();
    }

    /// The height of one text line, in pixels.
    pub fn line_height(&self) -> (h: i64)
        ensures
            h == self.font_size,
    {
        self.font_size
    }

    /// Append one glyph quad at the pen position and advance the pen by
    /// the glyph's advance. Whitespace (no region) draws nothing; a full
    /// batch also draws nothing, but the pen always advances.
    fn add_char_to_batch(
        &mut self,
        g: &CachedGlyph,
        x_start: &mut i64,
        y_start: &mut i64,
        color: Color,
    )
        requires
            old(self).wf(),
            g.metrics.wf(),
            g.region matches Some(r) ==> {
                &&& 0 <= r.min_x
                &&& 0 <= r.min_y
                &&& r.min_x + g.metrics.width + 2 <= r.max_x <= MAX_CANVAS_EDGE
                &&& r.min_y + g.metrics.height + 2 <= r.max_y <= MAX_CANVAS_EDGE
            },
            -PEN_LIMIT <= *old(x_start) <= PEN_LIMIT,
            -PEN_LIMIT <= *old(y_start) <= PEN_LIMIT,
        ensures
            final(self).wf(),
            *final(x_start) == *old(x_start) + g.metrics.advance_x,
            *final(y_start) == *old(y_start) + g.metrics.advance_y,
            final(self).uploads == old(self).uploads,
            final(self).atlas == old(self).atlas,
            final(self).font_size == old(self).font_size,
            g.region is Some && old(self).indices@.len() < 6 * MAX_QUADS ==> {
                &&& final(self).vertices@ == old(self).vertices@ + glyph_vertices(
                    *g,
                    *old(x_start) as int,
                    *old(y_start) as int,
                    color,
                )
                &&& final(self).indices@ == old(self).indices@ + glyph_indices(
                    old(self).indices@.len() as int / 6,
                )
            },
            !(g.region is Some && old(self).indices@.len() < 6 * MAX_QUADS) ==> {
                &&& final(self).vertices@ == old(self).vertices@
                &&& final(self).indices@ == old(self).indices@
            },
    {
        let x = *x_start + g.metrics.bearing_x as i64;
        let y = *y_start + g.metrics.bearing_y as i64 - g.metrics.height as i64;
        let w = g.metrics.width as i64;
        let h = g.metrics.height as i64;

        *x_start = *x_start + g.metrics.advance_x as i64;
        *y_start = *y_start + g.metrics.advance_y as i64;

        if let Some(reg) = g.region {
            if self.indices.len() < 6 * MAX_QUADS {
                let u0 = reg.min_x + 1;
                let v0 = reg.min_y + 1;
                let u1 = u0 + g.metrics.width as i32;
                let v1 = v0 + g.metrics.height as i32;

                let start: u16 = (4 * (self.indices.len() / 6)) as u16;
                self.indices.push(start);
                self.indices.push(start + 1);
                self.indices.push(start + 2);
                self.indices.push(start);
                self.indices.push(start + 2);
                self.indices.push(start + 3);

                self.vertices.push(TextVertex { x, y, u: u0, v: v1, color });
                self.vertices.push(TextVertex { x: x + w, y, u: u1, v: v1, color });
                self.vertices.push(TextVertex { x: x + w, y: y + h, u: u1, v: v0, color });
                self.vertices.push(TextVertex { x, y: y + h, u: u0, v: v0, color });
                proof {
                    assert(self.vertices@ =~= old(self).vertices@ + glyph_vertices(
                        *g,
                        *old(x_start) as int,
                        *old(y_start) as int,
                        color,
                    ));
                    assert(self.indices@ =~= old(self).indices@ + glyph_indices(
                        old(self).indices@.len() as int / 6,
                    ));
                }
            }
        }
    }

    /// Draw one character at the pen and move the pen by its advance:
    /// look the glyph up (filling the cache on a miss) and append its
    /// quad. A character without a raster or with an empty non-whitespace
    /// bitmap is skipped whole; one the atlas cannot hold renders nothing
    /// but still advances the pen by its rasterized advance.
    fn flow_char(
        &mut self,
        c: char,
        rasters: &Vec<(char, RasterGlyph)>,
        pen_x: &mut i64,
        pen_y: &mut i64,
        color: Color,
    )
        requires
            old(self).wf(),
            rasters_wf(rasters@),
            -PEN_LIMIT <= *old(pen_x) <= PEN_LIMIT,
            -PEN_LIMIT <= *old(pen_y) <= PEN_LIMIT,
        ensures
            final(self).wf(),
            final(self).font_size == old(self).font_size,
            final(self).atlas@.width == old(self).atlas@.width,
            final(self).atlas@.height == old(self).atlas@.height,
            old(self).vertices@.is_prefix_of(final(self).vertices@),
            old(self).indices@.is_prefix_of(final(self).indices@),
            old(self).uploads@.is_prefix_of(final(self).uploads@),
            -MAX_METRIC <= *final(pen_x) - *old(pen_x) <= MAX_METRIC,
            -MAX_METRIC <= *final(pen_y) - *old(pen_y) <= MAX_METRIC,
            metrics_agree(old(self).atlas@.entries, rasters@) ==> {
                &&& metrics_agree(final(self).atlas@.entries, rasters@)
                &&& match flow_adv(rasters@, c) {
                    Some(a) => *final(pen_x) == *old(pen_x) + a.0 && *final(pen_y) == *old(
                        pen_y,
                    ) + a.1,
                    None => *final(pen_x) == *old(pen_x) && *final(pen_y) == *old(pen_y),
                }
            },
    {
        let found = find_raster(rasters, c);
        match found {
            None => {},
            Some(ri) => {
                let ws = is_whitespace_char(c);
                let rw = rasters[ri].1.metrics.width;
                let rh = rasters[ri].1.metrics.height;
                if ws || (rw >= 1 && rh >= 1) {
                    let ghost pre = self.atlas@.entries;
                    let ghost pre_atlas = self.atlas@;
                    proof {
                        assert(rasters@[ri as int].1.wf());
                    }
                    let res = self.atlas.get_or_insert(c, &rasters[ri].1, &mut self.uploads);
                    match res {
                        Ok(g) => {
                            proof {
                                let ne = self.atlas@.entries;
                                assert(ne[ne.len() - 1] == (c, g));
                                assert(self.atlas@.entry_ok(ne[ne.len() - 1]));
                            }
                            self.add_char_to_batch(&g, pen_x, pen_y, color);
                            proof {
                                let ne = self.atlas@.entries;
                                if metrics_agree(pre, rasters@) {
                                    if has_entry(pre, c) {
                                        assert(g == entry_glyph(pre, c));
                                        assert(g.metrics == raster_of(rasters@, c).metrics);
                                        lemma_agree_refresh(pre, rasters@, c);
                                    } else if is_ws(c) {
                                        assert(pre.skip(0) =~= pre);
                                        lemma_agree_insert(pre, ne, rasters@, c, g, 0);
                                    } else {
                                        let n = choose|n: int|
                                            #[trigger] crate::atlas::miss_insert_at(
                                                pre_atlas,
                                                self.atlas@,
                                                c,
                                                g,
                                                n,
                                            );
                                        lemma_agree_insert(pre, ne, rasters@, c, g, n);
                                    }
                                }
                            }
                        },
                        Err(e) => {
                            *pen_x = *pen_x + rasters[ri].1.metrics.advance_x as i64;
                            *pen_y = *pen_y + rasters[ri].1.metrics.advance_y as i64;
                            proof {
                                assert(e == crate::glyph::GlyphError::GlyphTooLarge);
                                assert(self.atlas@.entries.len() == 0);
                            }
                        },
                    }
                }
            },
        }
    }

    /// Add a string of text for rendering. `(x, y)` is the top-left
    /// corner of where the text is placed. With a wrap box, the pen is
    /// wrapped greedily at character boundaries to stay inside the box,
    /// and text past the box's bottom is silently truncated.
    ///
    /// Returns the vertical space used up: nothing for empty text, one
    /// line height without a wrap box, and with one, the height of the
    /// lines placed before the text ended or was truncated. Provided the
    /// cache agrees with `rasters` (any deterministic rasterizer
    /// guarantees this), that height is exactly `flow_height`.
    pub fn add_string_to_batch(
        &mut self,
        s: &str,
        rasters: &Vec<(char, RasterGlyph)>,
        x: i64,
        y: i64,
        color: Color,
        wrap_bbox: Option<&Bbox>,
    ) -> (used: i64)
        requires
            old(self).wf(),
            rasters_wf(rasters@),
            -ORIGIN_LIMIT <= x <= ORIGIN_LIMIT,
            -ORIGIN_LIMIT <= y <= ORIGIN_LIMIT,
            s@.len() <= MAX_TEXT_LEN,
            wrap_bbox matches Some(b) ==> b.wf(),
        ensures
            final(self).wf(),
            final(self).font_size == old(self).font_size,
            final(self).atlas@.width == old(self).atlas@.width,
            final(self).atlas@.height == old(self).atlas@.height,
            old(self).vertices@.is_prefix_of(final(self).vertices@),
            old(self).indices@.is_prefix_of(final(self).indices@),
            old(self).uploads@.is_prefix_of(final(self).uploads@),
            0 <= used <= (s@.len() + 1) * old(self).font_size,
            metrics_agree(old(self).atlas@.entries, rasters@) ==> {
                &&& used == flow_height(
                    s@,
                    rasters@,
                    y as int,
                    wrap_of(wrap_bbox),
                    old(self).font_size as int,
                )
                &&& metrics_agree(final(self).atlas@.entries, rasters@)
            },
    {
        let fs = self.font_size;
        let n = s.unicode_len();
        match wrap_bbox {
            None => {
                if n == 0 {
                    return 0;
                }
                let mut pen_x = x;
                let mut pen_y = y - fs;
                let mut i: usize = 0;
                while i < n
                    invariant
                        old(self).wf(),
                        self.wf(),
                        rasters_wf(rasters@),
                        n == s@.len() <= MAX_TEXT_LEN,
                        0 <= i <= n,
                        fs == old(self).font_size,
                        self.font_size == old(self).font_size,
                        self.atlas@.width == old(self).atlas@.width,
                        self.atlas@.height == old(self).atlas@.height,
                        old(self).vertices@.is_prefix_of(self.vertices@),
                        old(self).indices@.is_prefix_of(self.indices@),
                        old(self).uploads@.is_prefix_of(self.uploads@),
                        -ORIGIN_LIMIT - (i as int) * 0x100000 <= pen_x <= ORIGIN_LIMIT + (
                        i as int) * 0x100000,
                        -ORIGIN_LIMIT - 0x10000 - (i as int) * 0x100000 <= pen_y
                            <= ORIGIN_LIMIT + (i as int) * 0x100000,
                        metrics_agree(old(self).atlas@.entries, rasters@)
                            ==> metrics_agree(self.atlas@.entries, rasters@),
                    decreases n - i,
                {
                    let c = s.get_char(i);
                    self.flow_char(c, rasters, &mut pen_x, &mut pen_y, color);
                    i = i + 1;
                }
                proof {
                    let ghost fs0 = old(self).font_size as int;
                    assert(fs <= (s@.len() + 1) * fs0) by (nonlinear_arith)
                        requires
                            1 <= fs,
                            s@.len() >= 0,
                            fs == fs0,
                    ;
                }
                fs
            },
            Some(wb) => {
                let b = *wb;
                let mut pen_x = b.min.0;
                let mut pen_y = y - fs;
                let mut used: i64 = 0;
                let mut line_open = false;
                let mut i: usize = 0;
                proof {
                    assert(s@.take(0) =~= Seq::<char>::empty());
                }
                while i < n
                    invariant
                        old(self).wf(),
                        self.wf(),
                        rasters_wf(rasters@),
                        b.wf(),
                        wrap_of(wrap_bbox) == Some(b),
                        n == s@.len() <= MAX_TEXT_LEN,
                        0 <= i <= n,
                        -ORIGIN_LIMIT <= y <= ORIGIN_LIMIT,
                        fs == old(self).font_size,
                        1 <= fs <= MAX_FONT_SIZE,
                        self.font_size == old(self).font_size,
                        self.atlas@.width == old(self).atlas@.width,
                        self.atlas@.height == old(self).atlas@.height,
                        old(self).vertices@.is_prefix_of(self.vertices@),
                        old(self).indices@.is_prefix_of(self.indices@),
                        old(self).uploads@.is_prefix_of(self.uploads@),
                        -ORIGIN_LIMIT - (i as int) * 0x110000 <= pen_x <= ORIGIN_LIMIT + (
                        i as int) * 0x110000,
                        -ORIGIN_LIMIT - 0x10000 - (i as int) * 0x110000 <= pen_y
                            <= ORIGIN_LIMIT + (i as int) * 0x110000,
                        0 <= used <= (i as int + 1) * 0x10000,
                        used <= (i as int) * fs + fs,
                        metrics_agree(old(self).atlas@.entries, rasters@) ==> ({
                            let st = wrap_run(
                                s@.take(i as int),
                                rasters@,
                                wrap_init(b, y as int, fs as int),
                                b,
                                fs as int,
                            );
                            &&& metrics_agree(self.atlas@.entries, rasters@)
                            &&& !st.stopped
                            &&& st.pen_x == pen_x as int
                            &&& st.pen_y == pen_y as int
                            &&& st.used == used as int
                            &&& st.line_open == line_open
                        }),
                    decreases n - i,
                {
                    let ghost st_i = wrap_run(
                        s@.take(i as int),
                        rasters@,
                        wrap_init(b, y as int, fs as int),
                        b,
                        fs as int,
                    );
                    let c = s.get_char(i);
                    proof {
                        assert(s@.take(i + 1) =~= s@.take(i as int).push(s@[i as int]));
                        lemma_wrap_run_push(
                            s@.take(i as int),
                            rasters@,
                            wrap_init(b, y as int, fs as int),
                            b,
                            fs as int,
                            c,
                        );
                    }
                    let found = find_raster(rasters, c);
                    let mut advances = false;
                    let mut ax: i64 = 0;
                    match found {
                        None => {},
                        Some(ri) => {
                            let ws = is_whitespace_char(c);
                            let rw = rasters[ri].1.metrics.width;
                            let rh = rasters[ri].1.metrics.height;
                            if ws || (rw >= 1 && rh >= 1) {
                                advances = true;
                                ax = rasters[ri].1.metrics.advance_x as i64;
                            }
                        },
                    }
                    if advances {
                        if line_open && pen_x + ax > b.max.0 {
                            pen_x = b.min.0;
                            pen_y = pen_y - fs;
                            line_open = false;
                        }
                        if !(b.min.1 <= pen_y && pen_y <= b.max.1) {
                            proof {
                                if metrics_agree(old(self).atlas@.entries, rasters@) {
                                    let stepped = wrap_step(
                                        st_i,
                                        flow_adv(rasters@, c),
                                        b,
                                        fs as int,
                                    );
                                    assert(stepped.stopped);
                                    lemma_wrap_run_split(
                                        s@,
                                        rasters@,
                                        wrap_init(b, y as int, fs as int),
                                        b,
                                        fs as int,
                                        i + 1,
                                    );
                                    assert(s@.skip(i + 1).len() == n - i - 1);
                                    lemma_wrap_run_stopped(
                                        s@.skip(i + 1),
                                        rasters@,
                                        stepped,
                                        b,
                                        fs as int,
                                    );
                                }
                            }
                            proof {
                                let ghost fs0 = old(self).font_size as int;
                                assert(used <= (s@.len() + 1) * fs0) by (nonlinear_arith)
                                    requires
                                        used <= (i as int) * fs + fs,
                                        0 <= i as int <= s@.len(),
                                        1 <= fs,
                                        fs == fs0,
                                ;
                            }
                            return used;
                        }
                        if !line_open {
                            used = used + fs;
                            line_open = true;
                        }
                    }
                    self.flow_char(c, rasters, &mut pen_x, &mut pen_y, color);
                    proof {
                        let ghost ii = i as int;
                        assert((ii + 1) * fs == ii * fs + fs) by (nonlinear_arith);
                    }
                    i = i + 1;
                }
                proof {
                    assert(s@.take(n as int) =~= s@);
                    let ghost fs0 = old(self).font_size as int;
                    assert(used <= (s@.len() + 1) * fs0) by (nonlinear_arith)
                        requires
                            used <= (i as int) * fs + fs,
                            0 <= i as int <= s@.len(),
                            1 <= fs,
                            fs == fs0,
                    ;
                }
                used
            },
        }
    }

    /// Lay out several lines of text: each line is placed with
    /// `add_string_to_batch`, the origin dropping by each line's actual
    /// consumed height, so wrapped paragraphs stack without overlap.
    /// Returns the total vertical space used.
    pub fn add_multiline_string_to_batch(
        &mut self,
        text: &Vec<String>,
        rasters: &Vec<(char, RasterGlyph)>,
        x: i64,
        y: i64,
        color: Color,
        wrap_bbox: Option<&Bbox>,
    ) -> (total: i64)
        requires
            old(self).wf(),
            rasters_wf(rasters@),
            -COORD_LIMIT <= x <= COORD_LIMIT,
            -COORD_LIMIT <= y <= COORD_LIMIT,
            text@.len() <= MAX_LINES,
            forall|k: int| 0 <= k < text@.len() ==> (#[trigger] text@[k])@.len() <= MAX_LINE_LEN,
            wrap_bbox matches Some(b) ==> b.wf(),
        ensures
            final(self).wf(),
            final(self).font_size == old(self).font_size,
            final(self).atlas@.width == old(self).atlas@.width,
            final(self).atlas@.height == old(self).atlas@.height,
            old(self).vertices@.is_prefix_of(final(self).vertices@),
            old(self).indices@.is_prefix_of(final(self).indices@),
            old(self).uploads@.is_prefix_of(final(self).uploads@),
            metrics_agree(old(self).atlas@.entries, rasters@) ==> {
                &&& total == multiline_height(
                    text@.map_values(|l: String| l@),
                    rasters@,
                    y as int,
                    wrap_of(wrap_bbox),
                    old(self).font_size as int,
                )
                &&& metrics_agree(final(self).atlas@.entries, rasters@)
            },
    {
        let ghost lines = text@.map_values(|l: String| l@);
        let ghost fs0 = self.font_size as int;
        let mut cur_y = y;
        let mut total: i64 = 0;
        let mut k: usize = 0;
        let m = text.len();
        proof {
            assert(lines.skip(0) =~= lines);
        }
        while k < m
            invariant
                old(self).wf(),
                -COORD_LIMIT <= x <= COORD_LIMIT,
                self.wf(),
                rasters_wf(rasters@),
                m == text@.len() <= MAX_LINES,
                lines == text@.map_values(|l: String| l@),
                forall|k2: int|
                    0 <= k2 < text@.len() ==> (#[trigger] text@[k2])@.len() <= MAX_LINE_LEN,
                0 <= k <= m,
                fs0 == old(self).font_size as int,
                self.font_size == old(self).font_size,
                self.atlas@.width == old(self).atlas@.width,
                self.atlas@.height == old(self).atlas@.height,
                old(self).vertices@.is_prefix_of(self.vertices@),
                old(self).indices@.is_prefix_of(self.indices@),
                old(self).uploads@.is_prefix_of(self.uploads@),
                -COORD_LIMIT <= y <= COORD_LIMIT,
                0 <= total <= (k as int) * 0x1001_0000,
                cur_y == y - total,
                wrap_bbox matches Some(b) ==> b.wf(),
                metrics_agree(old(self).atlas@.entries, rasters@) ==> {
                    &&& metrics_agree(self.atlas@.entries, rasters@)
                    &&& total + multiline_height(
                        lines.skip(k as int),
                        rasters@,
                        cur_y as int,
                        wrap_of(wrap_bbox),
                        fs0,
                    ) == multiline_height(lines, rasters@, y as int, wrap_of(wrap_bbox), fs0)
                },
            decreases m - k,
        {
            let ghost pre_entries = self.atlas@.entries;
            let line = &text[k];
            let used = self.add_string_to_batch(
                line.as_str(),
                rasters,
                x,
                cur_y,
                color,
                wrap_bbox,
            );
            proof {
                let ghost fsv = self.font_size as int;
                assert((text@[k as int]@.len() + 1) * fsv <= 0x1001_0000) by (nonlinear_arith)
                    requires
                        0 <= text@[k as int]@.len() <= MAX_LINE_LEN,
                        1 <= fsv <= MAX_FONT_SIZE,
                ;
                if metrics_agree(old(self).atlas@.entries, rasters@) {
                    assert(lines.skip(k as int)[0] == lines[k as int]);
                    assert(lines[k as int] == text@[k as int]@);
                    assert(lines.skip(k as int).drop_first() =~= lines.skip(k as int + 1));
                    assert(used == flow_height(
                        text@[k as int]@,
                        rasters@,
                        cur_y as int,
                        wrap_of(wrap_bbox),
                        fs0,
                    ));
                }
            }
            total = total + used;
            cur_y = cur_y - used;
            k = k + 1;
        }
        proof {
            if metrics_agree(old(self).atlas@.entries, rasters@) {
                assert(lines.skip(m as int).len() == 0);
            }
        }
        total
    }

    /// Add a string of text for rendering, centered: `(x, y)` is the
    /// horizontal and vertical center of where the text is placed. The
    /// text's unwrapped width is measured first, the pen starts half that
    /// width to the left, and the baseline sits two fifths of the font
    /// size below the center, which reads as visually centered.
    pub fn add_string_to_batch_centered(
        &mut self,
        s: &str,
        rasters: &Vec<(char, RasterGlyph)>,
        x: i64,
        y: i64,
        color: Color,
    )
        requires
            old(self).wf(),
            rasters_wf(rasters@),
            -COORD_LIMIT <= x <= COORD_LIMIT,
            -COORD_LIMIT <= y <= COORD_LIMIT,
            s@.len() <= 0x10000,
        ensures
            final(self).wf(),
            final(self).font_size == old(self).font_size,
            final(self).atlas@.width == old(self).atlas@.width,
            final(self).atlas@.height == old(self).atlas@.height,
            old(self).vertices@.is_prefix_of(final(self).vertices@),
            old(self).indices@.is_prefix_of(final(self).indices@),
            old(self).uploads@.is_prefix_of(final(self).uploads@),
            metrics_agree(old(self).atlas@.entries, rasters@) ==> metrics_agree(
                final(self).atlas@.entries,
                rasters@,
            ),
    {
        let fs = self.font_size;
        let pen_y0 = y - (2 * fs) / 5;
        let n = s.unicode_len();

        let mut text_len: i64 = 0;
        let mut i: usize = 0;
        while i < n
            invariant
                rasters_wf(rasters@),
                n == s@.len() <= 0x10000,
                0 <= i <= n,
                -((i as int) * 0x100000) <= text_len <= (i as int) * 0x100000,
                text_len == measure_width(s@.take(i as int), rasters@),
            decreases n - i,
        {
            let c = s.get_char(i);
            proof {
                assert(s@.take(i + 1) =~= s@.take(i as int).push(s@[i as int]));
                lemma_measure_push(s@.take(i as int), rasters@, c);
            }
            match find_raster(rasters, c) {
                None => {},
                Some(ri) => {
                    let ws = is_whitespace_char(c);
                    let rw = rasters[ri].1.metrics.width;
                    let rh = rasters[ri].1.metrics.height;
                    if ws || (rw >= 1 && rh >= 1) {
                        text_len = text_len + rasters[ri].1.metrics.advance_x as i64;
                    }
                },
            }
            i = i + 1;
        }

        let mut pen_x = x - text_len / 2;
        let mut pen_y = pen_y0;
        let mut j: usize = 0;
        while j < n
            invariant
                old(self).wf(),
                self.wf(),
                rasters_wf(rasters@),
                n == s@.len() <= 0x10000,
                0 <= j <= n,
                self.font_size == old(self).font_size,
                self.atlas@.width == old(self).atlas@.width,
                self.atlas@.height == old(self).atlas@.height,
                old(self).vertices@.is_prefix_of(self.vertices@),
                old(self).indices@.is_prefix_of(self.indices@),
                old(self).uploads@.is_prefix_of(self.uploads@),
                -COORD_LIMIT - 0x10_0000_0000 - (j as int) * 0x100000 <= pen_x <= COORD_LIMIT
                    + 0x10_0000_0000 + (j as int) * 0x100000,
                -COORD_LIMIT - 0x10000 - (j as int) * 0x100000 <= pen_y <= COORD_LIMIT + (
                j as int) * 0x100000,
                metrics_agree(old(self).atlas@.entries, rasters@) ==> metrics_agree(
                    self.atlas@.entries,
                    rasters@,
                ),
            decreases n - j,
        {
            let c = s.get_char(j);
            self.flow_char(c, rasters, &mut pen_x, &mut pen_y, color);
            j = j + 1;
        }
    }
}

} // verus!

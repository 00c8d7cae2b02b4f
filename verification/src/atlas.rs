//! The glyph atlas cache: memoizes rasterized glyph placement in a
//! fixed-size atlas, bounded by atlas capacity, evicting entries in global
//! least-recently-used order when the packer runs out of room.

use vstd::prelude::*;
use crate::glyph::CachedGlyph;
use crate::glyph::GlyphError;
use crate::glyph::RasterGlyph;
use crate::glyph::Region;
use crate::glyph::UploadOp;
use crate::glyph::MAX_GLYPH_EDGE;
use crate::glyph::is_padded_rgba;
use crate::glyph::is_whitespace_char;
use crate::glyph::is_ws;
use crate::glyph::padded_rgba;
use crate::glyph::regions_disjoint;
use crate::packer::MAX_CANVAS_EDGE;
use crate::packer::packer_allocate;
use crate::packer::packer_deallocate;
use crate::packer::packer_live;
use crate::packer::packer_new;
use crate::packer::packer_size;
use crate::store::GlyphStore;
use crate::store::distinct_keys;
use crate::store::entry_glyph;
use crate::store::find_entry;
use crate::store::has_entry;
use crate::store::lemma_find_entry;
use crate::store::lemma_find_entry_at;
use crate::store::lemma_refresh_shape;
use crate::store::lru_contains;
use crate::store::lru_entries;
use crate::store::lru_get;
use crate::store::lru_len;
use crate::store::lru_new;
use crate::store::lru_pop_lru;
use crate::store::lru_put;
use crate::store::refresh_entry;

verus! {

/// The mathematical state of an atlas cache: its entries from least- to
/// most-recently-used, the packer's live regions by id, and the atlas
/// dimensions in pixels.
pub struct CacheView {
    pub entries: Seq<(char, CachedGlyph)>,
    pub live: Map<u32, Region>,
    pub width: int,
    pub height: int,
}

impl CacheView {
    /// One cached entry is sound: it describes its own character, its
    /// region (absent exactly for whitespace) is tracked by the packer
    /// and holds the padded bitmap inside the atlas.
    pub open spec fn entry_ok(self, e: (char, CachedGlyph)) -> bool {
        &&& e.1.ch == e.0
        &&& e.1.metrics.wf()
        &&& (e.1.region is None <==> is_ws(e.0))
        &&& match e.1.region {
            Some(r) => {
                &&& self.live.dom().contains(r.id)
                &&& self.live[r.id] == r
                &&& 0 <= r.min_x
                &&& 0 <= r.min_y
                &&& 1 <= e.1.metrics.width
                &&& 1 <= e.1.metrics.height
                &&& r.min_x + e.1.metrics.width + 2 <= r.max_x <= self.width
                &&& r.min_y + e.1.metrics.height + 2 <= r.max_y <= self.height
            },
            None => true,
        }
    }

    /// The cache invariant: at most one entry per character, every entry
    /// sound, entries own their regions exclusively, the packer tracks no
    /// region that no entry owns, and live regions never overlap.
    pub open spec fn wf(self) -> bool {
        &&& 1 <= self.width <= MAX_CANVAS_EDGE
        &&& 1 <= self.height <= MAX_CANVAS_EDGE
        &&& distinct_keys(self.entries)
        &&& forall|i: int|
            0 <= i < self.entries.len() ==> self.entry_ok(#[trigger] self.entries[i])
        &&& forall|i: int, j: int|
            0 <= i < j < self.entries.len() && (#[trigger] self.entries[i]).1.region is Some
                && (#[trigger] self.entries[j]).1.region is Some
                ==> self.entries[i].1.region->Some_0.id != self.entries[j].1.region->Some_0.id
        &&& forall|id: u32| #[trigger]
            self.live.dom().contains(id) ==> exists|i: int|
                0 <= i < self.entries.len() && (#[trigger] self.entries[i]).1.region == Some(
                    self.live[id],
                ) && self.live[id].id == id
        &&& forall|id1: u32, id2: u32|
            self.live.dom().contains(id1) && self.live.dom().contains(id2) && id1 != id2
                ==> regions_disjoint(#[trigger] self.live[id1], #[trigger] self.live[id2])
    }
}

/// The packer's live map after the given entries are evicted in order.
pub open spec fn live_after_evict(
    live: Map<u32, Region>,
    evicted: Seq<(char, CachedGlyph)>,
) -> Map<u32, Region>
    decreases evicted.len(),
{
    if evicted.len() == 0 {
        live
    } else {
        let rest = match evicted[0].1.region {
            Some(r) => live.remove(r.id),
            None => live,
        };
        live_after_evict(rest, evicted.drop_first())
    }
}

/// Evicting one more entry applies one more removal.
proof fn lemma_live_after_evict_push(
    live: Map<u32, Region>,
    evicted: Seq<(char, CachedGlyph)>,
    x: (char, CachedGlyph),
)
    ensures
        live_after_evict(live, evicted.push(x)) == (match x.1.region {
            Some(r) => live_after_evict(live, evicted).remove(r.id),
            None => live_after_evict(live, evicted),
        }),
    decreases evicted.len(),
{
    reveal_with_fuel(live_after_evict, 3);
    if evicted.len() == 0 {
        assert(evicted.push(x)[0] == x);
        assert(evicted.push(x).drop_first() =~= Seq::<(char, CachedGlyph)>::empty());
    } else {
        assert(evicted.push(x)[0] == evicted[0]);
        assert(evicted.push(x).drop_first() =~= evicted.drop_first().push(x));
        let rest = match evicted[0].1.region {
            Some(r) => live.remove(r.id),
            None => live,
        };
        lemma_live_after_evict_push(rest, evicted.drop_first(), x);
    }
}

/// `u` writes exactly the padded bitmap of `raster`, with its top-left
/// corner at the top-left corner of the glyph's region.
pub open spec fn upload_matches(u: UploadOp, g: CachedGlyph, raster: RasterGlyph) -> bool {
    let reg = g.region->Some_0;
    &&& u.x == reg.min_x as u32
    &&& u.y == reg.min_y as u32
    &&& u.width == raster.metrics.width + 2
    &&& u.height == raster.metrics.height + 2
    &&& is_padded_rgba(
        u.pixels@,
        raster.bitmap@,
        raster.metrics.width as int,
        raster.metrics.height as int,
    )
}

/// The result of the drawable-miss path: `n` least-recently-used entries
/// were evicted, their regions returned to the packer, and `(c, g)` was
/// placed most-recently-used with a fresh region.
pub open spec fn miss_insert_at(
    pre: CacheView,
    post: CacheView,
    c: char,
    g: CachedGlyph,
    n: int,
) -> bool {
    let live1 = live_after_evict(pre.live, pre.entries.take(n));
    let reg = g.region->Some_0;
    &&& 0 <= n <= pre.entries.len()
    &&& g.region is Some
    &&& post.entries == pre.entries.skip(n).push((c, g))
    &&& !live1.dom().contains(reg.id)
    &&& post.live == live1.insert(reg.id, reg)
}

/// Evicting the least-recently-used entry preserves the invariant.
proof fn lemma_wf_evict_first(v: CacheView)
    requires
        v.wf(),
        v.entries.len() > 0,
    ensures
        (CacheView {
            entries: v.entries.drop_first(),
            live: match v.entries[0].1.region {
                Some(r) => v.live.remove(r.id),
                None => v.live,
            },
            width: v.width,
            height: v.height,
        }).wf(),
{
    let w = CacheView {
        entries: v.entries.drop_first(),
        live: match v.entries[0].1.region {
            Some(r) => v.live.remove(r.id),
            None => v.live,
        },
        width: v.width,
        height: v.height,
    };
    assert(v.entry_ok(v.entries[0]));
    assert forall|i: int| 0 <= i < w.entries.len() implies w.entry_ok(
        #[trigger] w.entries[i],
    ) by {
        assert(w.entries[i] == v.entries[i + 1]);
        assert(v.entry_ok(v.entries[i + 1]));
        match v.entries[i + 1].1.region {
            Some(r) => {
                match v.entries[0].1.region {
                    Some(r0) => {
                        assert(r.id != r0.id);
                    },
                    None => {},
                }
            },
            None => {},
        }
    }
    assert forall|id: u32| #[trigger] w.live.dom().contains(id) implies exists|i: int|
        0 <= i < w.entries.len() && (#[trigger] w.entries[i]).1.region == Some(w.live[id])
            && w.live[id].id == id by {
        assert(v.live.dom().contains(id));
        let i = choose|i: int|
            0 <= i < v.entries.len() && (#[trigger] v.entries[i]).1.region == Some(v.live[id])
                && v.live[id].id == id;
        if i == 0 {
            match v.entries[0].1.region {
                Some(r0) => {
                    assert(r0.id == id);
                    assert(!w.live.dom().contains(id));
                },
                None => {},
            }
        } else {
            assert(w.entries[i - 1] == v.entries[i]);
            assert(0 <= i - 1 < w.entries.len() && w.entries[i - 1].1.region == Some(
                w.live[id],
            ) && w.live[id].id == id);
        }
    }
}

/// Placing a sound new entry with a fresh, in-bounds, disjoint region
/// preserves the invariant.
proof fn lemma_wf_insert(v: CacheView, c: char, g: CachedGlyph)
    requires
        v.wf(),
        forall|i: int| 0 <= i < v.entries.len() ==> (#[trigger] v.entries[i]).0 != c,
        g.ch == c,
        g.metrics.wf(),
        !is_ws(c),
        1 <= g.metrics.width,
        1 <= g.metrics.height,
        g.region is Some,
        ({
            let r = g.region->Some_0;
            &&& !v.live.dom().contains(r.id)
            &&& 0 <= r.min_x
            &&& 0 <= r.min_y
            &&& r.min_x + g.metrics.width + 2 <= r.max_x <= v.width
            &&& r.min_y + g.metrics.height + 2 <= r.max_y <= v.height
            &&& forall|id: u32| #[trigger]
                v.live.dom().contains(id) ==> regions_disjoint(r, v.live[id])
        }),
    ensures
        (CacheView {
            entries: v.entries.push((c, g)),
            live: v.live.insert(g.region->Some_0.id, g.region->Some_0),
            width: v.width,
            height: v.height,
        }).wf(),
{
    let r = g.region->Some_0;
    let w = CacheView {
        entries: v.entries.push((c, g)),
        live: v.live.insert(r.id, r),
        width: v.width,
        height: v.height,
    };
    assert forall|i: int| 0 <= i < w.entries.len() implies w.entry_ok(
        #[trigger] w.entries[i],
    ) by {
        if i < v.entries.len() {
            assert(w.entries[i] == v.entries[i]);
            assert(v.entry_ok(v.entries[i]));
            match v.entries[i].1.region {
                Some(ri) => {
                    assert(ri.id != r.id);
                },
                None => {},
            }
        } else {
            assert(w.entries[i] == (c, g));
        }
    }
    assert forall|i: int, j: int|
        0 <= i < j < w.entries.len() && (#[trigger] w.entries[i]).1.region is Some && (
    #[trigger] w.entries[j]).1.region is Some implies w.entries[i].1.region->Some_0.id
        != w.entries[j].1.region->Some_0.id by {
        if j < v.entries.len() {
        } else {
            assert(w.entries[j] == (c, g));
            assert(v.entry_ok(v.entries[i]));
        }
    }
    assert forall|id: u32| #[trigger] w.live.dom().contains(id) implies exists|i: int|
        0 <= i < w.entries.len() && (#[trigger] w.entries[i]).1.region == Some(w.live[id])
            && w.live[id].id == id by {
        if id == r.id {
            let i = v.entries.len() as int;
            assert(0 <= i < w.entries.len() && w.entries[i].1.region == Some(w.live[id])
                && w.live[id].id == id);
        } else {
            let i = choose|i: int|
                0 <= i < v.entries.len() && (#[trigger] v.entries[i]).1.region == Some(
                    v.live[id],
                ) && v.live[id].id == id;
            assert(0 <= i < w.entries.len() && w.entries[i].1.region == Some(w.live[id])
                && w.live[id].id == id);
        }
    }
    assert forall|id1: u32, id2: u32|
        w.live.dom().contains(id1) && w.live.dom().contains(id2) && id1
            != id2 implies regions_disjoint(#[trigger] w.live[id1], #[trigger] w.live[id2]) by {
        if id1 == r.id {
            assert(regions_disjoint(r, v.live[id2]));
        } else if id2 == r.id {
            assert(regions_disjoint(r, v.live[id1]));
            assert(regions_disjoint(v.live[id1], r));
        }
    }
}

/// Marking an existing entry most-recently-used preserves the invariant.
proof fn lemma_wf_refresh(v: CacheView, c: char)
    requires
        v.wf(),
        has_entry(v.entries, c),
    ensures
        (CacheView {
            entries: refresh_entry(v.entries, c),
            live: v.live,
            width: v.width,
            height: v.height,
        }).wf(),
{
    let s = v.entries;
    let t = refresh_entry(s, c);
    let k = find_entry(s, c);
    let w = CacheView { entries: t, live: v.live, width: v.width, height: v.height };
    lemma_find_entry(s, c);
    lemma_refresh_shape(s, c);
    let m = |i: int| if i < k { i } else if i < s.len() - 1 { i + 1 } else { k };
    assert forall|i: int| 0 <= i < t.len() implies t[i] == s[m(i)] by {}
    assert forall|i: int, j: int| 0 <= i < j < t.len() implies (#[trigger] t[i]).0 != (
    #[trigger] t[j]).0 by {
        assert(t[i] == s[m(i)]);
        assert(t[j] == s[m(j)]);
        assert(m(i) != m(j));
    }
    assert forall|i: int| 0 <= i < t.len() implies w.entry_ok(#[trigger] t[i]) by {
        assert(t[i] == s[m(i)]);
        assert(v.entry_ok(s[m(i)]));
    }
    assert forall|i: int, j: int|
        0 <= i < j < t.len() && (#[trigger] t[i]).1.region is Some && (
    #[trigger] t[j]).1.region is Some implies t[i].1.region->Some_0.id
        != t[j].1.region->Some_0.id by {
        assert(t[i] == s[m(i)]);
        assert(t[j] == s[m(j)]);
        let a = if m(i) < m(j) {
            m(i)
        } else {
            m(j)
        };
        let b = if m(i) < m(j) {
            m(j)
        } else {
            m(i)
        };
        assert(0 <= a < b < s.len());
        assert(s[a].1.region is Some && s[b].1.region is Some ==> s[a].1.region->Some_0.id
            != s[b].1.region->Some_0.id);
    }
    assert forall|id: u32| #[trigger] w.live.dom().contains(id) implies exists|i: int|
        0 <= i < t.len() && (#[trigger] t[i]).1.region == Some(w.live[id]) && w.live[id].id
            == id by {
        let i = choose|i: int|
            0 <= i < s.len() && (#[trigger] s[i]).1.region == Some(v.live[id]) && v.live[id].id
                == id;
        let j = if i < k {
            i
        } else if i == k {
            s.len() - 1
        } else {
            i - 1
        };
        assert(t[j] == s[i]);
        assert(0 <= j < t.len() && t[j].1.region == Some(w.live[id]) && w.live[id].id == id);
    }
}

/// Looking a character up twice in a row, with no eviction in between,
/// yields identical data: a hit only refreshes recency, so after any
/// lookup that found `c`, the next lookup of `c` hits the very same glyph
/// and so rasterizes and uploads nothing.
pub proof fn lemma_second_lookup_hits(s: Seq<(char, CachedGlyph)>, c: char)
    requires
        distinct_keys(s),
        has_entry(s, c),
    ensures
        has_entry(refresh_entry(s, c), c),
        entry_glyph(refresh_entry(s, c), c) == entry_glyph(s, c),
{
    let k = find_entry(s, c);
    let t = refresh_entry(s, c);
    lemma_find_entry(s, c);
    lemma_refresh_shape(s, c);
    assert forall|i: int| 0 <= i < t.len() - 1 implies (#[trigger] t[i]).0 != c by {
        if i < k {
            assert(t[i] == s[i]);
        } else {
            assert(t[i] == s[i + 1]);
        }
    }
    lemma_find_entry_at(t, c, t.len() - 1);
}

/// Eviction respects global recency: one miss-insertion that evicted `n`
/// entries removed exactly the `n` least-recently-used ones. Every more
/// recently used entry survives, and in particular the most-recently-used
/// entry is never the one evicted whenever anything at all survives.
pub proof fn lemma_eviction_respects_recency(
    pre: CacheView,
    post: CacheView,
    c: char,
    g: CachedGlyph,
    n: int,
)
    requires
        miss_insert_at(pre, post, c, g, n),
        distinct_keys(pre.entries),
        !has_entry(pre.entries, c),
    ensures
        forall|j: int|
            n <= j < pre.entries.len() ==> post.entries.contains(#[trigger] pre.entries[j]),
        n < pre.entries.len() ==> post.entries.contains(pre.entries.last()),
        forall|i: int|
            0 <= i < n ==> !has_entry(post.entries, (#[trigger] pre.entries[i]).0),
{
    lemma_find_entry(pre.entries, c);
    assert forall|j: int|
        n <= j < pre.entries.len() implies post.entries.contains(
        #[trigger] pre.entries[j],
    ) by {
        assert(post.entries[j - n] == pre.entries.skip(n).push((c, g))[j - n]);
        assert(post.entries[j - n] == pre.entries[j]);
    }
    if n < pre.entries.len() {
        assert(post.entries.contains(pre.entries[pre.entries.len() - 1]));
    }
    assert forall|i: int| 0 <= i < n implies !has_entry(
        post.entries,
        (#[trigger] pre.entries[i]).0,
    ) by {
        let ci = pre.entries[i].0;
        if has_entry(post.entries, ci) {
            lemma_find_entry(post.entries, ci);
            let k = find_entry(post.entries, ci);
            if k < post.entries.len() - 1 {
                assert(post.entries[k] == pre.entries[n + k]);
            } else {
                assert(post.entries[k] == (c, g));
            }
            assert(false);
        }
    }
}

/// The glyph atlas cache. Owns the packing allocator and the
/// recency-ordered store; all live regions are disjoint, within bounds,
/// and owned by exactly one cached glyph.
pub struct AtlasCache {
    store: GlyphStore,
    allocator: etagere::AtlasAllocator,
    width: u32,
    height: u32,
}

impl AtlasCache {
    /// The packer really is the one built for this atlas size.
    #[verifier::type_invariant]
    spec fn size_linked(self) -> bool {
        packer_size(&self.allocator) == (self.width as int, self.height as int)
    }
}

impl View for AtlasCache {
    type V = CacheView;

    closed spec fn view(&self) -> CacheView {
        CacheView {
            entries: lru_entries(&self.store),
            live: packer_live(&self.allocator),
            width: self.width as int,
            height: self.height as int,
        }
    }
}

impl AtlasCache {
    /// A fresh cache over an empty `width x height` atlas.
    pub fn new(width: u32, height: u32) -> (cache: AtlasCache)
        requires
            1 <= width <= MAX_CANVAS_EDGE,
            1 <= height <= MAX_CANVAS_EDGE,
        ensures
            cache@.wf(),
            cache@.entries =~= Seq::empty(),
            cache@.live =~= Map::empty(),
            cache@.width == width,
            cache@.height == height,
    {
        let allocator = packer_new(width as i32, height as i32);
        let store = lru_new();
        AtlasCache { store, allocator, width, height }
    }

    /// How many glyphs are cached.
    pub fn len(&self) -> (n: usize)
        ensures
            n == self@.entries.len(),
    {
        lru_len(&self.store)
    }

    /// Whether `c` is cached; does not touch recency.
    pub fn contains(&self, c: char) -> (r: bool)
        ensures
            r == has_entry(self@.entries, c),
    {
        lru_contains(&self.store, c)
    }

    /// Look up `c`, filling the cache on a miss.
    ///
    /// A hit marks `c` most-recently-used and returns the cached data
    /// unchanged, with no rasterization, allocation, or upload. On a miss,
    /// whitespace is cached from its metrics alone and never touches the
    /// packer. Any other glyph is placed in the atlas, evicting
    /// least-recently-used entries while the packer has no room; exactly
    /// one upload of the padded bitmap is emitted on success. If even the
    /// empty atlas cannot hold the padded bitmap, the result is
    /// `GlyphTooLarge` and the cache has been emptied by the attempt.
    pub fn get_or_insert(
        &mut self,
        c: char,
        raster: &RasterGlyph,
        uploads: &mut Vec<UploadOp>,
    ) -> (r: Result<CachedGlyph, GlyphError>)
        requires
            old(self)@.wf(),
            raster.wf(),
        ensures
            final(self)@.wf(),
            final(self)@.width == old(self)@.width,
            final(self)@.height == old(self)@.height,
            r matches Ok(g) ==> final(self)@.entries.len() > 0 && final(self)@.entries.last()
                == (c, g),
            has_entry(old(self)@.entries, c) ==> {
                &&& r == Ok::<CachedGlyph, GlyphError>(entry_glyph(old(self)@.entries, c))
                &&& final(self)@.entries == refresh_entry(old(self)@.entries, c)
                &&& final(self)@.live == old(self)@.live
                &&& final(uploads)@ == old(uploads)@
            },
            !has_entry(old(self)@.entries, c) && is_ws(c) ==> {
                let g = CachedGlyph { ch: c, metrics: raster.metrics, region: None };
                &&& r == Ok::<CachedGlyph, GlyphError>(g)
                &&& final(self)@.entries == old(self)@.entries.push((c, g))
                &&& final(self)@.live == old(self)@.live
                &&& final(uploads)@ == old(uploads)@
            },
            !has_entry(old(self)@.entries, c) && !is_ws(c) && (raster.metrics.width == 0
                || raster.metrics.height == 0) ==> {
                &&& r == Err::<CachedGlyph, GlyphError>(GlyphError::EmptyBitmap)
                &&& final(self)@ == old(self)@
                &&& final(uploads)@ == old(uploads)@
            },
            !has_entry(old(self)@.entries, c) && !is_ws(c) && 1 <= raster.metrics.width && 1
                <= raster.metrics.height ==> match r {
                Ok(g) => {
                    &&& g.ch == c
                    &&& g.metrics == raster.metrics
                    &&& g.region is Some
                    &&& exists|n: int| #[trigger]
                        miss_insert_at(old(self)@, final(self)@, c, g, n)
                    &&& final(uploads)@.len() == old(uploads)@.len() + 1
                    &&& final(uploads)@.take(old(uploads)@.len() as int) == old(uploads)@
                    &&& upload_matches(final(uploads)@.last(), g, *raster)
                },
                Err(e) => {
                    &&& e == GlyphError::GlyphTooLarge
                    &&& final(self)@.entries == Seq::<(char, CachedGlyph)>::empty()
                    &&& final(self)@.live == Map::<u32, Region>::empty()
                    &&& final(uploads)@ == old(uploads)@
                },
            },
            !has_entry(old(self)@.entries, c) && !is_ws(c) && 1 <= raster.metrics.width && 1
                <= raster.metrics.height && (raster.metrics.width + 2 > old(self)@.width
                || raster.metrics.height + 2 > old(self)@.height) ==> r == Err::<
                CachedGlyph,
                GlyphError,
            >(GlyphError::GlyphTooLarge),
    {
        let ghost pre = self@;
        let ghost pre_up = uploads@;
        proof {
            use_type_invariant(&*self);
        }
        if let Some(g) = lru_get(&mut self.store, c) {
            proof {
                lemma_wf_refresh(pre, c);
                lemma_find_entry(pre.entries, c);
                lemma_refresh_shape(pre.entries, c);
            }
            return Ok(g);
        }
        proof {
            lemma_find_entry(pre.entries, c);
        }
        let m = raster.metrics;
        if is_whitespace_char(c) {
            let g = CachedGlyph { ch: c, metrics: m, region: None };
            lru_put(&mut self.store, c, g);
            proof {
                let w = CacheView {
                    entries: pre.entries.push((c, g)),
                    live: pre.live,
                    width: pre.width,
                    height: pre.height,
                };
                assert forall|i: int| 0 <= i < w.entries.len() implies w.entry_ok(
                    #[trigger] w.entries[i],
                ) by {
                    if i < pre.entries.len() {
                        assert(w.entries[i] == pre.entries[i]);
                        assert(pre.entry_ok(pre.entries[i]));
                    } else {
                        assert(w.entries[i] == (c, g));
                    }
                }
                assert forall|id: u32| #[trigger] w.live.dom().contains(id) implies exists|
                    i: int,
                |
                    0 <= i < w.entries.len() && (#[trigger] w.entries[i]).1.region == Some(
                        w.live[id],
                    ) && w.live[id].id == id by {
                    let i = choose|i: int|
                        0 <= i < pre.entries.len() && (#[trigger] pre.entries[i]).1.region
                            == Some(pre.live[id]) && pre.live[id].id == id;
                    assert(0 <= i < w.entries.len() && w.entries[i].1.region == Some(
                        w.live[id],
                    ) && w.live[id].id == id);
                }
                assert(self@.wf());
            }
            return Ok(g);
        }
        if m.width == 0 || m.height == 0 {
            return Err(GlyphError::EmptyBitmap);
        }
        let pw: u32 = m.width + 2;
        let ph: u32 = m.height + 2;
        let ghost mut n: int = 0;
        proof {
            assert(pre.entries.take(0) =~= Seq::<(char, CachedGlyph)>::empty());
            assert(pre.entries.skip(0) =~= pre.entries);
        }
        loop
            invariant
                pre == old(self)@,
                pre_up == old(uploads)@,
                !has_entry(pre.entries, c),
                0 <= n <= pre.entries.len(),
                self@.entries == pre.entries.skip(n),
                self@.live == live_after_evict(pre.live, pre.entries.take(n)),
                self@.wf(),
                self@.width == pre.width,
                self@.height == pre.height,
                pre.wf(),
                uploads@ == pre_up,
                forall|i: int| 0 <= i < pre.entries.len() ==> (#[trigger] pre.entries[i]).0
                    != c,
                !is_ws(c),
                raster.wf(),
                m == raster.metrics,
                1 <= m.width <= MAX_GLYPH_EDGE,
                1 <= m.height <= MAX_GLYPH_EDGE,
                pw == m.width + 2,
                ph == m.height + 2,
            decreases pre.entries.len() - n,
        {
            let ghost cur = self@;
            proof {
                use_type_invariant(&*self);
            }
            match packer_allocate(&mut self.allocator, pw as i32, ph as i32) {
                Some(reg) => {
                    proof {
                        if pw > pre.width || ph > pre.height {
                            assert(false);
                        }
                    }
                    let pixels = padded_rgba(&raster.bitmap, m.width, m.height);
                    uploads.push(
                        UploadOp {
                            x: reg.min_x as u32,
                            y: reg.min_y as u32,
                            width: pw,
                            height: ph,
                            pixels,
                        },
                    );
                    let g = CachedGlyph { ch: c, metrics: m, region: Some(reg) };
                    lru_put(&mut self.store, c, g);
                    proof {
                        assert forall|i: int| 0 <= i < cur.entries.len() implies (
                        #[trigger] cur.entries[i]).0 != c by {
                            assert(cur.entries[i] == pre.entries[n + i]);
                        }
                        if has_entry(cur.entries, c) {
                            lemma_find_entry(cur.entries, c);
                            assert(false);
                        }
                        lemma_wf_insert(
                            CacheView {
                                entries: cur.entries,
                                live: cur.live,
                                width: pre.width,
                                height: pre.height,
                            },
                            c,
                            g,
                        );
                        assert(miss_insert_at(pre, self@, c, g, n));
                        assert(uploads@.take(pre_up.len() as int) =~= pre_up);
                    }
                    return Ok(g);
                },
                None => {
                    let victim = lru_pop_lru(&mut self.store);
                    match victim {
                        Some(v) => {
                            let ghost mid = self@;
                            proof {
                                lemma_wf_evict_first(
                                    CacheView {
                                        entries: pre.entries.skip(n),
                                        live: live_after_evict(
                                            pre.live,
                                            pre.entries.take(n),
                                        ),
                                        width: pre.width,
                                        height: pre.height,
                                    },
                                );
                            }
                            if let Some(vreg) = v.1.region {
                                proof {
                                    assert(pre.entries.skip(n)[0] == v);
                                }
                                packer_deallocate(&mut self.allocator, vreg.id);
                            }
                            proof {
                                assert(pre.entries.skip(n).drop_first() =~= pre.entries.skip(
                                    n + 1,
                                ));
                                assert(pre.entries.take(n).push(pre.entries[n])
                                    =~= pre.entries.take(n + 1));
                                lemma_live_after_evict_push(
                                    pre.live,
                                    pre.entries.take(n),
                                    pre.entries[n],
                                );
                                n = n + 1;
                            }
                        },
                        None => {
                            proof {
                                assert(pre.entries.skip(n).len() == 0);
                                assert(n == pre.entries.len());
                                assert forall|id: u32| !(#[trigger] self@.live.dom().contains(
                                    id,
                                )) by {
                                    if self@.live.dom().contains(id) {
                                        let i = choose|i: int|
                                            0 <= i < self@.entries.len() && (
                                            #[trigger] self@.entries[i]).1.region == Some(
                                                self@.live[id],
                                            ) && self@.live[id].id == id;
                                        assert(false);
                                    }
                                }
                                assert(self@.live =~= Map::<u32, Region>::empty());
                                assert(self@.entries =~= Seq::<(char, CachedGlyph)>::empty());
                            }
                            return Err(GlyphError::GlyphTooLarge);
                        },
                    }
                },
            }
        }
    }

    pub fn atlas_width(&self) -> (w: u32)
        ensures
            w == self@.width,
    {
        self.width
    }

    pub fn atlas_height(&self) -> (h: u32)
        ensures
            h == self@.height,
    {
        self.height
    }
}

} // verus!

//! The recency-ordered glyph store: a map from character to cached glyph
//! that tracks global least-recently-used order.
//!
//! The store itself is `lru`'s `LruCache`; this module holds the trusted
//! contracts under which the rest of the crate reasons about it. Its state
//! is abstracted as a sequence of entries ordered from least- to
//! most-recently-used.

use vstd::prelude::*;
use crate::glyph::CachedGlyph;
use std::collections::hash_map::RandomState;

verus! {

#[verifier::external_type_specification]
#[verifier::external_body]
#[verifier::reject_recursive_types(K)]
#[verifier::reject_recursive_types(V)]
#[verifier::reject_recursive_types(S)]
pub struct ExLruCache<K, V, S>(lru::LruCache<K, V, S>);

/// The concrete store type: glyphs keyed by character, hashed with the
/// standard library's default hasher.
pub type GlyphStore = lru::LruCache<char, CachedGlyph, RandomState>;

/// The entries of the store, ordered from least- to most-recently-used.
pub uninterp spec fn lru_entries(m: &GlyphStore) -> Seq<(char, CachedGlyph)>;

/// Index of the first entry for `c`, or `-1` if `c` has no entry.
pub open spec fn find_entry(s: Seq<(char, CachedGlyph)>, c: char) -> int
    decreases s.len(),
{
    if s.len() == 0 {
        -1
    } else if s[0].0 == c {
        0
    } else {
        let r = find_entry(s.drop_first(), c);
        if r < 0 {
            -1
        } else {
            r + 1
        }
    }
}

pub open spec fn has_entry(s: Seq<(char, CachedGlyph)>, c: char) -> bool {
    find_entry(s, c) >= 0
}

/// The glyph stored for `c`; meaningful only when `has_entry(s, c)`.
pub open spec fn entry_glyph(s: Seq<(char, CachedGlyph)>, c: char) -> CachedGlyph {
    s[find_entry(s, c)].1
}

/// The store after `c` is marked most-recently-used, its glyph unchanged.
pub open spec fn refresh_entry(s: Seq<(char, CachedGlyph)>, c: char) -> Seq<
    (char, CachedGlyph),
> {
    s.remove(find_entry(s, c)).push((c, entry_glyph(s, c)))
}

/// The store after `(c, g)` is inserted as most-recently-used, replacing
/// any earlier entry for `c`.
pub open spec fn put_entry(s: Seq<(char, CachedGlyph)>, c: char, g: CachedGlyph) -> Seq<
    (char, CachedGlyph),
> {
    (if has_entry(s, c) {
        s.remove(find_entry(s, c))
    } else {
        s
    }).push((c, g))
}

/// What `find_entry` finds: a valid index holding `c`, or a proof that no
/// index holds `c`.
pub proof fn lemma_find_entry(s: Seq<(char, CachedGlyph)>, c: char)
    ensures
        has_entry(s, c) ==> 0 <= find_entry(s, c) < s.len() && s[find_entry(s, c)].0 == c,
        !has_entry(s, c) ==> forall|i: int| 0 <= i < s.len() ==> (#[trigger] s[i]).0 != c,
    decreases s.len(),
{
    if s.len() > 0 && s[0].0 != c {
        lemma_find_entry(s.drop_first(), c);
        assert forall|i: int| !has_entry(s, c) && 0 <= i < s.len() implies (#[trigger] s[i]).0
            != c by {
            if i > 0 {
                assert(s.drop_first()[i - 1] == s[i]);
            }
        }
    }
}

/// No two entries share a character.
pub open spec fn distinct_keys(s: Seq<(char, CachedGlyph)>) -> bool {
    forall|i: int, j: int|
        0 <= i < j < s.len() ==> (#[trigger] s[i]).0 != (#[trigger] s[j]).0
}

/// An index holding `c` shows that `c` has an entry.
pub proof fn lemma_has_entry_witness(s: Seq<(char, CachedGlyph)>, c: char, m: int)
    requires
        0 <= m < s.len(),
        s[m].0 == c,
    ensures
        has_entry(s, c),
    decreases s.len(),
{
    if s[0].0 != c {
        assert(s.drop_first()[m - 1] == s[m]);
        lemma_has_entry_witness(s.drop_first(), c, m - 1);
    }
}

/// `find_entry` finds the first index holding `c`.
pub proof fn lemma_find_entry_at(s: Seq<(char, CachedGlyph)>, c: char, m: int)
    requires
        0 <= m < s.len(),
        s[m].0 == c,
        forall|i: int| 0 <= i < m ==> (#[trigger] s[i]).0 != c,
    ensures
        find_entry(s, c) == m,
        entry_glyph(s, c) == s[m].1,
    decreases s.len(),
{
    if m > 0 {
        assert(s[0].0 != c);
        assert(s.drop_first()[m - 1] == s[m]);
        assert forall|i: int| 0 <= i < m - 1 implies (#[trigger] s.drop_first()[i]).0 != c by {
            assert(s.drop_first()[i] == s[i + 1]);
        }
        lemma_find_entry_at(s.drop_first(), c, m - 1);
    }
}

/// With distinct keys, the entry found for `c` is the one at any index
/// holding `c`.
pub proof fn lemma_find_entry_witness(s: Seq<(char, CachedGlyph)>, c: char, m: int)
    requires
        distinct_keys(s),
        0 <= m < s.len(),
        s[m].0 == c,
    ensures
        find_entry(s, c) == m,
        entry_glyph(s, c) == s[m].1,
{
    lemma_has_entry_witness(s, c, m);
    lemma_find_entry(s, c);
}

/// How `refresh_entry` rearranges the store: the found entry moves to the
/// most-recently-used end and every other entry keeps its place in order.
pub proof fn lemma_refresh_shape(s: Seq<(char, CachedGlyph)>, c: char)
    requires
        has_entry(s, c),
    ensures
        refresh_entry(s, c).len() == s.len(),
        forall|i: int|
            0 <= i < find_entry(s, c) ==> #[trigger] refresh_entry(s, c)[i] == s[i],
        forall|i: int|
            find_entry(s, c) <= i < s.len() - 1 ==> #[trigger] refresh_entry(s, c)[i] == s[i
                + 1],
        refresh_entry(s, c)[s.len() - 1] == s[find_entry(s, c)],
{
    let k = find_entry(s, c);
    lemma_find_entry(s, c);
    s.remove_ensures(k);
    assert(s[k] == (s[k].0, s[k].1));
    assert(refresh_entry(s, c)[s.len() - 1] == (c, s[k].1));
}

/// Relies on `lru::LruCache::unbounded_with_hasher`: a fresh store with no
/// entries and no capacity bound, so inserting never evicts on its own.
#[verifier::external_body]
pub(crate) fn lru_new() -> (m: GlyphStore)
    ensures
        lru_entries(&m) == Seq::<(char, CachedGlyph)>::empty(),
{
    lru::LruCache::unbounded_with_hasher(RandomState::new())
}

/// Relies on `lru::LruCache::len`.
#[verifier::external_body]
pub(crate) fn lru_len(m: &GlyphStore) -> (n: usize)
    ensures
        n == lru_entries(m).len(),
{
    m.len()
}

/// Relies on `lru::LruCache::contains`, which does not touch recency.
#[verifier::external_body]
pub(crate) fn lru_contains(m: &GlyphStore, c: char) -> (r: bool)
    ensures
        r == has_entry(lru_entries(m), c),
{
    m.contains(&c)
}

/// Relies on `lru::LruCache::get`: returns the entry for `c` and marks it
/// most-recently-used, or returns nothing and leaves the store unchanged.
#[verifier::external_body]
pub(crate) fn lru_get(m: &mut GlyphStore, c: char) -> (r: Option<
    CachedGlyph,
>)
    ensures
        match r {
            Some(g) => {
                &&& has_entry(lru_entries(old(m)), c)
                &&& g == entry_glyph(lru_entries(old(m)), c)
                &&& lru_entries(final(m)) == refresh_entry(lru_entries(old(m)), c)
            },
            None => {
                &&& !has_entry(lru_entries(old(m)), c)
                &&& lru_entries(final(m)) == lru_entries(old(m))
            },
        },
    no_unwind
{
    m.get(&c).copied()
}

/// Relies on `lru::LruCache::put` on an unbounded store: inserts `(c, g)`
/// as most-recently-used, replacing any earlier entry for `c`, and never
/// evicts anything else.
#[verifier::external_body]
pub(crate) fn lru_put(m: &mut GlyphStore, c: char, g: CachedGlyph)
    ensures
        lru_entries(final(m)) == put_entry(lru_entries(old(m)), c, g),
    no_unwind
{
    m.put(c, g);
}

/// Relies on `lru::LruCache::pop_lru`: removes and returns the
/// least-recently-used entry, or nothing if the store is empty.
#[verifier::external_body]
pub(crate) fn lru_pop_lru(m: &mut GlyphStore) -> (r: Option<
    (char, CachedGlyph),
>)
    ensures
        lru_entries(old(m)).len() > 0 ==> {
            &&& r == Some(lru_entries(old(m))[0])
            &&& lru_entries(final(m)) == lru_entries(old(m)).drop_first()
        },
        lru_entries(old(m)).len() == 0 ==> {
            &&& r is None
            &&& lru_entries(final(m)) == lru_entries(old(m))
        },
    no_unwind
{
    m.pop_lru()
}

} // verus!

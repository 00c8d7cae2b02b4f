//! The rectangle packing allocator: a fixed-size 2D canvas from which
//! axis-aligned regions are allocated and freed.
//!
//! The packing itself is done by `etagere`'s shelf allocator; this module
//! holds the trusted contracts under which the rest of the crate reasons
//! about it. The allocator state is abstracted as the map from live
//! allocation ids to their regions, plus the canvas size it was built with.

use vstd::prelude::*;
use crate::glyph::Region;
use crate::glyph::regions_disjoint;

verus! {

#[verifier::external_type_specification]
#[verifier::external_body]
pub struct ExAtlasAllocator(etagere::AtlasAllocator);

/// The live allocations of the packer, keyed by allocation id.
pub uninterp spec fn packer_live(a: &etagere::AtlasAllocator) -> Map<u32, Region>;

/// The canvas size (width, height) the packer was created with.
pub uninterp spec fn packer_size(a: &etagere::AtlasAllocator) -> (int, int);

/// Largest canvas edge accepted; keeps the canvas area within `i32`, which
/// the allocator requires of it.
pub const MAX_CANVAS_EDGE: i32 = 0x8000;

/// Relies on `etagere::AtlasAllocator::new`: a fresh allocator over a
/// `w x h` canvas with no live allocations.
#[verifier::external_body]
pub(crate) fn packer_new(w: i32, h: i32) -> (a: etagere::AtlasAllocator)
    requires
        1 <= w <= MAX_CANVAS_EDGE,
        1 <= h <= MAX_CANVAS_EDGE,
    ensures
        packer_size(&a) == (w as int, h as int),
        packer_live(&a) =~= Map::empty(),
{
    etagere::AtlasAllocator::new(etagere::size2(w, h))
}

/// Relies on `etagere::AtlasAllocator::allocate`: on success the returned
/// region lies inside the canvas, is at least the requested size, carries
/// an id no live allocation holds (`AllocId`, carried here in its
/// serialized `u32` form), and overlaps no live region; on failure the
/// live set is unchanged. Success is never promised: the packer may fail
/// on a fragmented canvas even when area remains.
#[verifier::external_body]
pub(crate) fn packer_allocate(a: &mut etagere::AtlasAllocator, w: i32, h: i32) -> (r: Option<
    Region,
>)
    requires
        1 <= w <= 0xffff,
        1 <= h <= 0xffff,
    ensures
        packer_size(final(a)) == packer_size(old(a)),
        match r {
            Some(reg) => {
                &&& !packer_live(old(a)).dom().contains(reg.id)
                &&& packer_live(final(a)) == packer_live(old(a)).insert(reg.id, reg)
                &&& 0 <= reg.min_x
                &&& 0 <= reg.min_y
                &&& reg.min_x + w <= reg.max_x <= packer_size(old(a)).0
                &&& reg.min_y + h <= reg.max_y <= packer_size(old(a)).1
                &&& forall|id: u32| packer_live(old(a)).dom().contains(id)
                    ==> regions_disjoint(reg, #[trigger] packer_live(old(a))[id])
            },
            None => packer_live(final(a)) == packer_live(old(a)),
        },
    no_unwind
{
    match a.allocate(etagere::size2(w, h)) {
        Some(alloc) => Some(
            Region {
                id: alloc.id.serialize(),
                min_x: alloc.rectangle.min.x,
                min_y: alloc.rectangle.min.y,
                max_x: alloc.rectangle.max.x,
                max_y: alloc.rectangle.max.y,
            },
        ),
        None => None,
    }
}

/// Relies on `etagere::AtlasAllocator::deallocate`: removes one live
/// allocation (named by its serialized `AllocId`), returning its region
/// to the free pool. Calling it with an id that is not live is an error
/// (the allocator asserts), so the contract forbids it.
#[verifier::external_body]
pub(crate) fn packer_deallocate(a: &mut etagere::AtlasAllocator, id: u32)
    requires
        packer_live(old(a)).dom().contains(id),
    ensures
        packer_size(final(a)) == packer_size(old(a)),
        packer_live(final(a)) == packer_live(old(a)).remove(id),
    no_unwind
{
    a.deallocate(etagere::AllocId::deserialize(id))
}

} // verus!

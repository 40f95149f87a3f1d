use vstd::prelude::*;

use guillotiere::AllocId;
use guillotiere::AtlasAllocator;

use crate::math::URect;
use crate::math::UVec2;

verus! {

// The 2D bin packing inside one atlas texture is done by guillotiere's
// guillotine allocator. The items here are the trusted boundary around it:
// Verus believes their contracts and reads nothing else of the crate.

/// One allocated region of an atlas, as the packer's model holds it.
pub ghost struct PackedRect {
    pub x0: int,
    pub y0: int,
    pub x1: int,
    pub y1: int,
}

/// The packer's current bounds.
pub ghost struct PackerBounds {
    pub w: int,
    pub h: int,
}

/// Whether two regions share no point.
pub open spec fn rects_disjoint(a: PackedRect, b: PackedRect) -> bool {
    a.x1 <= b.x0 || b.x1 <= a.x0 || a.y1 <= b.y0 || b.y1 <= a.y0
}

/// Whether a region lies inside bounds of `w` by `h`.
pub open spec fn rect_in_bounds(r: PackedRect, b: PackerBounds) -> bool {
    0 <= r.x0 < r.x1 <= b.w && 0 <= r.y0 < r.y1 <= b.h
}

/// The model of a texel rectangle.
pub open spec fn packed_of(r: URect) -> PackedRect {
    PackedRect { x0: r.min.x as int, y0: r.min.y as int, x1: r.max.x as int, y1: r.max.y as int }
}

#[verifier::external_type_specification]
#[verifier::external_body]
pub struct ExAtlasAllocator(AtlasAllocator);

#[verifier::external_type_specification]
#[verifier::external_body]
pub struct ExAllocId(AllocId);

/// The live allocations of a packer, keyed by allocation identity.
pub uninterp spec fn packer_regions(a: AtlasAllocator) -> Map<int, PackedRect>;

/// The bounds the packer currently packs into.
pub uninterp spec fn packer_bounds(a: AtlasAllocator) -> PackerBounds;

/// The identity behind an opaque allocation id.
pub uninterp spec fn packer_id(id: AllocId) -> int;

/// Whether the packer, in a given state, can place a region of the given
/// size. The guillotine search is a pure function of the allocator's state
/// and the request, so the outcome deserves a name.
pub uninterp spec fn packer_fits(a: AtlasAllocator, w: u32, h: u32) -> bool;

/// Relies on guillotiere::AtlasAllocator::new: a fresh allocator of the
/// given size holds no allocations. Sizes are capped at 4096: guillotiere
/// packs a 24-bit node index into each id, and small bounds keep the node
/// count far from that limit, so live ids never collide.
#[verifier::external_body]
pub fn packer_new(w: u32, h: u32) -> (r: AtlasAllocator)
    requires
        0 < w <= 4096,
        0 < h <= 4096,
    ensures
        packer_regions(r) =~= Map::empty(),
        packer_bounds(r) == (PackerBounds { w: w as int, h: h as int }),
{
    AtlasAllocator::new(guillotiere::Size::new(w as i32, h as i32))
}

/// Relies on guillotiere::AtlasAllocator::allocate: with the default
/// options the returned rectangle has exactly the requested size, lies
/// inside the atlas bounds, overlaps no live allocation, and is recorded
/// under a fresh id; `None` leaves the allocator as it was. The search is
/// deterministic in the state and the request, so success is exactly
/// `packer_fits` of the state the call saw.
#[verifier::external_body]
pub fn packer_alloc(a: &mut AtlasAllocator, w: u32, h: u32) -> (r: Option<(AllocId, URect)>)
    requires
        0 < w <= 4096,
        0 < h <= 4096,
    ensures
        r is Some <==> packer_fits(*old(a), w, h),
        r is None ==> packer_regions(*final(a)) == packer_regions(*old(a)),
        r is None ==> packer_bounds(*final(a)) == packer_bounds(*old(a)),
        r is None ==> forall|w2: u32, h2: u32|
            packer_fits(*final(a), w2, h2) == packer_fits(*old(a), w2, h2),
        r matches Some(p) ==> packed_of(p.1).x1 - packed_of(p.1).x0 == w && packed_of(p.1).y1
            - packed_of(p.1).y0 == h,
        r matches Some(p) ==> rect_in_bounds(packed_of(p.1), packer_bounds(*old(a))),
        r matches Some(p) ==> !packer_regions(*old(a)).contains_key(packer_id(p.0)),
        r matches Some(p) ==> packer_regions(*final(a)) =~= packer_regions(*old(a)).insert(
            packer_id(p.0),
            packed_of(p.1),
        ),
        r matches Some(p) ==> forall|k: int|
            packer_regions(*old(a)).contains_key(k) ==> rects_disjoint(
                packed_of(p.1),
                packer_regions(*old(a))[k],
            ),
        r matches Some(p) ==> packer_bounds(*final(a)) == packer_bounds(*old(a)),
{
    match a.allocate(guillotiere::Size::new(w as i32, h as i32)) {
        Some(alloc) => {
            let min = UVec2::new(alloc.rectangle.min.x as u32, alloc.rectangle.min.y as u32);
            let max = UVec2::new(alloc.rectangle.max.x as u32, alloc.rectangle.max.y as u32);
            Some((alloc.id, URect::new(min, max)))
        },
        None => None,
    }
}

/// Relies on guillotiere::AtlasAllocator::deallocate: the freed id leaves
/// the live allocations and every other one stays.
#[verifier::external_body]
pub fn packer_free(a: &mut AtlasAllocator, id: AllocId)
    requires
        packer_regions(*old(a)).contains_key(packer_id(id)),
    ensures
        packer_regions(*final(a)) =~= packer_regions(*old(a)).remove(packer_id(id)),
        packer_bounds(*final(a)) == packer_bounds(*old(a)),
{
    a.deallocate(id)
}

/// Relies on guillotiere::AtlasAllocator::grow: the bounds become the given
/// larger size and every allocation stays where it was.
#[verifier::external_body]
pub fn packer_grow(a: &mut AtlasAllocator, w: u32, h: u32)
    requires
        packer_bounds(*old(a)).w <= w <= 4096,
        packer_bounds(*old(a)).h <= h <= 4096,
    ensures
        packer_regions(*final(a)) == packer_regions(*old(a)),
        packer_bounds(*final(a)) == (PackerBounds { w: w as int, h: h as int }),
{
    a.grow(guillotiere::Size::new(w as i32, h as i32))
}

/// Relies on guillotiere::AtlasAllocator::is_empty: `true` exactly when
/// nothing is allocated. A `true` answer means the tree's root is one free
/// node; conversely, deallocation merges free siblings and collapses
/// lone children into their parents, so once every allocation is freed
/// the tree coalesces back to that single free root.
#[verifier::external_body]
pub fn packer_is_empty(a: &AtlasAllocator) -> (r: bool)
    ensures
        r == (packer_regions(*a) =~= Map::empty()),
{
    a.is_empty()
}

} // verus!

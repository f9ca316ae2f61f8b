use vstd::prelude::*;

use roaring::RoaringBitmap;

verus! {

/// The interest set: a compressed bitmap of block numbers.
#[verifier::external_type_specification]
#[verifier::external_body]
pub struct ExRoaringBitmap(RoaringBitmap);

/// The block numbers that a bitmap holds.
pub uninterp spec fn bitmap_members(b: RoaringBitmap) -> Set<u32>;

/// Relies on RoaringBitmap::contains: true exactly when `v` is in the bitmap.
#[verifier::external_body]
pub(crate) fn bitmap_contains(b: &RoaringBitmap, v: u32) -> (r: bool)
    ensures
        r == bitmap_members(*b).contains(v),
{
    b.contains(v)
}

} // verus!

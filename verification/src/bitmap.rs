//! Trusted declarations around `roaring::RoaringBitmap`, the compressed
//! bitmap the selection layer keeps its row sets in. Each wrapper's contract
//! states what the crate's source shows of the call, over the set of values
//! the bitmap holds.
use roaring::RoaringBitmap;
use vstd::prelude::*;

verus! {

#[verifier::external_type_specification]
#[verifier::external_body]
pub struct ExRoaringBitmap(RoaringBitmap);

/// The set of integers a roaring bitmap holds.
pub uninterp spec fn bitmap_set(b: RoaringBitmap) -> Set<u32>;

/// Relies on RoaringBitmap::new: the fresh bitmap is empty.
#[verifier::external_body]
pub fn bitmap_new() -> (r: RoaringBitmap)
    ensures
        bitmap_set(r) == Set::<u32>::empty(),
{
    RoaringBitmap::new()
}

/// Relies on RoaringBitmap::insert: the value joins the set; the result
/// says whether it was absent.
#[verifier::external_body]
pub fn bitmap_insert(b: &mut RoaringBitmap, value: u32) -> (r: bool)
    ensures
        bitmap_set(*final(b)) == bitmap_set(*old(b)).insert(value),
        r == !bitmap_set(*old(b)).contains(value),
{
    b.insert(value)
}

/// Relies on RoaringBitmap::clone: the copy holds the same set.
#[verifier::external_body]
pub fn bitmap_clone(b: &RoaringBitmap) -> (r: RoaringBitmap)
    ensures
        bitmap_set(r) == bitmap_set(*b),
{
    b.clone()
}

/// Relies on RoaringBitmap::iter, whose values are guaranteed ordered by
/// value: every member once, in strictly ascending order.
#[verifier::external_body]
pub fn bitmap_to_vec(b: &RoaringBitmap) -> (r: Vec<u32>)
    ensures
        forall|i: int, j: int| 0 <= i < j < r@.len() ==> r@[i] < r@[j],
        forall|i: int| 0 <= i < r@.len() ==> bitmap_set(*b).contains(#[trigger] r@[i]),
        forall|v: u32| bitmap_set(*b).contains(v) ==> r@.contains(v),
{
    b.iter().collect()
}

} // verus!

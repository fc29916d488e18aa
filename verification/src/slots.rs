//! The listener slots of a matched archetype, kept in `smallvec::SmallVec`:
//! most queries listen on one component, which then needs no allocation.

use smallvec::SmallVec;
use vstd::prelude::*;

verus! {

/// Column positions in a `smallvec::SmallVec` with room for one before it
/// allocates.
#[verifier::external_body]
pub struct ListenerSlots {
    items: SmallVec<[u32; 1]>,
}

/// The column positions that the small vector holds, in order.
pub uninterp spec fn slot_items(v: ListenerSlots) -> Seq<u32>;

/// `SmallVec::new`: an empty vector.
#[verifier::external_body]
pub(crate) fn slots_new() -> (v: ListenerSlots)
    ensures
        slot_items(v).len() == 0,
{
    ListenerSlots { items: SmallVec::new() }
}

/// `SmallVec::push`: appends the item.
#[verifier::external_body]
pub(crate) fn slots_push(v: &mut ListenerSlots, item: u32)
    ensures
        slot_items(*final(v)) == slot_items(*old(v)).push(item),
{
    v.items.push(item)
}

/// `SmallVec::len`: the number of items.
#[verifier::external_body]
pub(crate) fn slots_len(v: &ListenerSlots) -> (n: usize)
    ensures
        n == slot_items(*v).len(),
{
    v.items.len()
}

/// Indexing a `SmallVec` as a slice: the item at the position. A position
/// at or past the length would panic.
#[verifier::external_body]
pub(crate) fn slots_get(v: &ListenerSlots, i: usize) -> (item: u32)
    requires
        i < slot_items(*v).len(),
    ensures
        item == slot_items(*v)[i as int],
{
    v.items[i]
}

} // verus!

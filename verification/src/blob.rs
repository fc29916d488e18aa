//! Byte-granular growable storage of one column in one archetype, and the
//! array of ticks that runs parallel to it.
//!
//! The storage itself is `pi_arr::Arr`: a contiguous part followed by buckets
//! that are allocated on first touch and never move. Every cell is
//! default-initialised when its bucket is allocated, so a cell that was never
//! written reads as zero.

use pi_arr::Arr;
use vstd::prelude::*;

verus! {

/// `pi_arr::SegmentedArr`, the array that `pi_arr::Arr` names, which the
/// verifier does not look into.
#[verifier::external_type_specification]
#[verifier::external_body]
#[verifier::reject_recursive_types(T)]
pub struct ExSegmentedArr<T>(pi_arr::SegmentedArr<T>);

/// The bytes that were stored into a byte array and not discarded since,
/// by their index.
pub uninterp spec fn stored_bytes(a: Arr<u8>) -> Map<usize, u8>;

/// The ticks that were stored into a tick array and not discarded since,
/// by their index.
pub uninterp spec fn stored_ticks(a: Arr<u32>) -> Map<usize, u32>;

/// The largest index that `pi_arr` can address past its contiguous part.
pub const MAX_INDEX: usize = 0xffff_ffdf;

/// The byte at `index`: what was stored there, zero otherwise.
pub open spec fn byte_at(cells: Map<usize, u8>, index: usize) -> u8 {
    if cells.dom().contains(index) {
        cells[index]
    } else {
        0
    }
}

/// The tick at `index`: what was stored there, zero otherwise.
pub open spec fn tick_at(cells: Map<usize, u32>, index: usize) -> u32 {
    if cells.dom().contains(index) {
        cells[index]
    } else {
        0
    }
}

/// `pi_arr::Arr::<u8>::new`: nothing is stored in a new array.
#[verifier::external_body]
pub(crate) fn bytes_new() -> (arr: Arr<u8>)
    ensures
        stored_bytes(arr).dom() == Set::<usize>::empty(),
{
    Arr::new()
}

/// `pi_arr::Arr::<u8>::get`: a stored byte is returned; a cell that nothing
/// was stored into yields `None` where its bucket is not allocated and the
/// default, zero, where it is.
#[verifier::external_body]
pub(crate) fn bytes_get(a: &Arr<u8>, index: usize) -> (r: Option<u8>)
    ensures
        match r {
            Some(v) => v == byte_at(stored_bytes(*a), index),
            None => byte_at(stored_bytes(*a), index) == 0,
        },
{
    a.get(index).copied()
}

/// `pi_arr::Arr::<u8>::set`: stores `value` at `index`, allocating the
/// bucket where needed, and leaves every other cell as it was. An index
/// past `MAX_INDEX` would panic.
#[verifier::external_body]
pub(crate) fn bytes_set(a: &mut Arr<u8>, index: usize, value: u8)
    requires
        index <= MAX_INDEX,
    ensures
        stored_bytes(*final(a)) == stored_bytes(*old(a)).insert(index, value),
{
    a.set(index, value);
}

/// `pi_arr::Arr::<u8>::settle`: merges the buckets into one contiguous part
/// of at least `len + additional` cells. The cells below `len` keep what
/// they hold; every cell from `len` on is discarded and reads as zero again.
#[verifier::external_body]
pub(crate) fn bytes_settle(a: &mut Arr<u8>, len: usize, additional: usize)
    requires
        len + additional <= isize::MAX,
    ensures
        stored_bytes(*final(a)) == stored_bytes(*old(a)).restrict(Set::new(|k: usize| k < len)),
{
    a.settle(len, additional);
}

/// `pi_arr::Arr::<u32>::new`: nothing is stored in a new array.
#[verifier::external_body]
pub(crate) fn ticks_new() -> (arr: Arr<u32>)
    ensures
        stored_ticks(arr).dom() == Set::<usize>::empty(),
{
    Arr::new()
}

/// `pi_arr::Arr::<u32>::get`: a stored tick is returned; a cell that nothing
/// was stored into yields `None` where its bucket is not allocated and the
/// default, zero, where it is.
#[verifier::external_body]
pub(crate) fn ticks_get(a: &Arr<u32>, index: usize) -> (r: Option<u32>)
    ensures
        match r {
            Some(v) => v == tick_at(stored_ticks(*a), index),
            None => tick_at(stored_ticks(*a), index) == 0,
        },
{
    a.get(index).copied()
}

/// `pi_arr::Arr::<u32>::set`: stores `value` at `index`, allocating the
/// bucket where needed, and leaves every other cell as it was. An index
/// past `MAX_INDEX` would panic.
#[verifier::external_body]
pub(crate) fn ticks_set(a: &mut Arr<u32>, index: usize, value: u32)
    requires
        index <= MAX_INDEX,
    ensures
        stored_ticks(*final(a)) == stored_ticks(*old(a)).insert(index, value),
{
    a.set(index, value);
}

/// `pi_arr::Arr::<u32>::settle`: merges the buckets into one contiguous part
/// of at least `len + additional` cells. The cells below `len` keep what
/// they hold; every cell from `len` on is discarded and reads as zero again.
#[verifier::external_body]
pub(crate) fn ticks_settle(a: &mut Arr<u32>, len: usize, additional: usize)
    requires
        4 * (len + additional) <= isize::MAX,
    ensures
        stored_ticks(*final(a)) == stored_ticks(*old(a)).restrict(Set::new(|k: usize| k < len)),
{
    a.settle(len, additional);
}

} // verus!

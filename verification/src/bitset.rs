//! Bit sets over row and component indices, kept in `fixedbitset::FixedBitSet`.

use fixedbitset::FixedBitSet;
use vstd::prelude::*;

verus! {

/// `fixedbitset::FixedBitSet`, which the verifier does not look into.
#[verifier::external_type_specification]
#[verifier::external_body]
pub struct ExFixedBitSet(FixedBitSet);

/// The positions whose bit is stored as one.
pub uninterp spec fn bits_on(b: FixedBitSet) -> Set<usize>;

/// The length of the bit set in bits: the positions that can be asked for
/// and set.
pub uninterp spec fn bits_len(b: FixedBitSet) -> usize;

/// Whether `bit` is a member: within the length, and stored as one.
pub open spec fn bit_is_set(b: FixedBitSet, bit: usize) -> bool {
    bit < bits_len(b) && bits_on(b).contains(bit)
}

/// `FixedBitSet::with_capacity`: `bits` positions, none of them set.
#[verifier::external_body]
pub(crate) fn bitset_with_capacity(bits: usize) -> (b: FixedBitSet)
    ensures
        bits_len(b) == bits,
        bits_on(b) == Set::<usize>::empty(),
{
    FixedBitSet::with_capacity(bits)
}

/// `FixedBitSet::grow`: the length becomes `bits` where that is more; what
/// is stored stays, and the new positions are stored as zero.
#[verifier::external_body]
pub(crate) fn bitset_grow(b: &mut FixedBitSet, bits: usize)
    ensures
        bits_len(*final(b)) == if bits > bits_len(*old(b)) {
            bits
        } else {
            bits_len(*old(b))
        },
        bits_on(*final(b)) == bits_on(*old(b)),
{
    b.grow(bits)
}

/// `FixedBitSet::contains`: whether the bit is within the length and set.
#[verifier::external_body]
pub(crate) fn bitset_contains(b: &FixedBitSet, bit: usize) -> (r: bool)
    ensures
        r == bit_is_set(*b, bit),
{
    b.contains(bit)
}

/// `FixedBitSet::clear`: every position is stored as zero; the length stays.
#[verifier::external_body]
pub(crate) fn bitset_clear(b: &mut FixedBitSet)
    ensures
        bits_len(*final(b)) == bits_len(*old(b)),
        bits_on(*final(b)) == Set::<usize>::empty(),
{
    b.clear()
}

/// `FixedBitSet::set`: stores the bit as `enabled` and leaves the others.
/// A position at or past the length would panic.
#[verifier::external_body]
pub(crate) fn bitset_set(b: &mut FixedBitSet, bit: usize, enabled: bool)
    requires
        bit < bits_len(*old(b)),
    ensures
        bits_len(*final(b)) == bits_len(*old(b)),
        bits_on(*final(b)) == if enabled {
            bits_on(*old(b)).insert(bit)
        } else {
            bits_on(*old(b)).remove(bit)
        },
{
    b.set(bit, enabled)
}

} // verus!

//! What this crate relies on from `fixedbitset::FixedBitSet`.
//!
//! Nothing in this file is proved. Each contract restates what the
//! `fixedbitset` sources show for one method, over [`bits`], the sequence of
//! booleans a set holds.

use fixedbitset::FixedBitSet;
use vstd::prelude::*;

verus! {

#[verifier::external_type_specification]
#[verifier::external_body]
pub struct ExFixedBitSet(FixedBitSet);

/// The bits a set holds, in index order: one entry per bit of its length,
/// `true` where the bit is enabled.
pub uninterp spec fn bits(set: &FixedBitSet) -> Seq<bool>;

/// Whether `blocks` is the packed form of `bits`: 32 bits to a block, bit `i`
/// stored in block `i / 32` at position `i % 32`, lowest position first.
pub open spec fn packs(blocks: Seq<u32>, bits: Seq<bool>) -> bool {
    &&& blocks.len() == (bits.len() + 31) / 32
    &&& forall|i: int|
        0 <= i < bits.len() ==> (#[trigger] bits[i] <==> block_bit(blocks[i / 32], (i % 32) as u32))
}

/// Bit `position` of `block`, counted from the least significant one.
pub open spec fn block_bit(block: u32, position: u32) -> bool {
    block & (1u32 << position) != 0
}

/// `FixedBitSet::with_capacity`: a set of `length` bits, all of them disabled.
pub assume_specification[ FixedBitSet::with_capacity ](length: usize) -> (set: FixedBitSet)
    ensures
        bits(&set) == Seq::new(length as nat, |i: int| false),
;

/// `FixedBitSet::len`: the number of bits, enabled or not.
pub assume_specification[ FixedBitSet::len ](set: &FixedBitSet) -> (length: usize)
    ensures
        length == bits(set).len(),
;

/// `FixedBitSet::contains`: for an index inside the set, whether that bit is
/// enabled. It does not panic; nothing is claimed for an index past the end.
pub assume_specification[ FixedBitSet::contains ](set: &FixedBitSet, bit: usize) -> (enabled: bool)
    ensures
        bit < bits(set).len() ==> enabled == bits(set)[bit as int],
;

/// `FixedBitSet::set`: overwrites one bit and leaves the others and the
/// length alone. It panics for an index past the end, which is ruled out.
pub assume_specification[ FixedBitSet::set ](set: &mut FixedBitSet, bit: usize, enabled: bool)
    requires
        bit < bits(old(set)).len(),
    ensures
        bits(final(set)) == bits(old(set)).update(bit as int, enabled),
;

/// `Clone` for `FixedBitSet`: the copy holds the same bits.
pub assume_specification[ <FixedBitSet as Clone>::clone ](set: &FixedBitSet) -> (copy: FixedBitSet)
    ensures
        bits(&copy) == bits(set),
;

/// `FixedBitSet::as_slice`: the blocks the bits are packed into.
pub assume_specification<'a>[ FixedBitSet::as_slice ](set: &'a FixedBitSet) -> (blocks: &'a [u32])
    ensures
        packs(blocks@, bits(set)),
;

} // verus!

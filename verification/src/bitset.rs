//! What this library takes on trust about `fixedbitset::FixedBitSet`.
//!
//! Nothing in this file is proved. Each item names the method it describes and
//! says what is claimed of it.

use fixedbitset::FixedBitSet;
use vstd::prelude::*;

verus! {

/// `fixedbitset::FixedBitSet`, carried as an opaque value.
#[verifier::external_type_specification]
#[verifier::external_body]
pub struct ExFixedBitSet(FixedBitSet);

/// The bits that a `FixedBitSet` holds, lowest index first. Its length is the
/// set's length in bits (`FixedBitSet::len`), not the number of enabled bits.
pub uninterp spec fn bits_of(set: FixedBitSet) -> Seq<bool>;

/// Whether `blocks` holds `bits` packed 32 to a block: bit `i` is the binary
/// digit of weight `2^(i % 32)` in block `i / 32`, and there are just enough
/// blocks for all the bits. Nothing is said of the digits of the last block that
/// lie past the last bit.
pub open spec fn packs(blocks: Seq<u32>, bits: Seq<bool>) -> bool {
    &&& blocks.len() == (bits.len() + 31) / 32
    &&& forall|i: int|
        0 <= i < bits.len() ==> #[trigger] bits[i] == (blocks[i / 32] & (1u32 << ((i % 32) as u32))
            != 0)
}

/// `FixedBitSet::with_capacity`: a set of `n` bits, all of them clear.
pub assume_specification[ FixedBitSet::with_capacity ](n: usize) -> (set: FixedBitSet)
    ensures
        bits_of(set) == Seq::new(n as nat, |i: int| false),
;

/// `FixedBitSet::set`: writes `enabled` to bit `bit` and leaves the others as
/// they were. The method panics when `bit` is not below the set's length.
pub assume_specification[ FixedBitSet::set ](set: &mut FixedBitSet, bit: usize, enabled: bool)
    requires
        bit < bits_of(*old(set)).len(),
    ensures
        bits_of(*final(set)) == bits_of(*old(set)).update(bit as int, enabled),
;

/// `FixedBitSet::toggle`: inverts bit `bit` and leaves the others as they
/// were. The method panics when `bit` is not below the set's length.
pub assume_specification[ FixedBitSet::toggle ](set: &mut FixedBitSet, bit: usize)
    requires
        bit < bits_of(*old(set)).len(),
    ensures
        bits_of(*final(set)) == bits_of(*old(set)).update(
            bit as int,
            !bits_of(*old(set))[bit as int],
        ),
;

/// `FixedBitSet::as_slice`: the blocks in which the set keeps its bits, packed
/// as `packs` says.
pub assume_specification[ FixedBitSet::as_slice ](set: &FixedBitSet) -> (blocks: &[u32])
    ensures
        packs(blocks@, bits_of(*set)),
;

/// Indexing a `FixedBitSet` (`Index<usize>`, which goes through
/// `FixedBitSet::contains`): the value of bit `bit`. Nothing is claimed for an
/// index at or past the set's length.
#[verifier::external_body]
pub(crate) fn bit_at(set: &FixedBitSet, bit: usize) -> (enabled: bool)
    ensures
        bit < bits_of(*set).len() ==> enabled == bits_of(*set)[bit as int],
{
    set[bit]
}

} // verus!

//! What is taken on trust about `fixedbitset::FixedBitSet`.
//!
//! The bit set is opaque to the verifier. Its contents are named by
//! [`bits_of`], and each method the universe calls is given a contract over
//! that name. None of these contracts is proved here: they restate what the
//! methods of `fixedbitset` do.

use fixedbitset::FixedBitSet;
use vstd::prelude::*;

verus! {

/// `fixedbitset::FixedBitSet`, carried as an opaque value.
#[verifier::external_type_specification]
#[verifier::external_body]
pub struct ExFixedBitSet(fixedbitset::FixedBitSet);

/// The bits that a bit set holds, in index order: `bits_of(s)[i]` is bit `i`,
/// and the length of the sequence is the set's length in bits.
pub uninterp spec fn bits_of(s: FixedBitSet) -> Seq<bool>;

/// Whether bit `k` (counted from the least significant) of a storage word is set.
pub open spec fn word_bit(word: u32, k: nat) -> bool
    recommends
        k < 32,
{
    (word >> (k as u32)) & 1u32 == 1u32
}

/// Whether `words` is a packed image of `bits`: thirty-two bits to a word,
/// lowest bit first, with just enough words to hold them all.
pub open spec fn packs(words: Seq<u32>, bits: Seq<bool>) -> bool {
    &&& words.len() == (bits.len() + 31) / 32
    &&& forall|i: int|
        0 <= i < bits.len() ==> bits[i] == word_bit(#[trigger] words[i / 32], (i % 32) as nat)
}

/// `FixedBitSet::with_capacity`: a set of `bits` bits, all of them clear.
pub assume_specification[ FixedBitSet::with_capacity ](bits: usize) -> (set: FixedBitSet)
    ensures
        bits_of(set) == Seq::new(bits as nat, |i: int| false),
;

/// `FixedBitSet::len`: the length in bits, counting set and unset bits alike.
pub assume_specification[ FixedBitSet::len ](set: &FixedBitSet) -> (len: usize)
    ensures
        len == bits_of(*set).len(),
;

/// `FixedBitSet::set`: writes `enabled` to bit `bit` and leaves every other
/// bit and the length as they were. The method panics when `bit` is not
/// below the length, so callers must show that it is.
pub assume_specification[ FixedBitSet::set ](set: &mut FixedBitSet, bit: usize, enabled: bool)
    requires
        bit < bits_of(*old(set)).len(),
    ensures
        bits_of(*final(set)) == bits_of(*old(set)).update(bit as int, enabled),
;

/// `Clone::clone` for `FixedBitSet`: the copy holds the same bits.
pub assume_specification[ <FixedBitSet as Clone>::clone ](set: &FixedBitSet) -> (copy: FixedBitSet)
    ensures
        bits_of(copy) == bits_of(*set),
;

/// `FixedBitSet::as_slice`: the storage words, which pack the bits thirty-two
/// to a word from the lowest bit up.
pub assume_specification<'a>[ FixedBitSet::as_slice ](set: &'a FixedBitSet) -> (words: &'a [u32])
    ensures
        packs(words@, bits_of(*set)),
;

/// Indexing a `FixedBitSet` (`set[bit]`): the value of bit `bit`, for an
/// index below the length. Nothing is claimed for an index at or past the
/// length: there the method reads the spare bits of the last storage word.
#[verifier::external_body]
pub(crate) fn bit_at(set: &FixedBitSet, bit: usize) -> (on: bool)
    requires
        bit < bits_of(*set).len(),
    ensures
        on == bits_of(*set)[bit as int],
{
    set[bit]
}

} // verus!

//! The packed cell store: a `bitvec` bit-vector over `u16` words in
//! most-significant-bit-first order, and the handful of its operations that
//! the universe needs.
//!
//! Nothing in this file is proved. Each function below makes one call into
//! `bitvec` and carries a contract that is taken on trust from that crate's
//! source; the rest of the library is verified against these contracts.

use bitvec::order::Msb0;
use bitvec::vec::BitVec;
use vstd::prelude::*;

verus! {

/// A `bitvec::vec::BitVec<Msb0, u16>`: a vector of bits packed into `u16`
/// words, most significant bit first. The verifier does not look inside it;
/// the library speaks of its contents only through [`bits_of`] and
/// [`head_of`].
#[verifier::external_body]
pub struct PackedBits {
    bits: BitVec<Msb0, u16>,
}

/// The live bits that a bit-vector holds, first to last.
pub uninterp spec fn bits_of(v: PackedBits) -> Seq<bool>;

/// The position, within the first storage word, at which the first live bit
/// of a bit-vector lies (`0` for the word's leading bit). `bitvec` allows a
/// vector to start part-way into its first word; one made by
/// `BitVec::repeat` never does.
pub uninterp spec fn head_of(v: PackedBits) -> nat;

/// The largest number of bits that a `bitvec` vector can address:
/// `BitPtr::MAX_BITS`, which is `usize::MAX >> 3`.
pub open spec fn max_bits() -> nat {
    (usize::MAX / 8) as nat
}

/// Bit `k` of a storage word in most-significant-bit-first order: position
/// `0` is the top bit of the word, position `15` the bottom one. This is the
/// mask `(1 << 15) >> k` that `Msb0::mask` computes for `u16`.
pub open spec fn word_bit(w: u16, k: nat) -> bool
    recommends
        k < 16,
{
    w & (0x8000u16 >> (k as u16)) != 0
}

/// `BitVec::repeat(false, len)`: a vector of `len` live bits, all clear,
/// starting at the front of its first word.
///
/// `repeat` panics when `len` exceeds `BitPtr::MAX_BITS`; the precondition
/// leaves those lengths out.
#[verifier::external_body]
pub(crate) fn all_clear(len: usize) -> (v: PackedBits)
    requires
        len <= max_bits(),
    ensures
        bits_of(v) == Seq::new(len as nat, |i: int| false),
        head_of(v) == 0,
{
    PackedBits { bits: BitVec::<Msb0, u16>::repeat(false, len) }
}

/// `BitSlice::len`, reached through `BitVec`'s deref: the number of live
/// bits.
#[verifier::external_body]
pub(crate) fn bit_count(v: &PackedBits) -> (n: usize)
    ensures
        n == bits_of(*v).len(),
{
    v.bits.len()
}

/// `Index<usize>` of `BitVec`: the bit at `index`.
///
/// Indexing panics when `index` is not below the length; the precondition
/// leaves those indices out.
#[verifier::external_body]
pub(crate) fn bit_at(v: &PackedBits, index: usize) -> (bit: bool)
    requires
        index < bits_of(*v).len(),
    ensures
        bit == bits_of(*v)[index as int],
{
    v.bits[index]
}

/// `BitSlice::set`, reached through `BitVec`'s deref: writes `value` at
/// `index` and leaves every other bit, the length and the starting position
/// as they were.
///
/// `set` panics when `index` is not below the length; the precondition
/// leaves those indices out.
#[verifier::external_body]
pub(crate) fn set_bit(v: &mut PackedBits, index: usize, value: bool)
    requires
        index < bits_of(*old(v)).len(),
    ensures
        bits_of(*final(v)) == bits_of(*old(v)).update(index as int, value),
        head_of(*final(v)) == head_of(*old(v)),
{
    v.bits.set(index, value)
}

/// `BitVec::as_slice`: the storage words that hold the live bits, partly
/// used words at either end included.
///
/// Live bit `i` lies `head_of(v) + i` positions after the leading bit of the
/// first word, counted most significant bit first through each 16-bit word
/// in turn. The slice has exactly as many words as that takes. Bits of the
/// first and last word that lie outside the live range are not specified.
#[verifier::external_body]
pub(crate) fn storage_words(v: &PackedBits) -> (words: &[u16])
    ensures
        words@.len() == (if bits_of(*v).len() == 0 {
            0
        } else {
            (head_of(*v) + bits_of(*v).len() + 15) / 16
        }),
        forall|i: int|
            0 <= i < bits_of(*v).len() ==> word_bit(
                words@[(head_of(*v) + i) / 16],
                ((head_of(*v) + i) % 16) as nat,
            ) == #[trigger] bits_of(*v)[i],
{
    v.bits.as_slice()
}

} // verus!

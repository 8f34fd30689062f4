//! The general-purpose backend: a bit vector of the `bitvec` crate, kept at
//! the length it was created with.
use crate::bitset::bits_and;
use crate::bitset::bits_not;
use crate::bitset::bits_or;
use crate::bitset::bits_sub;
use crate::bitset::is_member_list;
use crate::bitset::lemma_member_list_unique;
use crate::bitset::members;
use crate::bitset::no_bits;
use crate::bitset::BitSet;
use crate::matrix::IndexMatrix;
use crate::pointer::ArcFamily;
use crate::pointer::RcFamily;
use crate::set::IndexSet;
use vstd::prelude::*;

verus! {

/// A `bitvec::vec::BitVec` over `usize` words, least significant bit first.
///
/// The vector is opaque to the verifier; `bitvec_bits` names what it holds.
#[verifier::external_body]
pub struct BitVec {
    bits: bitvec::vec::BitVec<usize, bitvec::order::Lsb0>,
}

/// The bits of a vector, from index 0 to its length.
pub uninterp spec fn bitvec_bits(vector: BitVec) -> Seq<bool>;

/// `take_mut::take` moves the value out of the reference, hands it to the
/// closure, and writes what the closure returns back through the reference.
/// (It aborts the process where the closure panics.)
pub assume_specification<T, F>[ take_mut::take::<T, F> ](mut_ref: &mut T, closure: F) where
    F: FnOnce(T) -> T,

    requires
        call_requires(closure, (*old(mut_ref),)),
    ensures
        call_ensures(closure, (*old(mut_ref),), *final(mut_ref)),
;

/// `BitVec::repeat(false, size)`: a vector of `size` bits, all zero. The
/// call panics above `BitSlice::MAX_BITS`, an eighth of the `usize` range.
#[verifier::external_body]
fn zeros(size: usize) -> (vector: BitVec)
    requires
        size <= usize::MAX / 8,
    ensures
        bitvec_bits(vector) == no_bits(size as nat),
{
    BitVec { bits: bitvec::vec::BitVec::repeat(false, size) }
}

/// Indexing a bit vector reads the bit at `index`; it panics at or past
/// the length.
#[verifier::external_body]
fn bit_at(vector: &BitVec, index: usize) -> (bit: bool)
    requires
        index < bitvec_bits(*vector).len(),
    ensures
        bit == bitvec_bits(*vector)[index as int],
{
    vector.bits[index]
}

/// `BitSlice::set(index, true)` writes a one at `index` and leaves every
/// other bit; it panics at or past the length.
#[verifier::external_body]
fn set_bit(vector: &mut BitVec, index: usize)
    requires
        index < bitvec_bits(*old(vector)).len(),
    ensures
        bitvec_bits(*final(vector)) == bitvec_bits(*old(vector)).update(index as int, true),
{
    vector.bits.set(index, true)
}

/// `BitSlice::iter_ones` yields the index of each one bit, lowest first.
#[verifier::external_body]
fn ones(vector: &BitVec) -> (list: Vec<usize>)
    ensures
        is_member_list(list@, bitvec_bits(*vector)),
{
    vector.bits.iter_ones().collect()
}

/// `BitSlice::count_ones` counts the one bits.
#[verifier::external_body]
fn count_ones(vector: &BitVec) -> (count: usize)
    ensures
        count == members(bitvec_bits(*vector)).len(),
{
    vector.bits.count_ones()
}

/// `|=` between bit vectors of one length ors each bit of the right side
/// into the bit of the left side at the same index.
#[verifier::external_body]
fn or_assign(vector: &mut BitVec, other: &BitVec)
    requires
        bitvec_bits(*old(vector)).len() == bitvec_bits(*other).len(),
    ensures
        bitvec_bits(*final(vector)) == bits_or(bitvec_bits(*old(vector)), bitvec_bits(*other)),
{
    vector.bits |= &other.bits;
}

/// `&=` between bit vectors of one length ands each bit of the right side
/// into the bit of the left side at the same index.
#[verifier::external_body]
fn and_assign(vector: &mut BitVec, other: &BitVec)
    requires
        bitvec_bits(*old(vector)).len() == bitvec_bits(*other).len(),
    ensures
        bitvec_bits(*final(vector)) == bits_and(bitvec_bits(*old(vector)), bitvec_bits(*other)),
{
    vector.bits &= &other.bits;
}

/// `!` on a bit vector flips each of its bits and keeps its length.
#[verifier::external_body]
fn complement(vector: BitVec) -> (flipped: BitVec)
    ensures
        bitvec_bits(flipped) == bits_not(bitvec_bits(vector)),
{
    BitVec { bits: !vector.bits }
}

/// `BitSlice::fill(false)` writes a zero at every index and keeps the
/// length.
#[verifier::external_body]
fn fill_zeros(vector: &mut BitVec)
    ensures
        bitvec_bits(*final(vector)) == no_bits(bitvec_bits(*old(vector)).len()),
{
    vector.bits.fill(false)
}

/// `Clone::clone` of a bit vector copies its bits into a new allocation.
#[verifier::external_body]
fn copy_of(vector: &BitVec) -> (copy: BitVec)
    ensures
        bitvec_bits(copy) == bitvec_bits(*vector),
{
    BitVec { bits: vector.bits.clone() }
}

/// `==` between bit vectors holds where the lengths are equal and the
/// bits agree at every index.
#[verifier::external_body]
fn equal_bits(vector: &BitVec, other: &BitVec) -> (same: bool)
    ensures
        same == (bitvec_bits(*vector) == bitvec_bits(*other)),
{
    vector.bits == other.bits
}

/// The index set over a bit vector, its domain shared by reference count.
pub type BitvecIndexSet<T> = IndexSet<T, BitVec, RcFamily>;

/// The index set over a bit vector, its domain shared by atomic reference
/// count.
pub type BitvecArcIndexSet<T> = IndexSet<T, BitVec, ArcFamily>;

/// The index matrix over bit vectors, its domain shared by reference
/// count.
pub type BitvecIndexMatrix<R, C> = IndexMatrix<R, C, BitVec, RcFamily>;

/// The index matrix over bit vectors, its domain shared by atomic
/// reference count.
pub type BitvecArcIndexMatrix<R, C> = IndexMatrix<R, C, BitVec, ArcFamily>;

impl BitSet for BitVec {
    open spec fn bits(&self) -> Seq<bool> {
        bitvec_bits(*self)
    }

    open spec fn size_limit() -> nat {
        (usize::MAX / 8) as nat
    }

    fn empty(size: usize) -> (set: Self) {
        zeros(size)
    }

    fn contains(&self, index: usize) -> (present: bool) {
        bit_at(self, index)
    }

    fn insert(&mut self, index: usize) -> (added: bool) {
        let contained = bit_at(self, index);
        set_bit(self, index);
        !contained
    }

    fn iter(&self) -> (list: Vec<usize>) {
        let list = ones(self);
        proof {
            lemma_member_list_unique(list@, self.bits());
        }
        list
    }

    fn len(&self) -> (count: usize) {
        count_ones(self)
    }

    fn union(&mut self, other: &Self) {
        or_assign(self, other);
    }

    fn intersect(&mut self, other: &Self) {
        and_assign(self, other);
    }

    fn subtract(&mut self, other: &Self) {
        let mut other_copy = copy_of(other);
        other_copy.invert();
        and_assign(self, &other_copy);
        assert(self.bits() =~= bits_sub(old(self).bits(), other.bits()));
    }

    fn invert(&mut self) {
        let flip = |this: BitVec| -> (flipped: BitVec)
            ensures
                bitvec_bits(flipped) == bits_not(bitvec_bits(this)),
            {
                complement(this)
            };
        take_mut::take(self, flip);
    }

    fn clear(&mut self) {
        fill_zeros(self);
    }

    fn duplicate(&self) -> (copy: Self) {
        copy_of(self)
    }

    fn same_bits(&self, other: &Self) -> (same: bool) {
        equal_bits(self, other)
    }
}

} // verus!

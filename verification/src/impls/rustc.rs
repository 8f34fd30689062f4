//! The backend of the compiler's dataflow engine: the dense bit-set of
//! `rustc_index`, whose binary operations report by themselves whether
//! they changed the set.
use crate::bitset::all_bits;
use crate::bitset::bits_and;
use crate::bitset::bits_not;
use crate::bitset::bits_or;
use crate::bitset::bits_sub;
use crate::bitset::is_member_list;
use crate::bitset::lemma_member_list_unique;
use crate::bitset::lemma_subset_count;
use crate::bitset::members;
use crate::bitset::no_bits;
use crate::bitset::BitSet;
use crate::matrix::IndexMatrix;
use crate::pointer::ArcFamily;
use crate::pointer::RcFamily;
use crate::pointer::RefFamily;
use crate::set::IndexSet;
use ra_ap_rustc_index::bit_set::DenseBitSet;
use vstd::prelude::*;

verus! {

/// The dense bit-set of `rustc_index`. It is opaque to the verifier;
/// `dense_bits` names what it holds.
#[verifier::external_type_specification]
#[verifier::external_body]
#[verifier::reject_recursive_types(T)]
pub struct ExDenseBitSet<T>(DenseBitSet<T>);

/// The dense bit-set over plain `usize` indices.
pub type RustcBitSet = DenseBitSet<usize>;

/// The membership bits of a dense bit-set, from index 0 to its domain size.
pub uninterp spec fn dense_bits(set: DenseBitSet<usize>) -> Seq<bool>;

/// `DenseBitSet::new_empty`: no member, the given domain size.
#[verifier::external_body]
fn new_empty(size: usize) -> (set: RustcBitSet)
    ensures
        dense_bits(set) == no_bits(size as nat),
{
    DenseBitSet::new_empty(size)
}

/// `DenseBitSet::new_filled`: every index below the given domain size.
#[verifier::external_body]
fn new_filled(size: usize) -> (set: RustcBitSet)
    ensures
        dense_bits(set) == all_bits(size as nat),
{
    DenseBitSet::new_filled(size)
}

/// `DenseBitSet::domain_size`: the size the set was created with.
#[verifier::external_body]
fn domain_size(set: &RustcBitSet) -> (size: usize)
    ensures
        size == dense_bits(*set).len(),
{
    set.domain_size()
}

/// `DenseBitSet::contains`: whether the bit of `index` is set. It panics
/// at or past the domain size.
#[verifier::external_body]
fn contains_index(set: &RustcBitSet, index: usize) -> (present: bool)
    requires
        index < dense_bits(*set).len(),
    ensures
        present == dense_bits(*set)[index as int],
{
    set.contains(index)
}

/// `DenseBitSet::insert`: sets the bit of `index` and returns whether the
/// set has changed. It panics at or past the domain size.
#[verifier::external_body]
fn insert_index(set: &mut RustcBitSet, index: usize) -> (added: bool)
    requires
        index < dense_bits(*old(set)).len(),
    ensures
        dense_bits(*final(set)) == dense_bits(*old(set)).update(index as int, true),
        added == !dense_bits(*old(set))[index as int],
{
    set.insert(index)
}

/// `DenseBitSet::iter`: the indices of the set bits in sorted order.
#[verifier::external_body]
fn indices(set: &RustcBitSet) -> (list: Vec<usize>)
    ensures
        is_member_list(list@, dense_bits(*set)),
{
    set.iter().collect()
}

/// `DenseBitSet::count`: the number of set bits.
#[verifier::external_body]
fn count(set: &RustcBitSet) -> (count: usize)
    ensures
        count == members(dense_bits(*set)).len(),
{
    set.count()
}

/// `DenseBitSet::union`: ors `other` into the set and returns true if the
/// set was modified. It panics where the domain sizes differ.
#[verifier::external_body]
fn union_with(set: &mut RustcBitSet, other: &RustcBitSet) -> (changed: bool)
    requires
        dense_bits(*old(set)).len() == dense_bits(*other).len(),
    ensures
        dense_bits(*final(set)) == bits_or(dense_bits(*old(set)), dense_bits(*other)),
        changed == (dense_bits(*final(set)) != dense_bits(*old(set))),
{
    set.union(other)
}

/// `DenseBitSet::intersect`: ands `other` into the set and returns true if
/// the set was modified. It panics where the domain sizes differ.
#[verifier::external_body]
fn intersect_with(set: &mut RustcBitSet, other: &RustcBitSet) -> (changed: bool)
    requires
        dense_bits(*old(set)).len() == dense_bits(*other).len(),
    ensures
        dense_bits(*final(set)) == bits_and(dense_bits(*old(set)), dense_bits(*other)),
        changed == (dense_bits(*final(set)) != dense_bits(*old(set))),
{
    set.intersect(other)
}

/// `DenseBitSet::subtract`: clears the bits of `other` in the set and
/// returns true if the set was modified. It panics where the domain sizes
/// differ.
#[verifier::external_body]
fn subtract_with(set: &mut RustcBitSet, other: &RustcBitSet) -> (changed: bool)
    requires
        dense_bits(*old(set)).len() == dense_bits(*other).len(),
    ensures
        dense_bits(*final(set)) == bits_sub(dense_bits(*old(set)), dense_bits(*other)),
        changed == (dense_bits(*final(set)) != dense_bits(*old(set))),
{
    set.subtract(other)
}

/// `DenseBitSet::clear`: clears every bit and keeps the domain size.
#[verifier::external_body]
fn clear_all(set: &mut RustcBitSet)
    ensures
        dense_bits(*final(set)) == no_bits(dense_bits(*old(set)).len()),
{
    set.clear()
}

/// `DenseBitSet::insert_all`: sets every bit below the domain size.
#[verifier::external_body]
fn fill_all(set: &mut RustcBitSet)
    ensures
        dense_bits(*final(set)) == all_bits(dense_bits(*old(set)).len()),
{
    set.insert_all()
}

/// `Clone::clone` of a dense bit-set copies the domain size and the words.
#[verifier::external_body]
fn copy_of(set: &RustcBitSet) -> (copy: RustcBitSet)
    ensures
        dense_bits(copy) == dense_bits(*set),
{
    set.clone()
}

/// `Clone::clone_from` of a dense bit-set takes over the domain size and
/// the words of the source.
#[verifier::external_body]
fn assign_from(set: &mut RustcBitSet, source: &RustcBitSet)
    ensures
        dense_bits(*final(set)) == dense_bits(*source),
{
    set.clone_from(source)
}

/// `==` between dense bit-sets compares the domain sizes and the words;
/// no bit at or past the domain size is ever set.
#[verifier::external_body]
fn equal_sets(set: &RustcBitSet, other: &RustcBitSet) -> (same: bool)
    ensures
        same == (dense_bits(*set) == dense_bits(*other)),
{
    set == other
}

/// The index set over a dense bit-set, its domain shared by reference
/// count.
pub type RustcIndexSet<T> = IndexSet<T, RustcBitSet, RcFamily>;

/// The index set over a dense bit-set, its domain shared by atomic
/// reference count.
pub type RustcArcIndexSet<T> = IndexSet<T, RustcBitSet, ArcFamily>;

/// The index set over a dense bit-set, its domain borrowed.
pub type RustcRefIndexSet<'a, T> = IndexSet<T, RustcBitSet, RefFamily<'a>>;

/// The index matrix over dense bit-sets, its domain shared by reference
/// count.
pub type RustcIndexMatrix<R, C> = IndexMatrix<R, C, RustcBitSet, RcFamily>;

/// The index matrix over dense bit-sets, its domain shared by atomic
/// reference count.
pub type RustcArcIndexMatrix<R, C> = IndexMatrix<R, C, RustcBitSet, ArcFamily>;

/// The index matrix over dense bit-sets, its domain borrowed.
pub type RustcRefIndexMatrix<'a, R, C> = IndexMatrix<R, C, RustcBitSet, RefFamily<'a>>;

impl BitSet for RustcBitSet {
    open spec fn bits(&self) -> Seq<bool> {
        dense_bits(*self)
    }

    open spec fn size_limit() -> nat {
        usize::MAX as nat
    }

    fn empty(size: usize) -> (set: Self) {
        new_empty(size)
    }

    fn contains(&self, index: usize) -> (present: bool) {
        contains_index(self, index)
    }

    fn insert(&mut self, index: usize) -> (added: bool) {
        insert_index(self, index)
    }

    fn iter(&self) -> (list: Vec<usize>) {
        let list = indices(self);
        proof {
            lemma_member_list_unique(list@, self.bits());
        }
        list
    }

    fn intersect(&mut self, other: &Self) {
        intersect_with(self, other);
    }

    fn intersect_changed(&mut self, other: &Self) -> (changed: bool) {
        let changed = intersect_with(self, other);
        proof {
            lemma_subset_count(self.bits(), old(self).bits());
        }
        changed
    }

    fn len(&self) -> (count: usize) {
        count(self)
    }

    fn union(&mut self, other: &Self) {
        union_with(self, other);
    }

    fn union_changed(&mut self, other: &Self) -> (changed: bool) {
        let changed = union_with(self, other);
        proof {
            lemma_subset_count(old(self).bits(), self.bits());
        }
        changed
    }

    fn subtract(&mut self, other: &Self) {
        subtract_with(self, other);
    }

    fn subtract_changed(&mut self, other: &Self) -> (changed: bool) {
        let changed = subtract_with(self, other);
        proof {
            lemma_subset_count(self.bits(), old(self).bits());
        }
        changed
    }

    fn clear(&mut self) {
        clear_all(self);
    }

    fn invert(&mut self) {
        let mut inverted = new_filled(domain_size(self));
        subtract_with(&mut inverted, self);
        assert(inverted.bits() =~= bits_not(self.bits()));
        *self = inverted;
    }

    fn insert_all(&mut self) {
        fill_all(self);
    }

    fn copy_from(&mut self, other: &Self) {
        assign_from(self, other);
    }

    fn duplicate(&self) -> (copy: Self) {
        copy_of(self)
    }

    fn same_bits(&self, other: &Self) -> (same: bool) {
        equal_sets(self, other)
    }
}

} // verus!

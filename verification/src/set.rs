//! The index set: a set of domain values, held as a bit-set over their
//! indices beside a handle to the domain.
//!
//! Two index sets can be combined where their capacities are equal, which
//! is the case for sets over one domain; the handles themselves are not
//! compared. Equality looks at the member indices alone.
use crate::bitset::all_bits;
use crate::bitset::bits_and;
use crate::bitset::bits_not;
use crate::bitset::bits_or;
use crate::bitset::bits_sub;
use crate::bitset::lemma_member_list_enumerates;
use crate::bitset::member_list;
use crate::bitset::members;
use crate::bitset::no_bits;
use crate::bitset::BitSet;
use crate::domain::IndexedDomain;
use crate::pointer::PointerFamily;
use std::hash::Hash;
use vstd::prelude::*;
use vstd::std_specs::cmp::PartialEqSpecImpl;

verus! {

/// Marks the resolution of a value given by itself.
pub struct MarkerOwned;

/// Marks the resolution of a value given by reference.
pub struct MarkerRef;

/// Marks the resolution of an index, which stands for itself.
pub struct MarkerIndex;

/// What can name a member of a domain: a value, a reference to one, or an
/// index. The marker `M` keeps the three apart.
pub trait ToIndex<T: Clone + Eq + Hash, M>: Sized {
    /// Whether the domain can resolve this.
    spec fn resolves_in(&self, domain: &IndexedDomain<T>) -> bool;

    /// The index that this resolves to.
    spec fn index_in(&self, domain: &IndexedDomain<T>) -> int;

    /// Resolves to an index of the domain.
    fn to_index(self, domain: &IndexedDomain<T>) -> (index: usize)
        requires
            domain.wf(),
            self.resolves_in(domain),
        ensures
            index == self.index_in(domain),
            index < domain@.len(),
    ;
}

impl<T: Clone + Eq + Hash> ToIndex<T, MarkerOwned> for T {
    open spec fn resolves_in(&self, domain: &IndexedDomain<T>) -> bool {
        domain@.contains(*self)
    }

    open spec fn index_in(&self, domain: &IndexedDomain<T>) -> int {
        domain@.index_of(*self)
    }

    fn to_index(self, domain: &IndexedDomain<T>) -> (index: usize) {
        domain.index(&self)
    }
}

impl<'a, T: Clone + Eq + Hash> ToIndex<T, MarkerRef> for &'a T {
    open spec fn resolves_in(&self, domain: &IndexedDomain<T>) -> bool {
        domain@.contains(**self)
    }

    open spec fn index_in(&self, domain: &IndexedDomain<T>) -> int {
        domain@.index_of(**self)
    }

    fn to_index(self, domain: &IndexedDomain<T>) -> (index: usize) {
        domain.index(self)
    }
}

impl<T: Clone + Eq + Hash> ToIndex<T, MarkerIndex> for usize {
    open spec fn resolves_in(&self, domain: &IndexedDomain<T>) -> bool {
        *self < domain@.len()
    }

    open spec fn index_in(&self, domain: &IndexedDomain<T>) -> int {
        *self as int
    }

    fn to_index(self, domain: &IndexedDomain<T>) -> (index: usize) {
        self
    }
}

/// The values of `values` at the given indices, in the order of the
/// indices.
pub open spec fn values_at<T>(values: Seq<T>, indices: Seq<usize>) -> Seq<T> {
    Seq::new(indices.len(), |k: int| values[indices[k] as int])
}

/// A set of values of one domain.
pub struct IndexSet<T, S: BitSet, P: PointerFamily<IndexedDomain<T>>> {
    set: S,
    domain: P::Pointer,
}

impl<T, S: BitSet, P: PointerFamily<IndexedDomain<T>>> IndexSet<T, S, P> {
    /// The membership bits: bit `i` stands for the domain's value `i`.
    pub closed spec fn bits(&self) -> Seq<bool> {
        self.set.bits()
    }

    /// The domain that the handle points to.
    pub closed spec fn domain(&self) -> IndexedDomain<T> {
        P::target(&self.domain)
    }
}

impl<T: Clone + Eq + Hash, S: BitSet, P: PointerFamily<IndexedDomain<T>>> IndexSet<T, S, P> {
    /// The invariant: the domain is well-formed and the capacity is the
    /// number of its values.
    pub open spec fn wf(&self) -> bool {
        &&& self.domain().wf()
        &&& self.bits().len() == self.domain()@.len()
    }

    /// The empty set over the domain of the handle.
    pub fn new(domain: &P::Pointer) -> (set: Self)
        requires
            P::target(domain).wf(),
            P::target(domain)@.len() <= S::size_limit(),
        ensures
            set.wf(),
            set.domain() == P::target(domain),
            set.bits() == no_bits(P::target(domain)@.len()),
    {
        let size = P::get(domain).len();
        IndexSet { set: S::empty(size), domain: P::share(domain) }
    }

    /// The handle to the domain.
    pub fn domain_pointer(&self) -> (pointer: &P::Pointer)
        ensures
            P::target(pointer) == self.domain(),
    {
        &self.domain
    }

    /// Adds a value, given by itself or by its index, and says whether it
    /// was absent before.
    pub fn insert<M, I: ToIndex<T, M>>(&mut self, elt: I) -> (added: bool)
        requires
            old(self).wf(),
            elt.resolves_in(&old(self).domain()),
        ensures
            final(self).wf(),
            final(self).domain() == old(self).domain(),
            final(self).bits() == old(self).bits().update(
                elt.index_in(&old(self).domain()),
                true,
            ),
            added == !old(self).bits()[elt.index_in(&old(self).domain())],
    {
        let index = elt.to_index(P::get(&self.domain));
        self.set.insert(index)
    }

    /// Whether a value, given by itself or by its index, is a member.
    pub fn contains<M, I: ToIndex<T, M>>(&self, elt: I) -> (present: bool)
        requires
            self.wf(),
            elt.resolves_in(&self.domain()),
        ensures
            present == self.bits()[elt.index_in(&self.domain())],
    {
        let index = elt.to_index(P::get(&self.domain));
        self.set.contains(index)
    }

    /// The number of members.
    pub fn len(&self) -> (count: usize)
        ensures
            count == members(self.bits()).len(),
    {
        self.set.len()
    }

    /// Whether the set has no member.
    pub fn is_empty(&self) -> (none: bool)
        ensures
            none == (self.bits() == no_bits(self.bits().len())),
    {
        self.set.is_empty()
    }

    /// The indices of the members in ascending order.
    pub fn indices(&self) -> (list: Vec<usize>)
        ensures
            list@ == member_list(self.bits()),
    {
        self.set.iter()
    }

    /// The member values in the order of the domain.
    pub fn iter(&self) -> (list: Vec<&T>)
        requires
            self.wf(),
        ensures
            list@.unref() == values_at(self.domain()@, member_list(self.bits())),
    {
        let indices = self.set.iter();
        let domain = P::get(&self.domain);
        let size = domain.len();
        proof {
            lemma_member_list_enumerates(self.bits());
        }
        let mut list: Vec<&T> = Vec::new();
        let mut k: usize = 0;
        while k < indices.len()
            invariant
                k <= indices.len(),
                list@.len() == k,
                size == domain@.len(),
                forall|j: int| 0 <= j < indices@.len() ==> indices@[j] < size,
                forall|j: int| 0 <= j < k ==> *list@[j] == domain@[indices@[j] as int],
            decreases indices.len() - k,
        {
            list.push(domain.value(indices[k]));
            k += 1;
        }
        assert(list@.unref() =~= values_at(domain@, indices@));
        list
    }

    /// Adds every member of `other`.
    pub fn union(&mut self, other: &Self)
        requires
            old(self).wf(),
            old(self).bits().len() == other.bits().len(),
        ensures
            final(self).wf(),
            final(self).domain() == old(self).domain(),
            final(self).bits() == bits_or(old(self).bits(), other.bits()),
    {
        self.set.union(&other.set);
    }

    /// Adds every member of `other`, and says whether the set grew.
    pub fn union_changed(&mut self, other: &Self) -> (changed: bool)
        requires
            old(self).wf(),
            old(self).bits().len() == other.bits().len(),
        ensures
            final(self).wf(),
            final(self).domain() == old(self).domain(),
            final(self).bits() == bits_or(old(self).bits(), other.bits()),
            changed == (final(self).bits() != old(self).bits()),
            changed == (members(final(self).bits()).len() > members(old(self).bits()).len()),
    {
        self.set.union_changed(&other.set)
    }

    /// Keeps only the members of `other`.
    pub fn intersect(&mut self, other: &Self)
        requires
            old(self).wf(),
            old(self).bits().len() == other.bits().len(),
        ensures
            final(self).wf(),
            final(self).domain() == old(self).domain(),
            final(self).bits() == bits_and(old(self).bits(), other.bits()),
    {
        self.set.intersect(&other.set);
    }

    /// Keeps only the members of `other`, and says whether the set shrank.
    pub fn intersect_changed(&mut self, other: &Self) -> (changed: bool)
        requires
            old(self).wf(),
            old(self).bits().len() == other.bits().len(),
        ensures
            final(self).wf(),
            final(self).domain() == old(self).domain(),
            final(self).bits() == bits_and(old(self).bits(), other.bits()),
            changed == (final(self).bits() != old(self).bits()),
            changed == (members(final(self).bits()).len() < members(old(self).bits()).len()),
    {
        self.set.intersect_changed(&other.set)
    }

    /// Removes every member of `other`.
    pub fn subtract(&mut self, other: &Self)
        requires
            old(self).wf(),
            old(self).bits().len() == other.bits().len(),
        ensures
            final(self).wf(),
            final(self).domain() == old(self).domain(),
            final(self).bits() == bits_sub(old(self).bits(), other.bits()),
    {
        self.set.subtract(&other.set);
    }

    /// Removes every member of `other`, and says whether the set shrank.
    pub fn subtract_changed(&mut self, other: &Self) -> (changed: bool)
        requires
            old(self).wf(),
            old(self).bits().len() == other.bits().len(),
        ensures
            final(self).wf(),
            final(self).domain() == old(self).domain(),
            final(self).bits() == bits_sub(old(self).bits(), other.bits()),
            changed == (final(self).bits() != old(self).bits()),
            changed == (members(final(self).bits()).len() < members(old(self).bits()).len()),
    {
        self.set.subtract_changed(&other.set)
    }

    /// Replaces the set by its complement within the domain.
    pub fn invert(&mut self)
        requires
            old(self).wf(),
        ensures
            final(self).wf(),
            final(self).domain() == old(self).domain(),
            final(self).bits() == bits_not(old(self).bits()),
    {
        self.set.invert();
    }

    /// Removes every member.
    pub fn clear(&mut self)
        requires
            old(self).wf(),
        ensures
            final(self).wf(),
            final(self).domain() == old(self).domain(),
            final(self).bits() == no_bits(old(self).bits().len()),
    {
        self.set.clear();
    }

    /// Adds every value of the domain.
    pub fn insert_all(&mut self)
        requires
            old(self).wf(),
        ensures
            final(self).wf(),
            final(self).domain() == old(self).domain(),
            final(self).bits() == all_bits(old(self).bits().len()),
    {
        self.set.insert_all();
    }

    /// Makes this set a copy of `source`, domain handle included. Where
    /// the capacities agree the bits are written into the storage that the
    /// set already has.
    pub fn clone_from(&mut self, source: &Self)
        requires
            old(self).wf(),
            source.wf(),
        ensures
            final(self).wf(),
            final(self).domain() == source.domain(),
            final(self).bits() == source.bits(),
    {
        if P::get(&self.domain).len() == P::get(&source.domain).len() {
            self.set.copy_from(&source.set);
        } else {
            self.set = source.set.duplicate();
        }
        self.domain = P::share(&source.domain);
    }

    /// The join of a fixed-point computation: the union, and whether it
    /// added anything.
    pub fn join(&mut self, other: &Self) -> (changed: bool)
        requires
            old(self).wf(),
            old(self).bits().len() == other.bits().len(),
        ensures
            final(self).wf(),
            final(self).domain() == old(self).domain(),
            final(self).bits() == bits_or(old(self).bits(), other.bits()),
            changed == (final(self).bits() != old(self).bits()),
            changed == (members(final(self).bits()).len() > members(old(self).bits()).len()),
    {
        self.union_changed(other)
    }
}

impl<T, S: BitSet, P: PointerFamily<IndexedDomain<T>>> Clone for IndexSet<T, S, P> {
    /// A copy with its own bits and a shared handle to the same domain.
    fn clone(&self) -> (copy: Self)
        ensures
            copy.bits() == self.bits(),
            copy.domain() == self.domain(),
    {
        IndexSet { set: self.set.duplicate(), domain: P::share(&self.domain) }
    }
}

impl<T, S: BitSet, P: PointerFamily<IndexedDomain<T>>> PartialEq for IndexSet<T, S, P> {
    fn eq(&self, other: &Self) -> (same: bool) {
        self.set.same_bits(&other.set)
    }
}

impl<T, S: BitSet, P: PointerFamily<IndexedDomain<T>>> PartialEqSpecImpl for IndexSet<T, S, P> {
    open spec fn obeys_eq_spec() -> bool {
        true
    }

    open spec fn eq_spec(&self, other: &Self) -> bool {
        self.bits() == other.bits()
    }
}

impl<T, S: BitSet, P: PointerFamily<IndexedDomain<T>>> Eq for IndexSet<T, S, P> {

}

} // verus!

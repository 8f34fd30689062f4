//! The bit-set abstraction: a fixed-capacity set of small integers, modelled
//! as a sequence of booleans whose length is the capacity.
use vstd::prelude::*;
use vstd::set_lib::lemma_int_range;
use vstd::set_lib::lemma_len_subset;
use vstd::set_lib::lemma_subset_equality;
use vstd::set_lib::set_int_range;

verus! {

/// The empty set of capacity `size`.
pub open spec fn no_bits(size: nat) -> Seq<bool> {
    Seq::new(size, |i: int| false)
}

/// The full set of capacity `size`.
pub open spec fn all_bits(size: nat) -> Seq<bool> {
    Seq::new(size, |i: int| true)
}

/// Union of two sets of one capacity.
pub open spec fn bits_or(a: Seq<bool>, b: Seq<bool>) -> Seq<bool> {
    Seq::new(a.len(), |i: int| a[i] || b[i])
}

/// Intersection of two sets of one capacity.
pub open spec fn bits_and(a: Seq<bool>, b: Seq<bool>) -> Seq<bool> {
    Seq::new(a.len(), |i: int| a[i] && b[i])
}

/// The members of `a` that are not members of `b`.
pub open spec fn bits_sub(a: Seq<bool>, b: Seq<bool>) -> Seq<bool> {
    Seq::new(a.len(), |i: int| a[i] && !b[i])
}

/// Complement within the capacity.
pub open spec fn bits_not(a: Seq<bool>) -> Seq<bool> {
    Seq::new(a.len(), |i: int| !a[i])
}

/// The members as a mathematical set.
pub open spec fn members(bits: Seq<bool>) -> Set<int> {
    Set::new(|i: int| 0 <= i < bits.len() && bits[i])
}

/// Whether every member of `small` is a member of `large`.
pub open spec fn bits_subset(small: Seq<bool>, large: Seq<bool>) -> bool {
    &&& small.len() == large.len()
    &&& forall|i: int| 0 <= i < small.len() && small[i] ==> large[i]
}

/// Whether `list` enumerates the members of `bits` in ascending order,
/// each exactly once.
pub open spec fn is_member_list(list: Seq<usize>, bits: Seq<bool>) -> bool {
    &&& forall|j: int, k: int| 0 <= j < k < list.len() ==> list[j] < list[k]
    &&& forall|j: int| 0 <= j < list.len() ==> list[j] < bits.len() && bits[list[j] as int]
    &&& forall|i: int|
        0 <= i < bits.len() && bits[i] ==> exists|j: int| 0 <= j < list.len() && list[j] == i
}

/// The members of `bits` in ascending order.
pub open spec fn member_list(bits: Seq<bool>) -> Seq<usize>
    decreases bits.len(),
{
    if bits.len() == 0 {
        Seq::empty()
    } else if bits.last() {
        member_list(bits.drop_last()).push((bits.len() - 1) as usize)
    } else {
        member_list(bits.drop_last())
    }
}

/// Only one list enumerates the members of a set in ascending order.
pub proof fn lemma_member_list_unique(list: Seq<usize>, bits: Seq<bool>)
    requires
        is_member_list(list, bits),
    ensures
        list == member_list(bits),
    decreases bits.len(),
{
    if bits.len() == 0 {
        if list.len() > 0 {
            assert(list[0] < bits.len());
        }
        assert(list =~= member_list(bits));
    } else {
        let top = bits.len() - 1;
        let front = bits.drop_last();
        if bits.last() {
            let at = choose|j: int| 0 <= j < list.len() && list[j] == top;
            if at < list.len() - 1 {
                assert(list[at] < list[list.len() - 1]);
            }
            let shorter = list.drop_last();
            assert forall|i: int| 0 <= i < front.len() && front[i] implies exists|j: int|
                0 <= j < shorter.len() && shorter[j] == i by {
                let j = choose|j: int| 0 <= j < list.len() && list[j] == i;
                assert(shorter[j] == i);
            }
            assert forall|j: int| 0 <= j < shorter.len() implies shorter[j] < front.len()
                && front[shorter[j] as int] by {
                assert(list[j] < list[list.len() - 1]);
            }
            lemma_member_list_unique(shorter, front);
            assert(list =~= shorter.push(top as usize));
        } else {
            assert forall|i: int| 0 <= i < front.len() && front[i] implies exists|j: int|
                0 <= j < list.len() && list[j] == i by {
                assert(bits[i]);
            }
            assert forall|j: int| 0 <= j < list.len() implies list[j] < front.len()
                && front[list[j] as int] by {
                assert(bits[list[j] as int]);
            }
            lemma_member_list_unique(list, front);
        }
    }
}

/// The list of members enumerates them: ascending, each exactly once.
pub proof fn lemma_member_list_enumerates(bits: Seq<bool>)
    requires
        bits.len() <= usize::MAX,
    ensures
        is_member_list(member_list(bits), bits),
    decreases bits.len(),
{
    if bits.len() > 0 {
        let top = bits.len() - 1;
        let front = bits.drop_last();
        let shorter = member_list(front);
        lemma_member_list_enumerates(front);
        let list = member_list(bits);
        assert forall|i: int| 0 <= i < bits.len() && bits[i] implies exists|j: int|
            0 <= j < list.len() && list[j] == i by {
            if i < top {
                assert(front[i]);
                let j = choose|j: int| 0 <= j < shorter.len() && shorter[j] == i;
                assert(list[j] == i);
            } else {
                assert(list[list.len() - 1] == i);
            }
        }
        assert forall|j: int| 0 <= j < list.len() implies list[j] < bits.len()
            && bits[list[j] as int] by {
            if j < shorter.len() {
                assert(shorter[j] < front.len() && front[shorter[j] as int]);
            }
        }
        assert forall|j: int, k: int| 0 <= j < k < list.len() implies list[j] < list[k] by {
            assert(shorter[j] < front.len());
        }
    }
}

/// An index is a member exactly if the list of members holds it.
pub proof fn lemma_member_list_contains(bits: Seq<bool>, index: usize)
    requires
        index < bits.len() <= usize::MAX,
    ensures
        bits[index as int] == member_list(bits).contains(index),
{
    lemma_member_list_enumerates(bits);
    let list = member_list(bits);
    if bits[index as int] {
        let j = choose|j: int| 0 <= j < list.len() && list[j] == index;
        assert(list[j] == index);
    }
}

/// A set has finitely many members, at most as many as its capacity.
pub proof fn lemma_members_bounded(bits: Seq<bool>)
    ensures
        members(bits).finite(),
        members(bits).len() <= bits.len(),
{
    let range = set_int_range(0, bits.len() as int);
    lemma_int_range(0, bits.len() as int);
    assert(members(bits).subset_of(range));
    lemma_len_subset(members(bits), range);
}

/// A subset has at most as many members, and as many only if it is the
/// whole set.
pub proof fn lemma_subset_count(small: Seq<bool>, large: Seq<bool>)
    requires
        bits_subset(small, large),
    ensures
        members(small).len() <= members(large).len(),
        members(small).len() == members(large).len() <==> small == large,
{
    lemma_members_bounded(small);
    lemma_members_bounded(large);
    assert(members(small).subset_of(members(large)));
    lemma_len_subset(members(small), members(large));
    if members(small).len() == members(large).len() {
        lemma_subset_equality(members(small), members(large));
        assert forall|i: int| 0 <= i < small.len() implies small[i] == large[i] by {
            if large[i] {
                assert(members(large).contains(i));
                assert(members(small).contains(i));
            }
        }
        assert(small =~= large);
    }
}

/// The empty set has no members.
pub proof fn lemma_no_bits_count(size: nat)
    ensures
        members(no_bits(size)) == Set::<int>::empty(),
        members(no_bits(size)).len() == 0,
{
    assert(members(no_bits(size)) =~= Set::<int>::empty());
}

/// Joining a set with itself leaves it as it is.
pub proof fn lemma_union_idempotent(a: Seq<bool>)
    ensures
        bits_or(a, a) == a,
{
    assert(bits_or(a, a) =~= a);
}

/// The union of two sets does not depend on which is joined into which.
pub proof fn lemma_union_commutative(a: Seq<bool>, b: Seq<bool>)
    requires
        a.len() == b.len(),
    ensures
        bits_or(a, b) == bits_or(b, a),
{
    assert(bits_or(a, b) =~= bits_or(b, a));
}

/// The union of two sets holds every member of either.
pub proof fn lemma_union_superset(a: Seq<bool>, b: Seq<bool>)
    requires
        a.len() == b.len(),
    ensures
        bits_subset(a, bits_or(a, b)),
        bits_subset(b, bits_or(a, b)),
{
}

/// Joining the same set in a second time adds nothing, so the second
/// `union_changed` reports no change.
pub proof fn lemma_union_absorbs(a: Seq<bool>, b: Seq<bool>)
    requires
        a.len() == b.len(),
    ensures
        bits_or(bits_or(a, b), b) == bits_or(a, b),
{
    assert(bits_or(bits_or(a, b), b) =~= bits_or(a, b));
}

/// Inverting twice gives the set back.
pub proof fn lemma_invert_involution(a: Seq<bool>)
    ensures
        bits_not(bits_not(a)) == a,
{
    assert(bits_not(bits_not(a)) =~= a);
}

/// A fixed-capacity set of the integers below its capacity.
///
/// `bits()` is the model: its length is the capacity, which no operation
/// changes, and `bits()[i]` says whether `i` is a member. The binary
/// operations are defined between sets of one capacity.
pub trait BitSet: Sized {
    /// The membership bits.
    spec fn bits(&self) -> Seq<bool>;

    /// The largest capacity this representation can be created with.
    spec fn size_limit() -> nat;

    /// Creates the empty set of capacity `size`.
    fn empty(size: usize) -> (set: Self)
        requires
            size <= Self::size_limit(),
        ensures
            set.bits() == no_bits(size as nat),
    ;

    /// Whether `index` is a member.
    fn contains(&self, index: usize) -> (present: bool)
        requires
            index < self.bits().len(),
        ensures
            present == self.bits()[index as int],
    ;

    /// Adds `index`, and says whether it was absent before.
    fn insert(&mut self, index: usize) -> (added: bool)
        requires
            index < old(self).bits().len(),
        ensures
            final(self).bits() == old(self).bits().update(index as int, true),
            added == !old(self).bits()[index as int],
    ;

    /// The members in ascending order.
    fn iter(&self) -> (list: Vec<usize>)
        ensures
            list@ == member_list(self.bits()),
    ;

    /// The number of members.
    fn len(&self) -> (count: usize)
        ensures
            count == members(self.bits()).len(),
    ;

    /// Whether the set has no member.
    fn is_empty(&self) -> (none: bool)
        ensures
            none == (self.bits() == no_bits(self.bits().len())),
    {
        let count = self.len();
        proof {
            let empty = no_bits(self.bits().len());
            lemma_no_bits_count(self.bits().len());
            lemma_subset_count(empty, self.bits());
        }
        count == 0
    }

    /// Adds every member of `other`.
    fn union(&mut self, other: &Self)
        requires
            old(self).bits().len() == other.bits().len(),
        ensures
            final(self).bits() == bits_or(old(self).bits(), other.bits()),
    ;

    /// Adds every member of `other`, and says whether the set grew.
    ///
    /// This default compares the number of members before and after; a
    /// representation that can tell during the pass overrides it.
    fn union_changed(&mut self, other: &Self) -> (changed: bool)
        requires
            old(self).bits().len() == other.bits().len(),
        ensures
            final(self).bits() == bits_or(old(self).bits(), other.bits()),
            changed == (final(self).bits() != old(self).bits()),
            changed == (members(final(self).bits()).len() > members(old(self).bits()).len()),
    {
        let before = self.len();
        self.union(other);
        proof {
            lemma_subset_count(old(self).bits(), self.bits());
        }
        before != self.len()
    }

    /// Keeps only the members of `other`.
    fn intersect(&mut self, other: &Self)
        requires
            old(self).bits().len() == other.bits().len(),
        ensures
            final(self).bits() == bits_and(old(self).bits(), other.bits()),
    ;

    /// Keeps only the members of `other`, and says whether the set shrank.
    fn intersect_changed(&mut self, other: &Self) -> (changed: bool)
        requires
            old(self).bits().len() == other.bits().len(),
        ensures
            final(self).bits() == bits_and(old(self).bits(), other.bits()),
            changed == (final(self).bits() != old(self).bits()),
            changed == (members(final(self).bits()).len() < members(old(self).bits()).len()),
    {
        let before = self.len();
        self.intersect(other);
        proof {
            lemma_subset_count(self.bits(), old(self).bits());
        }
        before != self.len()
    }

    /// Removes every member of `other`.
    fn subtract(&mut self, other: &Self)
        requires
            old(self).bits().len() == other.bits().len(),
        ensures
            final(self).bits() == bits_sub(old(self).bits(), other.bits()),
    ;

    /// Removes every member of `other`, and says whether the set shrank.
    fn subtract_changed(&mut self, other: &Self) -> (changed: bool)
        requires
            old(self).bits().len() == other.bits().len(),
        ensures
            final(self).bits() == bits_sub(old(self).bits(), other.bits()),
            changed == (final(self).bits() != old(self).bits()),
            changed == (members(final(self).bits()).len() < members(old(self).bits()).len()),
    {
        let before = self.len();
        self.subtract(other);
        proof {
            lemma_subset_count(self.bits(), old(self).bits());
        }
        before != self.len()
    }

    /// Replaces the set by its complement within the capacity.
    fn invert(&mut self)
        ensures
            final(self).bits() == bits_not(old(self).bits()),
    ;

    /// Removes every member; the capacity stays.
    fn clear(&mut self)
        ensures
            final(self).bits() == no_bits(old(self).bits().len()),
    ;

    /// Adds every integer below the capacity.
    fn insert_all(&mut self)
        ensures
            final(self).bits() == all_bits(old(self).bits().len()),
    {
        self.clear();
        self.invert();
    }

    /// Makes the set equal to `other`, in the storage it already has.
    fn copy_from(&mut self, other: &Self)
        requires
            old(self).bits().len() == other.bits().len(),
        ensures
            final(self).bits() == other.bits(),
    {
        self.clear();
        self.union(other);
    }

    /// A new set with the same capacity and members.
    fn duplicate(&self) -> (copy: Self)
        ensures
            copy.bits() == self.bits(),
    ;

    /// Whether both sets have the same capacity and the same members.
    fn same_bits(&self, other: &Self) -> (same: bool)
        ensures
            same == (self.bits() == other.bits()),
    ;
}

} // verus!

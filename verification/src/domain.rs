//! The indexed domain: distinct values numbered from zero in the order
//! they were given, with lookup in both directions.
use crate::fx;
use fxhash::FxHashMap;
use std::hash::Hash;
use vstd::laws_eq::obeys_concrete_eq;
use vstd::prelude::*;
use vstd::std_specs::hash::obeys_key_model;

verus! {

/// What the hash maps of this library ask of a key type: hashing is
/// deterministic, `==` holds exactly of identical values, and a clone is
/// identical to what it was cloned from.
pub open spec fn obeys_value_model<T: Clone + PartialEq>() -> bool {
    &&& obeys_key_model::<T>()
    &&& obeys_concrete_eq::<T>()
    &&& forall|a: T, b: T| cloned::<T>(a, b) ==> a == b
}

/// The values of a sequence without repetitions: each value stands where
/// it first occurs.
pub open spec fn distinct<T>(values: Seq<T>) -> Seq<T>
    decreases values.len(),
{
    if values.len() == 0 {
        Seq::empty()
    } else {
        let rest = distinct(values.drop_last());
        if rest.contains(values.last()) {
            rest
        } else {
            rest.push(values.last())
        }
    }
}

/// Whether `reverse` maps exactly the values of `values` to their indices.
pub open spec fn is_reverse_of<T>(reverse: Map<T, usize>, values: Seq<T>) -> bool {
    &&& forall|i: int|
        0 <= i < values.len() ==> reverse.contains_key(#[trigger] values[i]) && reverse[values[i]]
            == i
    &&& forall|value: T| #[trigger]
        reverse.contains_key(value) ==> reverse[value] < values.len()
            && values[reverse[value] as int] == value
}

/// A sequence without repetitions is its own `distinct`.
pub proof fn lemma_distinct_of_distinct<T>(values: Seq<T>)
    requires
        values.no_duplicates(),
    ensures
        distinct(values) == values,
    decreases values.len(),
{
    if values.len() > 0 {
        let front = values.drop_last();
        lemma_distinct_of_distinct(front);
        if front.contains(values.last()) {
            let i = choose|i: int| 0 <= i < front.len() && front[i] == values.last();
            assert(values[i] == values[values.len() - 1]);
        }
        assert(front.push(values.last()) =~= values);
    }
}

/// An enumeration of distinct values.
///
/// The view is the sequence of values; the index of a value is its
/// position in it.
pub struct IndexedDomain<T> {
    values: Vec<T>,
    reverse: FxHashMap<T, usize>,
}

impl<T> View for IndexedDomain<T> {
    type V = Seq<T>;

    closed spec fn view(&self) -> Seq<T> {
        self.values@
    }
}

impl<T: Clone + Eq + Hash> IndexedDomain<T> {
    /// The invariant: the values are distinct and the reverse map knows
    /// the index of each.
    pub closed spec fn wf(&self) -> bool {
        &&& obeys_value_model::<T>()
        &&& is_reverse_of(self.reverse@, self.values@)
    }

    /// The values of a well-formed domain are distinct.
    pub proof fn lemma_distinct(&self)
        requires
            self.wf(),
        ensures
            self@.no_duplicates(),
    {
        assert forall|i: int, j: int|
            0 <= i < self@.len() && 0 <= j < self@.len() && i != j implies self@[i] != self@[j] by {
            assert(self.reverse@[self.values@[i]] == i);
            assert(self.reverse@[self.values@[j]] == j);
        }
    }

    /// The domain of the given values in the given order. A value that
    /// occurs again is passed over.
    pub fn new(values: Vec<T>) -> (domain: Self)
        requires
            obeys_value_model::<T>(),
        ensures
            domain.wf(),
            domain@ == distinct(values@),
            values@.no_duplicates() ==> domain@ == values@,
    {
        proof {
            if values@.no_duplicates() {
                lemma_distinct_of_distinct(values@);
            }
        }
        let mut kept: Vec<T> = Vec::new();
        let mut reverse: FxHashMap<T, usize> = FxHashMap::default();
        let mut i: usize = 0;
        assert(values@.take(0) =~= Seq::<T>::empty());
        while i < values.len()
            invariant
                i <= values.len(),
                obeys_value_model::<T>(),
                kept@ == distinct(values@.take(i as int)),
                kept@.len() <= i,
                is_reverse_of(reverse@, kept@),
            decreases values.len() - i,
        {
            let value = values[i].clone();
            proof {
                assert(cloned::<T>(values@[i as int], value));
                let upto = values@.take(i + 1);
                assert(upto.drop_last() =~= values@.take(i as int));
                assert(upto.last() == value);
                if kept@.contains(value) {
                    let j = choose|j: int| 0 <= j < kept@.len() && kept@[j] == value;
                    assert(reverse@.contains_key(kept@[j]));
                }
            }
            if !fx::contains_key(&reverse, &value) {
                let key = value.clone();
                assert(cloned::<T>(value, key));
                let ghost before = kept@;
                fx::insert(&mut reverse, key, kept.len());
                kept.push(value);
                proof {
                    assert forall|k: int| 0 <= k < kept@.len() implies reverse@.contains_key(
                        #[trigger] kept@[k],
                    ) && reverse@[kept@[k]] == k by {
                        if k < before.len() {
                            assert(kept@[k] == before[k]);
                        }
                    }
                }
            }
            i += 1;
        }
        assert(values@.take(values@.len() as int) =~= values@);
        IndexedDomain { values: kept, reverse }
    }

    /// The number of values.
    pub fn len(&self) -> (count: usize)
        ensures
            count == self@.len(),
    {
        self.values.len()
    }

    /// Whether the domain has no value.
    pub fn is_empty(&self) -> (none: bool)
        ensures
            none == (self@.len() == 0),
    {
        self.values.len() == 0
    }

    /// The value with the given index.
    pub fn value(&self, index: usize) -> (value: &T)
        requires
            index < self@.len(),
        ensures
            *value == self@[index as int],
    {
        &self.values[index]
    }

    /// Whether the domain holds `value`.
    pub fn contains(&self, value: &T) -> (present: bool)
        requires
            self.wf(),
        ensures
            present == self@.contains(*value),
    {
        let present = fx::contains_key(&self.reverse, value);
        proof {
            if self@.contains(*value) {
                let i = choose|i: int| 0 <= i < self@.len() && self@[i] == *value;
                assert(self.reverse@.contains_key(self.values@[i]));
            }
            if present {
                assert(self.values@[self.reverse@[*value] as int] == *value);
            }
        }
        present
    }

    /// The index of `value`, where the domain holds it.
    pub fn find(&self, value: &T) -> (found: Option<usize>)
        requires
            self.wf(),
        ensures
            match found {
                Some(index) => index < self@.len() && self@[index as int] == *value,
                None => !self@.contains(*value),
            },
    {
        match fx::get(&self.reverse, value) {
            Some(index) => Some(*index),
            None => {
                proof {
                    if self@.contains(*value) {
                        let i = choose|i: int| 0 <= i < self@.len() && self@[i] == *value;
                        assert(self.reverse@.contains_key(self.values@[i]));
                    }
                }
                None
            },
        }
    }

    /// The index of a value that the domain holds.
    pub fn index(&self, value: &T) -> (index: usize)
        requires
            self.wf(),
            self@.contains(*value),
        ensures
            index < self@.len(),
            self@[index as int] == *value,
            index == self@.index_of(*value),
    {
        proof {
            self.lemma_distinct();
        }
        match self.find(value) {
            Some(index) => index,
            None => 0,
        }
    }
}

} // verus!

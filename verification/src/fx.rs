//! The hash map behind the domain and the matrix: a `HashMap` of std with
//! the hasher of the `fxhash` crate.
//!
//! The verifier's library models a `HashMap` as a `Map`, the view `map@`,
//! but says what the methods do only for hash builders it knows. The
//! functions here say it for the Fx hasher, which starts from a fixed
//! state and mixes in what is written with fixed arithmetic, so that equal
//! keys always hash alike. Each holds for a key type that obeys the key
//! model of that library.
use fxhash::FxHashMap;
use fxhash::FxHasher;
use splitmut::SplitMut;
use std::hash::BuildHasherDefault;
use std::hash::Hash;
use vstd::prelude::*;
use vstd::seq_lib::seq_to_set_is_finite;
use vstd::std_specs::hash::obeys_key_model;

verus! {

/// The hasher of `fxhash`, which the verifier only carries along.
#[verifier::external_type_specification]
#[verifier::external_body]
pub struct ExFxHasher(FxHasher);

/// The hash builder of std that makes each hasher by `Default`; also only
/// carried along.
#[verifier::external_type_specification]
#[verifier::external_body]
#[verifier::reject_recursive_types(H)]
pub struct ExBuildHasherDefault<H>(BuildHasherDefault<H>);

/// Whether `pairs` lists every entry of `map` exactly once, in any order.
pub open spec fn is_listing<K, V>(pairs: Seq<(&K, &V)>, map: Map<K, V>) -> bool {
    &&& forall|i: int|
        0 <= i < pairs.len() ==> map.contains_key(*(#[trigger] pairs[i]).0) && map[*pairs[i].0]
            == *pairs[i].1
    &&& forall|i: int, j: int|
        0 <= i < j < pairs.len() ==> *(#[trigger] pairs[i]).0 != *(#[trigger] pairs[j]).0
    &&& forall|key: K| #[trigger]
        map.contains_key(key) ==> exists|i: int|
            0 <= i < pairs.len() && *(#[trigger] pairs[i]).0 == key
}

/// The keys of a listing, in its order.
pub open spec fn listed_keys<K, V>(pairs: Seq<(&K, &V)>) -> Seq<K> {
    Seq::new(pairs.len(), |i: int| *pairs[i].0)
}

/// A listing names each key of the map once, so the map has as many
/// entries as the listing has pairs.
pub proof fn lemma_listing_keys<K, V>(pairs: Seq<(&K, &V)>, map: Map<K, V>)
    requires
        is_listing(pairs, map),
    ensures
        listed_keys(pairs).no_duplicates(),
        listed_keys(pairs).to_set() == map.dom(),
        map.dom().finite(),
        map.dom().len() == pairs.len(),
{
    let keys = listed_keys(pairs);
    assert forall|i: int, j: int|
        0 <= i < keys.len() && 0 <= j < keys.len() && i != j implies keys[i] != keys[j] by {
        if i < j {
            assert(*pairs[i].0 != *pairs[j].0);
        } else {
            assert(*pairs[j].0 != *pairs[i].0);
        }
    }
    assert forall|key: K| keys.to_set().contains(key) <==> map.dom().contains(key) by {
        if keys.contains(key) {
            let i = choose|i: int| 0 <= i < keys.len() && keys[i] == key;
            assert(map.contains_key(*pairs[i].0));
        }
        if map.contains_key(key) {
            let i = choose|i: int| 0 <= i < pairs.len() && *(#[trigger] pairs[i]).0 == key;
            assert(keys[i] == key);
        }
    }
    assert(keys.to_set() =~= map.dom());
    keys.unique_seq_to_set();
    seq_to_set_is_finite(keys);
}

/// `HashMap::contains_key`: whether the map has an entry for the key.
#[verifier::external_body]
pub(crate) fn contains_key<K: Eq + Hash, V>(map: &FxHashMap<K, V>, key: &K) -> (present: bool)
    ensures
        obeys_key_model::<K>() ==> (
            present == map@.contains_key(*key)
        ),
{
    map.contains_key(key)
}

/// `HashMap::get`: the value of the key's entry, if there is one.
#[verifier::external_body]
pub(crate) fn get<'a, K: Eq + Hash, V>(map: &'a FxHashMap<K, V>, key: &K) -> (found: Option<&'a V>)
    ensures
        obeys_key_model::<K>() ==> (
            match found {
                Some(value) => map@.contains_key(*key) && *value == map@[*key],
                None => !map@.contains_key(*key),
            }
        ),
{
    map.get(key)
}

/// `HashMap::get_mut`: the value of the key's entry, if there is one, to
/// be changed in place. No other entry changes.
#[verifier::external_body]
pub(crate) fn get_mut<'a, K: Eq + Hash, V>(map: &'a mut FxHashMap<K, V>, key: &K) -> (found:
    Option<&'a mut V>)
    ensures
        obeys_key_model::<K>() ==> (
            match found {
                Some(value) => {
                    &&& old(map)@.contains_key(*key)
                    &&& *value == old(map)@[*key]
                    &&& final(map)@ == old(map)@.insert(*key, *final(value))
                },
                None => !old(map)@.contains_key(*key) && final(map)@ == old(map)@,
            }
        ),
{
    map.get_mut(key)
}

/// `HashMap::insert`: sets the key's entry to the value and returns the
/// value that the key had before, if it had one.
#[verifier::external_body]
pub(crate) fn insert<K: Eq + Hash, V>(map: &mut FxHashMap<K, V>, key: K, value: V) -> (previous:
    Option<V>)
    ensures
        obeys_key_model::<K>() ==> (
            final(map)@ == old(map)@.insert(key, value)
        ),
        obeys_key_model::<K>() ==> (
            match previous {
                Some(before) => old(map)@.contains_key(key) && before == old(map)@[key],
                None => !old(map)@.contains_key(key),
            }
        ),
{
    map.insert(key, value)
}

/// `HashMap::remove`: takes the key's entry out and returns its value, if
/// there was one.
#[verifier::external_body]
pub(crate) fn remove<K: Eq + Hash, V>(map: &mut FxHashMap<K, V>, key: &K) -> (removed: Option<V>)
    ensures
        obeys_key_model::<K>() ==> (
            final(map)@ == old(map)@.remove(*key)
        ),
        obeys_key_model::<K>() ==> (
            match removed {
                Some(value) => old(map)@.contains_key(*key) && value == old(map)@[*key],
                None => !old(map)@.contains_key(*key),
            }
        ),
{
    map.remove(key)
}

/// `HashMap::iter`, collected: every entry once. The order is that of the
/// table and is not stated.
#[verifier::external_body]
pub(crate) fn pairs<'a, K: Eq + Hash, V>(map: &'a FxHashMap<K, V>) -> (pairs: Vec<(&'a K, &'a V)>)
    ensures
        obeys_key_model::<K>() ==> (
            is_listing(pairs@, map@)
        ),
{
    map.iter().collect()
}

/// `SplitMut::get2_mut` of the `splitmut` crate: the values of two keys at
/// once, to be changed in place. It yields both only where both keys have
/// entries and the two values lie at different addresses; no more is
/// promised than that nothing changes where it yields none.
#[verifier::external_body]
pub(crate) fn get2_mut<'a, K: Eq + Hash, V>(
    map: &'a mut FxHashMap<K, V>,
    first: &K,
    second: &K,
) -> (found: Option<(&'a mut V, &'a mut V)>)
    ensures
        obeys_key_model::<K>() ==> (
            match found {
                Some((one, two)) => {
                    &&& *first != *second
                    &&& old(map)@.contains_key(*first)
                    &&& old(map)@.contains_key(*second)
                    &&& *one == old(map)@[*first]
                    &&& *two == old(map)@[*second]
                    &&& final(map)@ == old(map)@.insert(*first, *final(one)).insert(
                        *second,
                        *final(two),
                    )
                },
                None => final(map)@ == old(map)@,
            }
        ),
{
    match map.get2_mut(first, second) {
        (Ok(one), Ok(two)) => Some((one, two)),
        _ => None,
    }
}

} // verus!

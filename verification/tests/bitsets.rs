use indexical::impls::bv::BitVec;
use indexical::impls::rustc::RustcBitSet;
use indexical::BitSet;

fn impl_test<T: BitSet>() {
    let mut bv = T::empty(10);
    assert_eq!(bv.len(), 0);
    assert!(bv.is_empty());
    assert!(bv.iter().is_empty());

    assert!(bv.insert(0));
    assert!(bv.insert(5));
    assert!(!bv.insert(5));
    assert!(bv.contains(0));
    assert!(bv.contains(5));
    assert!(!bv.contains(1));
    assert_eq!(bv.len(), 2);
    assert_eq!(bv.iter(), vec![0, 5]);

    let mut other = T::empty(10);
    other.insert(5);
    other.insert(9);

    let mut joined = bv.duplicate();
    assert!(joined.union_changed(&other));
    assert_eq!(joined.iter(), vec![0, 5, 9]);
    assert!(!joined.union_changed(&other));
    assert!(!joined.union_changed(&bv));

    let mut met = bv.duplicate();
    assert!(met.intersect_changed(&other));
    assert_eq!(met.iter(), vec![5]);
    assert!(!met.intersect_changed(&other));

    let mut less = bv.duplicate();
    assert!(less.subtract_changed(&other));
    assert_eq!(less.iter(), vec![0]);
    assert!(!less.subtract_changed(&other));

    let mut flipped = bv.duplicate();
    flipped.invert();
    assert_eq!(flipped.iter(), vec![1, 2, 3, 4, 6, 7, 8, 9]);
    assert_eq!(flipped.len(), 8);
    flipped.invert();
    assert!(flipped.same_bits(&bv));

    let mut all = bv.duplicate();
    all.insert_all();
    assert_eq!(all.len(), 10);
    assert_eq!(all.iter(), (0..10).collect::<Vec<usize>>());

    all.clear();
    assert_eq!(all.len(), 0);
    assert!(all.is_empty());
    assert!(all.same_bits(&T::empty(10)));
    assert!(!all.same_bits(&T::empty(11)));
    assert!(all.insert(9));

    all.copy_from(&other);
    assert!(all.same_bits(&other));
    assert!(!all.same_bits(&bv));
}

#[test]
fn test_bitvec() {
    impl_test::<BitVec>();
}

#[test]
fn test_rustc_bitset() {
    impl_test::<RustcBitSet>();
}

#[test]
fn bitvec_spans_word_boundaries() {
    let mut set = BitVec::empty(200);
    for index in [0, 63, 64, 127, 128, 199] {
        assert!(set.insert(index));
    }
    assert_eq!(set.iter(), vec![0, 63, 64, 127, 128, 199]);
    set.invert();
    assert_eq!(set.len(), 194);
    assert!(!set.contains(64));
    assert!(set.contains(65));
}

#[test]
fn rustc_bitset_spans_word_boundaries() {
    let mut set = <RustcBitSet as BitSet>::empty(200);
    for index in [0, 63, 64, 127, 128, 199] {
        assert!(BitSet::insert(&mut set, index));
    }
    assert_eq!(BitSet::iter(&set), vec![0, 63, 64, 127, 128, 199]);
    BitSet::invert(&mut set);
    assert_eq!(BitSet::len(&set), 194);
    assert!(!BitSet::contains(&set, 64));
    assert!(BitSet::contains(&set, 65));
}

#[test]
fn empty_capacity_is_allowed() {
    let mut a = BitVec::empty(0);
    let b = <RustcBitSet as BitSet>::empty(0);
    assert_eq!(a.len(), 0);
    assert_eq!(BitSet::len(&b), 0);
    a.invert();
    assert!(a.is_empty());
    assert!(a.iter().is_empty());
}

use indexical::IndexedDomain;

#[test]
fn values_are_numbered_in_order() {
    let domain = IndexedDomain::new(vec!["a", "b", "c"]);
    assert_eq!(domain.len(), 3);
    assert!(!domain.is_empty());
    assert_eq!(*domain.value(0), "a");
    assert_eq!(*domain.value(2), "c");
    assert_eq!(domain.index(&"a"), 0);
    assert_eq!(domain.index(&"b"), 1);
    assert_eq!(domain.index(&"c"), 2);
}

#[test]
fn lookup_of_a_missing_value() {
    let domain = IndexedDomain::new(vec![5u32, 7]);
    assert!(domain.contains(&5));
    assert!(!domain.contains(&6));
    assert_eq!(domain.find(&7), Some(1));
    assert_eq!(domain.find(&8), None);
}

#[test]
fn repeated_values_are_passed_over() {
    let domain = IndexedDomain::new(vec!['x', 'y', 'x', 'z', 'y']);
    assert_eq!(domain.len(), 3);
    assert_eq!(*domain.value(0), 'x');
    assert_eq!(*domain.value(1), 'y');
    assert_eq!(*domain.value(2), 'z');
    assert_eq!(domain.index(&'z'), 2);
}

#[test]
fn empty_domain() {
    let domain = IndexedDomain::<u8>::new(Vec::new());
    assert_eq!(domain.len(), 0);
    assert!(domain.is_empty());
    assert_eq!(domain.find(&0), None);
}

use indexical::impls::bv::BitVec;
use indexical::impls::bv::BitvecIndexSet;
use indexical::impls::rustc::RustcIndexSet;
use indexical::BitSet;
use indexical::IndexedDomain;
use std::rc::Rc;

fn letters() -> Rc<IndexedDomain<char>> {
    Rc::new(IndexedDomain::new(vec!['a', 'b', 'c', 'd', 'e']))
}

fn set_of(domain: &Rc<IndexedDomain<char>>, members: &[char]) -> BitvecIndexSet<char> {
    let mut set = BitvecIndexSet::new(domain);
    for member in members {
        set.insert(member);
    }
    set
}

#[test]
fn new_set_is_empty() {
    let domain = letters();
    let set = BitvecIndexSet::new(&domain);
    assert_eq!(set.len(), 0);
    assert!(set.is_empty());
    assert!(set.iter().is_empty());
    assert!(set.indices().is_empty());
    assert!(Rc::ptr_eq(set.domain_pointer(), &domain));
}

#[test]
fn insert_by_value_reference_and_index() {
    let domain = letters();
    let mut set = BitvecIndexSet::new(&domain);
    assert!(set.insert('b'));
    assert!(set.insert(&'d'));
    assert!(set.insert(4usize));
    assert!(!set.insert(1usize));
    assert!(!set.insert('e'));
    assert_eq!(set.indices(), vec![1, 3, 4]);
    assert_eq!(set.iter(), vec![&'b', &'d', &'e']);
    assert!(set.contains('d'));
    assert!(set.contains(&'e'));
    assert!(set.contains(1usize));
    assert!(!set.contains('a'));
    assert_eq!(set.len(), 3);
}

#[test]
fn union_with_itself_is_idempotent() {
    let domain = letters();
    let mut set = set_of(&domain, &['a', 'c']);
    let copy = set.clone();
    assert!(!set.union_changed(&copy));
    assert!(set == copy);
}

#[test]
fn contains_agrees_with_iter() {
    let domain = letters();
    let set = set_of(&domain, &['e', 'a', 'c']);
    let listed = set.indices();
    for index in 0..5usize {
        assert_eq!(set.contains(index), listed.contains(&index));
    }
}

#[test]
fn changed_means_the_count_moved() {
    let domain = letters();
    let ab = set_of(&domain, &['a', 'b']);
    let bc = set_of(&domain, &['b', 'c']);

    let mut set = ab.clone();
    let before = set.len();
    assert!(set.union_changed(&bc));
    assert_eq!(set.len(), before + 1);
    assert!(!set.union_changed(&bc));
    assert_eq!(set.len(), before + 1);

    let mut set = ab.clone();
    assert!(set.intersect_changed(&bc));
    assert_eq!(set.len(), 1);
    assert_eq!(set.iter(), vec![&'b']);
    assert!(!set.intersect_changed(&bc));

    let mut set = ab.clone();
    assert!(set.subtract_changed(&bc));
    assert_eq!(set.len(), 1);
    assert_eq!(set.iter(), vec![&'a']);
    assert!(!set.subtract_changed(&bc));
}

#[test]
fn plain_operations_do_what_the_reporting_ones_do() {
    let domain = letters();
    let ab = set_of(&domain, &['a', 'b']);
    let bc = set_of(&domain, &['b', 'c']);
    let mut set = ab.clone();
    set.union(&bc);
    assert_eq!(set.iter(), vec![&'a', &'b', &'c']);
    let mut set = ab.clone();
    set.intersect(&bc);
    assert_eq!(set.iter(), vec![&'b']);
    let mut set = ab.clone();
    set.subtract(&bc);
    assert_eq!(set.iter(), vec![&'a']);
}

#[test]
fn invert_is_its_own_inverse() {
    let domain = letters();
    let mut set = set_of(&domain, &['b', 'e']);
    let before = set.clone();
    set.invert();
    assert_eq!(set.iter(), vec![&'a', &'c', &'d']);
    assert!(set != before);
    set.invert();
    assert!(set == before);
}

#[test]
fn union_is_commutative_and_a_superset() {
    let domain = letters();
    let left = set_of(&domain, &['a', 'd']);
    let right = set_of(&domain, &['d', 'e']);
    let mut one = left.clone();
    one.union(&right);
    let mut two = right.clone();
    two.union(&left);
    assert!(one == two);
    for index in 0..5usize {
        if left.contains(index) || right.contains(index) {
            assert!(one.contains(index));
        }
    }
    assert_eq!(one.iter(), vec![&'a', &'d', &'e']);
}

#[test]
fn second_union_reports_no_change() {
    let domain = letters();
    let mut set = set_of(&domain, &['a']);
    let other = set_of(&domain, &['c', 'e']);
    assert!(set.union_changed(&other));
    assert!(!set.union_changed(&other));
    assert!(set.join(&set_of(&domain, &['b'])));
    assert!(!set.join(&set_of(&domain, &['b'])));
}

#[test]
fn clear_and_insert_all() {
    let domain = letters();
    let mut set = set_of(&domain, &['c']);
    set.insert_all();
    assert_eq!(set.len(), 5);
    assert_eq!(set.iter(), vec![&'a', &'b', &'c', &'d', &'e']);
    set.clear();
    assert!(set.is_empty());
    assert!(set.insert('e'));
}

#[test]
fn equality_ignores_the_domain_handle() {
    let first = letters();
    let second = letters();
    let left = set_of(&first, &['a', 'b']);
    let right = set_of(&second, &['b', 'a']);
    assert!(left == right);
    assert!(left != set_of(&first, &['a']));
}

#[test]
fn clone_from_copies_members_and_domain() {
    let domain = letters();
    let wide = Rc::new(IndexedDomain::new(vec!['u', 'v', 'w', 'x', 'y', 'z', 'a']));
    let mut set = set_of(&domain, &['a', 'b']);
    let source = set_of(&domain, &['e']);
    set.clone_from(&source);
    assert!(set == source);
    assert_eq!(set.iter(), vec![&'e']);
    let mut other = BitvecIndexSet::new(&wide);
    other.insert('z');
    set.clone_from(&other);
    assert!(set == other);
    assert_eq!(set.iter(), vec![&'z']);
    assert!(Rc::ptr_eq(set.domain_pointer(), &wide));
    assert!(set.insert('a'));
    assert_eq!(set.indices(), vec![5, 6]);
}

#[test]
fn sets_over_the_dense_backend() {
    let domain = letters();
    let mut set = RustcIndexSet::new(&domain);
    assert!(set.insert('c'));
    assert!(set.insert('a'));
    let mut other = RustcIndexSet::new(&domain);
    other.insert('c');
    assert!(!set.union_changed(&other));
    assert!(set.subtract_changed(&other));
    assert_eq!(set.iter(), vec![&'a']);
    set.invert();
    assert_eq!(set.iter(), vec![&'b', &'c', &'d', &'e']);
    assert!(set.intersect_changed(&other));
    assert!(set == other);
}

#[test]
fn default_change_report_counts_members() {
    let mut left = BitVec::empty(70);
    let mut right = BitVec::empty(70);
    left.insert(3);
    right.insert(69);
    assert!(left.union_changed(&right));
    assert_eq!(left.len(), 2);
    assert!(!left.union_changed(&right));
    assert!(left.subtract_changed(&right));
    assert!(!left.subtract_changed(&right));
    assert!(left.intersect_changed(&right));
    assert!(left.is_empty());
}

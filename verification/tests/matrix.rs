use indexical::impls::bv::BitvecArcIndexMatrix;
use indexical::impls::bv::BitvecIndexMatrix;
use indexical::impls::bv::BitvecIndexSet;
use indexical::impls::rustc::RustcIndexMatrix;
use indexical::impls::rustc::RustcRefIndexMatrix;
use indexical::IndexedDomain;
use std::rc::Rc;
use std::sync::Arc;

type TestIndexMatrix<R, C> = BitvecIndexMatrix<R, C>;

fn abc() -> Rc<IndexedDomain<&'static str>> {
    Rc::new(IndexedDomain::new(Vec::from_iter(["a", "b", "c"])))
}

#[test]
fn test_indexmatrix() {
    let col_domain = Rc::new(IndexedDomain::new(Vec::from_iter(["a", "b", "c"])));
    let mut mtx = TestIndexMatrix::new(&col_domain);
    mtx.insert(0, "b");
    mtx.insert(1, "c");
    assert_eq!(mtx.row(&0), vec![&"b"]);
    assert_eq!(mtx.row(&1), vec![&"c"]);

    assert!(mtx.union_rows(0, 1));
    assert_eq!(mtx.row(&1), vec![&"b", &"c"]);
}

#[test]
fn union_rows_leaves_the_source_row() {
    let col_domain = abc();
    let mut mtx = TestIndexMatrix::new(&col_domain);
    mtx.insert(0, "b");
    mtx.insert(1, "c");
    assert!(mtx.union_rows(0, 1));
    assert_eq!(mtx.row(&0), vec![&"b"]);
    assert_eq!(mtx.row(&1), vec![&"b", &"c"]);
    assert!(!mtx.union_rows(0, 1));
}

#[test]
fn insert_reports_change_and_row_lists_the_column() {
    let col_domain = abc();
    let mut mtx = TestIndexMatrix::new(&col_domain);
    assert!(mtx.insert(7, "c"));
    assert!(!mtx.insert(7, "c"));
    assert!(mtx.insert(7, "a"));
    assert_eq!(mtx.row(&7), vec![&"a", &"c"]);
    assert!(mtx.row_set(&7).contains("c"));
    assert!(!mtx.row_set(&7).contains("b"));
}

#[test]
fn insert_takes_a_value_a_reference_or_an_index() {
    let col_domain = abc();
    let mut mtx = TestIndexMatrix::new(&col_domain);
    let b = "b";
    assert!(mtx.insert(0, "a"));
    assert!(mtx.insert(0, &b));
    assert!(mtx.insert(0, 2usize));
    assert_eq!(mtx.row(&0), vec![&"a", &"b", &"c"]);
}

#[test]
fn row_without_entry_is_empty() {
    let col_domain = abc();
    let mut mtx = TestIndexMatrix::new(&col_domain);
    mtx.insert(0, "b");
    assert!(mtx.row(&1).is_empty());
    assert!(mtx.row_set(&1).is_empty());
    assert_eq!(mtx.row_set(&1).len(), 0);
    assert_eq!(mtx.rows().len(), 1);
}

#[test]
fn union_rows_of_one_row_changes_nothing() {
    let col_domain = abc();
    let mut mtx = TestIndexMatrix::new(&col_domain);
    mtx.insert(0, "b");
    let before = mtx.clone();
    assert!(!mtx.union_rows(0, 0));
    assert!(mtx == before);
    assert!(!mtx.union_rows(5, 5));
    assert!(mtx == before);
    assert_eq!(mtx.rows().len(), 1);
}

#[test]
fn union_rows_gives_both_rows_an_entry() {
    let col_domain = abc();
    let mut mtx = TestIndexMatrix::<u32, &str>::new(&col_domain);
    assert!(!mtx.union_rows(3, 4));
    assert_eq!(mtx.rows().len(), 2);
    assert!(mtx.row(&3).is_empty());
    assert!(mtx.row(&4).is_empty());
}

#[test]
fn clear_row_gives_back_the_shared_empty_set() {
    let col_domain = abc();
    let mut mtx = TestIndexMatrix::new(&col_domain);
    mtx.insert(0, "b");
    mtx.insert(1, "a");
    mtx.clear_row(&0);
    assert!(mtx.row(&0).is_empty());
    assert_eq!(mtx.row(&1), vec![&"a"]);
    assert!(std::ptr::eq(mtx.row_set(&0), mtx.row_set(&0)));
    assert!(std::ptr::eq(mtx.row_set(&0), mtx.row_set(&99)));
    assert!(!std::ptr::eq(mtx.row_set(&0), mtx.row_set(&1)));
    assert_eq!(mtx.rows().len(), 1);
    mtx.clear_row(&0);
    assert_eq!(mtx.rows().len(), 1);
}

#[test]
fn cleared_matrix_equals_a_new_one() {
    let col_domain = abc();
    let mut mtx = TestIndexMatrix::new(&col_domain);
    let fresh = TestIndexMatrix::new(&col_domain);
    mtx.insert(0, "b");
    assert!(mtx != fresh);
    mtx.clear_row(&0);
    assert!(mtx == fresh);
}

#[test]
fn equality_compares_rows_and_members() {
    let col_domain = abc();
    let mut left = TestIndexMatrix::new(&col_domain);
    let mut right = TestIndexMatrix::new(&col_domain);
    assert!(left == right);
    left.insert(0, "a");
    assert!(left != right);
    right.insert(0, "b");
    assert!(left != right);
    right.insert(0, "a");
    left.insert(0, "b");
    assert!(left == right);
    right.insert(1, "a");
    assert!(left != right);
    left.insert(2, "a");
    assert!(left != right);
}

#[test]
fn union_into_row_adds_a_set() {
    let col_domain = abc();
    let mut mtx = TestIndexMatrix::new(&col_domain);
    let mut set = BitvecIndexSet::new(&col_domain);
    set.insert("a");
    set.insert("c");
    assert!(mtx.union_into_row(4, &set));
    assert!(!mtx.union_into_row(4, &set));
    assert_eq!(mtx.row(&4), vec![&"a", &"c"]);
    let empty = BitvecIndexSet::new(&col_domain);
    assert!(!mtx.union_into_row(5, &empty));
    assert!(mtx.row(&5).is_empty());
    assert_eq!(mtx.rows().len(), 2);
}

#[test]
fn rows_lists_every_entry_once() {
    let col_domain = abc();
    let mut mtx = TestIndexMatrix::new(&col_domain);
    mtx.insert(10, "a");
    mtx.insert(20, "b");
    mtx.insert(20, "c");
    mtx.insert(30, "c");
    let mut listed: Vec<(i32, Vec<usize>)> =
        mtx.rows().into_iter().map(|(row, set)| (*row, set.indices())).collect();
    listed.sort();
    assert_eq!(listed, vec![(10, vec![0]), (20, vec![1, 2]), (30, vec![2])]);
}

#[test]
fn clone_then_mutate_leaves_the_source() {
    let col_domain = abc();
    let mut mtx = TestIndexMatrix::new(&col_domain);
    mtx.insert(0, "b");
    mtx.insert(1, "c");
    let mut copy = mtx.clone();
    assert!(copy == mtx);
    copy.insert(0, "a");
    copy.insert(2, "a");
    copy.clear_row(&1);
    assert_eq!(mtx.row(&0), vec![&"b"]);
    assert_eq!(mtx.row(&1), vec![&"c"]);
    assert!(mtx.row(&2).is_empty());
    assert_eq!(copy.row(&0), vec![&"a", &"b"]);
    assert!(copy.row(&1).is_empty());
    assert_eq!(copy.row(&2), vec![&"a"]);
    assert!(copy != mtx);
}

#[test]
fn clone_from_overwrites_the_rows() {
    let col_domain = abc();
    let mut target = TestIndexMatrix::new(&col_domain);
    target.insert(0, "a");
    target.insert(5, "c");
    let mut source = TestIndexMatrix::new(&col_domain);
    source.insert(0, "b");
    source.insert(1, "c");
    target.clone_from(&source);
    assert_eq!(target.row(&0), vec![&"b"]);
    assert_eq!(target.row(&1), vec![&"c"]);
    assert!(target.row(&5).is_empty());
    assert_eq!(target.rows().len(), 3);
    source.insert(0, "a");
    assert_eq!(target.row(&0), vec![&"b"]);
}

#[test]
fn clone_from_takes_over_another_domain() {
    let small = abc();
    let large = Rc::new(IndexedDomain::new(vec!["p", "q", "r", "s", "t"]));
    let mut target = TestIndexMatrix::new(&small);
    target.insert(0, "a");
    target.insert(9, "b");
    let mut source = TestIndexMatrix::new(&large);
    source.insert(0, "t");
    target.clone_from(&source);
    assert_eq!(target.row(&0), vec![&"t"]);
    assert!(target.row(&9).is_empty());
    assert_eq!(target.col_domain().len(), 5);
    assert!(target.insert(9, "s"));
    assert!(target.insert(3, "p"));
    assert_eq!(target.row(&9), vec![&"s"]);
}

#[test]
fn join_unions_row_by_row() {
    let col_domain = abc();
    let mut left = TestIndexMatrix::new(&col_domain);
    left.insert(0, "a");
    left.insert(1, "b");
    let mut right = TestIndexMatrix::new(&col_domain);
    right.insert(1, "c");
    right.insert(2, "a");
    assert!(left.join(&right));
    assert_eq!(left.row(&0), vec![&"a"]);
    assert_eq!(left.row(&1), vec![&"b", &"c"]);
    assert_eq!(left.row(&2), vec![&"a"]);
    assert!(!left.join(&right));
    assert_eq!(right.row(&1), vec![&"c"]);
}

#[test]
fn join_of_a_copy_reports_no_change() {
    let col_domain = abc();
    let mut mtx = TestIndexMatrix::new(&col_domain);
    mtx.insert(0, "a");
    mtx.insert(1, "b");
    let copy = mtx.clone();
    assert!(!mtx.join(&copy));
    assert!(mtx == copy);
}

#[test]
fn join_of_an_empty_row_reports_no_change() {
    let col_domain = abc();
    let mut left = TestIndexMatrix::<u8, &str>::new(&col_domain);
    let mut right = TestIndexMatrix::new(&col_domain);
    right.insert(3, "a");
    right.row_set(&3);
    let mut emptied = right.clone();
    emptied.clear_row(&3);
    assert!(!emptied.union_rows(3, 4));
    assert!(!left.join(&emptied));
    assert!(left.row(&3).is_empty());
    assert!(left.join(&right));
}

#[test]
fn matrix_over_the_dense_backend() {
    let col_domain = Rc::new(IndexedDomain::new(vec![10u32, 20, 30, 40]));
    let mut mtx = RustcIndexMatrix::new(&col_domain);
    assert!(mtx.insert("x", 20u32));
    assert!(mtx.insert("y", 40u32));
    assert!(mtx.union_rows("x", "y"));
    assert_eq!(mtx.row(&"y"), vec![&20, &40]);
    assert_eq!(mtx.row(&"x"), vec![&20]);
    let mut other = RustcIndexMatrix::new(&col_domain);
    other.insert("x", 10u32);
    assert!(mtx.join(&other));
    assert_eq!(mtx.row(&"x"), vec![&10, &20]);
    let copy = mtx.clone();
    assert!(copy == mtx);
}

#[test]
fn matrix_with_an_atomic_handle() {
    let col_domain = Arc::new(IndexedDomain::new(vec!['a', 'b']));
    let mut mtx = BitvecArcIndexMatrix::new(&col_domain);
    assert!(mtx.insert(1u64, 'b'));
    assert_eq!(mtx.row(&1), vec![&'b']);
    assert!(Arc::ptr_eq(mtx.col_domain(), &col_domain));
}

#[test]
fn matrix_with_a_borrowed_domain() {
    let domain = IndexedDomain::new(vec![1i64, 2, 3]);
    let handle = &domain;
    let mut mtx = RustcRefIndexMatrix::new(&handle);
    assert!(mtx.insert('r', 3i64));
    assert!(mtx.insert('r', 0usize));
    assert_eq!(mtx.row(&'r'), vec![&1, &3]);
    assert!(std::ptr::eq(*mtx.col_domain(), &domain));
}

#[test]
fn empty_entry_equals_no_entry() {
    let col_domain = abc();
    let fresh = TestIndexMatrix::<i32, &str>::new(&col_domain);

    let mut with_entry = TestIndexMatrix::new(&col_domain);
    let empty = BitvecIndexSet::new(&col_domain);
    assert!(!with_entry.union_into_row(5, &empty));
    assert_eq!(with_entry.rows().len(), 1);
    assert!(with_entry == fresh);
    assert!(fresh == with_entry);

    let mut by_union = TestIndexMatrix::new(&col_domain);
    assert!(!by_union.union_rows(3, 4));
    assert_eq!(by_union.rows().len(), 2);
    assert!(by_union == fresh);
    assert!(by_union == with_entry);

    by_union.insert(3, "a");
    assert!(by_union != fresh);
    assert!(fresh != by_union);
    assert!(with_entry != by_union);
}

#[test]
fn equality_reads_a_missing_row_as_empty_on_either_side() {
    let col_domain = abc();
    let mut left = TestIndexMatrix::new(&col_domain);
    let mut right = TestIndexMatrix::new(&col_domain);
    left.insert(1, "a");
    right.insert(1, "a");
    assert!(!left.union_rows(7, 8));
    assert!(!right.union_rows(9, 7));
    assert!(left == right);
    right.insert(9, "c");
    assert!(left != right);
    assert!(right != left);
    left.insert(9, "c");
    assert!(left == right);
}

#[test]
fn clone_from_makes_the_target_equal_to_the_source() {
    let col_domain = abc();
    let mut target = TestIndexMatrix::new(&col_domain);
    target.insert(0, "a");
    target.insert(5, "c");
    let mut source = TestIndexMatrix::new(&col_domain);
    source.insert(0, "b");
    target.clone_from(&source);
    assert_eq!(target.rows().len(), 2);
    assert_eq!(source.rows().len(), 1);
    assert!(target == source);
    assert!(source == target);
}

#[test]
fn matrices_over_domains_of_different_sizes_differ() {
    let small = abc();
    let large = Rc::new(IndexedDomain::new(vec!["a", "b", "c", "d"]));
    let left = TestIndexMatrix::<i32, &str>::new(&small);
    let right = TestIndexMatrix::<i32, &str>::new(&large);
    assert!(left != right);
}

#[test]
fn join_reports_change_exactly_when_pairs_are_gained() {
    let col_domain = abc();
    let pairs = |mtx: &TestIndexMatrix<i32, &str>| -> usize {
        mtx.rows().into_iter().map(|(_, set)| set.len()).sum()
    };
    let mut left = TestIndexMatrix::new(&col_domain);
    left.insert(0, "a");
    let mut right = TestIndexMatrix::new(&col_domain);
    right.insert(0, "a");
    right.insert(0, "b");
    right.insert(1, "c");
    assert_eq!(pairs(&left), 1);
    assert!(left.join(&right));
    assert_eq!(pairs(&left), 3);
    assert!(!left.join(&right));
    assert_eq!(pairs(&left), 3);
    assert!(pairs(&left) <= left.rows().len() * 3);
}

//! The index matrix: a relation between row keys and the values of one
//! column domain, held as a sparse map from rows to index sets.
//!
//! A row that was never written has no entry and reads as the empty set.
//! Two matrices are equal when every row reads the same in both, whether
//! or not it has an entry.
use crate::bitset::bits_or;
use crate::bitset::bits_subset;
use crate::bitset::lemma_member_list_contains;
use crate::bitset::lemma_members_bounded;
use crate::bitset::lemma_subset_count;
use crate::bitset::lemma_union_absorbs;
use crate::bitset::member_list;
use crate::bitset::members;
use crate::bitset::no_bits;
use crate::bitset::BitSet;
use crate::domain::obeys_value_model;
use crate::domain::IndexedDomain;
use crate::fx;
use crate::pointer::PointerFamily;
use crate::set::values_at;
use crate::set::IndexSet;
use crate::set::MarkerIndex;
use crate::set::ToIndex;
use fxhash::FxHashMap;
use std::hash::Hash;
use vstd::laws_eq::obeys_concrete_eq;
use vstd::prelude::*;
use vstd::set_lib::lemma_len_subset;
use vstd::set_lib::lemma_len_union;
use vstd::set_lib::lemma_map_size_bound;
use vstd::set_lib::lemma_set_empty_equivalency_len;
use vstd::set_lib::lemma_subset_equality;
use vstd::std_specs::cmp::PartialEqSpecImpl;
use vstd::std_specs::hash::obeys_key_model;

verus! {

/// The bits of a row: those of its entry, or none where it has no entry.
pub open spec fn row_of<R>(rows: Map<R, Seq<bool>>, cols: nat, row: R) -> Seq<bool> {
    if rows.contains_key(row) {
        rows[row]
    } else {
        no_bits(cols)
    }
}

/// The rows after the pair `(row, col)` was added.
pub open spec fn rows_insert<R>(rows: Map<R, Seq<bool>>, cols: nat, row: R, col: int) -> Map<
    R,
    Seq<bool>,
> {
    rows.insert(row, row_of(rows, cols, row).update(col, true))
}

/// The rows after the members of `from` were added to `row`.
pub open spec fn rows_union_into<R>(
    rows: Map<R, Seq<bool>>,
    cols: nat,
    row: R,
    from: Seq<bool>,
) -> Map<R, Seq<bool>> {
    rows.insert(row, bits_or(row_of(rows, cols, row), from))
}

/// The rows after the members of row `from` were added to row `to`. Both
/// rows have entries afterwards, unless they are one row.
pub open spec fn rows_union_rows<R>(rows: Map<R, Seq<bool>>, cols: nat, from: R, to: R) -> Map<
    R,
    Seq<bool>,
> {
    if from == to {
        rows
    } else {
        rows.insert(from, row_of(rows, cols, from)).insert(
            to,
            bits_or(row_of(rows, cols, to), row_of(rows, cols, from)),
        )
    }
}

/// The rows after every row of `other` was joined into its row.
pub open spec fn rows_join<R>(rows: Map<R, Seq<bool>>, cols: nat, other: Map<R, Seq<bool>>) -> Map<
    R,
    Seq<bool>,
> {
    Map::new(
        |row: R| rows.contains_key(row) || other.contains_key(row),
        |row: R|
            if other.contains_key(row) {
                bits_or(row_of(rows, cols, row), other[row])
            } else {
                rows[row]
            },
    )
}

/// The rows after they were overwritten from `source`: the rows of
/// `source` as they are there, and the other rows that had an entry
/// empty.
pub open spec fn rows_refill<R>(
    rows: Map<R, Seq<bool>>,
    source: Map<R, Seq<bool>>,
    cols: nat,
) -> Map<R, Seq<bool>> {
    Map::new(
        |row: R| rows.contains_key(row) || source.contains_key(row),
        |row: R| row_of(source, cols, row),
    )
}

/// Whether two maps of rows stand for one relation: every row reads the
/// same in both, with or without an entry.
pub open spec fn same_relation<R>(a: Map<R, Seq<bool>>, b: Map<R, Seq<bool>>, cols: nat) -> bool {
    forall|row: R| #[trigger] row_of(a, cols, row) == row_of(b, cols, row)
}

/// The keys that come before position `upto` in a listing.
pub open spec fn keys_before<R, V>(pairs: Seq<(&R, &V)>, upto: int) -> Set<R> {
    Set::new(
        |row: R|
            exists|j: int| 0 <= j < upto && j < pairs.len() && *(#[trigger] pairs[j]).0 == row,
    )
}

/// The pairs of a row and a column index that a map of rows holds. Their
/// number is the sum of the numbers of members of the rows.
pub open spec fn pairs_of<R>(rows: Map<R, Seq<bool>>) -> Set<(R, int)> {
    Set::new(
        |pair: (R, int)|
            rows.contains_key(pair.0) && 0 <= pair.1 < rows[pair.0].len() && rows[pair.0][pair.1],
    )
}

/// Whether every row that has an entry has `cols` bits.
pub open spec fn rows_fit<R>(rows: Map<R, Seq<bool>>, cols: nat) -> bool {
    forall|row: R| #[trigger] rows.contains_key(row) ==> rows[row].len() == cols
}

/// A sparse relation between rows `R` and the values of a column domain.
pub struct IndexMatrix<R, C, S: BitSet, P: PointerFamily<IndexedDomain<C>>> {
    pub(crate) matrix: FxHashMap<R, IndexSet<C, S, P>>,
    empty_set: IndexSet<C, S, P>,
    col_domain: P::Pointer,
}

impl<R, C, S: BitSet, P: PointerFamily<IndexedDomain<C>>> IndexMatrix<R, C, S, P> {
    /// The rows that have an entry, each with its set.
    pub closed spec fn row_sets(&self) -> Map<R, IndexSet<C, S, P>> {
        self.matrix@
    }

    /// The one empty set that stands for every row without an entry.
    pub closed spec fn empty_row(&self) -> IndexSet<C, S, P> {
        self.empty_set
    }

    /// The column domain.
    pub closed spec fn domain(&self) -> IndexedDomain<C> {
        P::target(&self.col_domain)
    }

    /// The number of columns.
    pub open spec fn cols(&self) -> nat {
        self.domain()@.len()
    }

    /// The rows that have an entry, each with its membership bits.
    pub open spec fn row_map(&self) -> Map<R, Seq<bool>> {
        self.row_sets().map_values(|set: IndexSet<C, S, P>| set.bits())
    }

    /// The membership bits of any row.
    pub open spec fn row_bits(&self, row: R) -> Seq<bool> {
        row_of(self.row_map(), self.cols(), row)
    }

    /// What a row reads as: the bits of its entry, or those of the empty
    /// set where it has no entry. In a well-formed matrix this is
    /// `row_bits`.
    pub open spec fn row_read(&self, row: R) -> Seq<bool> {
        if self.row_sets().contains_key(row) {
            self.row_sets()[row].bits()
        } else {
            self.empty_row().bits()
        }
    }

    /// Whether two matrices stand for one relation: they have as many
    /// columns, and every row reads the same in both. An entry without a
    /// member counts as no entry.
    pub open spec fn same_rows(&self, other: &Self) -> bool {
        &&& self.empty_row().bits() == other.empty_row().bits()
        &&& forall|row: R| #[trigger] self.row_read(row) == other.row_read(row)
    }
}

impl<
    R: Clone + Eq + Hash,
    C: Clone + Eq + Hash,
    S: BitSet,
    P: PointerFamily<IndexedDomain<C>>,
> IndexMatrix<R, C, S, P> {
    /// The invariant: every set, the empty one included, is over the
    /// column domain, and the empty one has no member.
    pub open spec fn wf(&self) -> bool {
        &&& obeys_value_model::<R>()
        &&& self.domain().wf()
        &&& self.row_sets().dom().finite()
        &&& self.empty_row().wf()
        &&& self.empty_row().domain() == self.domain()
        &&& self.empty_row().bits() == no_bits(self.cols())
        &&& forall|row: R| #[trigger]
            self.row_sets().contains_key(row) ==> self.row_sets()[row].wf()
                && self.row_sets()[row].domain() == self.domain()
    }

    /// Between well-formed matrices, `same_rows` says that the numbers of
    /// columns agree and that the maps of rows stand for one relation.
    pub proof fn lemma_same_rows(&self, other: &Self)
        requires
            self.wf(),
            other.wf(),
        ensures
            self.same_rows(other) <==> self.cols() == other.cols() && same_relation(
                self.row_map(),
                other.row_map(),
                self.cols(),
            ),
            forall|row: R| #[trigger] self.row_read(row) == self.row_bits(row),
    {
        let cols = self.cols();
        assert(no_bits(cols).len() == cols);
        assert(no_bits(other.cols()).len() == other.cols());
        if self.same_rows(other) {
            assert forall|row: R| #[trigger]
                row_of(self.row_map(), cols, row) == row_of(other.row_map(), cols, row) by {
                assert(self.row_read(row) == other.row_read(row));
            }
        }
        if cols == other.cols() && same_relation(self.row_map(), other.row_map(), cols) {
            assert forall|row: R| #[trigger] self.row_read(row) == other.row_read(row) by {
                assert(row_of(self.row_map(), cols, row) == row_of(other.row_map(), cols, row));
            }
        }
    }

    /// Whether every entry of this matrix reads the same in `other`.
    fn reads_into(&self, other: &Self) -> (same: bool)
        ensures
            obeys_key_model::<R>() ==> (same <==> forall|row: R| #[trigger]
                self.row_sets().contains_key(row) ==> self.row_sets()[row].bits()
                    == other.row_read(row)),
    {
        let pairs = fx::pairs(&self.matrix);
        let mut i: usize = 0;
        while i < pairs.len()
            invariant
                i <= pairs.len(),
                obeys_key_model::<R>() ==> {
                    &&& fx::is_listing(pairs@, self.row_sets())
                    &&& forall|j: int|
                        0 <= j < i ==> (#[trigger] pairs@[j]).1.bits() == other.row_read(
                            *pairs@[j].0,
                        )
                },
            decreases pairs.len() - i,
        {
            let there = match fx::get(&other.matrix, pairs[i].0) {
                Some(set) => set,
                None => &other.empty_set,
            };
            if !pairs[i].1.eq(there) {
                proof {
                    if obeys_key_model::<R>() {
                        assert(self.row_sets().contains_key(*pairs@[i as int].0));
                    }
                }
                return false;
            }
            i += 1;
        }
        proof {
            if obeys_key_model::<R>() {
                assert forall|row: R| #[trigger]
                    self.row_sets().contains_key(row) implies self.row_sets()[row].bits()
                    == other.row_read(row) by {
                    let j = choose|j: int|
                        0 <= j < pairs@.len() && *(#[trigger] pairs@[j]).0 == row;
                    assert(pairs@[j].1.bits() == other.row_read(*pairs@[j].0));
                }
            }
        }
        true
    }

    /// In a well-formed matrix every row has one bit for each column, and
    /// finitely many rows have an entry.
    pub proof fn lemma_rows_fit(&self)
        requires
            self.wf(),
        ensures
            rows_fit(self.row_map(), self.cols()),
            self.row_map().dom().finite(),
    {
        assert(self.row_map().dom() =~= self.row_sets().dom());
        let rows = self.row_map();
        assert forall|row: R| #[trigger] rows.contains_key(row) implies rows[row].len()
            == self.cols() by {
            assert(self.row_sets().contains_key(row));
        }
    }

    /// Creates an empty matrix.
    pub fn new(col_domain: &P::Pointer) -> (matrix: Self)
        requires
            obeys_value_model::<R>(),
            P::target(col_domain).wf(),
            P::target(col_domain)@.len() <= S::size_limit(),
        ensures
            matrix.wf(),
            matrix.domain() == P::target(col_domain),
            matrix.row_map() == Map::<R, Seq<bool>>::empty(),
    {
        let matrix = IndexMatrix {
            matrix: FxHashMap::default(),
            empty_set: IndexSet::new(col_domain),
            col_domain: P::share(col_domain),
        };
        assert(matrix.row_map() =~= Map::<R, Seq<bool>>::empty());
        matrix
    }

    /// The set of `row`, which gets an entry with a copy of the empty set
    /// where it had none.
    pub(crate) fn ensure_row(&mut self, row: R) -> (set: &mut IndexSet<C, S, P>)
        requires
            old(self).wf(),
        ensures
            set.wf(),
            set.domain() == old(self).domain(),
            set.bits() == old(self).row_bits(row),
            old(self).row_sets().contains_key(row) ==> *set == old(self).row_sets()[row],
            final(self).row_sets() == old(self).row_sets().insert(row, *final(set)),
            final(self).empty_row() == old(self).empty_row(),
            final(self).domain() == old(self).domain(),
    {
        if !fx::contains_key(&self.matrix, &row) {
            let fresh = self.empty_set.clone();
            let key = row.clone();
            assert(cloned::<R>(row, key));
            fx::insert(&mut self.matrix, key, fresh);
        }
        assert(old(self).row_sets().contains_key(row) ==> self.matrix@[row]
            == old(self).row_sets()[row]);
        fx::get_mut(&mut self.matrix, &row).unwrap()
    }

    /// Inserts a pair `(row, col)` into the matrix, returning true if
    /// the matrix changed.
    pub fn insert<M, I: ToIndex<C, M>>(&mut self, row: R, col: I) -> (changed: bool)
        requires
            old(self).wf(),
            col.resolves_in(&old(self).domain()),
        ensures
            final(self).wf(),
            final(self).domain() == old(self).domain(),
            final(self).empty_row() == old(self).empty_row(),
            final(self).row_map() == rows_insert(
                old(self).row_map(),
                old(self).cols(),
                row,
                col.index_in(&old(self).domain()),
            ),
            changed == !old(self).row_bits(row)[col.index_in(&old(self).domain())],
    {
        let col = col.to_index(P::get(&self.col_domain));
        let set = self.ensure_row(row);
        let changed = set.insert::<MarkerIndex, usize>(col);
        assert(self.row_map() =~= rows_insert(
            old(self).row_map(),
            old(self).cols(),
            row,
            col as int,
        ));
        changed
    }

    /// Adds all elements of `from` into the row `into`, returning true if
    /// the row grew.
    pub fn union_into_row(&mut self, into: R, from: &IndexSet<C, S, P>) -> (changed: bool)
        requires
            old(self).wf(),
            from.bits().len() == old(self).cols(),
        ensures
            final(self).wf(),
            final(self).domain() == old(self).domain(),
            final(self).empty_row() == old(self).empty_row(),
            final(self).row_map() == rows_union_into(
                old(self).row_map(),
                old(self).cols(),
                into,
                from.bits(),
            ),
            changed == (bits_or(old(self).row_bits(into), from.bits()) != old(self).row_bits(into)),
    {
        let set = self.ensure_row(into);
        let changed = set.union_changed(from);
        assert(self.row_map() =~= rows_union_into(
            old(self).row_map(),
            old(self).cols(),
            into,
            from.bits(),
        ));
        changed
    }

    /// Adds all elements from the row `from` into the row `to`, returning
    /// true if `to` grew. A row joined with itself stays as it is.
    pub fn union_rows(&mut self, from: R, to: R) -> (changed: bool)
        requires
            old(self).wf(),
        ensures
            final(self).wf(),
            final(self).domain() == old(self).domain(),
            final(self).empty_row() == old(self).empty_row(),
            final(self).row_map() == rows_union_rows(
                old(self).row_map(),
                old(self).cols(),
                from,
                to,
            ),
            changed == (from != to && bits_or(old(self).row_bits(to), old(self).row_bits(from))
                != old(self).row_bits(to)),
            from == to ==> *final(self) == *old(self),
    {
        proof {
            reveal(obeys_concrete_eq);
        }
        if from == to {
            return false;
        }
        let from_key = from.clone();
        let to_key = to.clone();
        assert(cloned::<R>(from, from_key) && cloned::<R>(to, to_key));
        self.ensure_row(from_key);
        self.ensure_row(to_key);
        let ghost cols = old(self).cols();
        let ghost start = old(self).row_map();
        assert(self.row_map() =~= start.insert(from, row_of(start, cols, from)).insert(
            to,
            row_of(start, cols, to),
        ));
        let changed = match fx::get2_mut(&mut self.matrix, &from, &to) {
            Some((from_set, to_set)) => to_set.union_changed(from_set),
            None => {
                let copy = self.row_set(&from).clone();
                self.ensure_row(to).union_changed(&copy)
            },
        };
        assert(self.row_map() =~= rows_union_rows(start, cols, from, to));
        changed
    }

    /// Returns all rows that have an entry, each with its set, in no
    /// particular order.
    pub fn rows(&self) -> (list: Vec<(&R, &IndexSet<C, S, P>)>)
        requires
            self.wf(),
        ensures
            fx::is_listing(list@, self.row_sets()),
    {
        fx::pairs(&self.matrix)
    }

    /// Returns the set of a particular `row`: that of its entry, or the
    /// matrix's one empty set where it has no entry.
    pub fn row_set(&self, row: &R) -> (set: &IndexSet<C, S, P>)
        requires
            self.wf(),
        ensures
            set.wf(),
            set.domain() == self.domain(),
            set.bits() == self.row_bits(*row),
            *set == (if self.row_sets().contains_key(*row) {
                self.row_sets()[*row]
            } else {
                self.empty_row()
            }),
    {
        assert(self.row_sets().contains_key(*row) ==> self.row_sets()[*row].wf());
        match fx::get(&self.matrix, row) {
            Some(set) => set,
            None => &self.empty_set,
        }
    }

    /// Returns the elements in `row`, in the order of the column domain.
    pub fn row(&self, row: &R) -> (list: Vec<&C>)
        requires
            self.wf(),
        ensures
            list@.unref() == values_at(self.domain()@, member_list(self.row_bits(*row))),
    {
        self.row_set(row).iter()
    }

    /// Clears all the elements from the `row`, whose entry goes.
    pub fn clear_row(&mut self, row: &R)
        requires
            old(self).wf(),
        ensures
            final(self).wf(),
            final(self).domain() == old(self).domain(),
            final(self).empty_row() == old(self).empty_row(),
            final(self).row_map() == old(self).row_map().remove(*row),
            final(self).row_bits(*row) == no_bits(old(self).cols()),
    {
        fx::remove(&mut self.matrix, row);
        assert(self.row_map() =~= old(self).row_map().remove(*row));
    }

    /// The keys of the rows that have an entry, each once.
    fn row_keys(&self) -> (keys: Vec<R>)
        requires
            self.wf(),
        ensures
            keys@.no_duplicates(),
            keys@.to_set() == self.row_sets().dom(),
    {
        let pairs = fx::pairs(&self.matrix);
        proof {
            fx::lemma_listing_keys(pairs@, self.matrix@);
        }
        let mut keys: Vec<R> = Vec::new();
        let mut i: usize = 0;
        while i < pairs.len()
            invariant
                i <= pairs.len(),
                obeys_value_model::<R>(),
                keys@ == fx::listed_keys(pairs@).take(i as int),
            decreases pairs.len() - i,
        {
            let key = pairs[i].0.clone();
            assert(cloned::<R>(*pairs@[i as int].0, key));
            keys.push(key);
            assert(keys@ =~= fx::listed_keys(pairs@).take(i + 1));
            i += 1;
        }
        assert(keys@ =~= fx::listed_keys(pairs@));
        keys
    }

    /// Makes this matrix a copy of `source`. The sets of the rows that
    /// have entries are written over in the storage they have: first
    /// emptied, then filled from the rows of `source`. A row that only
    /// this matrix had keeps its entry, without a member, so that the
    /// matrix equals `source` afterwards.
    pub fn clone_from(&mut self, source: &Self)
        requires
            old(self).wf(),
            source.wf(),
        ensures
            final(self).wf(),
            final(self).domain() == source.domain(),
            final(self).row_map() == rows_refill(
                old(self).row_map(),
                source.row_map(),
                source.cols(),
            ),
            same_relation(final(self).row_map(), source.row_map(), source.cols()),
            final(self).same_rows(source),
    {
        let keys = self.row_keys();
        self.empty_set.clone_from(&source.empty_set);
        self.col_domain = P::share(&source.col_domain);
        let ghost cols = source.cols();
        let mut i: usize = 0;
        while i < keys.len()
            invariant
                i <= keys.len(),
                obeys_value_model::<R>(),
                source.wf(),
                cols == source.cols(),
                old(self).wf(),
                keys@.no_duplicates(),
                keys@.to_set() == old(self).row_sets().dom(),
                self.row_sets().dom() == old(self).row_sets().dom(),
                self.domain() == source.domain(),
                self.empty_row().wf(),
                self.empty_row().domain() == source.domain(),
                self.empty_row().bits() == no_bits(cols),
                forall|j: int|
                    0 <= j < i ==> {
                        &&& (#[trigger] self.row_sets()[keys@[j]]).wf()
                        &&& self.row_sets()[keys@[j]].domain() == source.domain()
                        &&& self.row_sets()[keys@[j]].bits() == no_bits(cols)
                    },
                forall|j: int|
                    i <= j < keys@.len() ==> #[trigger] self.row_sets()[keys@[j]]
                        == old(self).row_sets()[keys@[j]],
            decreases keys.len() - i,
        {
            let ghost before = self.row_sets();
            assert(keys@.to_set().contains(keys@[i as int]));
            assert(old(self).row_sets().contains_key(keys@[i as int]));
            assert(old(self).row_sets()[keys@[i as int]].wf());
            assert(self.row_sets()[keys@[i as int]] == old(self).row_sets()[keys@[i as int]]);
            let set = fx::get_mut(&mut self.matrix, &keys[i]).unwrap();
            set.clone_from(&source.empty_set);
            let ghost key = keys@[i as int];
            assert(self.row_sets() == before.insert(key, self.row_sets()[key]));
            assert(self.row_sets().dom() =~= before.dom());
            assert forall|j: int| 0 <= j < i + 1 implies {
                &&& (#[trigger] self.row_sets()[keys@[j]]).wf()
                &&& self.row_sets()[keys@[j]].domain() == source.domain()
                &&& self.row_sets()[keys@[j]].bits() == no_bits(cols)
            } by {
                if j < i {
                    assert(before[keys@[j]].wf());
                }
            }
            i += 1;
        }
        assert forall|row: R| #[trigger] self.row_sets().contains_key(row) implies {
            &&& self.row_sets()[row].wf()
            &&& self.row_sets()[row].domain() == self.domain()
            &&& self.row_sets()[row].bits() == no_bits(cols)
        } by {
            assert(keys@.to_set().contains(row));
            let j = choose|j: int| 0 <= j < keys@.len() && keys@[j] == row;
            assert(self.row_sets()[keys@[j]].wf());
        }
        let ghost cleared = self.row_map();
        let pairs = fx::pairs(&source.matrix);
        let mut k: usize = 0;
        assert(cleared =~= rows_refill(
            old(self).row_map(),
            source.row_map().restrict(keys_before(pairs@, 0)),
            cols,
        ));
        while k < pairs.len()
            invariant
                k <= pairs.len(),
                self.wf(),
                source.wf(),
                cols == source.cols(),
                self.domain() == source.domain(),
                fx::is_listing(pairs@, source.row_sets()),
                self.row_map() == rows_refill(
                    old(self).row_map(),
                    source.row_map().restrict(keys_before(pairs@, k as int)),
                    cols,
                ),
            decreases pairs.len() - k,
        {
            let row = pairs[k].0.clone();
            assert(cloned::<R>(*pairs@[k as int].0, row));
            assert(source.row_sets().contains_key(row));
            assert(source.row_sets()[row].wf());
            let ghost before = self.row_map();
            let set = self.ensure_row(row);
            set.clone_from(pairs[k].1);
            assert(self.row_map() =~= before.insert(row, source.row_map()[row]));
            assert(keys_before(pairs@, k + 1) =~= keys_before(pairs@, k as int).insert(row));
            assert(self.row_map() =~= rows_refill(
                old(self).row_map(),
                source.row_map().restrict(keys_before(pairs@, k + 1)),
                cols,
            ));
            k += 1;
        }
        assert(source.row_map().restrict(keys_before(pairs@, pairs@.len() as int))
            =~= source.row_map()) by {
            assert forall|row: R| source.row_map().contains_key(row) implies keys_before(
                pairs@,
                pairs@.len() as int,
            ).contains(row) by {
                assert(source.row_sets().contains_key(row));
            }
        }
        proof {
            self.lemma_same_rows(source);
        }
    }

    /// The join of a fixed-point computation: joins every row of `other`
    /// into its row here, and says whether any row grew.
    ///
    /// No row loses a member. The number of pairs in the relation grows
    /// exactly when a change is reported, and it never exceeds the number
    /// of rows with an entry times the number of columns; so a sequence of
    /// joins over finitely many rows reports a change only finitely often.
    pub fn join(&mut self, other: &Self) -> (changed: bool)
        requires
            old(self).wf(),
            other.wf(),
            other.cols() == old(self).cols(),
        ensures
            final(self).wf(),
            final(self).domain() == old(self).domain(),
            final(self).empty_row() == old(self).empty_row(),
            final(self).row_map() == rows_join(
                old(self).row_map(),
                old(self).cols(),
                other.row_map(),
            ),
            changed == !same_relation(old(self).row_map(), final(self).row_map(), old(self).cols()),
            forall|row: R|
                members(old(self).row_bits(row)).len()
                    <= members(#[trigger] final(self).row_bits(row)).len(),
            changed == (pairs_of(final(self).row_map()).len()
                > pairs_of(old(self).row_map()).len()),
            pairs_of(final(self).row_map()).len()
                <= final(self).row_map().dom().len() * final(self).cols(),
    {
        let ghost start = old(self).row_map();
        let ghost cols = old(self).cols();
        let pairs = fx::pairs(&other.matrix);
        let mut changed = false;
        let mut i: usize = 0;
        assert(self.row_map() =~= rows_join(
            start,
            cols,
            other.row_map().restrict(keys_before(pairs@, 0)),
        ));
        while i < pairs.len()
            invariant
                i <= pairs.len(),
                self.wf(),
                other.wf(),
                cols == self.cols(),
                cols == other.cols(),
                self.domain() == old(self).domain(),
                self.empty_row() == old(self).empty_row(),
                start == old(self).row_map(),
                fx::is_listing(pairs@, other.row_sets()),
                self.row_map() == rows_join(
                    start,
                    cols,
                    other.row_map().restrict(keys_before(pairs@, i as int)),
                ),
                changed == !same_relation(start, self.row_map(), cols),
            decreases pairs.len() - i,
        {
            let row = pairs[i].0.clone();
            assert(cloned::<R>(*pairs@[i as int].0, row));
            assert(other.row_sets().contains_key(row));
            assert(other.row_sets()[row].wf());
            let ghost before = self.row_map();
            assert(!keys_before(pairs@, i as int).contains(row)) by {
                if keys_before(pairs@, i as int).contains(row) {
                    let j = choose|j: int|
                        0 <= j < i && j < pairs@.len() && *(#[trigger] pairs@[j]).0 == row;
                    assert(*pairs@[j].0 != *pairs@[i as int].0);
                }
            }
            assert(row_of(before, cols, row) == row_of(start, cols, row));
            let set = self.ensure_row(row);
            let grew = set.union_changed(pairs[i].1);
            changed = changed || grew;
            let ghost joined = bits_or(row_of(start, cols, row), other.row_map()[row]);
            assert(self.row_map() =~= before.insert(row, joined));
            assert(keys_before(pairs@, i + 1) =~= keys_before(pairs@, i as int).insert(row));
            assert(self.row_map() =~= rows_join(
                start,
                cols,
                other.row_map().restrict(keys_before(pairs@, i + 1)),
            ));
            proof {
                let now = self.row_map();
                if same_relation(start, before, cols) {
                    if grew {
                        assert(row_of(now, cols, row) != row_of(start, cols, row));
                    } else {
                        assert forall|r: R| #[trigger]
                            row_of(start, cols, r) == row_of(now, cols, r) by {
                            assert(row_of(start, cols, r) == row_of(before, cols, r));
                        }
                    }
                } else {
                    let r = choose|r: R| #[trigger]
                        row_of(start, cols, r) != row_of(before, cols, r);
                    if r == row {
                        assert(false);
                    }
                    assert(row_of(now, cols, r) == row_of(before, cols, r));
                }
            }
            i += 1;
        }
        assert(other.row_map().restrict(keys_before(pairs@, pairs@.len() as int))
            =~= other.row_map()) by {
            assert forall|row: R| other.row_map().contains_key(row) implies keys_before(
                pairs@,
                pairs@.len() as int,
            ).contains(row) by {
                assert(other.row_sets().contains_key(row));
            }
        }
        proof {
            old(self).lemma_rows_fit();
            other.lemma_rows_fit();
            self.lemma_rows_fit();
            lemma_join_grows(start, cols, other.row_map());
            lemma_pairs_bounded(self.row_map(), cols);
            assert forall|row: R|
                members(old(self).row_bits(row)).len() <= members(
                    #[trigger] self.row_bits(row),
                ).len() by {
                lemma_join_superset(start, cols, other.row_map(), row);
                lemma_subset_count(row_of(start, cols, row), self.row_bits(row));
            }
        }
        changed
    }

    /// Returns the handle to the column domain.
    pub fn col_domain(&self) -> (pointer: &P::Pointer)
        ensures
            P::target(pointer) == self.domain(),
    {
        &self.col_domain
    }
}

impl<
    R: Clone + Eq + Hash,
    C: Clone + Eq + Hash,
    S: BitSet,
    P: PointerFamily<IndexedDomain<C>>,
> Clone for IndexMatrix<R, C, S, P> {
    /// A copy in which every row has a set of its own.
    fn clone(&self) -> (copy: Self)
        ensures
            self.wf() ==> copy.wf(),
            self.wf() ==> copy.domain() == self.domain(),
            self.wf() ==> copy.row_map() == self.row_map(),
            self.wf() ==> copy.same_rows(self),
    {
        let mut matrix: FxHashMap<R, IndexSet<C, S, P>> = FxHashMap::default();
        let pairs = fx::pairs(&self.matrix);
        let mut i: usize = 0;
        assert(matrix@.dom() =~= keys_before(pairs@, 0));
        while i < pairs.len()
            invariant
                i <= pairs.len(),
                self.wf() ==> {
                    &&& fx::is_listing(pairs@, self.row_sets())
                    &&& matrix@.dom() == keys_before(pairs@, i as int)
                    &&& forall|row: R| #[trigger]
                        matrix@.contains_key(row) ==> {
                            &&& self.row_sets().contains_key(row)
                            &&& matrix@[row].bits() == self.row_sets()[row].bits()
                            &&& matrix@[row].domain() == self.row_sets()[row].domain()
                        }
                },
            decreases pairs.len() - i,
        {
            let row = pairs[i].0.clone();
            let set = pairs[i].1.clone();
            let ghost before = matrix@;
            fx::insert(&mut matrix, row, set);
            proof {
                if self.wf() {
                    assert(cloned::<R>(*pairs@[i as int].0, row));
                    assert(self.row_sets().contains_key(row));
                    assert(matrix@ == before.insert(row, set));
                    assert(keys_before(pairs@, i + 1) =~= keys_before(pairs@, i as int).insert(
                        row,
                    ));
                    assert(matrix@.dom() =~= keys_before(pairs@, i + 1));
                }
            }
            i += 1;
        }
        let copy = IndexMatrix {
            matrix,
            empty_set: self.empty_set.clone(),
            col_domain: P::share(&self.col_domain),
        };
        proof {
            if self.wf() {
                assert forall|row: R| self.row_sets().contains_key(row) implies keys_before(
                    pairs@,
                    pairs@.len() as int,
                ).contains(row) by {}
                assert(copy.row_sets().dom() =~= self.row_sets().dom());
                assert forall|row: R| #[trigger] copy.row_sets().contains_key(row) implies {
                    &&& copy.row_sets()[row].wf()
                    &&& copy.row_sets()[row].domain() == copy.domain()
                } by {
                    assert(self.row_sets().contains_key(row));
                    assert(self.row_sets()[row].wf());
                }
                assert(copy.row_map() =~= self.row_map());
                copy.lemma_same_rows(self);
            }
        }
        copy
    }
}

impl<
    R: Clone + Eq + Hash,
    C: Clone + Eq + Hash,
    S: BitSet,
    P: PointerFamily<IndexedDomain<C>>,
> PartialEq for IndexMatrix<R, C, S, P> {
    /// Whether both matrices stand for one relation: as many columns, and
    /// the same members in every row. A row with an entry and no member
    /// equals a row without an entry.
    fn eq(&self, other: &Self) -> (same: bool) {
        if !self.empty_set.eq(&other.empty_set) {
            return false;
        }
        if !self.reads_into(other) {
            proof {
                if obeys_key_model::<R>() {
                    let row = choose|row: R| #[trigger]
                        self.row_sets().contains_key(row) && self.row_sets()[row].bits()
                            != other.row_read(row);
                    assert(self.row_read(row) != other.row_read(row));
                }
            }
            return false;
        }
        let same = other.reads_into(self);
        proof {
            if obeys_key_model::<R>() {
                if same {
                    assert forall|row: R| #[trigger]
                        self.row_read(row) == other.row_read(row) by {
                        if self.row_sets().contains_key(row) {
                        } else if other.row_sets().contains_key(row) {
                            assert(other.row_sets()[row].bits() == self.row_read(row));
                        }
                    }
                } else {
                    let row = choose|row: R| #[trigger]
                        other.row_sets().contains_key(row) && other.row_sets()[row].bits()
                            != self.row_read(row);
                    assert(self.row_read(row) != other.row_read(row));
                }
            }
        }
        same
    }
}

impl<
    R: Clone + Eq + Hash,
    C: Clone + Eq + Hash,
    S: BitSet,
    P: PointerFamily<IndexedDomain<C>>,
> PartialEqSpecImpl for IndexMatrix<R, C, S, P> {
    open spec fn obeys_eq_spec() -> bool {
        obeys_key_model::<R>()
    }

    open spec fn eq_spec(&self, other: &Self) -> bool {
        self.same_rows(other)
    }
}

impl<
    R: Clone + Eq + Hash,
    C: Clone + Eq + Hash,
    S: BitSet,
    P: PointerFamily<IndexedDomain<C>>,
> Eq for IndexMatrix<R, C, S, P> {

}

/// After `(row, col)` was inserted, `row` holds `col`, and the value of
/// that column is among the values that `row` lists.
pub proof fn lemma_inserted_is_member<R, C>(
    rows: Map<R, Seq<bool>>,
    values: Seq<C>,
    row: R,
    col: usize,
)
    requires
        rows_fit(rows, values.len()),
        col < values.len() <= usize::MAX,
    ensures
        ({
            let after = rows_insert(rows, values.len(), row, col as int);
            let bits = row_of(after, values.len(), row);
            &&& bits[col as int]
            &&& values_at(values, member_list(bits)).contains(values[col as int])
        }),
{
    let bits = row_of(rows_insert(rows, values.len(), row, col as int), values.len(), row);
    lemma_member_list_contains(bits, col);
    let list = member_list(bits);
    let k = choose|k: int| 0 <= k < list.len() && list[k] == col;
    assert(values_at(values, list)[k] == values[col as int]);
}

/// A row without an entry has no member and lists no value; so does every
/// row of a new matrix, and a row after `clear_row`.
pub proof fn lemma_absent_row_is_empty<R, C>(rows: Map<R, Seq<bool>>, values: Seq<C>, row: R)
    ensures
        !rows.contains_key(row) ==> row_of(rows, values.len(), row) == no_bits(values.len()),
        row_of(rows.remove(row), values.len(), row) == no_bits(values.len()),
        row_of(Map::<R, Seq<bool>>::empty(), values.len(), row) == no_bits(values.len()),
        values_at(values, member_list(no_bits(values.len()))) == Seq::<C>::empty(),
{
    lemma_no_members_listed(values.len());
    assert(values_at(values, Seq::<usize>::empty()) =~= Seq::<C>::empty());
}

/// The empty set lists no member.
pub proof fn lemma_no_members_listed(size: nat)
    ensures
        member_list(no_bits(size)) == Seq::<usize>::empty(),
    decreases size,
{
    if size > 0 {
        lemma_no_members_listed((size - 1) as nat);
        assert(no_bits(size).drop_last() =~= no_bits((size - 1) as nat));
    }
}

/// Joining a row into itself changes nothing.
pub proof fn lemma_union_rows_same_row<R>(rows: Map<R, Seq<bool>>, cols: nat, row: R)
    ensures
        rows_union_rows(rows, cols, row, row) == rows,
{
}

/// After a join every row holds what it held before and what the same row
/// of the other matrix holds.
pub proof fn lemma_join_superset<R>(
    rows: Map<R, Seq<bool>>,
    cols: nat,
    other: Map<R, Seq<bool>>,
    row: R,
)
    requires
        rows_fit(rows, cols),
        rows_fit(other, cols),
    ensures
        bits_subset(row_of(rows, cols, row), row_of(rows_join(rows, cols, other), cols, row)),
        bits_subset(row_of(other, cols, row), row_of(rows_join(rows, cols, other), cols, row)),
{
    if other.contains_key(row) {
        assert(other[row].len() == cols);
    }
    if rows.contains_key(row) {
        assert(rows[row].len() == cols);
    }
}

/// Joining the same matrix in a second time changes no row, so the second
/// `join` reports no change.
pub proof fn lemma_join_absorbs<R>(rows: Map<R, Seq<bool>>, cols: nat, other: Map<R, Seq<bool>>)
    requires
        rows_fit(rows, cols),
        rows_fit(other, cols),
    ensures
        rows_join(rows_join(rows, cols, other), cols, other) == rows_join(rows, cols, other),
        same_relation(
            rows_join(rows, cols, other),
            rows_join(rows_join(rows, cols, other), cols, other),
            cols,
        ),
{
    let once = rows_join(rows, cols, other);
    let twice = rows_join(once, cols, other);
    assert forall|row: R| #[trigger] twice.contains_key(row) implies twice[row] == once[row] by {
        if other.contains_key(row) {
            assert(other[row].len() == cols);
            if rows.contains_key(row) {
                assert(rows[row].len() == cols);
            }
            lemma_union_absorbs(row_of(rows, cols, row), other[row]);
        }
    }
    assert(twice =~= once);
}

/// A join changes the relation exactly if some row gained a member.
pub proof fn lemma_join_changes_by_growth<R>(
    rows: Map<R, Seq<bool>>,
    cols: nat,
    other: Map<R, Seq<bool>>,
)
    requires
        rows_fit(rows, cols),
        rows_fit(other, cols),
    ensures
        same_relation(rows, rows_join(rows, cols, other), cols) <==> forall|row: R| #[trigger]
            other.contains_key(row) ==> bits_subset(other[row], row_of(rows, cols, row)),
{
    let joined = rows_join(rows, cols, other);
    if same_relation(rows, joined, cols) {
        assert forall|row: R| #[trigger] other.contains_key(row) implies bits_subset(
            other[row],
            row_of(rows, cols, row),
        ) by {
            assert(row_of(rows, cols, row) == row_of(joined, cols, row));
            lemma_join_superset(rows, cols, other, row);
        }
    }
    if forall|row: R| #[trigger]
        other.contains_key(row) ==> bits_subset(other[row], row_of(rows, cols, row)) {
        assert forall|row: R| #[trigger]
            row_of(rows, cols, row) == row_of(joined, cols, row) by {
            if other.contains_key(row) {
                assert(bits_subset(other[row], row_of(rows, cols, row)));
                assert(bits_or(row_of(rows, cols, row), other[row]) =~= row_of(rows, cols, row));
            }
        }
    }
}

/// A relation with finitely many rows holds finitely many pairs: at most
/// the number of its rows times the number of columns.
pub proof fn lemma_pairs_bounded<R>(rows: Map<R, Seq<bool>>, cols: nat)
    requires
        rows.dom().finite(),
        rows_fit(rows, cols),
    ensures
        pairs_of(rows).finite(),
        pairs_of(rows).len() <= rows.dom().len() * cols,
    decreases rows.dom().len(),
{
    if rows.dom().len() == 0 {
        lemma_set_empty_equivalency_len(rows.dom());
        assert(pairs_of(rows) =~= Set::<(R, int)>::empty());
    } else {
        let row = rows.dom().choose();
        lemma_set_empty_equivalency_len(rows.dom());
        assert(rows.dom().contains(row));
        let rest = rows.remove(row);
        assert(rest.dom() =~= rows.dom().remove(row));
        lemma_pairs_bounded(rest, cols);
        let in_row = Set::new(
            |pair: (R, int)| pair.0 == row && 0 <= pair.1 < rows[row].len() && rows[row][pair.1],
        );
        let pairing = |i: int| (row, i);
        lemma_members_bounded(rows[row]);
        assert forall|pair: (R, int)| in_row.contains(pair) <==> members(rows[row]).map(
            pairing,
        ).contains(pair) by {
            if in_row.contains(pair) {
                assert(members(rows[row]).contains(pair.1) && pair == pairing(pair.1));
            }
        }
        assert(members(rows[row]).map(pairing) =~= in_row);
        lemma_map_size_bound(members(rows[row]), in_row, pairing);
        assert(pairs_of(rows) =~= pairs_of(rest).union(in_row));
        lemma_len_union(pairs_of(rest), in_row);
        assert(rows[row].len() == cols);
        assert((rows.dom().len() - 1) * cols + cols == rows.dom().len() * cols)
            by (nonlinear_arith);
    }
}

/// Two maps of rows stand for one relation exactly if they hold the same
/// pairs.
pub proof fn lemma_pairs_determine_relation<R>(
    a: Map<R, Seq<bool>>,
    b: Map<R, Seq<bool>>,
    cols: nat,
)
    requires
        rows_fit(a, cols),
        rows_fit(b, cols),
    ensures
        same_relation(a, b, cols) <==> pairs_of(a) == pairs_of(b),
{
    if same_relation(a, b, cols) {
        assert forall|pair: (R, int)| pairs_of(a).contains(pair) <==> pairs_of(b).contains(
            pair,
        ) by {
            assert(row_of(a, cols, pair.0) == row_of(b, cols, pair.0));
        }
        assert(pairs_of(a) =~= pairs_of(b));
    }
    if pairs_of(a) == pairs_of(b) {
        assert forall|row: R| #[trigger] row_of(a, cols, row) == row_of(b, cols, row) by {
            let left = row_of(a, cols, row);
            let right = row_of(b, cols, row);
            if a.contains_key(row) {
                assert(a[row].len() == cols);
            }
            if b.contains_key(row) {
                assert(b[row].len() == cols);
            }
            assert forall|i: int| 0 <= i < cols implies left[i] == right[i] by {
                assert(left[i] <==> pairs_of(a).contains((row, i)));
                assert(right[i] <==> pairs_of(b).contains((row, i)));
            }
            assert(left =~= right);
        }
    }
}

/// A join never takes a pair away, and it reports a change exactly if
/// the relation holds more pairs afterwards. With the bound on the number
/// of pairs, only finitely many joins in a row can report a change while
/// no new row appears.
pub proof fn lemma_join_grows<R>(rows: Map<R, Seq<bool>>, cols: nat, other: Map<R, Seq<bool>>)
    requires
        rows.dom().finite(),
        other.dom().finite(),
        rows_fit(rows, cols),
        rows_fit(other, cols),
    ensures
        pairs_of(rows).subset_of(pairs_of(rows_join(rows, cols, other))),
        pairs_of(rows).len() <= pairs_of(rows_join(rows, cols, other)).len(),
        same_relation(rows, rows_join(rows, cols, other), cols) <==> pairs_of(rows).len()
            == pairs_of(rows_join(rows, cols, other)).len(),
{
    let joined = rows_join(rows, cols, other);
    assert(joined.dom() =~= rows.dom().union(other.dom()));
    assert forall|row: R| #[trigger] joined.contains_key(row) implies joined[row].len()
        == cols by {
        if other.contains_key(row) {
            assert(other[row].len() == cols);
        }
        if rows.contains_key(row) {
            assert(rows[row].len() == cols);
        }
    }
    lemma_pairs_bounded(rows, cols);
    lemma_pairs_bounded(joined, cols);
    assert forall|pair: (R, int)| pairs_of(rows).contains(pair) implies pairs_of(
        joined,
    ).contains(pair) by {
        assert(rows[pair.0].len() == cols);
        assert(joined.contains_key(pair.0));
    }
    lemma_len_subset(pairs_of(rows), pairs_of(joined));
    lemma_pairs_determine_relation(rows, joined, cols);
    if pairs_of(rows).len() == pairs_of(joined).len() {
        lemma_subset_equality(pairs_of(rows), pairs_of(joined));
    }
}

} // verus!

use crate::engine::cell::Cell;
use std::collections::HashSet;
use vstd::prelude::*;
use vstd::std_specs::cmp::PartialEqSpecImpl;

verus! {

broadcast use vstd::std_specs::hash::group_hash_axioms;

/// A number that stands for exactly one cell: the row, moved into the
/// non-negative range, above the column, moved likewise.
spec fn key_of(cell: Cell) -> int {
    (cell.row + 0x8000_0000_0000_0000) * 0x1_0000_0000_0000_0000 + (cell.col
        + 0x8000_0000_0000_0000)
}

proof fn lemma_key_of_is_injective(a: Cell, b: Cell)
    ensures
        key_of(a) == key_of(b) ==> a == b,
        0 <= key_of(a) <= u128::MAX,
{
}

fn key(cell: Cell) -> (k: u128)
    ensures
        k == key_of(cell),
{
    let hi: u128 = (cell.row as i128 + 0x8000_0000_0000_0000) as u128;
    let lo: u128 = (cell.col as i128 + 0x8000_0000_0000_0000) as u128;
    hi * 0x1_0000_0000_0000_0000 + lo
}

/// A finite set of cells: the live cells of a board.
///
/// Membership is answered by a hash index over the cells' keys. The cells
/// themselves are kept in a list beside it, each once, so that the set can be
/// walked.
#[derive(Debug)]
pub struct Cells {
    index: HashSet<u128>,
    list: Vec<Cell>,
}

impl View for Cells {
    type V = Set<Cell>;

    closed spec fn view(&self) -> Set<Cell> {
        self.list@.to_set()
    }
}

impl Cells {
    #[verifier::type_invariant]
    spec fn consistent(self) -> bool {
        &&& self.list@.no_duplicates()
        &&& forall|c: Cell|
            #![trigger self.list@.contains(c)]
            #![trigger key_of(c)]
            self.index@.contains(key_of(c) as u128) <==> self.list@.contains(c)
    }

    /// The empty set.
    pub fn new() -> (cells: Cells)
        ensures
            cells@ == Set::<Cell>::empty(),
    {
        let cells = Cells { index: HashSet::new(), list: Vec::new() };
        assert(cells.list@.to_set() =~= Set::<Cell>::empty());
        cells
    }

    /// The set of the cells of `cells`, each once however often it occurs.
    pub fn from_slice(cells: &[Cell]) -> (set: Cells)
        ensures
            set@ == cells@.to_set(),
    {
        let mut set = Cells::new();
        set.extend_from_slice(cells);
        assert(Set::<Cell>::empty().union(cells@.to_set()) =~= cells@.to_set());
        set
    }

    pub fn contains(&self, cell: &Cell) -> (found: bool)
        ensures
            found == self@.contains(*cell),
    {
        proof {
            use_type_invariant(self);
        }
        let k = key(*cell);
        self.index.contains(&k)
    }

    /// Adds `cell` to the set, and says whether it was new to it.
    pub fn insert(&mut self, cell: Cell) -> (fresh: bool)
        ensures
            final(self)@ == old(self)@.insert(cell),
            fresh == !old(self)@.contains(cell),
    {
        proof {
            use_type_invariant(&*self);
        }
        let k = key(cell);
        if self.index.contains(&k) {
            assert(self@.insert(cell) =~= self@);
            false
        } else {
            let mut taken = Cells::new();
            std::mem::swap(self, &mut taken);
            let Cells { mut index, mut list } = taken;
            index.insert(k);
            list.push(cell);
            proof {
                assert forall|c: Cell|
                    index@.contains(key_of(c) as u128) <==> list@.contains(c) by {
                    lemma_key_of_is_injective(c, cell);
                    if old(self).list@.contains(c) {
                        let i = choose|i: int|
                            0 <= i < old(self).list@.len() && old(self).list@[i] == c;
                        assert(list@[i] == c);
                    }
                    if c == cell {
                        assert(list@[list@.len() - 1] == c);
                    }
                }
                assert(list@.to_set() =~= old(self)@.insert(cell));
            }
            *self = Cells { index, list };
            true
        }
    }

    /// Adds every cell of `cells` to the set.
    pub fn extend_from_slice(&mut self, cells: &[Cell])
        ensures
            final(self)@ == old(self)@.union(cells@.to_set()),
    {
        let mut i: usize = 0;
        while i < cells.len()
            invariant
                i <= cells.len(),
                self@ == old(self)@.union(cells@.take(i as int).to_set()),
            decreases cells.len() - i,
        {
            self.insert(cells[i]);
            proof {
                let before = cells@.take(i as int);
                let after = cells@.take(i + 1);
                assert(after =~= before.push(cells@[i as int]));
                assert(after.to_set() =~= before.to_set().insert(cells@[i as int])) by {
                    assert forall|c: Cell| after.contains(c) <==> before.contains(c) || c
                        == cells@[i as int] by {
                        if before.contains(c) {
                            let j = choose|j: int| 0 <= j < before.len() && before[j] == c;
                            assert(after[j] == c);
                        }
                        if c == cells@[i as int] {
                            assert(after[i as int] == c);
                        }
                    }
                }
                assert(self@ =~= old(self)@.union(after.to_set()));
            }
            i += 1;
        }
        assert(cells@.take(cells@.len() as int) =~= cells@);
    }

    pub fn is_empty(&self) -> (empty: bool)
        ensures
            empty == self@.is_empty(),
            empty == (self@ == Set::<Cell>::empty()),
    {
        let empty = self.list.len() == 0;
        proof {
            if empty {
                assert(self@ =~= Set::<Cell>::empty());
            } else {
                assert(self.list@.contains(self.list@[0]));
                assert(self@.contains(self.list@[0]));
            }
        }
        empty
    }

    /// The number of cells in the set.
    pub fn len(&self) -> (n: usize)
        ensures
            self@.finite(),
            n == self@.len(),
    {
        proof {
            use_type_invariant(self);
            self.list@.unique_seq_to_set();
        }
        self.list.len()
    }

    /// The cells of the set, each once.
    pub fn as_slice(&self) -> (cells: &[Cell])
        ensures
            cells@.no_duplicates(),
            cells@.to_set() == self@,
    {
        proof {
            use_type_invariant(self);
        }
        self.list.as_slice()
    }

    /// Whether every cell of this set is in `other`.
    pub fn is_subset(&self, other: &Cells) -> (included: bool)
        ensures
            included == self@.subset_of(other@),
    {
        let mut i: usize = 0;
        while i < self.list.len()
            invariant
                i <= self.list.len(),
                forall|j: int| 0 <= j < i ==> other@.contains(#[trigger] self.list@[j]),
            decreases self.list.len() - i,
        {
            if !other.contains(&self.list[i]) {
                assert(self@.contains(self.list@[i as int]));
                return false;
            }
            i += 1;
        }
        true
    }
}

impl PartialEqSpecImpl for Cells {
    open spec fn obeys_eq_spec() -> bool {
        true
    }

    open spec fn eq_spec(&self, other: &Cells) -> bool {
        self@ == other@
    }
}

/// Two sets are equal when they hold the same cells, in whatever order
/// these were inserted.
impl PartialEq for Cells {
    fn eq(&self, other: &Cells) -> (equal: bool) {
        let equal = self.len() == other.len() && self.is_subset(other);
        proof {
            if equal {
                vstd::set_lib::lemma_subset_equality(self@, other@);
            }
        }
        equal
    }
}

} // verus!

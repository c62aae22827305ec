use vstd::prelude::*;

verus! {

/// One position of the grid. Coordinates are signed, so that the cells around
/// a cell in row or column 0 exist as well.
#[derive(Debug, PartialEq, Eq, Clone, Copy, Hash, Structural)]
pub struct Cell {
    pub row: isize,
    pub col: isize,
}

impl Cell {
    /// Whether `other` is one of the eight cells around this one: at most one
    /// row and one column away, and not the cell itself.
    pub open spec fn adjacent(self, other: Cell) -> bool {
        &&& self != other
        &&& -1 <= other.row - self.row <= 1
        &&& -1 <= other.col - self.col <= 1
    }

    /// Whether this cell comes before `other` when the grid is read row by
    /// row, each row from its first column on.
    pub open spec fn precedes(self, other: Cell) -> bool {
        self.row < other.row || (self.row == other.row && self.col < other.col)
    }

    pub fn new(row: isize, col: isize) -> (cell: Cell)
        ensures
            cell == (Cell { row, col }),
    {
        Cell { row, col }
    }

    /// The cells around this one, row by row. There are eight of them, fewer
    /// only where this cell lies on the edge of what the coordinates can hold.
    pub fn neighbors(self) -> (around: Vec<Cell>)
        ensures
            forall|n: Cell|
                #![trigger around@.contains(n)]
                #![trigger self.adjacent(n)]
                around@.contains(n) <==> self.adjacent(n),
            forall|i: int, j: int|
                0 <= i < j < around@.len() ==> (#[trigger] around@[i]).precedes(
                    #[trigger] around@[j],
                ),
            around@.no_duplicates(),
            around@.len() <= 8,
    {
        let mut around: Vec<Cell> = Vec::new();
        let mut dr: i8 = -1;
        while dr <= 1
            invariant
                -1 <= dr <= 2,
                around@.len() <= 3 * (dr + 1) - (if dr > 0 { 1int } else { 0int }),
                forall|n: Cell|
                    #![trigger around@.contains(n)]
                    #![trigger self.adjacent(n)]
                    around@.contains(n) <==> self.adjacent(n) && n.row - self.row < dr,
                forall|i: int, j: int|
                    0 <= i < j < around@.len() ==> (#[trigger] around@[i]).precedes(
                        #[trigger] around@[j],
                    ),
            decreases 2 - dr,
        {
            let mut dc: i8 = -1;
            while dc <= 1
                invariant
                    -1 <= dr <= 1,
                    -1 <= dc <= 2,
                    around@.len() <= 3 * (dr + 1) + (dc + 1) - (if dr > 0 || (dr == 0 && dc > 0) {
                        1int
                    } else {
                        0int
                    }),
                    forall|n: Cell|
                        #![trigger around@.contains(n)]
                        #![trigger self.adjacent(n)]
                        around@.contains(n) <==> self.adjacent(n) && (n.row - self.row < dr || (
                        n.row - self.row == dr && n.col - self.col < dc)),
                    forall|i: int, j: int|
                        0 <= i < j < around@.len() ==> (#[trigger] around@[i]).precedes(
                            #[trigger] around@[j],
                        ),
                decreases 2 - dc,
            {
                let row: i128 = self.row as i128 + dr as i128;
                let col: i128 = self.col as i128 + dc as i128;
                if (dr != 0 || dc != 0) && isize::MIN as i128 <= row && row <= isize::MAX as i128
                    && isize::MIN as i128 <= col && col <= isize::MAX as i128 {
                    let next = Cell { row: row as isize, col: col as isize };
                    let ghost before = around@;
                    around.push(next);
                    proof {
                        let after = around@;
                        assert(after == before.push(next));
                        assert forall|n: Cell| after.contains(n) <==> before.contains(n) || n
                            == next by {
                            if before.contains(n) {
                                let i = choose|i: int| 0 <= i < before.len() && before[i] == n;
                                assert(after[i] == n);
                            }
                            if n == next {
                                assert(after[before.len() as int] == n);
                            }
                        }
                        assert forall|i: int, j: int| 0 <= i < j < after.len() implies (
                        #[trigger] after[i]).precedes(#[trigger] after[j]) by {
                            if j == before.len() {
                                assert(before.contains(before[i]));
                                assert(after[i] == before[i]);
                                assert(after[j] == next);
                            } else {
                                assert(after[i] == before[i]);
                                assert(after[j] == before[j]);
                            }
                        }
                    }
                }
                dc += 1;
            }
            dr += 1;
        }
        proof {
            assert forall|i: int, j: int|
                0 <= i < around@.len() && 0 <= j < around@.len() && i != j implies around@[i]
                != around@[j] by {
                if i < j {
                    assert(around@[i].precedes(around@[j]));
                } else {
                    assert(around@[j].precedes(around@[i]));
                }
            }
        }
        around
    }
}

} // verus!

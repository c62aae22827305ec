pub use crate::engine::cell::Cell;
use crate::engine::cells::Cells;
use crate::engine::grid;
use crate::engine::life::{
    generation, lemma_empty_stays_empty, lemma_next_generation_is_near, live_neighbors,
    next_generation,
};
pub use crate::engine::life::{evaluate_cell, living_neighbors};
use vstd::prelude::*;

verus! {

/// A board without bounds: nothing but its live cells.
pub type Board = Cells;

/// The next generation of `board`, on a grid without bounds.
///
/// Every cell is alive in it exactly if the rule says so, given whether it
/// was alive and how many of the cells around it were. So no cell is alive
/// in it that was not alive or next to a live cell, and nothing comes of
/// nothing.
pub fn evolve(board: &Board) -> (next: Board)
    ensures
        next@ == next_generation(board@),
        forall|c: Cell|
            next@.contains(c) ==> board@.contains(c) || exists|n: Cell|
                board@.contains(n) && #[trigger] n.adjacent(c),
        forall|c: Cell|
            board@.contains(c) ==> (#[trigger] next@.contains(c) <==> live_neighbors(board@, c) == 2
                || live_neighbors(board@, c) == 3),
        forall|c: Cell|
            !board@.contains(c) ==> (#[trigger] next@.contains(c) <==> live_neighbors(board@, c)
                == 3),
        board@ == Set::<Cell>::empty() ==> next@ == Set::<Cell>::empty(),
{
    let next = generation(board, None);
    proof {
        assert(next@ =~= next_generation(board@));
        assert forall|c: Cell| next@.contains(c) implies board@.contains(c) || exists|n: Cell|
            board@.contains(n) && #[trigger] n.adjacent(c) by {
            lemma_next_generation_is_near(board@, c);
        }
        if board@ == Set::<Cell>::empty() {
            lemma_empty_stays_empty();
        }
    }
    next
}

/// The cells around `cell`, row by row.
pub fn neighbors(cell: Cell) -> (around: Vec<Cell>)
    ensures
        forall|n: Cell|
            #![trigger around@.contains(n)]
            #![trigger cell.adjacent(n)]
            around@.contains(n) <==> cell.adjacent(n),
        forall|i: int, j: int|
            0 <= i < j < around@.len() ==> (#[trigger] around@[i]).precedes(#[trigger] around@[j]),
        around@.no_duplicates(),
        around@.len() <= 8,
{
    cell.neighbors()
}

/// The live cells that a text grid shows. A text without any token `*`, an
/// empty one too, shows none.
pub fn from_grid(grid: &str) -> (board: Board)
    ensures
        board@ == grid::live_cells(grid@),
{
    match grid::read(grid) {
        Some(shown) => shown.cells,
        None => {
            proof {
                grid::lemma_blank_text_has_no_cells(grid@);
            }
            Cells::new()
        },
    }
}

} // verus!

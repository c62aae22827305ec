use crate::engine::cell::Cell;
pub use crate::engine::cells::Cells;
use crate::engine::grid;
use crate::engine::life;
use vstd::prelude::*;
use vstd::std_specs::cmp::PartialEqSpecImpl;

verus! {

/// Why a board could not be made.
#[derive(Debug, PartialEq, Eq, Clone, Copy, Structural)]
pub enum BoardError {
    /// The text of the grid was empty, or held white space alone.
    InvalidInput,
}

impl BoardError {
    /// What went wrong, in words.
    pub fn message(&self) -> (text: &'static str)
        ensures
            text@ == "Grid cannot be empty"@,
    {
        match self {
            BoardError::InvalidInput => "Grid cannot be empty",
        }
    }
}

/// The live cells of one generation, on a grid of `height` rows and `width`
/// columns. A cell that is not among `cells` is dead.
///
/// The grid bounds the next generation: only cells in rows
/// `0..height` and columns `0..width` are alive after a step. Nothing keeps
/// `cells` itself within these bounds.
#[derive(Debug)]
pub struct Board {
    pub cells: Cells,
    pub height: usize,
    pub width: usize,
}

impl Board {
    pub fn new(cells: Cells, height: usize, width: usize) -> (board: Board)
        ensures
            board.cells == cells,
            board.height == height,
            board.width == width,
    {
        Board { cells, height, width }
    }

    /// The board that a text grid shows. Its height is the number of lines
    /// of the text, its width the number of tokens in the last line.
    pub fn from_grid(grid: &str) -> (made: Result<Board, BoardError>)
        ensures
            made is Err <==> grid::trim(grid@).len() == 0,
            made matches Err(e) ==> e == BoardError::InvalidInput,
            made matches Ok(board) ==> {
                &&& board.cells@ == grid::live_cells(grid@)
                &&& board.height == grid::height(grid@)
                &&& board.width == grid::width(grid@)
            },
    {
        match grid::read(grid) {
            Some(shown) => Ok(Board { cells: shown.cells, height: shown.height, width: shown.width }),
            None => Err(BoardError::InvalidInput),
        }
    }

    /// A board of the given size with no live cell.
    pub fn from_size(height: usize, width: usize) -> (board: Board)
        ensures
            board.cells@ == Set::<Cell>::empty(),
            board.height == height,
            board.width == width,
    {
        Board { cells: Cells::new(), height, width }
    }

    /// The board without rows or columns.
    pub fn empty() -> (board: Board)
        ensures
            board.cells@ == Set::<Cell>::empty(),
            board.height == 0,
            board.width == 0,
    {
        Board { cells: Cells::new(), height: 0, width: 0 }
    }

    /// Whether no cell of the board is alive.
    pub fn is_empty(&self) -> (empty: bool)
        ensures
            empty == (self.cells@ == Set::<Cell>::empty()),
    {
        self.cells.is_empty()
    }

    pub fn height(&self) -> (height: usize)
        ensures
            height == self.height,
    {
        self.height
    }

    pub fn width(&self) -> (width: usize)
        ensures
            width == self.width,
    {
        self.width
    }

    /// The live cells.
    pub fn cells(&self) -> (cells: &Cells)
        ensures
            cells == &self.cells,
    {
        &self.cells
    }

    /// The next generation on the same grid.
    pub fn evolve(&self) -> (next: Board)
        ensures
            next.cells@ == life::next_generation_on_grid(self.cells@, self.height, self.width),
            next.height == self.height,
            next.width == self.width,
    {
        life::evolve(self)
    }

    /// Whether `cell` is alive.
    pub fn contains(&self, cell: Cell) -> (alive: bool)
        ensures
            alive == self.cells@.contains(cell),
    {
        self.cells.contains(&cell)
    }
}

impl PartialEqSpecImpl for Board {
    open spec fn obeys_eq_spec() -> bool {
        true
    }

    open spec fn eq_spec(&self, other: &Board) -> bool {
        &&& self.cells@ == other.cells@
        &&& self.height == other.height
        &&& self.width == other.width
    }
}

/// Two boards are equal when they have the same live cells on grids of the
/// same size.
impl PartialEq for Board {
    fn eq(&self, other: &Board) -> (equal: bool) {
        self.height == other.height && self.width == other.width && self.cells == other.cells
    }
}

} // verus!

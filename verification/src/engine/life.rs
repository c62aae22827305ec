use crate::engine::board::Board;
use crate::engine::cell::Cell;
use crate::engine::cells::Cells;
use crate::engine::settings::integers;
use config::Config;
use vstd::prelude::*;

verus! {

broadcast use vstd::function::group_function_axioms;

/// The rule of the game: a live cell stays alive with two or three live
/// cells around it, a dead cell comes alive with exactly three.
pub open spec fn rule(alive: bool, live_neighbors: nat) -> bool {
    if alive {
        live_neighbors == 2 || live_neighbors == 3
    } else {
        live_neighbors == 3
    }
}

/// The live cells around `cell`.
pub open spec fn live_around(live: Set<Cell>, cell: Cell) -> Set<Cell> {
    Set::new(|n: Cell| live.contains(n) && cell.adjacent(n))
}

/// How many of the cells around `cell` are alive.
pub open spec fn live_neighbors(live: Set<Cell>, cell: Cell) -> nat {
    live_around(live, cell).len()
}

/// Whether `cell` is alive in the generation after `live`.
pub open spec fn next_alive(live: Set<Cell>, cell: Cell) -> bool {
    rule(live.contains(cell), live_neighbors(live, cell))
}

/// The generation after `live`, on a grid without bounds.
pub open spec fn next_generation(live: Set<Cell>) -> Set<Cell> {
    Set::new(|c: Cell| next_alive(live, c))
}

/// Applies the rule to one cell, given whether it is alive and how many of
/// the cells around it are.
pub fn evaluate_cell(alive: bool, neighbors: usize) -> (next: bool)
    ensures
        next == rule(alive, neighbors as nat),
        alive ==> (next <==> neighbors == 2 || neighbors == 3),
        !alive ==> (next <==> neighbors == 3),
{
    if alive {
        neighbors == 2 || neighbors == 3
    } else {
        neighbors == 3
    }
}

/// Calls `visitor` on each of the cells around `cell`, row by row.
pub fn visit_neighbors<F>(cell: Cell, mut visitor: F) where F: FnMut(Cell)
    requires
        forall|n: Cell| cell.adjacent(n) ==> call_requires(visitor, (n,)),
    ensures
        forall|n: Cell| cell.adjacent(n) ==> call_ensures(visitor, (n,), ()),
{
    let ghost given = visitor;
    let around = cell.neighbors();
    let mut i: usize = 0;
    while i < around.len()
        invariant
            i <= around.len(),
            visitor == given,
            forall|n: Cell| around@.contains(n) <==> cell.adjacent(n),
            forall|n: Cell| cell.adjacent(n) ==> call_requires(given, (n,)),
            forall|j: int| 0 <= j < i ==> call_ensures(given, (#[trigger] around@[j],), ()),
        decreases around.len() - i,
    {
        assert(around@.contains(around@[i as int]));
        assert(cell.adjacent(around@[i as int]));
        visitor(around[i]);
        i += 1;
    }
    assert forall|n: Cell| cell.adjacent(n) implies call_ensures(given, (n,), ()) by {
        assert(around@.contains(n));
        let j = choose|j: int| 0 <= j < around@.len() && around@[j] == n;
        assert(call_ensures(given, (around@[j],), ()));
    }
}

/// Whether `cell` lies on a grid of `height` rows and `width` columns.
pub open spec fn on_grid(cell: Cell, height: usize, width: usize) -> bool {
    0 <= cell.row < height && 0 <= cell.col < width
}

/// The coordinate `delta` away from `from`, or the nearest one that exists.
spec fn shifted(from: isize, delta: int) -> isize {
    if from + delta < isize::MIN {
        isize::MIN
    } else if from + delta > isize::MAX {
        isize::MAX
    } else {
        (from + delta) as isize
    }
}

spec fn moved(cell: Cell, rows: int, cols: int) -> Cell {
    Cell { row: shifted(cell.row, rows), col: shifted(cell.col, cols) }
}

/// The live cells around a cell are among the eight cells around it, so
/// there are finitely many of them, and at most eight.
pub proof fn lemma_live_around_is_small(live: Set<Cell>, cell: Cell)
    ensures
        live_around(live, cell).finite(),
        live_neighbors(live, cell) <= 8,
{
    let square =
        set![
        moved(cell, -1, -1),
        moved(cell, -1, 0),
        moved(cell, -1, 1),
        moved(cell, 0, -1),
        moved(cell, 0, 1),
        moved(cell, 1, -1),
        moved(cell, 1, 0),
        moved(cell, 1, 1),
    ];
    assert(square.finite() && square.len() <= 8);
    assert forall|n: Cell| live_around(live, cell).contains(n) implies square.contains(n) by {
        assert(n == moved(cell, n.row - cell.row, n.col - cell.col));
    }
    vstd::set_lib::lemma_len_subset(live_around(live, cell), square);
}

/// The live cells around `cell`, row by row.
pub fn living_neighbors(cell: Cell, live: &Cells) -> (living: Vec<Cell>)
    ensures
        living@.to_set() == live_around(live@, cell),
        living@.no_duplicates(),
        forall|i: int, j: int|
            0 <= i < j < living@.len() ==> (#[trigger] living@[i]).precedes(#[trigger] living@[j]),
        living@.len() == live_neighbors(live@, cell),
{
    let around = cell.neighbors();
    let mut living: Vec<Cell> = Vec::new();
    let mut i: usize = 0;
    while i < around.len()
        invariant
            i <= around.len(),
            forall|n: Cell|
                #![trigger around@.contains(n)]
                #![trigger cell.adjacent(n)]
                around@.contains(n) <==> cell.adjacent(n),
            forall|a: int, b: int|
                0 <= a < b < around@.len() ==> (#[trigger] around@[a]).precedes(
                    #[trigger] around@[b],
                ),
            forall|n: Cell|
                living@.contains(n) <==> live@.contains(n) && exists|a: int|
                    0 <= a < i && around@[a] == n,
            forall|a: int, b: int|
                0 <= a < b < living@.len() ==> (#[trigger] living@[a]).precedes(
                    #[trigger] living@[b],
                ),
        decreases around.len() - i,
    {
        let next = around[i];
        if live.contains(&next) {
            let ghost before = living@;
            living.push(next);
            proof {
                let after = living@;
                assert forall|n: Cell| after.contains(n) <==> before.contains(n) || n == next by {
                    if before.contains(n) {
                        let a = choose|a: int| 0 <= a < before.len() && before[a] == n;
                        assert(after[a] == n);
                    }
                    if n == next {
                        assert(after[before.len() as int] == n);
                    }
                }
                assert forall|a: int, b: int| 0 <= a < b < after.len() implies (
                #[trigger] after[a]).precedes(#[trigger] after[b]) by {
                    if b == before.len() {
                        assert(before.contains(before[a]));
                        let k = choose|k: int| 0 <= k < i && around@[k] == before[a];
                        assert(around@[k].precedes(around@[i as int]));
                    }
                }
            }
        }
        i += 1;
    }
    proof {
        assert forall|a: int, b: int|
            0 <= a < living@.len() && 0 <= b < living@.len() && a != b implies living@[a]
            != living@[b] by {
            if a < b {
                assert(living@[a].precedes(living@[b]));
            } else {
                assert(living@[b].precedes(living@[a]));
            }
        }
        assert forall|n: Cell| living@.to_set().contains(n) <==> live_around(live@, cell).contains(
            n,
        ) by {
            if live@.contains(n) && cell.adjacent(n) {
                assert(around@.contains(n));
                let a = choose|a: int| 0 <= a < around@.len() && around@[a] == n;
                assert(living@.contains(n));
            }
            if living@.contains(n) {
                let a = choose|a: int| 0 <= a < i && around@[a] == n;
                assert(around@.contains(n));
            }
        }
        assert(living@.to_set() =~= live_around(live@, cell));
        living@.unique_seq_to_set();
    }
    living
}

/// Whether a cell may be alive within `bounds`: anywhere without bounds, only
/// on the grid with them.
pub open spec fn admitted(cell: Cell, bounds: Option<(usize, usize)>) -> bool {
    match bounds {
        Some((height, width)) => on_grid(cell, height, width),
        None => true,
    }
}

fn is_admitted(cell: Cell, bounds: Option<(usize, usize)>) -> (yes: bool)
    ensures
        yes == admitted(cell, bounds),
{
    match bounds {
        Some((height, width)) => {
            cell.row >= 0 && cell.col >= 0 && (cell.row as usize) < height && (cell.col as usize)
                < width
        },
        None => true,
    }
}

/// Whether `cell` is one of the first `upto` cells of `cells`, or next to one.
spec fn reached(cells: Seq<Cell>, upto: int, cell: Cell) -> bool {
    exists|j: int| 0 <= j < upto && (#[trigger] cells[j] == cell || cells[j].adjacent(cell))
}

/// Whether `cell` is one of the first `upto` cells of `cells`.
spec fn listed(cells: Seq<Cell>, upto: int, cell: Cell) -> bool {
    exists|m: int| 0 <= m < upto && #[trigger] cells[m] == cell
}

/// The generation after `live` on a grid of `height` rows and `width`
/// columns: the rule decides for the cells on the grid, and no cell off the
/// grid is alive.
pub open spec fn next_generation_on_grid(live: Set<Cell>, height: usize, width: usize) -> Set<
    Cell,
> {
    Set::new(|c: Cell| on_grid(c, height, width) && next_alive(live, c))
}

/// No cell of the next generation is far from the live cells: it was
/// alive itself, or a live cell stood next to it.
pub proof fn lemma_next_generation_is_near(live: Set<Cell>, cell: Cell)
    requires
        next_generation(live).contains(cell),
    ensures
        live.contains(cell) || exists|n: Cell| live.contains(n) && #[trigger] n.adjacent(cell),
{
    if !live.contains(cell) {
        lemma_live_around_is_small(live, cell);
        let n = live_around(live, cell).choose();
        assert(live_around(live, cell).contains(n));
        assert(live.contains(n) && n.adjacent(cell));
    }
}

/// A live cell is alive in the next generation exactly if two or three of
/// the cells around it are alive.
pub proof fn lemma_survival(live: Set<Cell>, cell: Cell)
    requires
        live.contains(cell),
    ensures
        next_generation(live).contains(cell) <==> (live_neighbors(live, cell) == 2
            || live_neighbors(live, cell) == 3),
{
}

/// A dead cell is alive in the next generation exactly if three of the
/// cells around it are alive.
pub proof fn lemma_birth(live: Set<Cell>, cell: Cell)
    requires
        !live.contains(cell),
    ensures
        next_generation(live).contains(cell) <==> live_neighbors(live, cell) == 3,
{
}

/// Where no cell is alive, none is in the next generation.
pub proof fn lemma_empty_stays_empty()
    ensures
        next_generation(Set::<Cell>::empty()) == Set::<Cell>::empty(),
{
    let none = Set::<Cell>::empty();
    assert forall|c: Cell| !next_generation(none).contains(c) by {
        assert(live_around(none, c) =~= Set::<Cell>::empty());
    }
    assert(next_generation(none) =~= none);
}

/// On a grid, the next generation is that of the grid without bounds, cut
/// to the grid.
pub proof fn lemma_grid_cuts_next_generation(live: Set<Cell>, height: usize, width: usize)
    ensures
        forall|c: Cell|
            #![trigger next_generation_on_grid(live, height, width).contains(c)]
            next_generation_on_grid(live, height, width).contains(c) <==> on_grid(c, height, width)
                && next_generation(live).contains(c),
{
}

/// The generation after `live`: of all cells that `bounds` admit, those
/// that the rule keeps or brings alive.
pub(crate) fn generation(live: &Cells, bounds: Option<(usize, usize)>) -> (next: Cells)
    ensures
        forall|c: Cell|
            #![trigger next@.contains(c)]
            next@.contains(c) <==> admitted(c, bounds) && next_alive(live@, c),
{
    let cells = live.as_slice();
    let mut candidates = Cells::new();
    let mut i: usize = 0;
    while i < cells.len()
        invariant
            i <= cells.len(),
            forall|c: Cell| candidates@.contains(c) <==> reached(cells@, i as int, c),
        decreases cells.len() - i,
    {
        let cell = cells[i];
        let around = cell.neighbors();
        let ghost before = candidates@;
        candidates.insert(cell);
        candidates.extend_from_slice(around.as_slice());
        proof {
            assert forall|c: Cell| candidates@.contains(c) <==> reached(cells@, i + 1, c) by {
                assert(around@.contains(c) <==> cell.adjacent(c));
                assert(candidates@.contains(c) <==> before.contains(c) || c == cell
                    || around@.contains(c));
                if reached(cells@, i as int, c) {
                    let j = choose|j: int|
                        0 <= j < i && (#[trigger] cells@[j] == c || cells@[j].adjacent(c));
                    assert(0 <= j < i + 1 && (cells@[j] == c || cells@[j].adjacent(c)));
                }
                if c == cell || cell.adjacent(c) {
                    assert(cells@[i as int] == c || cells@[i as int].adjacent(c));
                }
                if reached(cells@, i + 1, c) {
                    let j = choose|j: int|
                        0 <= j < i + 1 && (#[trigger] cells@[j] == c || cells@[j].adjacent(c));
                    if j < i {
                        assert(reached(cells@, i as int, c));
                    }
                }
            }
        }
        i += 1;
    }
    let pool = candidates.as_slice();
    let mut next = Cells::new();
    let mut j: usize = 0;
    while j < pool.len()
        invariant
            j <= pool.len(),
            forall|c: Cell|
                #![trigger next@.contains(c)]
                #![trigger listed(pool@, j as int, c)]
                next@.contains(c) <==> admitted(c, bounds) && next_alive(live@, c) && listed(
                    pool@,
                    j as int,
                    c,
                ),
        decreases pool.len() - j,
    {
        let cell = pool[j];
        let ghost before = next@;
        let mut chosen = false;
        if is_admitted(cell, bounds) {
            let living = living_neighbors(cell, live);
            chosen = evaluate_cell(live.contains(&cell), living.len());
        }
        if chosen {
            next.insert(cell);
        }
        proof {
            assert(chosen == (admitted(cell, bounds) && next_alive(live@, cell)));
            assert forall|c: Cell|
                #![trigger next@.contains(c)]
                #![trigger listed(pool@, j + 1, c)]
                next@.contains(c) <==> admitted(c, bounds) && next_alive(live@, c) && listed(
                    pool@,
                    j + 1,
                    c,
                ) by {
                assert(next@.contains(c) <==> before.contains(c) || (chosen && c == cell));
                if listed(pool@, j as int, c) {
                    let m = choose|m: int| 0 <= m < j && #[trigger] pool@[m] == c;
                    assert(0 <= m < j + 1 && pool@[m] == c);
                }
                if listed(pool@, j + 1, c) {
                    let m = choose|m: int| 0 <= m < j + 1 && #[trigger] pool@[m] == c;
                    if m < j {
                        assert(listed(pool@, j as int, c));
                    }
                }
                if c == cell {
                    assert(pool@[j as int] == c);
                }
            }
        }
        j += 1;
    }
    proof {
        assert forall|c: Cell| admitted(c, bounds) && next_alive(live@, c) implies next@.contains(
            c,
        ) by {
            lemma_next_generation_is_near(live@, c);
            if live@.contains(c) {
                assert(cells@.contains(c));
                let k = choose|k: int| 0 <= k < cells@.len() && cells@[k] == c;
                assert(reached(cells@, cells@.len() as int, c));
            } else {
                let n = choose|n: Cell| live@.contains(n) && #[trigger] n.adjacent(c);
                assert(cells@.contains(n));
                let k = choose|k: int| 0 <= k < cells@.len() && cells@[k] == n;
                assert(reached(cells@, cells@.len() as int, c));
            }
            assert(candidates@.contains(c));
            assert(pool@.contains(c));
            let m = choose|m: int| 0 <= m < pool@.len() && pool@[m] == c;
            assert(listed(pool@, j as int, c));
        }
    }
    next
}

/// How many of the cells around `cell` are alive on `board`. Cells off the
/// grid count like any other.
pub fn neighbors(board: &Board, cell: Cell) -> (count: usize)
    ensures
        count == live_neighbors(board.cells@, cell),
        count <= 8,
{
    proof {
        lemma_live_around_is_small(board.cells@, cell);
    }
    living_neighbors(cell, &board.cells).len()
}

/// The next generation of `board`, on the same grid.
///
/// Every cell on the grid is alive in it exactly if the rule says so, given
/// whether it was alive and how many of the cells around it were. Live cells
/// off the grid count as neighbors, and are dead in the next generation.
pub fn evolve(board: &Board) -> (next: Board)
    ensures
        next.cells@ == next_generation_on_grid(board.cells@, board.height, board.width),
        next.height == board.height,
        next.width == board.width,
        forall|c: Cell|
            next.cells@.contains(c) ==> on_grid(c, board.height, board.width) && (
            board.cells@.contains(c) || exists|n: Cell|
                board.cells@.contains(n) && #[trigger] n.adjacent(c)),
        forall|c: Cell|
            on_grid(c, board.height, board.width) && board.cells@.contains(c) ==> (
            #[trigger] next.cells@.contains(c) <==> live_neighbors(board.cells@, c) == 2
                || live_neighbors(board.cells@, c) == 3),
        forall|c: Cell|
            on_grid(c, board.height, board.width) && !board.cells@.contains(c) ==> (
            #[trigger] next.cells@.contains(c) <==> live_neighbors(board.cells@, c) == 3),
        board.cells@ == Set::<Cell>::empty() ==> next.cells@ == Set::<Cell>::empty(),
{
    let cells = generation(&board.cells, Some((board.height, board.width)));
    proof {
        assert(cells@ =~= next_generation_on_grid(board.cells@, board.height, board.width));
        assert forall|c: Cell| cells@.contains(c) implies board.cells@.contains(c) || exists|
            n: Cell,
        | board.cells@.contains(n) && #[trigger] n.adjacent(c) by {
            lemma_next_generation_is_near(board.cells@, c);
        }
        if board.cells@ == Set::<Cell>::empty() {
            lemma_empty_stays_empty();
            assert(cells@ =~= Set::<Cell>::empty());
        }
    }
    Board { cells, height: board.height, width: board.width }
}

/// Where in the settings the number of rows of a new board stands.
pub open spec fn height_key() -> Seq<char> {
    "height"@
}

/// Where in the settings the number of columns of a new board stands.
pub open spec fn width_key() -> Seq<char> {
    "width"@
}

/// Whether the settings give both the height and the width of a board.
pub open spec fn gives_size(config: Config) -> bool {
    integers(config).contains_key(height_key()) && integers(config).contains_key(width_key())
}

/// The board without live cells whose height and width are the two numbers.
/// A number that is negative or too large for a size is cut to the bits that
/// a size holds.
pub fn board_of_size(height: i64, width: i64) -> (board: Board)
    ensures
        board.cells@ == Set::<Cell>::empty(),
        board.height == height as usize,
        board.width == width as usize,
{
    Board::from_size(
        #[verifier::truncate]
        (height as usize),
        #[verifier::truncate]
        (width as usize),
    )
}

/// The board that the settings ask for: the one that `board_of_size` makes
/// of the height and the width that they give.
pub fn new_board(config: Config) -> (board: Board)
    requires
        gives_size(config),
    ensures
        board.cells@ == Set::<Cell>::empty(),
        board.height == integers(config)[height_key()] as usize,
        board.width == integers(config)[width_key()] as usize,
{
    let height = match config.get_int("height") {
        Ok(number) => number,
        Err(_) => vstd::pervasive::unreached(),
    };
    let width = match config.get_int("width") {
        Ok(number) => number,
        Err(_) => vstd::pervasive::unreached(),
    };
    board_of_size(height, width)
}

/// The board that the settings ask for, where they give its height and its
/// width; nothing where they leave one of them out.
pub fn try_new_board(config: Config) -> (board: Option<Board>)
    ensures
        board is Some <==> gives_size(config),
        board matches Some(b) ==> {
            &&& b.cells@ == Set::<Cell>::empty()
            &&& b.height == integers(config)[height_key()] as usize
            &&& b.width == integers(config)[width_key()] as usize
        },
{
    if config.get_int("height").is_ok() && config.get_int("width").is_ok() {
        Some(new_board(config))
    } else {
        None
    }
}

} // verus!

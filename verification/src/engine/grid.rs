use crate::engine::cell::Cell;
use crate::engine::cells::Cells;
use vstd::prelude::*;

verus! {

/// Whether `c` is white space as Unicode defines it (the property
/// `White_Space`): what is trimmed from a text and from each of its lines.
pub open spec fn is_whitespace(c: char) -> bool {
    let u = c as u32;
    ||| 0x09 <= u <= 0x0D
    ||| u == 0x20
    ||| u == 0x85
    ||| u == 0xA0
    ||| u == 0x1680
    ||| 0x2000 <= u <= 0x200A
    ||| u == 0x2028
    ||| u == 0x2029
    ||| u == 0x202F
    ||| u == 0x205F
    ||| u == 0x3000
}

/// `s` without the white space at its start.
pub open spec fn trim_start(s: Seq<char>) -> Seq<char>
    decreases s.len(),
{
    if s.len() > 0 && is_whitespace(s.first()) {
        trim_start(s.drop_first())
    } else {
        s
    }
}

/// `s` without the white space at its end.
pub open spec fn trim_end(s: Seq<char>) -> Seq<char>
    decreases s.len(),
{
    if s.len() > 0 && is_whitespace(s.last()) {
        trim_end(s.drop_last())
    } else {
        s
    }
}

/// `s` without the white space at its start and at its end.
pub open spec fn trim(s: Seq<char>) -> Seq<char> {
    trim_end(trim_start(s))
}

/// How many characters of `s` stand before its first `sep`: all of them
/// where it holds none.
pub open spec fn prefix_len(s: Seq<char>, sep: char) -> nat
    decreases s.len(),
{
    if s.len() == 0 || s.first() == sep {
        0
    } else {
        1 + prefix_len(s.drop_first(), sep)
    }
}

/// The pieces of `s` between each `sep` and the next. There is one piece more
/// than `s` holds separators, so at least one, and a piece may be empty.
pub open spec fn split(s: Seq<char>, sep: char) -> Seq<Seq<char>>
    decreases s.len(),
{
    let n = prefix_len(s, sep) as int;
    if n >= s.len() {
        seq![s]
    } else {
        seq![s.take(n)] + split(s.skip(n + 1), sep)
    }
}

/// The lines of a text: what stands between the line feeds of the trimmed
/// text.
pub open spec fn lines(text: Seq<char>) -> Seq<Seq<char>> {
    split(trim(text), '\n')
}

/// The tokens of a line: what stands between the single spaces of the
/// trimmed line. Two spaces in a row hold an empty token between them.
pub open spec fn tokens(line: Seq<char>) -> Seq<Seq<char>> {
    split(trim(line), ' ')
}

/// Whether a token marks a live cell. Every other token marks a dead one.
pub open spec fn marks_alive(token: Seq<char>) -> bool {
    token.len() == 1 && token[0] == '*'
}

/// Whether the token in column `col` of `line` marks a live cell.
pub open spec fn alive_in_line(line: Seq<char>, col: int) -> bool {
    0 <= col < tokens(line).len() && marks_alive(tokens(line)[col])
}

/// Whether `cell` is alive in the grid that `text` shows: its row is a line
/// of the text, and its column a token of that line that marks a live cell.
pub open spec fn alive_in(text: Seq<char>, cell: Cell) -> bool {
    0 <= cell.row < lines(text).len() && alive_in_line(
        lines(text)[cell.row as int],
        cell.col as int,
    )
}

/// The live cells of the grid that `text` shows.
pub open spec fn live_cells(text: Seq<char>) -> Set<Cell> {
    Set::new(|c: Cell| alive_in(text, c))
}

/// The number of rows of the grid that `text` shows.
pub open spec fn height(text: Seq<char>) -> nat {
    lines(text).len()
}

/// The number of columns of the grid that `text` shows: the number of tokens
/// in its last line. Lines of other lengths are taken as they are.
pub open spec fn width(text: Seq<char>) -> nat {
    tokens(lines(text).last()).len()
}

fn whitespace(c: char) -> (yes: bool)
    ensures
        yes == is_whitespace(c),
{
    let u = c as u32;
    (0x09 <= u && u <= 0x0D) || u == 0x20 || u == 0x85 || u == 0xA0 || u == 0x1680 || (0x2000 <= u
        && u <= 0x200A) || u == 0x2028 || u == 0x2029 || u == 0x202F || u == 0x205F || u == 0x3000
}

fn characters(text: &str) -> (chars: Vec<char>)
    ensures
        chars@ == text@,
{
    let mut chars: Vec<char> = Vec::new();
    for c in it: text.chars()
        invariant
            chars@ == it.seq().take(it.index() as int),
    {
        chars.push(c);
    }
    chars
}

/// The part of `s` between `lo` and `hi` that `trim` leaves, by its bounds.
fn trim_range(s: &Vec<char>, lo: usize, hi: usize) -> (range: (usize, usize))
    requires
        lo <= hi <= s.len(),
    ensures
        lo <= range.0 <= range.1 <= hi,
        s@.subrange(range.0 as int, range.1 as int) == trim(s@.subrange(lo as int, hi as int)),
        range.0 < range.1 ==> !is_whitespace(s@[range.0 as int]) && !is_whitespace(
            s@[range.1 - 1],
        ),
{
    let mut a = lo;
    while a < hi && whitespace(s[a])
        invariant
            lo <= a <= hi <= s.len(),
            trim_start(s@.subrange(lo as int, hi as int)) == trim_start(
                s@.subrange(a as int, hi as int),
            ),
        decreases hi - a,
    {
        assert(s@.subrange(a as int, hi as int).drop_first() =~= s@.subrange(a + 1, hi as int));
        a += 1;
    }
    let mut b = hi;
    while a < b && whitespace(s[b - 1])
        invariant
            a <= b <= hi <= s.len(),
            trim_end(s@.subrange(a as int, hi as int)) == trim_end(s@.subrange(a as int, b as int)),
        decreases b - a,
    {
        assert(s@.subrange(a as int, b as int).drop_last() =~= s@.subrange(a as int, b - 1));
        b -= 1;
    }
    (a, b)
}

/// Where the first `sep` between `lo` and `hi` stands: `hi` if there is none.
fn find(s: &Vec<char>, lo: usize, hi: usize, sep: char) -> (at: usize)
    requires
        lo <= hi <= s.len(),
    ensures
        lo <= at <= hi,
        at - lo == prefix_len(s@.subrange(lo as int, hi as int), sep),
        at < hi ==> s@[at as int] == sep,
{
    let mut at = lo;
    while at < hi && s[at] != sep
        invariant
            lo <= at <= hi <= s.len(),
            prefix_len(s@.subrange(lo as int, hi as int), sep) == (at - lo) + prefix_len(
                s@.subrange(at as int, hi as int),
                sep,
            ),
        decreases hi - at,
    {
        assert(s@.subrange(at as int, hi as int).drop_first() =~= s@.subrange(at + 1, hi as int));
        at += 1;
    }
    at
}

/// Reads the line of `s` between `lo` and `hi` as row `row` of a grid: adds
/// its live cells to `cells`, and gives the number of its tokens.
fn read_line(s: &Vec<char>, lo: usize, hi: usize, row: usize, cells: &mut Cells) -> (count: usize)
    requires
        lo <= hi <= s.len(),
    ensures
        count == tokens(s@.subrange(lo as int, hi as int)).len(),
        forall|c: Cell|
            final(cells)@.contains(c) <==> old(cells)@.contains(c) || (c.row == row
                && alive_in_line(s@.subrange(lo as int, hi as int), c.col as int)),
{
    let ghost line = s@.subrange(lo as int, hi as int);
    let (a, b) = trim_range(s, lo, hi);
    let ghost mut done: Seq<Seq<char>> = Seq::empty();
    let mut from = a;
    let mut col: usize = 0;
    loop
        invariant_except_break
            a <= from <= b <= s.len(),
            col <= from - a,
            from == a || s@[from - 1] == ' ',
            tokens(line) == done + split(s@.subrange(from as int, b as int), ' '),
        invariant
            a <= b <= s.len(),
            s@.subrange(a as int, b as int) == trim(line),
            a < b ==> !is_whitespace(s@[b - 1]),
            done.len() == col,
            forall|c: Cell|
                cells@.contains(c) <==> old(cells)@.contains(c) || (c.row == row && 0 <= c.col
                    < col && marks_alive(done[c.col as int])),
        ensures
            col == tokens(line).len(),
            done == tokens(line),
        decreases b - from,
    {
        let to = find(s, from, b, ' ');
        let ghost token = s@.subrange(from as int, to as int);
        let ghost rest = s@.subrange(from as int, b as int);
        proof {
            assert(rest.take(to - from) =~= token);
            if to < b {
                assert(rest.skip(to - from + 1) =~= s@.subrange(to + 1, b as int));
                assert(done + (seq![token] + split(s@.subrange(to + 1, b as int), ' '))
                    =~= done.push(token) + split(s@.subrange(to + 1, b as int), ' '));
            } else {
                assert(rest =~= token);
                assert(done + seq![token] =~= done.push(token));
            }
        }
        let alive = to - from == 1 && s[from] == '*';
        assert(alive == marks_alive(token));
        if alive && row <= isize::MAX as usize && col <= isize::MAX as usize {
            cells.insert(Cell { row: row as isize, col: col as isize });
        }
        proof {
            assert forall|c: Cell|
                cells@.contains(c) <==> old(cells)@.contains(c) || (c.row == row && 0 <= c.col
                    < col + 1 && marks_alive(done.push(token)[c.col as int])) by {
                if c.row == row && 0 <= c.col < col {
                    assert(done.push(token)[c.col as int] == done[c.col as int]);
                }
            }
            done = done.push(token);
        }
        if to == b {
            col += 1;
            break ;
        }
        from = to + 1;
        col += 1;
    }
    col
}

/// What a text grid shows: its live cells, the number of its rows and the
/// number of its columns.
pub struct Grid {
    pub cells: Cells,
    pub height: usize,
    pub width: usize,
}

/// A text of white space alone, or of nothing, shows no live cell.
pub proof fn lemma_blank_text_has_no_cells(text: Seq<char>)
    requires
        trim(text).len() == 0,
    ensures
        live_cells(text) == Set::<Cell>::empty(),
{
    let empty = Seq::<char>::empty();
    assert(trim(text) =~= empty);
    assert(lines(text) =~= seq![empty]);
    assert(trim(empty) =~= empty);
    assert(tokens(empty) =~= seq![empty]);
    assert(live_cells(text) =~= Set::<Cell>::empty());
}

/// Reads a text grid. The text is trimmed and cut into lines at each line
/// feed; each line is trimmed and cut into tokens at each space. The token
/// `*` marks a live cell, in the row of its line and the column of its
/// token, both counted from 0. A text that is empty once trimmed shows no
/// grid.
pub fn read(text: &str) -> (grid: Option<Grid>)
    ensures
        grid is None <==> trim(text@).len() == 0,
        grid matches Some(g) ==> {
            &&& g.cells@ == live_cells(text@)
            &&& g.height == height(text@)
            &&& g.width == width(text@)
        },
{
    let s = characters(text);
    let (start, end) = trim_range(&s, 0, s.len());
    assert(s@.subrange(0, s@.len() as int) =~= text@);
    if start == end {
        return None;
    }
    let mut cells = Cells::new();
    let ghost mut done: Seq<Seq<char>> = Seq::empty();
    let mut from = start;
    let mut row: usize = 0;
    let mut width: usize = 0;
    loop
        invariant_except_break
            start <= from <= end <= s.len(),
            row <= from - start,
            from == start || s@[from - 1] == '\n',
            lines(text@) == done + split(s@.subrange(from as int, end as int), '\n'),
        invariant
            start <= end <= s.len(),
            start < end ==> !is_whitespace(s@[end - 1]),
            done.len() == row,
            forall|c: Cell|
                cells@.contains(c) <==> 0 <= c.row < row && alive_in_line(
                    done[c.row as int],
                    c.col as int,
                ),
        ensures
            done == lines(text@),
            row == done.len() >= 1,
            width == tokens(done.last()).len(),
        decreases end - from,
    {
        let to = find(&s, from, end, '\n');
        let ghost line = s@.subrange(from as int, to as int);
        let ghost rest = s@.subrange(from as int, end as int);
        proof {
            assert(rest.take(to - from) =~= line);
            if to < end {
                assert(rest.skip(to - from + 1) =~= s@.subrange(to + 1, end as int));
                assert(done + (seq![line] + split(s@.subrange(to + 1, end as int), '\n'))
                    =~= done.push(line) + split(s@.subrange(to + 1, end as int), '\n'));
            } else {
                assert(rest =~= line);
                assert(done + seq![line] =~= done.push(line));
            }
        }
        width = read_line(&s, from, to, row, &mut cells);
        proof {
            assert forall|c: Cell|
                cells@.contains(c) <==> 0 <= c.row < row + 1 && alive_in_line(
                    done.push(line)[c.row as int],
                    c.col as int,
                ) by {
                if 0 <= c.row < row {
                    assert(done.push(line)[c.row as int] == done[c.row as int]);
                }
            }
            done = done.push(line);
        }
        if to == end {
            row += 1;
            break ;
        }
        from = to + 1;
        row += 1;
    }
    assert(cells@ =~= live_cells(text@));
    Some(Grid { cells, height: row, width })
}

} // verus!

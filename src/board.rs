use std::collections::HashSet;
use vstd::prelude::*;

verus! {

/// Whose move it is.
#[derive(Clone, Copy, Debug, PartialEq, Eq, Structural)]
pub enum Turn {
    Player,
    Bot,
}

/// The other side.
pub open spec fn other(t: Turn) -> Turn {
    match t {
        Turn::Player => Turn::Bot,
        Turn::Bot => Turn::Player,
    }
}

/// Turns a uniformly drawn number into a fair pick of the side that moves first.
pub fn turn_from_draw(n: u32) -> (t: Turn)
    ensures
        t == (if n % 2 == 0 { Turn::Player } else { Turn::Bot }),
{
    let k: u32 = n % 2 + 1;
    if k == 1 {
        Turn::Player
    } else {
        Turn::Bot
    }
}


/// What a cell of the board holds.
#[derive(Clone, Copy, Debug, PartialEq, Eq, Structural)]
pub enum Cell {
    Empty,
    Marked(Turn),
}

/// `i` lies on the line `a`, `b`, `c` and the other two cells of that line are in `s`.
pub open spec fn rest_of_line_in(s: Set<u32>, i: u32, a: u32, b: u32, c: u32) -> bool {
    ||| (i == a && s.contains(b) && s.contains(c))
    ||| (i == b && s.contains(a) && s.contains(c))
    ||| (i == c && s.contains(a) && s.contains(b))
}

/// Adding cell `i` to the cells `s` fills one of the eight lines
/// (three rows, three columns, two diagonals) through `i`.
pub open spec fn completes_line(s: Set<u32>, i: u32) -> bool {
    ||| rest_of_line_in(s, i, 1, 2, 3)
    ||| rest_of_line_in(s, i, 4, 5, 6)
    ||| rest_of_line_in(s, i, 7, 8, 9)
    ||| rest_of_line_in(s, i, 1, 4, 7)
    ||| rest_of_line_in(s, i, 2, 5, 8)
    ||| rest_of_line_in(s, i, 3, 6, 9)
    ||| rest_of_line_in(s, i, 1, 5, 9)
    ||| rest_of_line_in(s, i, 3, 5, 7)
}

/// Three cells hold one and the same mark.
pub open spec fn same3(a: Cell, b: Cell, c: Cell) -> bool {
    a != Cell::Empty && a == b && b == c
}

/// Whether three cells hold one and the same mark.
pub fn same_cells(a: Cell, b: Cell, c: Cell) -> (r: bool)
    ensures
        r == same3(a, b, c),
{
    a != Cell::Empty && a == b && b == c
}

/// The cells `a`, `b`, `c` (move numbers) of `cells` hold one and the same mark.
pub open spec fn same_mark(cells: Seq<Cell>, a: int, b: int, c: int) -> bool {
    same3(cells[a - 1], cells[b - 1], cells[c - 1])
}

/// One of the eight lines of the board carries three identical marks.
pub open spec fn board_has_line(cells: Seq<Cell>) -> bool {
    ||| same_mark(cells, 1, 2, 3)
    ||| same_mark(cells, 4, 5, 6)
    ||| same_mark(cells, 7, 8, 9)
    ||| same_mark(cells, 1, 4, 7)
    ||| same_mark(cells, 2, 5, 8)
    ||| same_mark(cells, 3, 6, 9)
    ||| same_mark(cells, 1, 5, 9)
    ||| same_mark(cells, 3, 5, 7)
}

/// Whether claiming cell `i` completes a line for the side that owns `moves`.
/// The lines through `i` are found from its row and column: the row, the
/// column, and a diagonal when the cell lies on one.
pub fn line_completed_by(moves: &HashSet<u32>, i: u32) -> (r: bool)
    requires
        1 <= i <= 9,
    ensures
        r == completes_line(moves@, i),
{
    broadcast use vstd::std_specs::hash::group_hash_axioms;

    let r: u32 = (i - 1) / 3;
    let c: u32 = (i - 1) % 3;
    let next_r: u32 = (r + 1) % 3;
    let last_r: u32 = (r + 2) % 3;
    let next_c: u32 = (c + 1) % 3;
    let last_c: u32 = (c + 2) % 3;

    let row_start: u32 = i - c;
    let in_row = moves.contains(&(row_start + next_c)) && moves.contains(&(row_start + last_c));

    let col_top: u32 = c + 1;
    let in_col = moves.contains(&(col_top + 3 * next_r)) && moves.contains(&(col_top + 3 * last_r));

    let on_main = r == c && moves.contains(&(1 + 4 * next_r)) && moves.contains(&(1 + 4 * last_r));

    let on_anti = r + c == 2 && moves.contains(&(3 + 2 * next_r)) && moves.contains(
        &(3 + 2 * last_r),
    );

    assert(i == 1 || i == 2 || i == 3 || i == 4 || i == 5 || i == 6 || i == 7 || i == 8 || i == 9);
    in_row || in_col || on_main || on_anti
}

} // verus!

//! Rules of the 3x3 board game that ships with the library.
//!
//! A board is a flat vector of nine cells in row-major order; a cell
//! holds `'X'`, `'O'`, or `'N'` for an empty square.  Players address
//! cells by the numbers 1 through 9, read left to right and top to
//! bottom.  The verdict and game-over rules below state exactly what
//! the game has always done, quirks included: the rising diagonal is
//! judged by its first two cells alone, and the game counts as over
//! as soon as either mark appears three times anywhere on the board.

use vstd::prelude::*;

verus! {

/// Three equal cells carrying one of the two player marks decide a
/// line.
pub open spec fn line_decides(p: char, q: char, r: char) -> bool {
    p == q && q == r && (p == 'X' || p == 'O')
}

/// The verdict a deciding mark yields: whether the first player
/// (`'X'`) and the second player (`'O'`) has won.
pub open spec fn verdict_of(p: char) -> (bool, bool) {
    (p == 'X', p == 'O')
}

/// Whether row `t` (0 through 2) decides the game.
pub open spec fn row_decides(g: Seq<char>, t: int) -> bool {
    line_decides(g[3 * t], g[3 * t + 1], g[3 * t + 2])
}

/// Whether column `t` (0 through 2) decides the game.
pub open spec fn col_decides(g: Seq<char>, t: int) -> bool {
    line_decides(g[t], g[t + 3], g[t + 6])
}

/// The winner verdict of a board, lines probed in play order: the
/// three rows, the three columns, the falling diagonal, and last the
/// rising diagonal — the latter judged by cells 7 and 5 alone (the
/// comparison the game makes twice over), its third cell never
/// consulted.
pub open spec fn winner_spec(g: Seq<char>) -> (bool, bool) {
    if row_decides(g, 0) {
        verdict_of(g[0])
    } else if row_decides(g, 1) {
        verdict_of(g[3])
    } else if row_decides(g, 2) {
        verdict_of(g[6])
    } else if col_decides(g, 0) {
        verdict_of(g[0])
    } else if col_decides(g, 1) {
        verdict_of(g[1])
    } else if col_decides(g, 2) {
        verdict_of(g[2])
    } else if line_decides(g[0], g[4], g[8]) {
        verdict_of(g[0])
    } else if g[6] == g[4] && (g[6] == 'X' || g[6] == 'O') {
        verdict_of(g[6])
    } else {
        (false, false)
    }
}

/// How many of the first `m` cells hold the mark `ch`.
pub open spec fn count_prefix(g: Seq<char>, ch: char, m: int) -> int
    decreases m,
{
    if m <= 0 {
        0
    } else {
        count_prefix(g, ch, m - 1) + (if g[m - 1] == ch {
            1int
        } else {
            0int
        })
    }
}

/// A longer prefix holds at least as many marks.
proof fn lemma_count_prefix_mono(g: Seq<char>, ch: char, m1: int, m2: int)
    requires
        0 <= m1 <= m2,
    ensures
        count_prefix(g, ch, m1) <= count_prefix(g, ch, m2),
    decreases m2,
{
    if m1 < m2 {
        lemma_count_prefix_mono(g, ch, m1, m2 - 1);
    }
}

/// Whether a player has three marks in one of the judged lines.
/// Returns a pair: whether `'X'` has won and whether `'O'` has won.
pub fn has_winner(grid: &Vec<char>) -> (r: (bool, bool))
    requires
        grid@.len() == 9,
    ensures
        r == winner_spec(grid@),
{
    // Rows.
    let mut row: usize = 0;
    while row < 3
        invariant
            grid@.len() == 9,
            row <= 3,
            forall|t: int| 0 <= t < row ==> !row_decides(grid@, t),
        decreases 3 - row,
    {
        if grid[3 * row] == grid[3 * row + 1] && grid[3 * row + 1] == grid[3 * row + 2] {
            if grid[3 * row] == 'X' {
                return (true, false);
            } else if grid[3 * row] == 'O' {
                return (false, true);
            }
        }
        row = row + 1;
    }
    // Columns.
    let mut col: usize = 0;
    while col < 3
        invariant
            grid@.len() == 9,
            col <= 3,
            forall|t: int| 0 <= t < 3 ==> !row_decides(grid@, t),
            forall|t: int| 0 <= t < col ==> !col_decides(grid@, t),
        decreases 3 - col,
    {
        if grid[col] == grid[col + 3] && grid[col + 3] == grid[col + 6] {
            if grid[col] == 'X' {
                return (true, false);
            } else if grid[col] == 'O' {
                return (false, true);
            }
        }
        col = col + 1;
    }
    // Falling diagonal.
    if grid[0] == grid[4] && grid[4] == grid[8] {
        if grid[0] == 'X' {
            return (true, false);
        } else if grid[0] == 'O' {
            return (false, true);
        }
    }
    // Rising diagonal, judged by its first two cells, as always.
    if grid[6] == grid[4] && grid[4] == grid[6] {
        if grid[6] == 'X' {
            return (true, false);
        } else if grid[6] == 'O' {
            return (false, true);
        }
    }
    (false, false)
}

/// Whether the game is over: either mark occurs at least three times
/// anywhere on the board (the game has never asked for more).
pub fn is_over(grid: &Vec<char>) -> (r: bool)
    requires
        grid@.len() == 9,
    ensures
        r == (count_prefix(grid@, 'X', 9) >= 3 || count_prefix(grid@, 'O', 9) >= 3),
{
    let mut x_counter: u8 = 0;
    let mut o_counter: u8 = 0;
    let mut idx: usize = 0;
    while idx < 9
        invariant
            grid@.len() == 9,
            idx <= 9,
            x_counter as int == count_prefix(grid@, 'X', idx as int),
            o_counter as int == count_prefix(grid@, 'O', idx as int),
            x_counter < 3,
            o_counter < 3,
        decreases 9 - idx,
    {
        let v = grid[idx];
        if v == 'X' {
            x_counter = x_counter + 1;
        } else if v == 'O' {
            o_counter = o_counter + 1;
        }
        if x_counter == 3 || o_counter == 3 {
            proof {
                lemma_count_prefix_mono(grid@, 'X', idx as int + 1, 9);
                lemma_count_prefix_mono(grid@, 'O', idx as int + 1, 9);
            }
            return true;
        }
        idx = idx + 1;
    }
    false
}

/// Places `piece_char` on the cell numbered `input_index` (1 through
/// 9, row-major).
pub fn set_piece(grid: &mut Vec<char>, input_index: i32, piece_char: char)
    requires
        old(grid)@.len() == 9,
        1 <= input_index <= 9,
    ensures
        final(grid)@ == old(grid)@.update(input_index - 1, piece_char),
{
    let pos: usize = (input_index - 1) as usize;
    grid[pos] = piece_char;
}

/// Whether the cell numbered `input_index` (1 through 9, row-major)
/// already holds a piece; `'N'` marks an empty cell.
pub fn is_occupied(grid: &Vec<char>, input_index: i32) -> (r: bool)
    requires
        grid@.len() == 9,
        1 <= input_index <= 9,
    ensures
        r == (grid@[input_index - 1] != 'N'),
{
    let pos: usize = (input_index - 1) as usize;
    grid[pos] != 'N'
}

} // verus!

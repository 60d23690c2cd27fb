//! The grid as text: one line for each `y`, three characters for each cell.

use vstd::prelude::*;
use crate::coords::Coordinates;
use crate::grid::{grid_view, is_square, read_cell, Grid, EMPTY};

verus! {

/// The text of one cell: two blanks and the symbol, or three blanks for an
/// empty cell.
pub open spec fn cell_text(symbol: char) -> Seq<char> {
    if symbol != EMPTY {
        seq![' ', ' ', symbol]
    } else {
        seq![' ', ' ', ' ']
    }
}

/// The text of the first `count` cells of line `y`, by rising `x`.
pub open spec fn line_text(cells: Seq<Seq<char>>, y: int, count: nat) -> Seq<char>
    decreases count,
{
    if count == 0 {
        Seq::empty()
    } else {
        line_text(cells, y, (count - 1) as nat) + cell_text(cells[count - 1][y])
    }
}

/// The text of the first `count` lines, each closed by a line feed.
pub open spec fn grid_text(cells: Seq<Seq<char>>, count: nat) -> Seq<char>
    decreases count,
{
    if count == 0 {
        Seq::empty()
    } else {
        grid_text(cells, (count - 1) as nat) + line_text(cells, count - 1, cells.len()) + seq![
            '\n',
        ]
    }
}

/// The grid as text, line by line.
pub fn render_grid(grid: &Grid) -> (text: Vec<char>)
    requires
        is_square(grid_view(grid)),
    ensures
        text@ == grid_text(grid_view(grid), grid@.len()),
{
    let width: usize = grid.len();
    let mut text: Vec<char> = Vec::new();
    let mut y: usize = 0;
    while y < width
        invariant
            is_square(grid_view(grid)),
            width == grid@.len(),
            y <= width,
            text@ == grid_text(grid_view(grid), y as nat),
        decreases width - y,
    {
        let ghost above = text@;
        let mut x: usize = 0;
        while x < width
            invariant
                is_square(grid_view(grid)),
                width == grid@.len(),
                y < width,
                x <= width,
                text@ == above + line_text(grid_view(grid), y as int, x as nat),
            decreases width - x,
        {
            let ghost left = text@;
            let held = read_cell(grid, Coordinates { x, y });
            text.push(' ');
            text.push(' ');
            if held != EMPTY {
                text.push(held);
            } else {
                text.push(' ');
            }
            proof {
                assert(text@ =~= left + cell_text(held));
                assert(text@ =~= above + line_text(grid_view(grid), y as int, (x + 1) as nat));
            }
            x += 1;
        }
        text.push('\n');
        proof {
            assert(text@ =~= grid_text(grid_view(grid), (y + 1) as nat));
        }
        y += 1;
    }
    text
}

} // verus!

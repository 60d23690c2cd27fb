//! The grid itself, and the two queries that read single cells: the
//! neighbours of a cell and the first cell that holds a symbol.

use vstd::prelude::*;
use crate::coords::{Coordinates, Direction};

verus! {

/// A square grid of symbols: `grid[x][y]` is the cell at `Coordinates { x, y }`.
pub type Grid = Vec<Vec<char>>;

/// What a cell holds while no symbol has been placed in it.
pub const EMPTY: char = '\0';

/// The cells of a grid as a sequence of columns.
pub open spec fn grid_view(grid: &Grid) -> Seq<Seq<char>> {
    Seq::new(grid@.len(), |x: int| grid@[x]@)
}

/// Every column is as long as the grid is wide.
pub open spec fn is_square(cells: Seq<Seq<char>>) -> bool {
    forall|x: int| 0 <= x < cells.len() ==> (#[trigger] cells[x]).len() == cells.len()
}

/// What the cell at `at` holds.
pub open spec fn symbol_at(cells: Seq<Seq<char>>, at: Coordinates) -> char {
    cells[at.x as int][at.y as int]
}

/// The cell at `at` lies on the grid and holds a symbol.
pub open spec fn occupied(cells: Seq<Seq<char>>, at: Coordinates) -> bool {
    at.within(cells.len() as int) && symbol_at(cells, at) != EMPTY
}

/// The neighbour of `at` in direction `d`, if the step stays on the grid and
/// ends on an occupied cell; otherwise nothing.
pub open spec fn neighbor_toward(cells: Seq<Seq<char>>, at: Coordinates, d: Direction) -> Seq<
    Coordinates,
> {
    if at.can_step(d, cells.len() as int) && occupied(cells, at.stepped(d)) {
        seq![at.stepped(d)]
    } else {
        Seq::empty()
    }
}

/// The occupied neighbours of `at`, in the order right, down-right, down,
/// left, up-left, up.
pub open spec fn neighbors(cells: Seq<Seq<char>>, at: Coordinates) -> Seq<Coordinates> {
    neighbor_toward(cells, at, Direction::Right) + neighbor_toward(
        cells,
        at,
        Direction::DownRight,
    ) + neighbor_toward(cells, at, Direction::Down) + neighbor_toward(cells, at, Direction::Left)
        + neighbor_toward(cells, at, Direction::UpLeft) + neighbor_toward(
        cells,
        at,
        Direction::Up,
    )
}

/// `to` is one step from `from` in one of the six directions.
pub open spec fn adjacent(from: Coordinates, to: Coordinates) -> bool {
    exists|d: Direction| #[trigger] from.stepped(d) == to
}

/// The cell at `at` lies on the grid and holds `symbol`.
pub open spec fn holds(cells: Seq<Seq<char>>, symbol: char, at: Coordinates) -> bool {
    at.within(cells.len() as int) && symbol_at(cells, at) == symbol
}

/// The cell at `at` holds `symbol`, and no cell scanned before it does.
pub open spec fn is_first_holder(cells: Seq<Seq<char>>, symbol: char, at: Coordinates) -> bool {
    &&& holds(cells, symbol, at)
    &&& forall|other: Coordinates| #[trigger]
        holds(cells, symbol, other) ==> !other.scanned_before(at)
}

/// What a search for `symbol` finds: the first cell in scanning order that
/// holds it, or nothing where no cell does.
pub open spec fn is_first_tile(cells: Seq<Seq<char>>, symbol: char, found: Option<Coordinates>) -> bool {
    match found {
        Some(at) => is_first_holder(cells, symbol, at),
        None => forall|other: Coordinates| !#[trigger] holds(cells, symbol, other),
    }
}

/// The symbol in the cell at `at`.
pub fn read_cell(grid: &Grid, at: Coordinates) -> (res: char)
    requires
        is_square(grid_view(grid)),
        at.within(grid@.len() as int),
    ensures
        res == symbol_at(grid_view(grid), at),
{
    assert(grid_view(grid)[at.x as int].len() == grid@.len());
    grid[at.x][at.y]
}

/// Appends the neighbour of `at` in direction `d` to `list`, if there is one.
fn push_neighbor(grid: &Grid, at: Coordinates, d: Direction, list: &mut Vec<Coordinates>)
    requires
        is_square(grid_view(grid)),
        at.within(grid@.len() as int),
    ensures
        final(list)@ == old(list)@ + neighbor_toward(grid_view(grid), at, d),
{
    if at.has_step(d, grid.len()) {
        let next = at.step(d);
        if read_cell(grid, next) != EMPTY {
            list.push(next);
        }
    }
}

/// The occupied neighbours of the cell at `coords`, in the order right,
/// down-right, down, left, up-left, up.
pub fn find_neighbors(grid: &Grid, coords: Coordinates) -> (found: Vec<Coordinates>)
    requires
        is_square(grid_view(grid)),
        coords.within(grid@.len() as int),
    ensures
        found@ == neighbors(grid_view(grid), coords),
        found@.len() <= 6,
        forall|i: int|
            0 <= i < found@.len() ==> occupied(grid_view(grid), #[trigger] found@[i]) && adjacent(
                coords,
                found@[i],
            ),
{
    let mut found: Vec<Coordinates> = Vec::new();
    push_neighbor(grid, coords, Direction::Right, &mut found);
    push_neighbor(grid, coords, Direction::DownRight, &mut found);
    push_neighbor(grid, coords, Direction::Down, &mut found);
    push_neighbor(grid, coords, Direction::Left, &mut found);
    push_neighbor(grid, coords, Direction::UpLeft, &mut found);
    push_neighbor(grid, coords, Direction::Up, &mut found);
    proof {
        lemma_neighbors_are_occupied(grid_view(grid), coords);
    }
    found
}

/// There are six neighbours at most, and each is an occupied cell of the
/// grid one step away.
pub proof fn lemma_neighbors_are_occupied(cells: Seq<Seq<char>>, at: Coordinates)
    ensures
        neighbors(cells, at).len() <= 6,
        forall|i: int|
            0 <= i < neighbors(cells, at).len() ==> occupied(
                cells,
                #[trigger] neighbors(cells, at)[i],
            ) && adjacent(at, neighbors(cells, at)[i]),
{
    let all = neighbors(cells, at);
    assert forall|i: int| 0 <= i < all.len() implies occupied(cells, #[trigger] all[i])
        && adjacent(at, all[i]) by {
        let next = all[i];
        assert(next == at.stepped(Direction::Right) || next == at.stepped(Direction::DownRight)
            || next == at.stepped(Direction::Down) || next == at.stepped(Direction::Left) || next
            == at.stepped(Direction::UpLeft) || next == at.stepped(Direction::Up));
    }
}

/// The first cell that holds `start_char`, scanning column by column and
/// each column from its first place to its last; nothing where no cell holds
/// it.
pub fn find_tile(grid: &Grid, start_char: char) -> (found: Option<Coordinates>)
    requires
        is_square(grid_view(grid)),
    ensures
        is_first_tile(grid_view(grid), start_char, found),
{
    let width: usize = grid.len();
    let mut x: usize = 0;
    while x < width
        invariant
            width == grid@.len(),
            is_square(grid_view(grid)),
            x <= width,
            forall|other: Coordinates| #[trigger]
                holds(grid_view(grid), start_char, other) ==> other.x >= x,
        decreases width - x,
    {
        let mut y: usize = 0;
        while y < width
            invariant
                width == grid@.len(),
                is_square(grid_view(grid)),
                x < width,
                y <= width,
                forall|other: Coordinates| #[trigger]
                    holds(grid_view(grid), start_char, other) ==> other.x > x || (other.x == x
                        && other.y >= y),
            decreases width - y,
        {
            let at = Coordinates { x, y };
            if start_char == read_cell(grid, at) {
                return Some(at);
            }
            y += 1;
        }
        x += 1;
    }
    None
}

} // verus!

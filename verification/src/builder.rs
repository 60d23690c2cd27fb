//! Building a grid: the symbols are placed along the spiral, one per turn.

use vstd::prelude::*;
use crate::coords::{Coordinates, Direction};
use crate::error::GridError;
use crate::grid::{grid_view, holds, is_first_tile, is_square, symbol_at, Grid, EMPTY};
use crate::sizing::{
    capacity, grid_width_spec, layer_count, lemma_capacity_strictly_monotonic,
    lemma_layer_count_bound, lemma_layer_count_is_least, width_for,
};
use crate::spiral::{
    cell_before, lemma_index_of_offset, lemma_index_of_ring_cell, lemma_index_zero,
    lemma_offset_of_index, lemma_ring_cell_of_index, lemma_ring_span, lemma_walk_stays_on_grid,
    ring_cell, side_direction, side_length, side_start, spiral_index, spiral_offset,
};

verus! {

/// What the cell at offset `(dx, dy)` from the centre holds once `letters` are
/// placed along the spiral: the symbol of the turn at which the walk visits
/// the cell, or nothing where the symbols run out before that turn.
pub open spec fn symbol_for(letters: Seq<char>, dx: int, dy: int) -> char {
    if spiral_index(dx, dy) < letters.len() {
        letters[spiral_index(dx, dy) as int]
    } else {
        EMPTY
    }
}

/// The grid of the given width with `letters` placed along the spiral round
/// its centre.
pub open spec fn spiral_cells(width: nat, letters: Seq<char>) -> Seq<Seq<char>> {
    Seq::new(
        width,
        |x: int| Seq::new(width, |y: int| symbol_for(letters, x - width / 2, y - width / 2)),
    )
}

/// The grid that holds `letters`: as wide as that many symbols need, with
/// the symbols placed along the spiral round its centre.
pub open spec fn spiral_grid(letters: Seq<char>) -> Seq<Seq<char>> {
    spiral_cells(grid_width_spec(letters.len()), letters)
}

/// The centre of a grid of the given width.
pub open spec fn center_of(width: nat) -> Coordinates {
    Coordinates { x: (width / 2) as usize, y: (width / 2) as usize }
}

/// The cell at the given offset from the centre of a grid of the given
/// width.
pub open spec fn cell_at_offset(width: nat, offset: (int, int)) -> Coordinates {
    Coordinates { x: (width / 2 + offset.0) as usize, y: (width / 2 + offset.1) as usize }
}

/// The cell that the walk visits at turn `i` on the grid for `n` symbols.
pub open spec fn spiral_cell(n: nat, i: nat) -> Coordinates {
    cell_at_offset(grid_width_spec(n), spiral_offset(i))
}

/// Lays `letters` out on a grid: the first symbol on the centre, the others
/// along the spiral round it. There is no grid for no symbols: that is
/// `EmptyInput`.
pub fn construct_grid(letters: &[char]) -> (res: Result<Grid, GridError>)
    ensures
        letters@.len() == 0 <==> res is Err,
        res matches Err(e) ==> e == GridError::EmptyInput,
        res matches Ok(grid) ==> {
            &&& grid_view(&grid) == spiral_grid(letters@)
            &&& grid@.len() == grid_width_spec(letters@.len())
            &&& is_square(grid_view(&grid))
            &&& symbol_at(grid_view(&grid), center_of(grid@.len())) == letters@[0]
        },
{
    let width: usize = match width_for(letters.len()) {
        Ok(width) => width,
        Err(e) => {
            return Err(e);
        },
    };
    let mut grid: Grid = empty_grid(width);
    let center: usize = width / 2;
    let mut cursor = Coordinates { x: center, y: center };
    let ghost blank = grid_view(&grid);
    place(&mut grid, cursor, letters[0]);
    proof {
        assert forall|at: Coordinates| at.within(width as int) implies #[trigger] symbol_at(
            grid_view(&grid),
            at,
        ) == symbol_for(letters@.take(1), at.x - width / 2, at.y - width / 2) by {
            lemma_index_zero(at.x - width / 2, at.y - width / 2);
            assert(symbol_at(blank, at) == EMPTY);
        }
    }
    let mut layer: usize = 1;
    let mut n: usize = 1;
    while n < letters.len()
        invariant
            width == grid@.len(),
            width == grid_width_spec(letters@.len()),
            width % 2 == 1,
            1 <= n <= letters@.len(),
            layer >= 1,
            n < letters@.len() ==> n == capacity(layer as nat) && cursor == side_cursor(
                width as nat,
                layer as int,
                0,
            ),
            shows(grid_view(&grid), width as nat, letters@.take(n as int)),
        decreases letters@.len() - n,
    {
        proof {
            lemma_layer_count_is_least(letters@.len());
            if layer_count(letters@.len()) < layer {
                lemma_capacity_strictly_monotonic(layer_count(letters@.len()), layer as nat);
            }
            lemma_capacity_strictly_monotonic(0, layer as nat);
            lemma_ring_span(layer as nat);
        }
        let (reached, there) = fill_ring(&mut grid, letters, n, cursor, layer);
        n = reached;
        cursor = there;
        layer += 1;
    }
    proof {
        assert(letters@.take(n as int) =~= letters@);
        lemma_shows_spiral_cells(grid_view(&grid), width as nat, letters@);
        lemma_index_zero(0, 0);
    }
    Ok(grid)
}

/// The grid for as many symbols as a `usize` counts is no wider than a
/// `usize` counts.
pub proof fn lemma_grid_width_fits(n: nat)
    requires
        n <= usize::MAX,
    ensures
        grid_width_spec(n) <= usize::MAX,
{
    lemma_layer_count_bound(n);
}

/// On the spiral grid the symbol of every turn lies on the cell that the
/// walk visits at that turn, and that cell is a cell of the grid.
pub proof fn lemma_symbol_on_its_cell(letters: Seq<char>, i: nat)
    requires
        letters.len() <= usize::MAX,
        i < letters.len(),
    ensures
        spiral_cell(letters.len(), i).within(grid_width_spec(letters.len()) as int),
        symbol_at(spiral_grid(letters), spiral_cell(letters.len(), i)) == letters[i as int],
{
    let (dx, dy) = spiral_offset(i);
    lemma_grid_width_fits(letters.len());
    lemma_index_of_offset(i);
    lemma_walk_stays_on_grid(letters.len(), dx, dy);
}

/// On the spiral grid every cell that the walk does not visit while it has
/// symbols to place is empty.
pub proof fn lemma_empty_off_the_walk(letters: Seq<char>, at: Coordinates)
    requires
        letters.len() <= usize::MAX,
        at.within(grid_width_spec(letters.len()) as int),
        forall|i: nat| i < letters.len() ==> #[trigger] spiral_cell(letters.len(), i) != at,
    ensures
        symbol_at(spiral_grid(letters), at) == EMPTY,
{
    let width = grid_width_spec(letters.len());
    let dx = at.x - width / 2;
    let dy = at.y - width / 2;
    lemma_grid_width_fits(letters.len());
    lemma_offset_of_index(dx, dy);
    if spiral_index(dx, dy) < letters.len() {
        assert(spiral_cell(letters.len(), spiral_index(dx, dy)) == at);
    }
}

/// The centre of the spiral grid holds the first symbol.
pub proof fn lemma_center_holds_first(letters: Seq<char>)
    requires
        1 <= letters.len() <= usize::MAX,
    ensures
        center_of(grid_width_spec(letters.len())).within(grid_width_spec(letters.len()) as int),
        symbol_at(spiral_grid(letters), center_of(grid_width_spec(letters.len()))) == letters[0],
{
    lemma_grid_width_fits(letters.len());
    lemma_layer_count_is_least(letters.len());
    lemma_index_zero(0, 0);
}

/// A search of the spiral grid for its first symbol ends on the centre,
/// unless a cell scanned before the centre holds that symbol too: a cell on
/// which the same symbol was placed at a later turn, or, where the first
/// symbol is the mark of an empty cell, a cell that was left empty.
pub proof fn lemma_first_symbol_found_at_center(letters: Seq<char>, found: Option<Coordinates>)
    requires
        1 <= letters.len() <= usize::MAX,
        letters[0] != EMPTY || letters.len() == 1,
        forall|i: nat|
            1 <= i < letters.len() && letters[i as int] == letters[0] ==> !(#[trigger] spiral_cell(
                letters.len(),
                i,
            )).scanned_before(center_of(grid_width_spec(letters.len()))),
        is_first_tile(spiral_grid(letters), letters[0], found),
    ensures
        found == Some(center_of(grid_width_spec(letters.len()))),
{
    let width = grid_width_spec(letters.len());
    let cells = spiral_grid(letters);
    let center = center_of(width);
    lemma_center_holds_first(letters);
    lemma_grid_width_fits(letters.len());
    assert(holds(cells, letters[0], center));
    match found {
        None => {
            assert(false);
        },
        Some(at) => {
            assert(!center.scanned_before(at));
            if at.scanned_before(center) {
                let dx = at.x - width / 2;
                let dy = at.y - width / 2;
                let turn = spiral_index(dx, dy);
                lemma_index_zero(dx, dy);
                lemma_offset_of_index(dx, dy);
                lemma_layer_count_is_least(letters.len());
                if letters.len() == 1 {
                    assert(layer_count(1) == 1) by {
                        crate::sizing::lemma_layer_count_unique(1, 1);
                    }
                    assert(false);
                } else {
                    assert(turn < letters.len());
                    assert(spiral_cell(letters.len(), turn) == at);
                    assert(false);
                }
            }
        },
    }
}

/// `cells` is a square grid of the given width on which every cell holds
/// what it holds once `letters` are placed along the spiral.
pub open spec fn shows(cells: Seq<Seq<char>>, width: nat, letters: Seq<char>) -> bool {
    &&& cells.len() == width
    &&& is_square(cells)
    &&& forall|at: Coordinates|
        at.within(width as int) ==> #[trigger] symbol_at(cells, at) == symbol_for(
            letters,
            at.x - width / 2,
            at.y - width / 2,
        )
}

/// How many symbols a run of `count` steps places when `placed` of `total`
/// symbols are placed already.
pub open spec fn run_length(total: nat, placed: nat, count: nat) -> nat {
    if placed + count <= total {
        count
    } else {
        (total - placed) as nat
    }
}

/// The cell on which the walk stands before its first step along side `s`
/// of ring `k`, on a grid of the given width.
pub open spec fn side_cursor(width: nat, k: int, s: int) -> Coordinates {
    cell_at_offset(width, cell_before(k, side_start(k, s)))
}

/// A grid of the given width with nothing placed in it.
fn empty_grid(width: usize) -> (grid: Grid)
    ensures
        grid@.len() == width,
        is_square(grid_view(&grid)),
        forall|at: Coordinates|
            at.within(width as int) ==> #[trigger] symbol_at(grid_view(&grid), at) == EMPTY,
{
    let mut grid: Grid = Vec::new();
    let mut x: usize = 0;
    while x < width
        invariant
            x <= width,
            grid@.len() == x,
            forall|i: int| 0 <= i < x ==> (#[trigger] grid@[i])@.len() == width,
            forall|i: int, j: int| 0 <= i < x && 0 <= j < width ==> (#[trigger] grid@[i]@[j]) == EMPTY,
        decreases width - x,
    {
        let mut column: Vec<char> = Vec::new();
        let mut y: usize = 0;
        while y < width
            invariant
                y <= width,
                column@.len() == y,
                forall|j: int| 0 <= j < y ==> (#[trigger] column@[j]) == EMPTY,
            decreases width - y,
        {
            column.push(EMPTY);
            y += 1;
        }
        grid.push(column);
        x += 1;
    }
    grid
}

/// Puts `symbol` into the cell at `at`.
fn place(grid: &mut Grid, at: Coordinates, symbol: char)
    requires
        is_square(grid_view(old(grid))),
        at.within(old(grid)@.len() as int),
    ensures
        grid_view(final(grid)) == grid_view(old(grid)).update(
            at.x as int,
            grid_view(old(grid))[at.x as int].update(at.y as int, symbol),
        ),
        is_square(grid_view(final(grid))),
        final(grid)@.len() == old(grid)@.len(),
{
    assert(grid_view(grid)[at.x as int].len() == grid@.len());
    grid[at.x][at.y] = symbol;
    assert(grid_view(grid) =~= grid_view(old(grid)).update(
        at.x as int,
        grid_view(old(grid))[at.x as int].update(at.y as int, symbol),
    ));
}

/// Walks from `cursor` in direction `d` and places one symbol per step, from
/// `letters[placed]` on, until `count` steps are made or the symbols run
/// out. Returns how many symbols are placed by then, and where the walk
/// stands.
fn place_run(
    grid: &mut Grid,
    letters: &[char],
    placed: usize,
    cursor: Coordinates,
    d: Direction,
    count: usize,
) -> (res: (usize, Coordinates))
    requires
        is_square(grid_view(old(grid))),
        old(grid)@.len() <= usize::MAX,
        cursor.within(old(grid)@.len() as int),
        placed <= letters@.len(),
        cursor.can_move(d, run_length(letters@.len(), placed as nat, count as nat) as int, old(grid)@.len() as int),
    ensures
        is_square(grid_view(final(grid))),
        final(grid)@.len() == old(grid)@.len(),
        res.0 == placed + run_length(letters@.len(), placed as nat, count as nat),
        res.1 == cursor.moved(d, run_length(letters@.len(), placed as nat, count as nat) as int),
        forall|at: Coordinates|
            at.within(old(grid)@.len() as int) ==> #[trigger] symbol_at(grid_view(final(grid)), at) == (
            if cursor.reaches(d, run_length(letters@.len(), placed as nat, count as nat) as int, at) {
                letters@[placed + cursor.steps_to(d, at) - 1]
            } else {
                symbol_at(grid_view(old(grid)), at)
            }),
{
    let ghost before = grid_view(grid);
    let ghost width = grid@.len() as int;
    let ghost length = run_length(letters@.len(), placed as nat, count as nat) as int;
    let mut n: usize = placed;
    let mut at: Coordinates = cursor;
    let mut done: usize = 0;
    while done < count && n < letters.len()
        invariant
            is_square(grid_view(grid)),
            grid@.len() == width,
            width == before.len(),
            width <= usize::MAX,
            cursor.within(width),
            placed <= letters@.len(),
            length == run_length(letters@.len(), placed as nat, count as nat),
            cursor.can_move(d, length, width),
            done <= length,
            n == placed + done,
            at == cursor.moved(d, done as int),
            at.within(width),
            forall|p: Coordinates|
                p.within(width) ==> #[trigger] symbol_at(grid_view(grid), p) == (if cursor.reaches(
                    d,
                    done as int,
                    p,
                ) {
                    letters@[placed + cursor.steps_to(d, p) - 1]
                } else {
                    symbol_at(before, p)
                }),
        decreases count - done,
    {
        let ghost earlier = grid_view(grid);
        proof {
            cursor.lemma_walk(d, length, width, done as int);
            cursor.lemma_walk(d, length, width, done + 1);
        }
        at = at.step(d);
        place(grid, at, letters[n]);
        n += 1;
        done += 1;
        assert forall|p: Coordinates| p.within(width) implies #[trigger] symbol_at(
            grid_view(grid),
            p,
        ) == (if cursor.reaches(d, done as int, p) {
            letters@[placed + cursor.steps_to(d, p) - 1]
        } else {
            symbol_at(before, p)
        }) by {
            assert(symbol_at(grid_view(grid), p) == if p == at {
                letters@[n - 1]
            } else {
                symbol_at(earlier, p)
            });
        }
    }
    (n, at)
}

/// The direction and the number of steps of side `s` of ring `layer`.
fn side_run(layer: usize, s: usize) -> (res: (Direction, usize))
    requires
        layer >= 1,
        s <= 6,
    ensures
        res.0 == side_direction(s as int),
        res.1 == side_length(layer as int, s as int),
{
    if s == 0 {
        (Direction::Right, 1)
    } else if s == 1 {
        (Direction::DownRight, layer - 1)
    } else if s == 2 {
        (Direction::Down, layer)
    } else if s == 3 {
        (Direction::Left, layer)
    } else if s == 4 {
        (Direction::UpLeft, layer)
    } else if s == 5 {
        (Direction::Up, layer)
    } else {
        (Direction::Right, layer)
    }
}

/// Places the symbols of ring `layer` side by side, from `letters[placed]`
/// on, until the ring is full or the symbols run out. Returns how many
/// symbols are placed by then, and where the walk stands.
fn fill_ring(
    grid: &mut Grid,
    letters: &[char],
    placed: usize,
    cursor: Coordinates,
    layer: usize,
) -> (res: (usize, Coordinates))
    requires
        old(grid)@.len() <= usize::MAX,
        old(grid)@.len() % 2 == 1,
        1 <= layer <= old(grid)@.len() / 2,
        placed == capacity(layer as nat),
        placed < letters@.len(),
        cursor == side_cursor(old(grid)@.len(), layer as int, 0),
        shows(grid_view(old(grid)), old(grid)@.len(), letters@.take(placed as int)),
    ensures
        final(grid)@.len() == old(grid)@.len(),
        res.0 == if capacity((layer + 1) as nat) <= letters@.len() {
            capacity((layer + 1) as nat)
        } else {
            letters@.len()
        },
        shows(grid_view(final(grid)), old(grid)@.len(), letters@.take(res.0 as int)),
        res.0 < letters@.len() ==> res.1 == side_cursor(old(grid)@.len(), layer + 1, 0),
{
    let ghost width = grid@.len();
    let ghost k = layer as int;
    let mut n: usize = placed;
    let mut at: Coordinates = cursor;
    let mut s: usize = 0;
    proof {
        lemma_ring_span(layer as nat);
    }
    while s < 7 && n < letters.len()
        invariant
            width == grid@.len(),
            width <= usize::MAX,
            width % 2 == 1,
            k == layer,
            1 <= k <= width / 2,
            s <= 7,
            n <= letters@.len(),
            capacity((k + 1) as nat) == capacity(k as nat) + 6 * k,
            n <= capacity(k as nat) + side_start(k, s as int) <= capacity((k + 1) as nat),
            n < letters@.len() ==> n == capacity(k as nat) + side_start(k, s as int) && at
                == side_cursor(width, k, s as int),
            shows(grid_view(grid), width, letters@.take(n as int)),
        decreases 7 - s,
    {
        let ghost before = grid_view(grid);
        let (d, count) = side_run(layer, s);
        proof {
            lemma_side_end(width, k, s as int);
            let length = run_length(letters@.len(), n as nat, count as nat) as int;
            if length >= 1 {
                lemma_side_walk(width, k, s as int, length);
            }
        }
        let (reached, there) = place_run(grid, letters, n, at, d, count);
        proof {
            lemma_run_fills(
                before,
                grid_view(grid),
                width,
                letters@,
                k,
                s as int,
                reached - n,
            );
        }
        n = reached;
        at = there;
        s += 1;
    }
    proof {
        lemma_side_end(width, k, 6);
    }
    (n, at)
}

/// A grid that shows the symbols cell by cell is the spiral grid of its
/// width.
proof fn lemma_shows_spiral_cells(cells: Seq<Seq<char>>, width: nat, letters: Seq<char>)
    requires
        shows(cells, width, letters),
        width <= usize::MAX,
    ensures
        cells == spiral_cells(width, letters),
{
    let wanted = spiral_cells(width, letters);
    assert forall|x: int| 0 <= x < width implies cells[x] == wanted[x] by {
        assert(cells[x].len() == width);
        assert forall|y: int| 0 <= y < width implies cells[x][y] == wanted[x][y] by {
            let at = Coordinates { x: x as usize, y: y as usize };
            assert(cells[x][y] == symbol_at(cells, at));
        }
        assert(cells[x] =~= wanted[x]);
    }
    assert(cells =~= wanted);
}

/// On a grid with room for ring `k`, the walk along side `s` of that ring
/// stays on the grid and leads, at its step `t`, to the cell of the turn that
/// this step is.
proof fn lemma_side_walk(width: nat, k: int, s: int, t: int)
    requires
        width <= usize::MAX,
        1 <= k <= width / 2,
        width % 2 == 1,
        0 <= s <= 6,
        1 <= t <= side_length(k, s),
    ensures
        side_cursor(width, k, s).within(width as int),
        side_cursor(width, k, s).can_move(side_direction(s), t, width as int),
        side_cursor(width, k, s).moved(side_direction(s), t).x == width / 2 + ring_cell(
            k,
            side_start(k, s) + t - 1,
        ).0,
        side_cursor(width, k, s).moved(side_direction(s), t).y == width / 2 + ring_cell(
            k,
            side_start(k, s) + t - 1,
        ).1,
        side_cursor(width, k, s).steps_to(
            side_direction(s),
            side_cursor(width, k, s).moved(side_direction(s), t),
        ) == t,
        0 <= side_start(k, s),
        side_start(k, s) + side_length(k, s) <= 6 * k,
{
}

/// The walk ends a side of a ring where it begins the next one, and ends
/// the last side where it enters the next ring.
proof fn lemma_side_end(width: nat, k: int, s: int)
    requires
        width <= usize::MAX,
        width % 2 == 1,
        1 <= k <= width / 2,
        0 <= s <= 6,
    ensures
        side_cursor(width, k, s).within(width as int),
        side_cursor(width, k, s).can_move(side_direction(s), side_length(k, s), width as int),
        side_cursor(width, k, s).moved(side_direction(s), side_length(k, s)) == side_cursor(
            width,
            k,
            s + 1,
        ),
        side_start(k, s) + side_length(k, s) == side_start(k, s + 1),
        side_cursor(width, k, 7) == side_cursor(width, k + 1, 0),
{
}

/// A run along one side of ring `k` reaches a cell if and only if the walk
/// visits that cell at one of the turns of the run, and the step that reaches
/// it is then the step of that turn.
proof fn lemma_run_turns(width: nat, k: int, s: int, count: int, at: Coordinates)
    requires
        width <= usize::MAX,
        width % 2 == 1,
        1 <= k <= width / 2,
        0 <= s <= 6,
        0 <= count <= side_length(k, s),
        at.within(width as int),
    ensures
        side_cursor(width, k, s).reaches(side_direction(s), count, at) <==> capacity(k as nat)
            + side_start(k, s) <= spiral_index(at.x - width / 2, at.y - width / 2) < capacity(
            k as nat,
        ) + side_start(k, s) + count,
        side_cursor(width, k, s).reaches(side_direction(s), count, at) ==> spiral_index(
            at.x - width / 2,
            at.y - width / 2,
        ) == capacity(k as nat) + side_start(k, s) + side_cursor(width, k, s).steps_to(
            side_direction(s),
            at,
        ) - 1,
{
    let first = capacity(k as nat) + side_start(k, s);
    let cursor = side_cursor(width, k, s);
    let d = side_direction(s);
    let dx = at.x - width / 2;
    let dy = at.y - width / 2;
    let turn = spiral_index(dx, dy);
    if cursor.reaches(d, count, at) {
        let t = cursor.steps_to(d, at);
        lemma_side_walk(width, k, s, t);
        lemma_index_of_ring_cell(k as nat, side_start(k, s) + t - 1);
        assert((dx, dy) == ring_cell(k, side_start(k, s) + t - 1));
    } else if first <= turn < first + count {
        let t = turn - first + 1;
        lemma_ring_cell_of_index(dx, dy, k as nat, side_start(k, s) + t - 1);
        lemma_side_walk(width, k, s, t);
        let there = cursor.moved(d, t);
        assert(there.x == at.x && there.y == at.y);
        assert(at == there);
        assert(cursor.steps_to(d, at) == t);
        assert(false);
    }
}

/// A run along one side of ring `k` brings a grid that shows the symbols
/// placed before the run to one that shows those placed after it.
proof fn lemma_run_fills(
    before: Seq<Seq<char>>,
    after: Seq<Seq<char>>,
    width: nat,
    letters: Seq<char>,
    k: int,
    s: int,
    count: int,
)
    requires
        width <= usize::MAX,
        width % 2 == 1,
        1 <= k <= width / 2,
        0 <= s <= 6,
        0 <= count <= side_length(k, s),
        capacity(k as nat) + side_start(k, s) + count <= letters.len(),
        shows(before, width, letters.take(capacity(k as nat) + side_start(k, s))),
        after.len() == width,
        is_square(after),
        forall|at: Coordinates|
            at.within(width as int) ==> #[trigger] symbol_at(after, at) == (if side_cursor(
                width,
                k,
                s,
            ).reaches(side_direction(s), count, at) {
                letters[capacity(k as nat) + side_start(k, s) + side_cursor(width, k, s).steps_to(
                    side_direction(s),
                    at,
                ) - 1]
            } else {
                symbol_at(before, at)
            }),
    ensures
        shows(after, width, letters.take(capacity(k as nat) + side_start(k, s) + count)),
{
    let first = capacity(k as nat) + side_start(k, s);
    let cursor = side_cursor(width, k, s);
    let d = side_direction(s);
    assert forall|at: Coordinates| at.within(width as int) implies #[trigger] symbol_at(after, at)
        == symbol_for(letters.take(first + count), at.x - width / 2, at.y - width / 2) by {
        let turn = spiral_index(at.x - width / 2, at.y - width / 2);
        lemma_run_turns(width, k, s, count, at);
        assert(symbol_at(before, at) == symbol_for(
            letters.take(first as int),
            at.x - width / 2,
            at.y - width / 2,
        ));
        if cursor.reaches(d, count, at) {
            assert(turn == first + cursor.steps_to(d, at) - 1);
        } else {
            assert(!(first <= turn < first + count));
        }
    }
}

} // verus!

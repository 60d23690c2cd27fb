//! Tracing a sequence of symbols from cell to neighbouring cell.
//!
//! The trace is greedy: at every step it moves to the first neighbour, in
//! the order in which neighbours are listed, that holds the next symbol, and
//! never takes a step back. It can therefore fail where another choice of
//! neighbours would have led through.

use vstd::prelude::*;
use crate::coords::Coordinates;
use crate::error::GridError;
use crate::grid::{
    adjacent, find_neighbors, grid_view, holds, is_square, lemma_neighbors_are_occupied, neighbors,
    occupied, read_cell, symbol_at, Grid,
};

verus! {

/// The first of the candidates from place `from` on that holds `symbol`.
pub open spec fn first_match_from(
    cells: Seq<Seq<char>>,
    candidates: Seq<Coordinates>,
    symbol: char,
    from: int,
) -> Option<Coordinates>
    decreases candidates.len() - from,
{
    if from < 0 || from >= candidates.len() {
        None
    } else if symbol_at(cells, candidates[from]) == symbol {
        Some(candidates[from])
    } else {
        first_match_from(cells, candidates, symbol, from + 1)
    }
}

/// The cell to which the trace moves from `at` for `symbol`: the first
/// neighbour that holds it.
pub open spec fn next_step(cells: Seq<Seq<char>>, at: Coordinates, symbol: char) -> Option<
    Coordinates,
> {
    first_match_from(cells, neighbors(cells, at), symbol, 0)
}

/// The cells that the greedy trace from `start` passes for the first `count`
/// symbols, `start` itself being the first; nothing if it gets stuck on the
/// way.
pub open spec fn greedy_route(
    cells: Seq<Seq<char>>,
    symbols: Seq<char>,
    start: Coordinates,
    count: nat,
) -> Option<Seq<Coordinates>>
    decreases count,
{
    if count <= 1 {
        Some(seq![start])
    } else {
        match greedy_route(cells, symbols, start, (count - 1) as nat) {
            None => None,
            Some(route) => match next_step(cells, route.last(), symbols[count - 1]) {
                None => None,
                Some(next) => Some(route.push(next)),
            },
        }
    }
}

/// What tracing `symbols` from `start` comes to: `InvalidStart` where the
/// start does not hold the first symbol, else the greedy route, or
/// `PathNotFound` where the trace gets stuck.
pub open spec fn trace_outcome(cells: Seq<Seq<char>>, symbols: Seq<char>, start: Coordinates) -> Result<
    Seq<Coordinates>,
    GridError,
> {
    if symbol_at(cells, start) != symbols[0] {
        Err(GridError::InvalidStart)
    } else {
        match greedy_route(cells, symbols, start, symbols.len()) {
            Some(route) => Ok(route),
            None => Err(GridError::PathNotFound),
        }
    }
}

/// `route` leads through `symbols` from `start`: it begins there, has one
/// cell for each symbol, every cell holds its symbol, and every cell after
/// the first is an occupied neighbour of the cell before it.
pub open spec fn leads_through(
    cells: Seq<Seq<char>>,
    symbols: Seq<char>,
    start: Coordinates,
    route: Seq<Coordinates>,
) -> bool {
    &&& route.len() == symbols.len()
    &&& route[0] == start
    &&& forall|i: int| 0 <= i < route.len() ==> holds(cells, symbols[i], #[trigger] route[i])
    &&& forall|i: int|
        1 <= i < route.len() ==> occupied(cells, #[trigger] route[i]) && adjacent(
            route[i - 1],
            route[i],
        )
}

/// What the search among candidates finds is a candidate that holds the
/// symbol; where it finds nothing, no candidate from `from` on holds it.
pub proof fn lemma_first_match(
    cells: Seq<Seq<char>>,
    candidates: Seq<Coordinates>,
    symbol: char,
    from: int,
)
    requires
        0 <= from,
    ensures
        match first_match_from(cells, candidates, symbol, from) {
            Some(found) => exists|i: int|
                from <= i < candidates.len() && #[trigger] candidates[i] == found && symbol_at(
                    cells,
                    found,
                ) == symbol,
            None => forall|i: int|
                from <= i < candidates.len() ==> symbol_at(cells, #[trigger] candidates[i])
                    != symbol,
        },
    decreases candidates.len() - from,
{
    if from < candidates.len() {
        if symbol_at(cells, candidates[from]) == symbol {
        } else {
            lemma_first_match(cells, candidates, symbol, from + 1);
        }
    }
}

/// Once the greedy trace is stuck, it stays stuck for every longer prefix.
pub proof fn lemma_stuck_stays_stuck(
    cells: Seq<Seq<char>>,
    symbols: Seq<char>,
    start: Coordinates,
    count: nat,
    longer: nat,
)
    requires
        count <= longer,
        greedy_route(cells, symbols, start, count) is None,
    ensures
        greedy_route(cells, symbols, start, longer) is None,
    decreases longer,
{
    if count < longer {
        lemma_stuck_stays_stuck(cells, symbols, start, count, (longer - 1) as nat);
    }
}

/// A greedy route leads through the symbols that it was traced for, from a
/// start that holds the first of them.
pub proof fn lemma_greedy_route_leads_through(
    cells: Seq<Seq<char>>,
    symbols: Seq<char>,
    start: Coordinates,
    count: nat,
)
    requires
        1 <= count <= symbols.len(),
        holds(cells, symbols[0], start),
        greedy_route(cells, symbols, start, count) is Some,
    ensures
        leads_through(
            cells,
            symbols.take(count as int),
            start,
            greedy_route(cells, symbols, start, count).unwrap(),
        ),
    decreases count,
{
    let route = greedy_route(cells, symbols, start, count).unwrap();
    if count > 1 {
        let shorter = greedy_route(cells, symbols, start, (count - 1) as nat).unwrap();
        lemma_greedy_route_leads_through(cells, symbols, start, (count - 1) as nat);
        let next = next_step(cells, shorter.last(), symbols[count - 1]).unwrap();
        lemma_first_match(cells, neighbors(cells, shorter.last()), symbols[count - 1], 0);
        lemma_neighbors_are_occupied(cells, shorter.last());
        assert(route == shorter.push(next));
        assert forall|i: int| 0 <= i < route.len() implies holds(
            cells,
            symbols.take(count as int)[i],
            #[trigger] route[i],
        ) by {
            if i < count - 1 {
                assert(route[i] == shorter[i]);
                assert(symbols.take(count - 1)[i] == symbols.take(count as int)[i]);
            }
        }
        assert forall|i: int| 1 <= i < route.len() implies occupied(cells, #[trigger] route[i])
            && adjacent(route[i - 1], route[i]) by {
            if i < count - 1 {
                assert(route[i] == shorter[i]);
                assert(route[i - 1] == shorter[i - 1]);
            }
        }
    }
}

/// The first of `candidates` that holds `symbol`, if any does.
fn first_holder(grid: &Grid, candidates: &Vec<Coordinates>, symbol: char) -> (found: Option<
    Coordinates,
>)
    requires
        is_square(grid_view(grid)),
        forall|i: int|
            0 <= i < candidates@.len() ==> (#[trigger] candidates@[i]).within(grid@.len() as int),
    ensures
        found == first_match_from(grid_view(grid), candidates@, symbol, 0),
{
    let mut i: usize = 0;
    while i < candidates.len()
        invariant
            is_square(grid_view(grid)),
            forall|j: int|
                0 <= j < candidates@.len() ==> (#[trigger] candidates@[j]).within(
                    grid@.len() as int,
                ),
            i <= candidates@.len(),
            first_match_from(grid_view(grid), candidates@, symbol, 0) == first_match_from(
                grid_view(grid),
                candidates@,
                symbol,
                i as int,
            ),
        decreases candidates@.len() - i,
    {
        let candidate = candidates[i];
        if read_cell(grid, candidate) == symbol {
            return Some(candidate);
        }
        i += 1;
    }
    None
}

/// Traces `characters` greedily from `start`. Fails with `InvalidStart`
/// where the start does not hold the first symbol, and with `PathNotFound`
/// where, at some step, no occupied neighbour holds the next symbol.
pub fn find_route(grid: &Grid, characters: &[char], start: Coordinates) -> (res: Result<
    Vec<Coordinates>,
    GridError,
>)
    requires
        is_square(grid_view(grid)),
        start.within(grid@.len() as int),
        characters@.len() >= 1,
    ensures
        match res {
            Ok(route) => trace_outcome(grid_view(grid), characters@, start) == Ok::<
                Seq<Coordinates>,
                GridError,
            >(route@) && leads_through(grid_view(grid), characters@, start, route@),
            Err(e) => trace_outcome(grid_view(grid), characters@, start) == Err::<
                Seq<Coordinates>,
                GridError,
            >(e),
        },
{
    let ghost cells = grid_view(grid);
    if characters[0] != read_cell(grid, start) {
        return Err(GridError::InvalidStart);
    }
    let mut route: Vec<Coordinates> = Vec::new();
    route.push(start);
    let mut current: Coordinates = start;
    let mut i: usize = 1;
    while i < characters.len()
        invariant
            cells == grid_view(grid),
            is_square(cells),
            1 <= i <= characters@.len(),
            symbol_at(cells, start) == characters@[0],
            route@.len() == i,
            current == route@.last(),
            current.within(grid@.len() as int),
            greedy_route(cells, characters@, start, i as nat) == Some(route@),
        decreases characters@.len() - i,
    {
        let around = find_neighbors(grid, current);
        match first_holder(grid, &around, characters[i]) {
            Some(next) => {
                proof {
                    lemma_first_match(cells, around@, characters@[i as int], 0);
                }
                route.push(next);
                current = next;
            },
            None => {
                proof {
                    lemma_stuck_stays_stuck(
                        cells,
                        characters@,
                        start,
                        (i + 1) as nat,
                        characters@.len(),
                    );
                }
                return Err(GridError::PathNotFound);
            },
        }
        i += 1;
    }
    proof {
        lemma_greedy_route_leads_through(cells, characters@, start, characters@.len());
        assert(characters@.take(characters@.len() as int) =~= characters@);
    }
    Ok(route)
}

} // verus!

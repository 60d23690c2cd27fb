//! The hexagonal spiral: which cell the walk visits at which turn.
//!
//! Cells are named here by their offset from the centre of the grid. The
//! walk starts on the centre and then goes round it ring by ring. Ring `k`
//! holds the `6 * k` cells whose hexagonal distance from the centre is `k`.
//! The walk enters it one step to the right of the last cell of the ring
//! before, and then runs down-right, down, left, up-left, up and right along
//! its six sides.

use vstd::prelude::*;
use crate::coords::Direction;
use crate::sizing::{capacity, layer_count, lemma_capacity_strictly_monotonic, lemma_layer_count_is_least};

verus! {

/// The greater of two integers.
pub open spec fn larger(a: int, b: int) -> int {
    if a >= b {
        a
    } else {
        b
    }
}

/// The distance of an integer from zero.
pub open spec fn magnitude(a: int) -> int {
    if a >= 0 {
        a
    } else {
        -a
    }
}

/// The ring on which the cell at offset `(dx, dy)` lies: the least number of
/// steps in the six directions that lead from the centre to it.
pub open spec fn ring_of(dx: int, dy: int) -> int {
    larger(larger(magnitude(dx), magnitude(dy)), magnitude(dx - dy))
}

/// The offset of the cell that the walk visits at turn `j` of ring `k`,
/// counting the turns of a ring from 0.
pub open spec fn ring_cell(k: int, j: int) -> (int, int) {
    if j < k {
        (1 + j, j - k + 1)
    } else if j < 2 * k {
        (k, j - k + 1)
    } else if j < 3 * k {
        (3 * k - 1 - j, k)
    } else if j < 4 * k {
        (3 * k - 1 - j, 4 * k - 1 - j)
    } else if j < 5 * k {
        (-k, 4 * k - 1 - j)
    } else {
        (j - 6 * k + 1, -k)
    }
}

/// The turn of ring `k` at which the walk visits the cell at offset
/// `(dx, dy)`, for a cell of that ring.
pub open spec fn turn_in_ring(k: int, dx: int, dy: int) -> int {
    if dx - dy == k && dx >= 1 {
        dx - 1
    } else if dx == k && dy >= 1 {
        k - 1 + dy
    } else if dy == k && dx >= 0 {
        3 * k - 1 - dx
    } else if dx - dy == -k && dx <= -1 {
        3 * k - 1 - dx
    } else if dx == -k && dy <= -1 {
        4 * k - 1 - dy
    } else {
        dx + 6 * k - 1
    }
}

/// The turn of the whole walk, counted from 0, at which it visits the cell
/// at offset `(dx, dy)`: the cells of the rings inside come first.
pub open spec fn spiral_index(dx: int, dy: int) -> nat {
    let k = ring_of(dx, dy);
    if k == 0 {
        0
    } else {
        (capacity(k as nat) + turn_in_ring(k, dx, dy)) as nat
    }
}

/// The ring that the walk is on at turn `i`.
pub open spec fn ring_at(i: nat) -> nat {
    (layer_count(i + 1) - 1) as nat
}

/// The offset of the cell that the walk visits at turn `i`.
pub open spec fn spiral_offset(i: nat) -> (int, int) {
    if i == 0 {
        (0, 0)
    } else {
        ring_cell(ring_at(i) as int, i - capacity(ring_at(i)))
    }
}

/// The direction in which the walk runs along side `s` of a ring. A ring has
/// seven sides, counted from 0: the single step that enters it, and then the
/// six sides proper, of which the first is shorter by that step.
pub open spec fn side_direction(s: int) -> Direction {
    if s == 0 {
        Direction::Right
    } else if s == 1 {
        Direction::DownRight
    } else if s == 2 {
        Direction::Down
    } else if s == 3 {
        Direction::Left
    } else if s == 4 {
        Direction::UpLeft
    } else if s == 5 {
        Direction::Up
    } else {
        Direction::Right
    }
}

/// The number of steps that the walk makes along side `s` of ring `k`.
pub open spec fn side_length(k: int, s: int) -> int {
    if s == 0 {
        1
    } else if s == 1 {
        k - 1
    } else {
        k
    }
}

/// The turn of ring `k` at which the walk makes its first step along side
/// `s`: the lengths of the sides before it, added up. After the last side
/// that is the number of cells in the ring.
pub open spec fn side_start(k: int, s: int) -> int {
    if s == 0 {
        0
    } else if s == 1 {
        1
    } else if s == 2 {
        k
    } else if s == 3 {
        2 * k
    } else if s == 4 {
        3 * k
    } else if s == 5 {
        4 * k
    } else if s == 6 {
        5 * k
    } else {
        6 * k
    }
}

/// The offset of the cell on which the walk stands before turn `j` of ring
/// `k`: the cell of the turn before, or, before the ring's first turn, the
/// last cell of the ring inside.
pub open spec fn cell_before(k: int, j: int) -> (int, int) {
    if j == 0 {
        (0, 1 - k)
    } else {
        ring_cell(k, j - 1)
    }
}

/// A turn of ring `k` leads to a cell of ring `k`, and that cell is visited
/// at that turn.
pub proof fn lemma_ring_cell_turn(k: int, j: int)
    requires
        k >= 1,
        0 <= j < 6 * k,
    ensures
        ring_of(ring_cell(k, j).0, ring_cell(k, j).1) == k,
        turn_in_ring(k, ring_cell(k, j).0, ring_cell(k, j).1) == j,
{
}

/// A cell of ring `k` is visited at one of the `6 * k` turns of that ring,
/// and that turn leads to it.
pub proof fn lemma_turn_ring_cell(dx: int, dy: int)
    requires
        ring_of(dx, dy) >= 1,
    ensures
        0 <= turn_in_ring(ring_of(dx, dy), dx, dy) < 6 * ring_of(dx, dy),
        ring_cell(ring_of(dx, dy), turn_in_ring(ring_of(dx, dy), dx, dy)) == (dx, dy),
{
}

/// The turns of ring `k` are those from `capacity(k)` up to, and without,
/// `capacity(k + 1)`.
pub proof fn lemma_ring_span(k: nat)
    requires
        k >= 1,
    ensures
        capacity(k + 1) == capacity(k) + 6 * k,
{
}

/// A turn lies in the span of one ring only.
pub proof fn lemma_ring_of_turn_unique(k1: nat, j1: int, k2: nat, j2: int)
    requires
        k1 >= 1,
        k2 >= 1,
        0 <= j1 < 6 * k1,
        0 <= j2 < 6 * k2,
        capacity(k1) + j1 == capacity(k2) + j2,
    ensures
        k1 == k2,
        j1 == j2,
{
    lemma_ring_span(k1);
    lemma_ring_span(k2);
    if k1 < k2 {
        if k1 + 1 < k2 {
            lemma_capacity_strictly_monotonic(k1 + 1, k2);
        }
    } else if k2 < k1 {
        if k2 + 1 < k1 {
            lemma_capacity_strictly_monotonic(k2 + 1, k1);
        }
    }
}

/// The cell visited at turn `j` of ring `k` is visited at turn
/// `capacity(k) + j` of the walk.
pub proof fn lemma_index_of_ring_cell(k: nat, j: int)
    requires
        k >= 1,
        0 <= j < 6 * k,
    ensures
        spiral_index(ring_cell(k as int, j).0, ring_cell(k as int, j).1) == capacity(k) + j,
{
    lemma_ring_cell_turn(k as int, j);
}

/// The cell visited at turn `capacity(k) + j` of the walk is the one that
/// turn `j` of ring `k` leads to.
pub proof fn lemma_ring_cell_of_index(dx: int, dy: int, k: nat, j: int)
    requires
        k >= 1,
        0 <= j < 6 * k,
        spiral_index(dx, dy) == capacity(k) + j,
    ensures
        (dx, dy) == ring_cell(k as int, j),
{
    let own = ring_of(dx, dy);
    assert(capacity(k) >= 1) by {
        lemma_capacity_strictly_monotonic(0, k);
    }
    assert(own >= 1);
    lemma_turn_ring_cell(dx, dy);
    lemma_ring_of_turn_unique(own as nat, turn_in_ring(own, dx, dy), k, j);
}

/// Turn `i` of the walk falls in the span of the ring that the walk is on.
pub proof fn lemma_ring_at_span(i: nat)
    requires
        i >= 1,
    ensures
        ring_at(i) >= 1,
        capacity(ring_at(i)) <= i < capacity(ring_at(i)) + 6 * ring_at(i),
{
    lemma_layer_count_is_least(i + 1);
    lemma_layer_count_is_least(2);
    crate::sizing::lemma_layer_count_monotonic(2, i + 1);
    assert(layer_count(2) == 2) by {
        crate::sizing::lemma_layer_count_unique(2, 2);
    }
    lemma_ring_span(ring_at(i));
}

/// The walk visits the centre at turn 0, and no other cell.
pub proof fn lemma_index_zero(dx: int, dy: int)
    ensures
        spiral_index(dx, dy) == 0 <==> dx == 0 && dy == 0,
{
    if ring_of(dx, dy) >= 1 {
        lemma_turn_ring_cell(dx, dy);
        lemma_capacity_strictly_monotonic(0, ring_of(dx, dy) as nat);
    }
}

/// The walk visits the cell of turn `i` at turn `i`.
pub proof fn lemma_index_of_offset(i: nat)
    ensures
        spiral_index(spiral_offset(i).0, spiral_offset(i).1) == i,
{
    if i >= 1 {
        lemma_ring_at_span(i);
        lemma_index_of_ring_cell(ring_at(i), i - capacity(ring_at(i)));
    }
}

/// The cell that the walk visits at its turn is the cell of that turn.
pub proof fn lemma_offset_of_index(dx: int, dy: int)
    ensures
        spiral_offset(spiral_index(dx, dy)) == (dx, dy),
{
    let i = spiral_index(dx, dy);
    let own = ring_of(dx, dy);
    if own >= 1 {
        lemma_turn_ring_cell(dx, dy);
        assert(capacity(own as nat) >= 1) by {
            lemma_capacity_strictly_monotonic(0, own as nat);
        }
        lemma_ring_at_span(i);
        lemma_ring_of_turn_unique(
            own as nat,
            turn_in_ring(own, dx, dy),
            ring_at(i),
            i - capacity(ring_at(i)),
        );
    }
}

/// No cell of the walk's first `n` turns lies further from the centre, along
/// either axis, than the grid for `n` symbols reaches.
pub proof fn lemma_walk_stays_on_grid(n: nat, dx: int, dy: int)
    requires
        spiral_index(dx, dy) < n,
    ensures
        ring_of(dx, dy) < layer_count(n),
        -layer_count(n) < dx < layer_count(n),
        -layer_count(n) < dy < layer_count(n),
{
    let own = ring_of(dx, dy);
    lemma_layer_count_is_least(n);
    if own >= 1 {
        lemma_turn_ring_cell(dx, dy);
        if layer_count(n) < own {
            lemma_capacity_strictly_monotonic(layer_count(n), own as nat);
        }
    }
}

/// The direction of the step that the walk makes at turn `j` of ring `k`:
/// one step right into the ring, then down-right to the end of the first
/// side, and `k` steps each down, left, up-left, up and right.
pub open spec fn turn_direction(k: int, j: int) -> Direction {
    if j == 0 {
        Direction::Right
    } else if j < k {
        Direction::DownRight
    } else if j < 2 * k {
        Direction::Down
    } else if j < 3 * k {
        Direction::Left
    } else if j < 4 * k {
        Direction::UpLeft
    } else if j < 5 * k {
        Direction::Up
    } else {
        Direction::Right
    }
}

/// Every turn after the first takes the walk one step on from the cell of
/// the turn before, in the direction of that turn.
pub proof fn lemma_walk_steps(i: nat)
    requires
        i >= 1,
    ensures
        spiral_offset(i).0 == spiral_offset((i - 1) as nat).0 + turn_direction(
            ring_at(i) as int,
            i - capacity(ring_at(i)),
        ).dx(),
        spiral_offset(i).1 == spiral_offset((i - 1) as nat).1 + turn_direction(
            ring_at(i) as int,
            i - capacity(ring_at(i)),
        ).dy(),
{
    let k = ring_at(i);
    let j = i - capacity(k);
    let before = (i - 1) as nat;
    lemma_ring_at_span(i);
    if before >= 1 {
        lemma_ring_at_span(before);
        let k_before = ring_at(before);
        let j_before = before - capacity(k_before);
        if j >= 1 {
            lemma_ring_of_turn_unique(k_before, j_before, k, j - 1);
        } else {
            assert(k >= 2) by {
                if k == 1 {
                    assert(capacity(1) == 1);
                }
            }
            lemma_ring_span((k - 1) as nat);
            lemma_ring_of_turn_unique(k_before, j_before, (k - 1) as nat, 6 * (k - 1) - 1);
        }
    } else {
        assert(k == 1) by {
            if k >= 2 {
                lemma_capacity_strictly_monotonic(1, k);
            }
        }
    }
}

} // verus!

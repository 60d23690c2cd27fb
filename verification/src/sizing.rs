//! How wide a grid must be to hold a given number of symbols.
//!
//! The spiral fills concentric hexagonal rings round the centre. The centre
//! alone is the first layer, and every further layer adds six cells for each
//! layer already there. A grid of `l` layers is `2 * l - 1` cells wide.

use vstd::prelude::*;
use crate::error::GridError;

verus! {

/// The sum `1 + 2 + ... + n`.
pub open spec fn triangular(n: nat) -> nat
    decreases n,
{
    if n == 0 {
        0
    } else {
        n + triangular((n - 1) as nat)
    }
}

/// The number of cells in the first `layers` layers: nothing, then the centre,
/// then six more cells for each layer already there.
pub open spec fn capacity(layers: nat) -> nat
    decreases layers,
{
    if layers == 0 {
        0
    } else if layers == 1 {
        1
    } else {
        capacity((layers - 1) as nat) + 6 * (layers - 1) as nat
    }
}

/// The least number of layers that hold `n` symbols.
pub open spec fn layer_count(n: nat) -> nat
    decreases n,
{
    if n == 0 {
        0
    } else {
        let below = layer_count((n - 1) as nat);
        if capacity(below) >= n {
            below
        } else {
            below + 1
        }
    }
}

/// The side length of the grid for `n` symbols; no grid for no symbols.
pub open spec fn grid_width_spec(n: nat) -> nat {
    if n == 0 {
        0
    } else {
        (2 * layer_count(n) - 1) as nat
    }
}

/// The least `n` whose triangular number reaches `f_n`: the counter is taken
/// from the budget and raised by one for as long as the budget exceeds it.
pub fn inv_fibish(f_n: usize) -> (n: usize)
    ensures
        triangular(n as nat) >= f_n,
        n > 0 ==> triangular((n - 1) as nat) < f_n,
{
    let mut budget: usize = f_n;
    let mut n: usize = 0;
    while budget > n
        invariant
            budget + triangular(n as nat) - n == f_n,
            n > 0 ==> triangular((n - 1) as nat) < f_n,
            n <= f_n,
        decreases f_n - n,
    {
        proof {
            lemma_triangular_climbs(n as nat);
        }
        budget -= n;
        n += 1;
    }
    n
}

/// The number of layers that `i` symbols need.
pub fn layers_n(i: usize) -> (layers: usize)
    ensures
        layers == layer_count(i as nat),
        capacity(layers as nat) >= i,
        layers > 0 ==> capacity((layers - 1) as nat) < i,
{
    proof {
        lemma_layer_count_is_least(i as nat);
    }
    if i == 0 {
        0
    } else if i == 1 {
        proof {
            lemma_layer_count_unique(1, 1);
        }
        1
    } else {
        let rings: usize = inv_fibish(((i - 2) / 6) + 1);
        proof {
            lemma_capacity_triangular(rings as nat);
            lemma_capacity_triangular((rings + 1) as nat);
            lemma_layer_count_unique(i as nat, (rings + 1) as nat);
        }
        rings + 1
    }
}

/// The side length of the grid for `i` symbols, and 0 for none.
pub fn grid_width(i: usize) -> (width: usize)
    ensures
        width == grid_width_spec(i as nat),
        i >= 1 ==> width % 2 == 1 && width * width >= i,
{
    if i == 0 {
        0
    } else if i == 1 {
        proof {
            lemma_layer_count_unique(1, 1);
        }
        1
    } else {
        let layers: usize = layers_n(i);
        proof {
            lemma_layer_count_bound(i as nat);
            lemma_grid_width_holds_all(i as nat);
        }
        (layers * 2) - 1
    }
}

/// The side length of the grid for `length` symbols. There is no grid for no
/// symbols: that is `EmptyInput`.
pub fn width_for(length: usize) -> (res: Result<usize, GridError>)
    ensures
        match res {
            Ok(width) => {
                &&& length >= 1
                &&& width == grid_width_spec(length as nat)
                &&& width % 2 == 1
                &&& width * width >= length
            },
            Err(e) => length == 0 && e == GridError::EmptyInput,
        },
{
    if length == 0 {
        Err(GridError::EmptyInput)
    } else {
        Ok(grid_width(length))
    }
}

/// More symbols never need a narrower grid.
pub proof fn lemma_grid_width_monotonic(a: nat, b: nat)
    requires
        a <= b,
    ensures
        grid_width_spec(a) <= grid_width_spec(b),
{
    lemma_layer_count_monotonic(a, b);
    lemma_layer_count_is_least(a);
}

/// The grid for at least one symbol has an odd side, and its square holds
/// every symbol.
pub proof fn lemma_grid_width_holds_all(n: nat)
    requires
        n >= 1,
    ensures
        grid_width_spec(n) % 2 == 1,
        grid_width_spec(n) * grid_width_spec(n) >= n,
{
    let layers = layer_count(n);
    lemma_layer_count_is_least(n);
    lemma_capacity_closed_form(layers);
    assert((2 * layers - 1) * (2 * layers - 1) >= 1 + 3 * layers * (layers - 1))
        by (nonlinear_arith)
        requires
            layers >= 1,
    ;
}

/// The layer count holds the symbols, and one layer fewer does not.
pub proof fn lemma_layer_count_is_least(n: nat)
    ensures
        capacity(layer_count(n)) >= n,
        layer_count(n) > 0 ==> capacity((layer_count(n) - 1) as nat) < n,
        n > 0 ==> layer_count(n) > 0,
    decreases n,
{
    if n > 0 {
        let below = layer_count((n - 1) as nat);
        lemma_layer_count_is_least((n - 1) as nat);
        if capacity(below) < n {
            assert(capacity(below) == n - 1);
            if below >= 1 {
                assert(capacity(below + 1) == capacity(below) + 6 * below);
            }
        }
    }
}

/// Only the layer count holds the symbols while one layer fewer does not.
pub proof fn lemma_layer_count_unique(n: nat, layers: nat)
    requires
        capacity(layers) >= n,
        layers > 0 ==> capacity((layers - 1) as nat) < n,
    ensures
        layers == layer_count(n),
{
    let least = layer_count(n);
    lemma_layer_count_is_least(n);
    if layers < least {
        if layers < least - 1 {
            lemma_capacity_strictly_monotonic(layers, (least - 1) as nat);
        }
    } else if least < layers {
        if least < layers - 1 {
            lemma_capacity_strictly_monotonic(least, (layers - 1) as nat);
        }
    }
}

/// More symbols never need fewer layers.
pub proof fn lemma_layer_count_monotonic(a: nat, b: nat)
    requires
        a <= b,
    ensures
        layer_count(a) <= layer_count(b),
    decreases b,
{
    if a < b {
        lemma_layer_count_monotonic(a, (b - 1) as nat);
    }
}

/// Twice the layer count exceeds the number of symbols by two at most, and
/// from three layers on does not exceed it at all.
pub proof fn lemma_layer_count_bound(n: nat)
    ensures
        2 * layer_count(n) <= n + 2,
        layer_count(n) >= 3 ==> 2 * layer_count(n) <= n,
{
    let layers = layer_count(n);
    lemma_layer_count_is_least(n);
    if layers >= 2 {
        lemma_capacity_spread((layers - 1) as nat);
    }
}

/// The capacity is a centred hexagonal number.
pub proof fn lemma_capacity_closed_form(layers: nat)
    requires
        layers >= 1,
    ensures
        capacity(layers) == 1 + 3 * layers * (layers - 1),
{
    lemma_capacity_triangular(layers);
    lemma_triangular_closed_form((layers - 1) as nat);
    assert(3 * ((layers - 1) * ((layers - 1) + 1)) == 3 * layers * (layers - 1))
        by (nonlinear_arith);
}

/// More layers hold more cells.
pub proof fn lemma_capacity_strictly_monotonic(a: nat, b: nat)
    requires
        a < b,
    ensures
        capacity(a) < capacity(b),
    decreases b,
{
    if a + 1 < b {
        lemma_capacity_strictly_monotonic(a, (b - 1) as nat);
    }
}

/// Beyond the centre, the capacity is one more than six triangular numbers.
pub proof fn lemma_capacity_triangular(layers: nat)
    requires
        layers >= 1,
    ensures
        capacity(layers) == 1 + 6 * triangular((layers - 1) as nat),
    decreases layers,
{
    if layers > 1 {
        lemma_capacity_triangular((layers - 1) as nat);
    }
}

/// From two layers on, the capacity is at least twice the next layer count.
proof fn lemma_capacity_spread(layers: nat)
    requires
        layers >= 1,
    ensures
        capacity(layers) >= 2 * layers - 1,
        layers >= 2 ==> capacity(layers) >= 2 * (layers + 1),
    decreases layers,
{
    if layers > 1 {
        lemma_capacity_spread((layers - 1) as nat);
    }
}

/// Twice the triangular number is the product of two neighbours.
pub proof fn lemma_triangular_closed_form(n: nat)
    ensures
        2 * triangular(n) == n * (n + 1),
    decreases n,
{
    if n > 0 {
        let m = (n - 1) as nat;
        lemma_triangular_closed_form(m);
        assert(m * (m + 1) + 2 * (m + 1) == (m + 1) * (m + 2)) by (nonlinear_arith);
    } else {
        assert(n * (n + 1) == 0) by (nonlinear_arith)
            requires
                n == 0,
        ;
    }
}

/// A triangular number is at least its index.
proof fn lemma_triangular_climbs(n: nat)
    ensures
        triangular(n) >= n,
    decreases n,
{
    if n > 0 {
        lemma_triangular_climbs((n - 1) as nat);
    }
}

} // verus!

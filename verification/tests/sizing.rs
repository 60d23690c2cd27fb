use hex_grid::{grid_width, inv_fibish, layers_n, width_for, GridError};

#[test]
fn grid_width_test() {
    assert_eq!(grid_width(0), 0);
    assert_eq!(grid_width(1), 1);
    for n in 2..=7 {
        assert_eq!(grid_width(n), 3);
    }
    for n in 8..=19 {
        assert_eq!(grid_width(n), 5);
    }
    for n in 20..=37 {
        assert_eq!(grid_width(n), 7);
    }
    for n in 38..=61 {
        assert_eq!(grid_width(n), 9);
    }
}

#[test]
fn layers_n_test() {
    assert_eq!(layers_n(0), 0);
    assert_eq!(layers_n(1), 1);
    for n in 2..=7 {
        assert_eq!(layers_n(n), 2);
    }
    for n in 8..=19 {
        assert_eq!(layers_n(n), 3);
    }
    for n in 20..=37 {
        assert_eq!(layers_n(n), 4);
    }
    for n in 38..=61 {
        assert_eq!(layers_n(n), 5);
    }
}

#[test]
fn inv_fibish_reaches_triangular_numbers() {
    assert_eq!(inv_fibish(0), 0);
    assert_eq!(inv_fibish(1), 1);
    assert_eq!(inv_fibish(2), 2);
    assert_eq!(inv_fibish(3), 2);
    assert_eq!(inv_fibish(4), 3);
    assert_eq!(inv_fibish(6), 3);
    assert_eq!(inv_fibish(7), 4);
    assert_eq!(inv_fibish(10), 4);
    assert_eq!(inv_fibish(11), 5);
}

#[test]
fn width_for_nothing_is_an_error() {
    assert_eq!(width_for(0), Err(GridError::EmptyInput));
}

#[test]
fn width_for_follows_the_rings() {
    assert_eq!(width_for(1), Ok(1));
    for n in 2..=7 {
        assert_eq!(width_for(n), Ok(3));
    }
    for n in 8..=19 {
        assert_eq!(width_for(n), Ok(5));
    }
    for n in 20..=37 {
        assert_eq!(width_for(n), Ok(7));
    }
    assert_eq!(width_for(62), Ok(11));
}

#[test]
fn width_is_odd_and_its_square_holds_everything() {
    for n in 1..2000usize {
        let width = grid_width(n);
        assert_eq!(width % 2, 1);
        assert!(width * width >= n);
    }
}

#[test]
fn width_never_shrinks() {
    let mut last = grid_width(0);
    for n in 1..2000usize {
        let width = grid_width(n);
        assert!(width >= last);
        last = width;
    }
}

#[test]
fn layers_are_the_least_that_hold_the_symbols() {
    for n in 2..2000usize {
        let layers = layers_n(n);
        let holds = 1 + 3 * layers * (layers - 1);
        let below = 1 + 3 * (layers - 1) * (layers - 2);
        assert!(holds >= n);
        assert!(below < n);
    }
}

#[test]
fn width_of_a_long_input() {
    assert_eq!(layers_n(1_000_000), 578);
    assert_eq!(grid_width(1_000_000), 1155);
    assert_eq!(grid_width(usize::MAX) % 2, 1);
}

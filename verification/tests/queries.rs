use hex_grid::{
    construct_grid, find_neighbors, find_route, find_tile, Coordinates, Direction, Grid, GridError,
};

fn letters(text: &str) -> Vec<char> {
    text.chars().collect()
}

fn at(x: usize, y: usize) -> Coordinates {
    Coordinates { x, y }
}

#[test]
fn single_symbol_grid() {
    let grid = construct_grid(&letters("A")).unwrap();
    assert_eq!(grid.len(), 1);
    assert_eq!(grid[0].len(), 1);
    assert_eq!(grid[0][0], 'A');
    assert_eq!(find_tile(&grid, 'A'), Some(at(0, 0)));
    assert_eq!(find_neighbors(&grid, at(0, 0)), vec![]);
    assert_eq!(find_route(&grid, &letters("A"), at(0, 0)), Ok(vec![at(0, 0)]));
}

#[test]
fn seven_symbols_trace_two() {
    let grid = construct_grid(&letters("ABCDEFG")).unwrap();
    assert_eq!(grid.len(), 3);
    assert_eq!(grid[1][1], 'A');
    let route = find_route(&grid, &letters("AB"), at(1, 1)).unwrap();
    assert_eq!(route.len(), 2);
    assert_eq!(route[0], at(1, 1));
    assert_eq!(route[1], find_tile(&grid, 'B').unwrap());
    assert_eq!(route[1], at(2, 1));
}

#[test]
fn nineteen_symbols_trace_eight() {
    let grid = construct_grid(&letters("ABCDEFGHIJKLMNOPQRS")).unwrap();
    assert_eq!(grid.len(), 5);
    assert_eq!(grid[2][2], 'A');
    let route = find_route(&grid, &letters("ABHSRQPE"), at(2, 2));
    assert_eq!(
        route,
        Ok(vec![
            at(2, 2),
            at(3, 2),
            at(3, 1),
            at(2, 0),
            at(1, 0),
            at(0, 0),
            at(0, 1),
            at(1, 2),
        ])
    );
}

#[test]
fn trace_from_a_wrong_start() {
    let grid = construct_grid(&letters("ABCDEFG")).unwrap();
    assert_eq!(find_route(&grid, &letters("BA"), at(1, 1)), Err(GridError::InvalidStart));
    assert_eq!(find_route(&grid, &letters("Z"), at(1, 1)), Err(GridError::InvalidStart));
    assert_eq!(find_route(&grid, &letters("AB"), at(0, 2)), Err(GridError::InvalidStart));
    assert_eq!(find_route(&grid, &letters("ZZZZZZ"), at(2, 2)), Err(GridError::InvalidStart));
}

#[test]
fn trace_gets_stuck() {
    let grid = construct_grid(&letters("ABCDEFGHIJKLMNOPQRS")).unwrap();
    assert_eq!(find_route(&grid, &letters("AENDVML"), at(2, 2)), Err(GridError::PathNotFound));
    assert_eq!(find_route(&grid, &letters("AK"), at(2, 2)), Err(GridError::PathNotFound));
    assert_eq!(find_route(&grid, &letters("AA"), at(2, 2)), Err(GridError::PathNotFound));
}

#[test]
fn trace_along_the_first_ring() {
    let grid = construct_grid(&letters("ABCDEFGHIJKLMNOPQRS")).unwrap();
    assert_eq!(
        find_route(&grid, &letters("ABCD"), at(2, 2)),
        Ok(vec![at(2, 2), at(3, 2), at(3, 3), at(2, 3)])
    );
}

#[test]
fn trace_never_steps_onto_an_empty_cell() {
    let grid = construct_grid(&letters("AB")).unwrap();
    assert_eq!(find_route(&grid, &['A', '\0'], at(1, 1)), Err(GridError::PathNotFound));
    assert_eq!(find_route(&grid, &['\0'], at(0, 0)), Ok(vec![at(0, 0)]));
    assert_eq!(find_route(&grid, &['\0', 'A'], at(0, 0)), Ok(vec![at(0, 0), at(1, 1)]));
}

#[test]
fn trace_is_greedy() {
    // Two cells next to the start hold 'B'; only from the second one can
    // 'C' be reached, but the trace commits to the first.
    let grid: Grid = vec![
        vec!['\0', '\0', '\0'],
        vec!['C', 'A', 'B'],
        vec!['\0', 'B', '\0'],
    ];
    assert_eq!(find_neighbors(&grid, at(1, 1)), vec![at(2, 1), at(1, 2), at(1, 0)]);
    assert_eq!(find_route(&grid, &letters("AB"), at(1, 1)), Ok(vec![at(1, 1), at(2, 1)]));
    assert_eq!(find_route(&grid, &letters("ABA"), at(1, 1)), Ok(vec![at(1, 1), at(2, 1), at(1, 1)]));
    let other: Grid = vec![
        vec!['\0', '\0', 'C'],
        vec!['\0', 'A', 'B'],
        vec!['\0', 'B', '\0'],
    ];
    assert_eq!(find_route(&other, &letters("ABC"), at(1, 1)), Err(GridError::PathNotFound));
    assert_eq!(
        find_route(&other, &letters("BC"), at(1, 2)),
        Ok(vec![at(1, 2), at(0, 2)])
    );
}

#[test]
fn neighbors_in_listing_order() {
    let grid = construct_grid(&letters("ABCDEFGHIJKLMNOPQRS")).unwrap();
    assert_eq!(
        find_neighbors(&grid, at(2, 2)),
        vec![at(3, 2), at(3, 3), at(2, 3), at(1, 2), at(1, 1), at(2, 1)]
    );
    assert_eq!(
        find_neighbors(&grid, at(3, 1)),
        vec![at(4, 2), at(3, 2), at(2, 1), at(2, 0)]
    );
    assert_eq!(find_neighbors(&grid, at(0, 0)), vec![at(1, 0), at(1, 1), at(0, 1)]);
    assert_eq!(find_neighbors(&grid, at(4, 4)), vec![at(3, 4), at(3, 3), at(4, 3)]);
    assert_eq!(find_neighbors(&grid, at(0, 4)), Vec::<Coordinates>::new());
    assert_eq!(find_neighbors(&grid, at(4, 0)), Vec::<Coordinates>::new());
}

#[test]
fn neighbors_are_few_near_and_occupied() {
    let grid = construct_grid(&letters("ABCDEFGHIJKLMNOPQRSTUVWXYZ")).unwrap();
    let width = grid.len();
    for x in 0..width {
        for y in 0..width {
            let found = find_neighbors(&grid, at(x, y));
            assert!(found.len() <= 6);
            for n in found {
                assert!(n.x < width && n.y < width);
                assert_ne!(grid[n.x][n.y], '\0');
                let step = (n.x as i64 - x as i64, n.y as i64 - y as i64);
                assert!([(1, 0), (1, 1), (0, 1), (-1, 0), (-1, -1), (0, -1)].contains(&step));
            }
        }
    }
}

#[test]
fn locate_an_absent_symbol() {
    let grid = construct_grid(&letters("ABCDEFGHIJKLMNOPQRS")).unwrap();
    assert_eq!(find_tile(&grid, 'Z'), None);
    assert_eq!(find_tile(&grid, 'a'), None);
    let nothing: Grid = vec![];
    assert_eq!(find_tile(&nothing, 'A'), None);
}

#[test]
fn locate_each_symbol() {
    let grid = construct_grid(&letters("ABCDEFGHIJKLMNOPQRS")).unwrap();
    assert_eq!(find_tile(&grid, 'A'), Some(at(2, 2)));
    assert_eq!(find_tile(&grid, 'D'), Some(at(2, 3)));
    assert_eq!(find_tile(&grid, 'K'), Some(at(4, 4)));
    assert_eq!(find_tile(&grid, 'Q'), Some(at(0, 0)));
    assert_eq!(find_tile(&grid, '\0'), Some(at(0, 3)));
}

#[test]
fn locate_scans_columns_first() {
    let grid: Grid = vec![
        vec!['\0', '\0', 'X'],
        vec!['X', 'A', '\0'],
        vec!['X', '\0', '\0'],
    ];
    assert_eq!(find_tile(&grid, 'X'), Some(at(0, 2)));
    let grid = construct_grid(&letters("ABCDA")).unwrap();
    assert_eq!(grid[0][1], 'A');
    assert_eq!(find_tile(&grid, 'A'), Some(at(0, 1)));
}

#[test]
fn locate_the_first_symbol_at_the_center() {
    for n in 1..120usize {
        let symbols: Vec<char> = (0..n as u32).map(|i| char::from_u32(0x4e00 + i).unwrap()).collect();
        let grid = construct_grid(&symbols).unwrap();
        let center = grid.len() / 2;
        assert_eq!(find_tile(&grid, symbols[0]), Some(at(center, center)));
    }
    let grid = construct_grid(&letters("ABA")).unwrap();
    assert_eq!(find_tile(&grid, 'A'), Some(at(1, 1)));
}

#[test]
fn steps_in_the_six_directions() {
    let from = at(5, 7);
    assert_eq!(from.step(Direction::Right), at(6, 7));
    assert_eq!(from.step(Direction::DownRight), at(6, 8));
    assert_eq!(from.step(Direction::Down), at(5, 8));
    assert_eq!(from.step(Direction::Left), at(4, 7));
    assert_eq!(from.step(Direction::UpLeft), at(4, 6));
    assert_eq!(from.step(Direction::Up), at(5, 6));
}

#[test]
fn steps_stop_at_the_border() {
    let all = [
        Direction::Right,
        Direction::DownRight,
        Direction::Down,
        Direction::Left,
        Direction::UpLeft,
        Direction::Up,
    ];
    let corner: Vec<bool> = all.iter().map(|&d| at(0, 0).has_step(d, 3)).collect();
    assert_eq!(corner, vec![true, true, true, false, false, false]);
    let far: Vec<bool> = all.iter().map(|&d| at(2, 2).has_step(d, 3)).collect();
    assert_eq!(far, vec![false, false, false, true, true, true]);
    let edge: Vec<bool> = all.iter().map(|&d| at(2, 0).has_step(d, 3)).collect();
    assert_eq!(edge, vec![false, false, true, true, false, false]);
    let only: Vec<bool> = all.iter().map(|&d| at(0, 0).has_step(d, 1)).collect();
    assert_eq!(only, vec![false; 6]);
}

use hex_grid::{construct_grid, Grid, GridError};

#[test]
fn construct_grid_test_empty() {
    assert!(construct_grid(&[]).is_err());
}

#[test]
fn construct_grid_test_smallest() {
    let expected: Grid = vec![vec!['A']];
    assert_eq!(construct_grid(&['A']).unwrap(), expected);
}

#[test]
fn construct_grid_test_small() {
    let expected: Grid = vec![
        vec!['F', 'E', '\0'],
        vec!['G', 'A', 'D'],
        vec!['\0', 'B', 'C'],
    ];
    let letters = ['A', 'B', 'C', 'D', 'E', 'F', 'G'];
    assert_eq!(construct_grid(&letters).unwrap(), expected);
}

#[test]
fn construct_grid_test_medium() {
    let expected: Grid = vec![
        vec!['Q', 'P', 'O', '\0', '\0'],
        vec!['R', 'F', 'E', 'N', '\0'],
        vec!['S', 'G', 'A', 'D', 'M'],
        vec!['\0', 'H', 'B', 'C', 'L'],
        vec!['\0', '\0', 'I', 'J', 'K'],
    ];
    let letters: Vec<char> = ('A'..='S').collect();
    assert_eq!(construct_grid(&letters).unwrap(), expected);
}

#[test]
fn construct_grid_empty_input_error() {
    assert_eq!(construct_grid(&[]), Err(GridError::EmptyInput));
}

#[test]
fn construct_grid_two_symbols() {
    let expected: Grid = vec![
        vec!['\0', '\0', '\0'],
        vec!['\0', 'A', '\0'],
        vec!['\0', 'B', '\0'],
    ];
    assert_eq!(construct_grid(&['A', 'B']).unwrap(), expected);
}

#[test]
fn construct_grid_stops_inside_a_ring() {
    let expected: Grid = vec![
        vec!['\0', '\0', '\0', '\0', '\0'],
        vec!['\0', 'F', 'E', '\0', '\0'],
        vec!['\0', 'G', 'A', 'D', '\0'],
        vec!['\0', 'H', 'B', 'C', '\0'],
        vec!['\0', '\0', 'I', 'J', '\0'],
    ];
    let letters: Vec<char> = ('A'..='J').collect();
    assert_eq!(construct_grid(&letters).unwrap(), expected);
}

#[test]
fn construct_grid_enters_the_third_ring() {
    let letters: Vec<char> = ('A'..='T').collect();
    let grid = construct_grid(&letters).unwrap();
    assert_eq!(grid.len(), 7);
    for column in &grid {
        assert_eq!(column.len(), 7);
    }
    assert_eq!(grid[3][3], 'A');
    assert_eq!(grid[3][1], 'S');
    assert_eq!(grid[4][1], 'T');
    let placed: usize = grid
        .iter()
        .map(|column| column.iter().filter(|&&c| c != '\0').count())
        .sum();
    assert_eq!(placed, 20);
}

#[test]
fn construct_grid_third_ring_corners() {
    let letters: Vec<char> = (0..37u32).map(|i| char::from_u32(0x100 + i).unwrap()).collect();
    let grid = construct_grid(&letters).unwrap();
    let at = |i: u32| char::from_u32(0x100 + i).unwrap();
    assert_eq!(grid.len(), 7);
    assert_eq!(grid[3][3], at(0));
    assert_eq!(grid[4][1], at(19));
    assert_eq!(grid[6][3], at(21));
    assert_eq!(grid[6][6], at(24));
    assert_eq!(grid[3][6], at(27));
    assert_eq!(grid[0][3], at(30));
    assert_eq!(grid[0][0], at(33));
    assert_eq!(grid[3][0], at(36));
    assert_eq!(grid[0][6], '\0');
    assert_eq!(grid[6][0], '\0');
    assert_eq!(grid[5][0], '\0');
    assert_eq!(grid[4][0], '\0');
}

#[test]
fn center_holds_the_first_symbol() {
    for n in 1..200usize {
        let letters: Vec<char> = (0..n as u32).map(|i| char::from_u32(0x4e00 + i).unwrap()).collect();
        let grid = construct_grid(&letters).unwrap();
        let center = grid.len() / 2;
        assert_eq!(grid[center][center], letters[0]);
    }
}

#[test]
fn every_symbol_is_placed_once() {
    for n in 1..200usize {
        let letters: Vec<char> = (0..n as u32).map(|i| char::from_u32(0x4e00 + i).unwrap()).collect();
        let grid = construct_grid(&letters).unwrap();
        let mut seen: Vec<char> = Vec::new();
        for column in &grid {
            assert_eq!(column.len(), grid.len());
            for &c in column {
                if c != '\0' {
                    seen.push(c);
                }
            }
        }
        seen.sort();
        assert_eq!(seen, letters);
    }
}

#[test]
fn each_symbol_is_next_to_the_one_before() {
    let letters: Vec<char> = (0..91u32).map(|i| char::from_u32(0x4e00 + i).unwrap()).collect();
    let grid = construct_grid(&letters).unwrap();
    let mut cells: Vec<(i64, i64)> = vec![(0, 0); letters.len()];
    for (x, column) in grid.iter().enumerate() {
        for (y, &c) in column.iter().enumerate() {
            if c != '\0' {
                cells[c as usize - 0x4e00] = (x as i64, y as i64);
            }
        }
    }
    let steps = [(1, 0), (1, 1), (0, 1), (-1, 0), (-1, -1), (0, -1)];
    for i in 1..cells.len() {
        let step = (cells[i].0 - cells[i - 1].0, cells[i].1 - cells[i - 1].1);
        assert!(steps.contains(&step));
    }
}

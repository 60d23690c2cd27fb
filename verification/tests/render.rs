use hex_grid::{construct_grid, render_grid, Grid};

fn text_of(grid: &Grid) -> String {
    render_grid(grid).into_iter().collect()
}

#[test]
fn render_single_cell() {
    let grid = construct_grid(&['A']).unwrap();
    assert_eq!(text_of(&grid), "  A\n");
}

#[test]
fn render_small_grid_line_by_line() {
    let letters: Vec<char> = "ABCDEFG".chars().collect();
    let grid = construct_grid(&letters).unwrap();
    assert_eq!(text_of(&grid), "  F  G   \n  E  A  B\n     D  C\n");
}

#[test]
fn render_medium_grid() {
    let letters: Vec<char> = ('A'..='S').collect();
    let grid = construct_grid(&letters).unwrap();
    let expected = "  Q  R  S      \n  P  F  G  H   \n  O  E  A  B  I\n     N  D  C  J\n        M  L  K\n";
    assert_eq!(text_of(&grid), expected);
}

#[test]
fn render_no_grid() {
    let grid: Grid = vec![];
    assert_eq!(text_of(&grid), "");
}

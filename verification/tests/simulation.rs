use life::cell::Cell;
use life::grid::{new, Grid};

fn index(x: i16, y: i16, width: i16) -> usize {
    (x + y * width) as usize
}

fn alive_flags(grid: &Grid) -> Vec<bool> {
    grid.cells.iter().map(|c| c.alive).collect()
}

fn blinker_grid() -> Grid {
    new(7, 7, |x, y| y == 3 && (x == 2 || x == 3 || x == 4))
}

#[test]
fn a_grid_has_one_cell_per_coordinate() {
    let grid = new(5, 3, |_, _| false);
    assert_eq!(grid.width, 5);
    assert_eq!(grid.height, 3);
    assert_eq!(grid.cells.len(), 15);
}

#[test]
fn positions_are_centred_with_integer_division() {
    let grid = new(5, 4, |_, _| false);
    let c = &grid.cells[index(0, 0, 5)];
    assert_eq!((c.x, c.y), (-2, -2));
    let c = &grid.cells[index(4, 3, 5)];
    assert_eq!((c.x, c.y), (2, 1));
    let c = &grid.cells[index(2, 2, 5)];
    assert_eq!((c.x, c.y), (0, 0));
}

#[test]
fn seeding_follows_the_predicate() {
    let grid = new(5, 4, |x, y| x == y);
    for y in 0..4i16 {
        for x in 0..5i16 {
            assert_eq!(grid.cells[index(x, y, 5)].alive, x == y);
        }
    }
}

#[test]
fn every_neighbour_list_has_eight_distinct_valid_indices() {
    let grid = new(5, 4, |_, _| false);
    for cell in grid.cells.iter() {
        assert_eq!(cell.neighbours.len(), 8);
        for &n in cell.neighbours.iter() {
            assert!(n < grid.cells.len());
        }
        for j in 0..8 {
            for k in 0..8 {
                if j != k {
                    assert_ne!(cell.neighbours[j], cell.neighbours[k]);
                }
            }
        }
    }
}

#[test]
fn a_single_column_grid_wraps_onto_itself() {
    // With width 1 every horizontal wrap resolves to column 0, so distinct
    // offsets land on the same cell, including the cell itself.
    let grid = new(1, 3, |_, _| false);
    assert_eq!(grid.cells[0].neighbours, vec![2usize, 2, 2, 0, 0, 1, 1, 1]);
}

#[test]
fn an_interior_cell_lists_its_neighbours_in_construction_order() {
    let grid = new(5, 4, |_, _| false);
    let cell = &grid.cells[index(2, 2, 5)];
    assert_eq!(
        cell.neighbours,
        vec![
            index(1, 1, 5),
            index(2, 1, 5),
            index(3, 1, 5),
            index(1, 2, 5),
            index(3, 2, 5),
            index(1, 3, 5),
            index(2, 3, 5),
            index(3, 3, 5),
        ]
    );
}

#[test]
fn an_alive_cell_survives_only_with_two_or_three_alive_neighbours() {
    for n in 0..=8usize {
        let mut cell = Cell { x: 0, y: 0, neighbours: Vec::new(), alive: true };
        cell.update(n);
        assert_eq!(cell.alive, n == 2 || n == 3);
    }
}

#[test]
fn a_dead_cell_becomes_alive_only_with_three_alive_neighbours() {
    for n in 0..=8usize {
        let mut cell = Cell { x: 0, y: 0, neighbours: Vec::new(), alive: false };
        cell.update(n);
        assert_eq!(cell.alive, n == 3);
    }
}

#[test]
fn an_isolated_alive_cell_dies() {
    let mut grid = new(5, 5, |x, y| x == 2 && y == 2);
    grid.update();
    assert!(grid.cells.iter().all(|c| !c.alive));
}

#[test]
fn a_block_is_stable() {
    let block = |x: i16, y: i16| (x == 1 || x == 2) && (y == 1 || y == 2);
    let mut grid = new(6, 6, block);
    let before = alive_flags(&grid);
    grid.update();
    assert_eq!(alive_flags(&grid), before);
    grid.update();
    assert_eq!(alive_flags(&grid), before);
}

#[test]
fn a_blinker_oscillates() {
    let mut grid = blinker_grid();
    let horizontal = alive_flags(&grid);
    grid.update();
    let vertical = alive_flags(&grid);
    let mut expected = vec![false; 49];
    expected[index(3, 2, 7)] = true;
    expected[index(3, 3, 7)] = true;
    expected[index(3, 4, 7)] = true;
    assert_eq!(vertical, expected);
    grid.update();
    assert_eq!(alive_flags(&grid), horizontal);
}

#[test]
fn updating_identical_grids_gives_identical_alive_sets() {
    let seed = |x: i16, y: i16| (x * y + x) % 3 == 0;
    let mut a = new(8, 8, seed);
    let mut b = new(8, 8, seed);
    a.update();
    b.update();
    assert_eq!(alive_flags(&a), alive_flags(&b));
    a.update();
    b.update();
    assert_eq!(alive_flags(&a), alive_flags(&b));
}

#[test]
fn updating_changes_neither_positions_nor_neighbours() {
    let mut grid = blinker_grid();
    let before: Vec<(i16, i16, Vec<usize>)> = grid
        .cells
        .iter()
        .map(|c| (c.x, c.y, c.neighbours.clone()))
        .collect();
    grid.update();
    let after: Vec<(i16, i16, Vec<usize>)> = grid
        .cells
        .iter()
        .map(|c| (c.x, c.y, c.neighbours.clone()))
        .collect();
    assert_eq!(after, before);
}

#[test]
fn constructing_twice_gives_identical_cells() {
    let seed = |x: i16, y: i16| (x + 2 * y) % 4 == 1;
    let a = new(9, 5, seed);
    let b = new(9, 5, seed);
    assert_eq!(a.cells.len(), b.cells.len());
    for (ca, cb) in a.cells.iter().zip(b.cells.iter()) {
        assert_eq!(ca.x, cb.x);
        assert_eq!(ca.y, cb.y);
        assert_eq!(ca.neighbours, cb.neighbours);
        assert_eq!(ca.alive, cb.alive);
    }
}

#[test]
fn alive_cells_lists_positions_in_index_order() {
    let grid = new(3, 3, |x, y| (x, y) == (0, 0) || (x, y) == (2, 1));
    assert_eq!(grid.alive_cells(), vec![(-1, -1), (1, 0)]);
    let empty = new(3, 3, |_, _| false);
    assert_eq!(empty.alive_cells(), vec![]);
}

use life::grid::coords_to_index;

#[test]
fn it_returns_the_x_value_on_the_first_row() {
    assert!(coords_to_index((3, 0), 5, 3) == 3)
}

#[test]
fn it_wraps_overflowing_x_values() {
    assert!(coords_to_index((6, 0), 5, 3) == 1)
}

#[test]
fn it_wraps_underflowing_x_values() {
    assert!(coords_to_index((-1, 0), 5, 3) == 4)
}

#[test]
fn it_adds_one_width_for_each_row() {
    assert!(coords_to_index((2, 2), 5, 3) == 12)
}

#[test]
fn it_wraps_overflowing_y_values() {
    assert!(coords_to_index((1, 5), 5, 3) == 11)
}

#[test]
fn it_wraps_underflowing_y_values() {
    assert!(coords_to_index((4, -2), 5, 3) == 9)
}

#[test]
fn it_wraps_jumps_of_any_magnitude() {
    assert!(coords_to_index((13, 0), 5, 3) == 3);
    assert!(coords_to_index((-11, 0), 5, 3) == 4);
    assert!(coords_to_index((0, -7), 5, 3) == 10);
    assert!(coords_to_index((0, 8), 5, 3) == 10);
}

#[test]
fn it_covers_all_eight_directions_at_a_corner() {
    // Neighbours of the corner cell (0, 0) of a 5 by 3 grid, in the fixed
    // construction order.
    let neighbours: Vec<usize> = [
        (-1, -1),
        (0, -1),
        (1, -1),
        (-1, 0),
        (1, 0),
        (-1, 1),
        (0, 1),
        (1, 1),
    ]
    .iter()
    .map(|&(dx, dy)| coords_to_index((dx, dy), 5, 3))
    .collect();
    assert_eq!(neighbours, vec![14, 10, 11, 4, 1, 9, 5, 6]);
}

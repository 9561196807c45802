use watersim::grid::{cell_index, neighbor_index, vertex_cells, Side};

#[test]
fn cell_index_inside_and_outside() {
    assert_eq!(cell_index(32, 16, 16), Some(528));
    assert_eq!(cell_index(32, 0, 0), Some(0));
    assert_eq!(cell_index(32, 31, 31), Some(1023));
    assert_eq!(cell_index(32, 32, 0), None);
    assert_eq!(cell_index(32, 0, 32), None);
    assert_eq!(cell_index(32, 100, 3), None);
    assert_eq!(cell_index(1, 0, 0), Some(0));
    assert_eq!(cell_index(1, 1, 0), None);
}

#[test]
fn neighbors_of_an_inner_cell() {
    assert_eq!(neighbor_index(32, 3, 4, Side::Right), Some(4 * 32 + 4));
    assert_eq!(neighbor_index(32, 3, 4, Side::Left), Some(4 * 32 + 2));
    assert_eq!(neighbor_index(32, 3, 4, Side::Down), Some(5 * 32 + 3));
    assert_eq!(neighbor_index(32, 3, 4, Side::Up), Some(3 * 32 + 3));
}

#[test]
fn walls_close_the_basin() {
    assert_eq!(neighbor_index(32, 31, 5, Side::Right), None);
    assert_eq!(neighbor_index(32, 0, 5, Side::Left), None);
    assert_eq!(neighbor_index(32, 5, 31, Side::Down), None);
    assert_eq!(neighbor_index(32, 5, 0, Side::Up), None);
    assert_eq!(neighbor_index(1, 0, 0, Side::Right), None);
    assert_eq!(neighbor_index(1, 0, 0, Side::Up), None);
}

fn opposite(side: Side) -> Side {
    match side {
        Side::Right => Side::Left,
        Side::Left => Side::Right,
        Side::Down => Side::Up,
        Side::Up => Side::Down,
    }
}

#[test]
fn neighbors_are_mutual() {
    let g: usize = 5;
    for z in 0..g {
        for x in 0..g {
            let here = cell_index(g, x, z).unwrap();
            for side in [Side::Right, Side::Left, Side::Down, Side::Up] {
                if let Some(k) = neighbor_index(g, x, z, side) {
                    let back = neighbor_index(g, k % g, k / g, opposite(side));
                    assert_eq!(back, Some(here));
                }
            }
        }
    }
}

#[test]
fn interior_cells_have_four_neighbors() {
    let g: usize = 6;
    for z in 1..g - 1 {
        for x in 1..g - 1 {
            for side in [Side::Right, Side::Left, Side::Down, Side::Up] {
                assert!(neighbor_index(g, x, z, side).is_some());
            }
        }
    }
}

#[test]
fn vertex_cells_row_major() {
    assert_eq!(
        vertex_cells(3),
        vec![(0, 0), (1, 0), (2, 0), (0, 1), (1, 1), (2, 1), (0, 2), (1, 2), (2, 2)]
    );
    assert_eq!(vertex_cells(1), vec![(0, 0)]);
}

#[test]
fn vertex_cells_agree_with_cell_index() {
    let g: usize = 7;
    let cells = vertex_cells(g);
    assert_eq!(cells.len(), 49);
    for (k, (x, z)) in cells.into_iter().enumerate() {
        assert_eq!(cell_index(g, x, z), Some(k));
    }
}

use cavegrid::grid::Grid;

fn alive_cells(g: &Grid) -> Vec<(usize, usize)> {
    let mut out: Vec<(usize, usize)> = Vec::new();
    for y in 0..g.h {
        for x in 0..g.w {
            if g.get(x, y) == Some(true) {
                out.push((x, y));
            }
        }
    }
    out
}

#[test]
fn get_out_of_bounds_is_absent() {
    let g = Grid::new(5, 4);
    assert_eq!(g.get(5, 0), None);
    assert_eq!(g.get(0, 4), None);
    assert_eq!(g.get(5, 4), None);
    assert_eq!(g.get(usize::MAX, usize::MAX), None);
    assert_eq!(g.get(4, 3), Some(false));
}

#[test]
fn set_and_toggle_out_of_bounds_leave_grid_unchanged() {
    let mut g = Grid::new(5, 4);
    g.set(2, 1, true);
    let before = alive_cells(&g);
    g.set(5, 0, true);
    g.set(0, 4, true);
    g.set(100, 100, true);
    g.toggle(5, 0);
    g.toggle(0, 4);
    g.toggle(100, 100);
    assert_eq!(alive_cells(&g), before);
}

#[test]
fn set_get_toggle_roundtrip() {
    let mut g = Grid::new(6, 6);
    g.set(3, 2, true);
    assert_eq!(g.get(3, 2), Some(true));
    g.toggle(3, 2);
    assert_eq!(g.get(3, 2), Some(false));
    g.toggle(3, 2);
    assert_eq!(g.get(3, 2), Some(true));
    assert_eq!(g.get(2, 3), Some(false));
}

#[test]
fn fill_and_clear_cover_every_cell() {
    let mut g = Grid::new(4, 3);
    g.fill(true);
    for y in 0..3 {
        for x in 0..4 {
            assert_eq!(g.get(x, y), Some(true));
        }
    }
    g.clear();
    for y in 0..3 {
        for x in 0..4 {
            assert_eq!(g.get(x, y), Some(false));
        }
    }
}

#[test]
fn life_empty_grid_stays_empty() {
    let mut g = Grid::new(8, 8);
    g.step_life();
    assert!(alive_cells(&g).is_empty());
}

#[test]
fn life_block_in_open_field() {
    // A 3x3 block far from every edge: the corners survive on exactly 3
    // neighbors, the edge-centers and the center die of crowding, and one
    // cell is born beyond each edge-center.
    let mut g = Grid::new(7, 7);
    for y in 2..5 {
        for x in 2..5 {
            g.set(x, y, true);
        }
    }
    g.step_life();
    let mut expected = vec![
        (3, 1),
        (1, 3),
        (2, 2),
        (4, 2),
        (2, 4),
        (4, 4),
        (5, 3),
        (3, 5),
    ];
    expected.sort();
    let mut got = alive_cells(&g);
    got.sort();
    assert_eq!(got, expected);
}

#[test]
fn life_block_against_edges_counts_fewer_neighbors() {
    // The same 3x3 block filling a 3x3 world: cells beyond the edge do not
    // count, so the corners see 3 neighbors and survive while everything
    // else dies; nothing is born outside because there is no outside.
    let mut g = Grid::new(3, 3);
    g.fill(true);
    g.step_life();
    let mut got = alive_cells(&g);
    got.sort();
    let mut expected = vec![(0, 0), (2, 0), (0, 2), (2, 2)];
    expected.sort();
    assert_eq!(got, expected);
}

use cavegrid::gen::{gen_drunk_walk, regen_random};
use cavegrid::grid::Grid;

fn cells_of(g: &Grid) -> Vec<bool> {
    let mut out: Vec<bool> = Vec::new();
    for y in 0..g.h {
        for x in 0..g.w {
            out.push(g.get(x, y).unwrap());
        }
    }
    out
}

fn open_count(g: &Grid) -> usize {
    cells_of(g).into_iter().filter(|v| !v).count()
}

fn border_all_wall(g: &Grid) -> bool {
    let mut ok = true;
    for x in 0..g.w {
        ok = ok && g.get(x, 0) == Some(true) && g.get(x, g.h - 1) == Some(true);
    }
    for y in 0..g.h {
        ok = ok && g.get(0, y) == Some(true) && g.get(g.w - 1, y) == Some(true);
    }
    ok
}

#[test]
fn regen_same_seed_identical() {
    let mut a = Grid::new(10, 10);
    let mut b = Grid::new(10, 10);
    regen_random(&mut a, 7, 45, 100);
    regen_random(&mut b, 7, 45, 100);
    assert_eq!(cells_of(&a), cells_of(&b));
}

#[test]
fn regen_different_seed_differs() {
    let mut a = Grid::new(10, 10);
    let mut b = Grid::new(10, 10);
    regen_random(&mut a, 1, 45, 100);
    regen_random(&mut b, 2, 45, 100);
    assert_ne!(cells_of(&a), cells_of(&b));
}

#[test]
fn regen_border_always_wall() {
    for &(num, den) in &[(0u32, 100u32), (45, 100), (100, 100)] {
        let mut g = Grid::new(12, 9);
        regen_random(&mut g, 3, num, den);
        assert!(border_all_wall(&g));
    }
}

#[test]
fn regen_probability_extremes() {
    // Probability 1 walls everything; probability 0 leaves the whole
    // interior open. A draw that ignored its ratio would fail one of the
    // two.
    let mut all = Grid::new(10, 10);
    regen_random(&mut all, 5, 100, 100);
    assert_eq!(open_count(&all), 0);

    let mut none = Grid::new(10, 10);
    regen_random(&mut none, 5, 0, 100);
    assert_eq!(open_count(&none), 8 * 8);
}

#[test]
fn regen_seed1_p0_interior_open() {
    let mut g = Grid::new(10, 10);
    regen_random(&mut g, 1, 0, 100);
    assert!(border_all_wall(&g));
    for y in 1..9 {
        for x in 1..9 {
            assert_eq!(g.get(x, y), Some(false));
        }
    }
}

#[test]
fn drunk_walk_carves_target_and_keeps_border() {
    // round(8 * 8 * 1/2) = 32 cells must be open, and the walk stops the
    // moment it gets there, so the count is exact; the 1-cell border
    // stays wall throughout.
    let mut g = Grid::new(8, 8);
    gen_drunk_walk(&mut g, 1, 1, 2);
    assert_eq!(open_count(&g), 32);
    assert!(border_all_wall(&g));
}

#[test]
fn drunk_walk_default_ratio_count() {
    // round(10 * 10 * 2/5) = 40 open cells on a 10x10 world, but only
    // 8 * 8 = 64 interior cells exist, so the target is reachable.
    let mut g = Grid::new(10, 10);
    gen_drunk_walk(&mut g, 9, 2, 5);
    assert_eq!(open_count(&g), 40);
    assert!(border_all_wall(&g));
}

#[test]
fn drunk_walk_deterministic() {
    let mut a = Grid::new(8, 8);
    let mut b = Grid::new(8, 8);
    let mut c = Grid::new(8, 8);
    gen_drunk_walk(&mut a, 1, 1, 2);
    gen_drunk_walk(&mut b, 1, 1, 2);
    gen_drunk_walk(&mut c, 2, 1, 2);
    assert_eq!(cells_of(&a), cells_of(&b));
    assert_ne!(cells_of(&a), cells_of(&c));
}

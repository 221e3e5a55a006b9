use vstd::prelude::*;

use crate::grid::Grid;
use crate::rng::{draw_code, lemma_rep_push, range_draw, ratio_draw, rep, rng_below, rng_from_seed, rng_ratio};

verus! {

/// Whether (x, y) lies on the outer border of a w-by-h world.
pub open spec fn on_border(w: int, h: int, x: int, y: int) -> bool {
    x == 0 || y == 0 || x == w - 1 || y == h - 1
}

/// `v` pulled into `[lo, hi]`.
pub open spec fn clamp_spec(v: int, lo: int, hi: int) -> int {
    if v < lo {
        lo
    } else if v > hi {
        hi
    } else {
        v
    }
}

/// Width of the interior (non-border) span of a w-wide world.
pub open spec fn interior_w(w: int) -> int {
    if w >= 2 {
        w - 2
    } else {
        0
    }
}

/// How many interior rows lie strictly above row y.
pub open spec fn rows_before(h: int, y: int) -> int {
    clamp_spec(y - 1, 0, interior_w(h))
}

/// How many interior columns lie strictly left of column x.
pub open spec fn cols_before(w: int, x: int) -> int {
    clamp_spec(x - 1, 0, interior_w(w))
}

/// How many non-border cells precede (x, y) in row-major order. Only
/// those cells consume a draw during random regeneration.
pub open spec fn draws_before(w: int, h: int, x: int, y: int) -> int {
    rows_before(h, y) * interior_w(w) + if 1 <= y && y <= h - 2 {
        cols_before(w, x)
    } else {
        0
    }
}

/// The cell that random regeneration writes at (x, y): border cells are
/// sealed as wall, every other cell takes its own Bernoulli draw.
pub open spec fn regen_cell(seed: u64, num: u32, den: u32, w: int, h: int, x: int, y: int) -> bool {
    if on_border(w, h, x, y) {
        true
    } else {
        ratio_draw(seed, rep(draw_code(num, den), draws_before(w, h, x, y) as nat), num, den)
    }
}

/// Every cell of `g` is exactly what random regeneration with these
/// parameters writes there.
pub open spec fn regen_post(g: Grid, seed: u64, num: u32, den: u32) -> bool {
    forall|x: int, y: int|
        g.spec_in_bounds(x, y) ==> #[trigger] g.cell(x, y) == regen_cell(
            seed,
            num,
            den,
            g.w as int,
            g.h as int,
            x,
            y,
        )
}

proof fn lemma_draws_before_nonneg(w: int, h: int, x: int, y: int)
    ensures
        draws_before(w, h, x, y) >= 0,
{
    assert(rows_before(h, y) >= 0);
    assert(interior_w(w) >= 0);
    assert(rows_before(h, y) * interior_w(w) >= 0) by (nonlinear_arith)
        requires
            rows_before(h, y) >= 0,
            interior_w(w) >= 0,
    ;
}

/// Stepping one cell to the right adds one draw exactly when the cell
/// left behind was a non-border cell.
proof fn lemma_draws_before_step(w: int, h: int, x: int, y: int)
    requires
        0 <= x < w,
        0 <= y < h,
    ensures
        draws_before(w, h, x + 1, y) == draws_before(w, h, x, y) + if on_border(w, h, x, y) {
            0int
        } else {
            1int
        },
{
}

/// Finishing a row lands on the draw count that the next row starts with.
proof fn lemma_draws_before_row(w: int, h: int, y: int)
    requires
        0 <= y < h,
    ensures
        draws_before(w, h, w, y) == draws_before(w, h, 0, y + 1),
{
    let iw = interior_w(w);
    if 1 <= y && y <= h - 2 {
        assert(rows_before(h, y) == y - 1);
        assert(rows_before(h, y + 1) == y);
        assert((y - 1) * iw + iw == y * iw) by (nonlinear_arith);
    }
}

/// Regeneration starts with no draws taken.
proof fn lemma_draws_before_zero(w: int, h: int)
    ensures
        draws_before(w, h, 0, 0) == 0,
{
    assert(rows_before(h, 0) == 0);
    assert(rows_before(h, 0) * interior_w(w) == 0) by (nonlinear_arith)
        requires
            rows_before(h, 0) == 0,
    ;
}

/// Clears the grid, then rebuilds it row by row: every border cell becomes
/// wall, every other cell becomes wall exactly when its own Bernoulli draw
/// (probability `num/den`) says so, drawn from a generator seeded with
/// `seed`. One seed, probability and world shape always rebuild one grid.
pub fn regen_random(grid: &mut Grid, seed: u64, num: u32, den: u32)
    requires
        old(grid).wf(),
        1 <= den,
        num <= den,
    ensures
        final(grid).wf(),
        final(grid).w == old(grid).w,
        final(grid).h == old(grid).h,
        regen_post(*final(grid), seed, num, den),
        forall|x: int, y: int|
            final(grid).spec_in_bounds(x, y) && on_border(
                final(grid).w as int,
                final(grid).h as int,
                x,
                y,
            ) ==> #[trigger] final(grid).cell(x, y),
        num == 0 ==> forall|x: int, y: int|
            final(grid).spec_in_bounds(x, y) ==> #[trigger] final(grid).cell(x, y) == on_border(
                final(grid).w as int,
                final(grid).h as int,
                x,
                y,
            ),
        num == den ==> forall|x: int, y: int|
            final(grid).spec_in_bounds(x, y) ==> #[trigger] final(grid).cell(x, y),
{
    grid.clear();
    let mut rng = rng_from_seed(seed);
    let w = grid.w;
    let h = grid.h;
    let ghost code = draw_code(num, den);
    let mut y: usize = 0;
    proof {
        lemma_draws_before_nonneg(w as int, h as int, 0, 0);
        lemma_draws_before_zero(w as int, h as int);
        assert(rep(code, 0) =~= Seq::<u64>::empty());
    }
    while y < h
        invariant
            grid.wf(),
            grid.w == w,
            grid.h == h,
            y <= h,
            1 <= den,
            num <= den,
            rng.spec_seed() == seed,
            draws_before(w as int, h as int, 0, y as int) >= 0,
            rng.spec_history() == rep(code, draws_before(w as int, h as int, 0, y as int) as nat),
            code == draw_code(num, den),
            forall|i: int, j: int|
                0 <= i < w && 0 <= j < y ==> #[trigger] grid.cell(i, j) == regen_cell(
                    seed,
                    num,
                    den,
                    w as int,
                    h as int,
                    i,
                    j,
                ),
            num == 0 ==> forall|i: int, j: int|
                0 <= i < w && 0 <= j < y ==> #[trigger] grid.cell(i, j) == on_border(
                    w as int,
                    h as int,
                    i,
                    j,
                ),
            num == den ==> forall|i: int, j: int|
                0 <= i < w && 0 <= j < y ==> #[trigger] grid.cell(i, j),
        decreases h - y,
    {
        let mut x: usize = 0;
        while x < w
            invariant
                grid.wf(),
                grid.w == w,
                grid.h == h,
                y < h,
                x <= w,
                1 <= den,
                num <= den,
                rng.spec_seed() == seed,
                draws_before(w as int, h as int, x as int, y as int) >= 0,
                rng.spec_history() == rep(
                    code,
                    draws_before(w as int, h as int, x as int, y as int) as nat,
                ),
                code == draw_code(num, den),
                forall|i: int, j: int|
                    0 <= i < w && 0 <= j < y ==> #[trigger] grid.cell(i, j) == regen_cell(
                        seed,
                        num,
                        den,
                        w as int,
                        h as int,
                        i,
                        j,
                    ),
                forall|i: int|
                    0 <= i < x ==> #[trigger] grid.cell(i, y as int) == regen_cell(
                        seed,
                        num,
                        den,
                        w as int,
                        h as int,
                        i,
                        y as int,
                    ),
                num == 0 ==> forall|i: int, j: int|
                    0 <= i < w && 0 <= j < y ==> #[trigger] grid.cell(i, j) == on_border(
                        w as int,
                        h as int,
                        i,
                        j,
                    ),
                num == 0 ==> forall|i: int|
                    0 <= i < x ==> #[trigger] grid.cell(i, y as int) == on_border(
                        w as int,
                        h as int,
                        i,
                        y as int,
                    ),
                num == den ==> forall|i: int, j: int|
                    0 <= i < w && 0 <= j < y ==> #[trigger] grid.cell(i, j),
                num == den ==> forall|i: int|
                    0 <= i < x ==> #[trigger] grid.cell(i, y as int),
            decreases w - x,
        {
            let ghost k = draws_before(w as int, h as int, x as int, y as int);
            let border = x == 0 || y == 0 || x + 1 == w || y + 1 == h;
            let wall: bool;
            if border {
                wall = true;
            } else {
                wall = rng_ratio(&mut rng, num, den);
                proof {
                    lemma_rep_push(code, k as nat);
                }
            }
            grid.set(x, y, wall);
            proof {
                lemma_draws_before_step(w as int, h as int, x as int, y as int);
                assert(grid.cell(x as int, y as int) == regen_cell(
                    seed,
                    num,
                    den,
                    w as int,
                    h as int,
                    x as int,
                    y as int,
                ));
            }
            x += 1;
        }
        proof {
            lemma_draws_before_row(w as int, h as int, y as int);
        }
        y += 1;
    }
}

/// Random regeneration is deterministic: two worlds of one shape rebuilt
/// with one seed and one probability agree on every cell.
pub proof fn lemma_regen_deterministic(g1: Grid, g2: Grid, seed: u64, num: u32, den: u32)
    requires
        g1.w == g2.w,
        g1.h == g2.h,
        regen_post(g1, seed, num, den),
        regen_post(g2, seed, num, den),
    ensures
        forall|x: int, y: int|
            g1.spec_in_bounds(x, y) ==> #[trigger] g1.cell(x, y) == g2.cell(x, y),
{
    assert forall|x: int, y: int| g1.spec_in_bounds(x, y) implies #[trigger] g1.cell(x, y)
        == g2.cell(x, y) by {
        assert(g1.cell(x, y) == regen_cell(seed, num, den, g1.w as int, g1.h as int, x, y));
        assert(g2.cell(x, y) == regen_cell(seed, num, den, g2.w as int, g2.h as int, x, y));
    }
}

/// The walker's position and the set of cells it has carved so far.
pub struct WalkState {
    pub x: int,
    pub y: int,
    pub carved: Set<(int, int)>,
}

/// The draw code of one step of the walk: a uniform pick among the 4
/// cardinal directions.
pub open spec fn dir_code() -> u64 {
    draw_code(4, 0)
}

/// Where the walk begins: the world's center, pulled into the interior.
pub open spec fn walk_init(w: int, h: int) -> WalkState {
    let x0 = clamp_spec(w / 2, 1, w - 2);
    let y0 = clamp_spec(h / 2, 1, h - 2);
    WalkState { x: x0, y: y0, carved: Set::empty().insert((x0, y0)) }
}

/// One step of the walk: move one cell in direction `d` (0 left, 1 right,
/// 2 up, otherwise down), saturating at the world edge, re-clamp into the
/// interior, and carve the cell reached.
pub open spec fn walk_step(s: WalkState, d: u32, w: int, h: int) -> WalkState {
    let mx = if d == 0 {
        if s.x >= 1 { s.x - 1 } else { 0 }
    } else if d == 1 {
        if s.x + 1 <= w - 1 { s.x + 1 } else { w - 1 }
    } else {
        s.x
    };
    let my = if d == 2 {
        if s.y >= 1 { s.y - 1 } else { 0 }
    } else if d >= 3 {
        if s.y + 1 <= h - 1 { s.y + 1 } else { h - 1 }
    } else {
        s.y
    };
    let cx = clamp_spec(mx, 1, w - 2);
    let cy = clamp_spec(my, 1, h - 2);
    WalkState { x: cx, y: cy, carved: s.carved.insert((cx, cy)) }
}

/// The walk's state after `n` steps, as a function of the seed alone.
pub open spec fn walk(seed: u64, w: int, h: int, n: nat) -> WalkState
    decreases n,
{
    if n == 0 {
        walk_init(w, h)
    } else {
        walk_step(
            walk(seed, w, h, (n - 1) as nat),
            range_draw(seed, rep(dir_code(), (n - 1) as nat), 4),
            w,
            h,
        )
    }
}

/// How many cells the walk is asked to open: `w * h * num / den`, rounded
/// to the nearest integer (halves up), computed exactly on integers.
pub open spec fn walk_target(w: int, h: int, num: int, den: int) -> int {
    (2 * (w * h) * num + den) / (2 * den)
}

/// The walk first meets its target after exactly `n` steps.
pub open spec fn walk_reaches(seed: u64, w: int, h: int, target: int, n: nat) -> bool {
    &&& walk(seed, w, h, n).carved.len() >= target
    &&& forall|m: nat| m < n ==> (#[trigger] walk(seed, w, h, m)).carved.len() < target
}

/// The walk gives up after this many steps; at any practical rate that
/// takes centuries, so a run that would reach its target ever is the same
/// as one stopped here.
pub open spec fn walk_step_cap() -> nat {
    u64::MAX as nat
}

/// Where the walk stops: the first step count that meets the target, or
/// the cap with the target never met on the way.
pub open spec fn walk_stops(seed: u64, w: int, h: int, target: int, n: nat) -> bool {
    ||| walk_reaches(seed, w, h, target, n)
    ||| (n == walk_step_cap() && forall|m: nat|
        m <= walk_step_cap() ==> (#[trigger] walk(seed, w, h, m)).carved.len() < target)
}

/// Every cell of `g` is open exactly where the walk state `s` carved.
pub open spec fn grid_matches_walk(g: Grid, s: WalkState) -> bool {
    forall|x: int, y: int|
        g.spec_in_bounds(x, y) ==> #[trigger] g.cell(x, y) == !s.carved.contains((x, y))
}

/// What drunk-walk generation leaves behind: the grid carved by the walk
/// from `seed`, stopped the first time the carve count meets the target.
pub open spec fn drunk_post(g: Grid, seed: u64, num: u32, den: u32) -> bool {
    exists|n: nat|
        {
            &&& n <= walk_step_cap()
            &&& #[trigger] walk_stops(
                seed,
                g.w as int,
                g.h as int,
                walk_target(g.w as int, g.h as int, num as int, den as int),
                n,
            )
            &&& grid_matches_walk(g, walk(seed, g.w as int, g.h as int, n))
        }
}

/// The walk never leaves the interior: its position and every carved cell
/// keep one cell of distance from every edge, and the carved set stays
/// finite with at least the starting cell in it.
pub proof fn lemma_walk_interior(seed: u64, w: int, h: int, n: nat)
    requires
        w >= 3,
        h >= 3,
    ensures
        1 <= walk(seed, w, h, n).x <= w - 2,
        1 <= walk(seed, w, h, n).y <= h - 2,
        walk(seed, w, h, n).carved.finite(),
        walk(seed, w, h, n).carved.len() >= 1,
        forall|p: (int, int)|
            walk(seed, w, h, n).carved.contains(p) ==> 1 <= p.0 <= w - 2 && 1 <= p.1 <= h - 2,
    decreases n,
{
    if n == 0 {
    } else {
        lemma_walk_interior(seed, w, h, (n - 1) as nat);
    }
}

/// Carving is monotone: a later walk state has carved at least as much.
pub proof fn lemma_walk_monotone(seed: u64, w: int, h: int, m: nat, n: nat)
    requires
        w >= 3,
        h >= 3,
        m <= n,
    ensures
        walk(seed, w, h, m).carved.len() <= walk(seed, w, h, n).carved.len(),
    decreases n - m,
{
    if m < n {
        lemma_walk_monotone(seed, w, h, m, (n - 1) as nat);
        lemma_walk_interior(seed, w, h, (n - 1) as nat);
        let prev = walk(seed, w, h, (n - 1) as nat);
        let d = range_draw(seed, rep(dir_code(), (n - 1) as nat), 4);
        let s = walk_step(prev, d, w, h);
        assert(s.carved.len() >= prev.carved.len());
    }
}

/// Only one step count stops the walk, so the carved layout is a function
/// of seed, world shape and target alone.
pub proof fn lemma_walk_stops_unique(seed: u64, w: int, h: int, target: int, n1: nat, n2: nat)
    requires
        n1 <= walk_step_cap(),
        n2 <= walk_step_cap(),
        walk_stops(seed, w, h, target, n1),
        walk_stops(seed, w, h, target, n2),
    ensures
        n1 == n2,
{
    if walk_reaches(seed, w, h, target, n1) && walk_reaches(seed, w, h, target, n2) {
        if n1 < n2 {
            assert(walk(seed, w, h, n1).carved.len() < target);
        }
        if n2 < n1 {
            assert(walk(seed, w, h, n2).carved.len() < target);
        }
    } else if walk_reaches(seed, w, h, target, n1) {
        assert(walk(seed, w, h, n1).carved.len() < target);
    } else if walk_reaches(seed, w, h, target, n2) {
        assert(walk(seed, w, h, n2).carved.len() < target);
    }
}

/// Drunk-walk generation is deterministic: two worlds of one shape carved
/// with one seed and one ratio agree on every cell.
pub proof fn lemma_drunk_walk_deterministic(g1: Grid, g2: Grid, seed: u64, num: u32, den: u32)
    requires
        g1.w == g2.w,
        g1.h == g2.h,
        drunk_post(g1, seed, num, den),
        drunk_post(g2, seed, num, den),
    ensures
        forall|x: int, y: int|
            g1.spec_in_bounds(x, y) ==> #[trigger] g1.cell(x, y) == g2.cell(x, y),
{
    let w = g1.w as int;
    let h = g1.h as int;
    let target = walk_target(w, h, num as int, den as int);
    let n1 = choose|n: nat|
        n <= walk_step_cap() && #[trigger] walk_stops(seed, w, h, target, n) && grid_matches_walk(
            g1,
            walk(seed, w, h, n),
        );
    let n2 = choose|n: nat|
        n <= walk_step_cap() && #[trigger] walk_stops(seed, w, h, target, n) && grid_matches_walk(
            g2,
            walk(seed, w, h, n),
        );
    lemma_walk_stops_unique(seed, w, h, target, n1, n2);
    assert forall|x: int, y: int| g1.spec_in_bounds(x, y) implies #[trigger] g1.cell(x, y)
        == g2.cell(x, y) by {
        assert(g1.cell(x, y) == !walk(seed, w, h, n1).carved.contains((x, y)));
        assert(g2.cell(x, y) == !walk(seed, w, h, n2).carved.contains((x, y)));
    }
}

/// The in-bounds cells of `g` that are open (non-wall).
pub open spec fn open_cells(g: Grid) -> Set<(int, int)> {
    Set::new(|p: (int, int)| g.spec_in_bounds(p.0, p.1) && !g.cell(p.0, p.1))
}

/// What the carving achieves: a grid left by drunk-walk generation has at
/// least the target number of open cells, unless the walk gave up at its
/// step cap with the target never met on the way.
pub proof fn lemma_drunk_walk_carves_target(g: Grid, seed: u64, num: u32, den: u32)
    requires
        g.w >= 3,
        g.h >= 3,
        drunk_post(g, seed, num, den),
    ensures
        open_cells(g).finite(),
        open_cells(g).len() >= walk_target(g.w as int, g.h as int, num as int, den as int)
            || (forall|m: nat|
            m <= walk_step_cap() ==> (#[trigger] walk(seed, g.w as int, g.h as int, m)).carved.len()
                < walk_target(g.w as int, g.h as int, num as int, den as int)),
{
    let w = g.w as int;
    let h = g.h as int;
    let target = walk_target(w, h, num as int, den as int);
    let n = choose|n: nat|
        n <= walk_step_cap() && #[trigger] walk_stops(seed, w, h, target, n) && grid_matches_walk(
            g,
            walk(seed, w, h, n),
        );
    lemma_walk_interior(seed, w, h, n);
    let carved = walk(seed, w, h, n).carved;
    assert forall|p: (int, int)| #[trigger] open_cells(g).contains(p) implies carved.contains(
        p,
    ) by {
        assert(g.cell(p.0, p.1) == !carved.contains(p));
    }
    assert forall|p: (int, int)| #[trigger] carved.contains(p) implies open_cells(g).contains(
        p,
    ) by {
        assert(g.spec_in_bounds(p.0, p.1));
        assert(g.cell(p.0, p.1) == !carved.contains(p));
    }
    assert(open_cells(g) =~= carved);
}

/// `v` pulled into `[lo, hi]`.
pub fn clamp_usize(v: usize, lo: usize, hi: usize) -> (r: usize)
    requires
        lo <= hi,
    ensures
        r == clamp_spec(v as int, lo as int, hi as int),
{
    if v < lo {
        lo
    } else if v > hi {
        hi
    } else {
        v
    }
}

/// Fills the world with wall, then carves a cave with a biased random walk
/// from the center: at each step one cardinal direction is drawn, the
/// walker moves one cell (saturating at the edge), is pulled back into the
/// interior so the 1-cell border stays wall, and opens the cell it stands
/// on if still wall, until at least `round(w * h * num / den)` cells are
/// open. One seed, ratio and world shape always carve one layout. A ratio
/// whose target exceeds the reachable interior makes the walk run forever;
/// the contract speaks of the state at return.
pub fn gen_drunk_walk(grid: &mut Grid, seed: u64, num: u32, den: u32)
    requires
        old(grid).wf(),
        3 <= old(grid).w,
        3 <= old(grid).h,
        1 <= den,
        num <= den,
        2 * (old(grid).w * old(grid).h) * num + den <= u64::MAX,
    ensures
        final(grid).wf(),
        final(grid).w == old(grid).w,
        final(grid).h == old(grid).h,
        drunk_post(*final(grid), seed, num, den),
        forall|x: int, y: int|
            final(grid).spec_in_bounds(x, y) && on_border(
                final(grid).w as int,
                final(grid).h as int,
                x,
                y,
            ) ==> #[trigger] final(grid).cell(x, y),
{
    grid.fill(true);
    let mut rng = rng_from_seed(seed);
    let w = grid.w;
    let h = grid.h;
    // The cell buffer's length witnesses that w * h fits in a usize.
    let len: usize = grid.cells.len();
    let ghost code4 = dir_code();

    let mut x: usize = clamp_usize(w / 2, 1, w - 2);
    let mut y: usize = clamp_usize(h / 2, 1, h - 2);

    proof {
        assert((w as u64) as int * (h as u64) as int <= u64::MAX as int) by (nonlinear_arith)
            requires
                w as int * h as int <= u64::MAX as int,
                (w as u64) as int == w as int,
                (h as u64) as int == h as int,
        ;
    }
    let total: u64 = (w as u64) * (h as u64);
    proof {
        assert(total as int * (num as u64) as int <= u64::MAX as int) by (nonlinear_arith)
            requires
                total as int == w as int * h as int,
                (num as u64) as int == num as int,
                0 <= total as int,
                0 <= num as int,
                2 * (w as int * h as int) * (num as int) + den as int <= u64::MAX as int,
                1 <= den as int,
        ;
    }
    let prod: u64 = total * (num as u64);
    proof {
        assert(2 * prod as int + (den as u64) as int <= u64::MAX as int) by (nonlinear_arith)
            requires
                prod as int == (w as int * h as int) * (num as int),
                (den as u64) as int == den as int,
                2 * (w as int * h as int) * (num as int) + den as int <= u64::MAX as int,
        ;
    }
    let target64: u64 = (2 * prod + (den as u64)) / (2 * (den as u64));
    proof {
        assert(target64 as int == walk_target(w as int, h as int, num as int, den as int))
            by (nonlinear_arith)
            requires
                prod as int == (w as int * h as int) * (num as int),
                target64 as int == (2 * prod as int + den as int) / (2 * den as int),
                1 <= den as int,
        ;
        assert(target64 as int <= w as int * h as int) by (nonlinear_arith)
            requires
                target64 as int == (2 * (w as int * h as int) * (num as int) + den as int) / (2
                    * den as int),
                0 <= w as int * h as int,
                1 <= den as int,
                num as int <= den as int,
        ;
        assert(w as int * h as int <= usize::MAX as int);
    }
    let target: usize = target64 as usize;

    let ghost mut n: nat = 0;
    let mut fuel: u64 = u64::MAX;
    let mut opened: usize = 0;
    match grid.get(x, y) {
        Some(true) => {
            grid.set(x, y, false);
            opened = 1;
        },
        _ => {},
    }
    proof {
        assert(rep(code4, 0) =~= Seq::<u64>::empty());
        assert(walk(seed, w as int, h as int, 0) == walk_init(w as int, h as int));
        assert(walk_init(w as int, h as int).carved =~= Set::empty().insert((x as int, y as int)));
        assert(opened as int == walk(seed, w as int, h as int, 0).carved.len());
    }
    while opened < target && fuel > 0
        invariant
            n == walk_step_cap() - fuel,
            grid.wf(),
            grid.w == w,
            grid.h == h,
            3 <= w,
            3 <= h,
            1 <= x <= w - 2,
            1 <= y <= h - 2,
            rng.spec_seed() == seed,
            rng.spec_history() == rep(code4, n),
            code4 == dir_code(),
            target as int == walk_target(w as int, h as int, num as int, den as int),
            target <= w * h,
            x as int == walk(seed, w as int, h as int, n).x,
            y as int == walk(seed, w as int, h as int, n).y,
            walk(seed, w as int, h as int, n).carved.finite(),
            opened as int == walk(seed, w as int, h as int, n).carved.len(),
            grid_matches_walk(*grid, walk(seed, w as int, h as int, n)),
            forall|m: nat|
                m < n ==> (#[trigger] walk(seed, w as int, h as int, m)).carved.len() < target,
        decreases fuel,
    {
        fuel = fuel - 1;
        let ghost prev = walk(seed, w as int, h as int, n);
        let d = rng_below(&mut rng, 4);
        proof {
            lemma_rep_push(code4, n);
        }
        if d == 0 {
            if x >= 1 {
                x = x - 1;
            }
        } else if d == 1 {
            if x + 1 <= w - 1 {
                x = x + 1;
            } else {
                x = w - 1;
            }
        } else if d == 2 {
            if y >= 1 {
                y = y - 1;
            }
        } else {
            if y + 1 <= h - 1 {
                y = y + 1;
            } else {
                y = h - 1;
            }
        }
        x = clamp_usize(x, 1, w - 2);
        y = clamp_usize(y, 1, h - 2);
        proof {
            n = n + 1;
            assert(walk(seed, w as int, h as int, n) == walk_step(
                prev,
                d,
                w as int,
                h as int,
            ));
            assert(x as int == walk(seed, w as int, h as int, n).x);
            assert(y as int == walk(seed, w as int, h as int, n).y);
        }
        match grid.get(x, y) {
            Some(true) => {
                grid.set(x, y, false);
                opened = opened + 1;
                proof {
                    assert(!prev.carved.contains((x as int, y as int)));
                }
            },
            _ => {
                proof {
                    assert(prev.carved.contains((x as int, y as int)));
                    assert(prev.carved.insert((x as int, y as int)) =~= prev.carved);
                }
            },
        }
    }
    proof {
        let ghost target_spec = walk_target(w as int, h as int, num as int, den as int);
        if opened >= target {
            assert(walk_reaches(seed, w as int, h as int, target_spec, n));
        } else {
            assert(n == walk_step_cap());
            assert forall|m: nat| m <= walk_step_cap() implies (#[trigger] walk(
                seed,
                w as int,
                h as int,
                m,
            )).carved.len() < target_spec by {
                if m == n {
                    assert(walk(seed, w as int, h as int, n).carved.len() == opened);
                }
            }
        }
        assert(walk_stops(seed, w as int, h as int, target_spec, n));
        assert(grid_matches_walk(*grid, walk(seed, w as int, h as int, n)));
        lemma_walk_interior(seed, w as int, h as int, n);
        assert forall|i: int, j: int|
            grid.spec_in_bounds(i, j) && on_border(w as int, h as int, i, j) implies #[trigger] grid.cell(i, j) by {
            assert(!walk(seed, w as int, h as int, n).carved.contains((i, j)));
        }
    }
}

} // verus!

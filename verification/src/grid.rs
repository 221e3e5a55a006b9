use vstd::prelude::*;

verus! {

/// A fixed-size world of boolean cells (`true` = wall/filled).
///
/// Rows are stored consecutively in the flat `cells` vector; `next` is a
/// scratch buffer of identical shape in which the following Life generation
/// is built before being swapped in, so that every cell of a step is judged
/// against the same current generation.
pub struct Grid {
    pub w: usize,
    pub h: usize,
    pub cells: Vec<bool>,
    pub next: Vec<bool>,
}

/// Row-major index arithmetic stays inside the flat buffer.
pub proof fn lemma_idx_bound(w: int, h: int, x: int, y: int)
    requires
        0 <= x < w,
        0 <= y < h,
    ensures
        0 <= y * w + x < w * h,
{
    assert(y * w + x < w * h) by (nonlinear_arith)
        requires
            0 <= x < w,
            0 <= y < h,
    ;
    assert(0 <= y * w + x) by (nonlinear_arith)
        requires
            0 <= x,
            0 <= y,
            0 <= w,
    ;
}

/// Distinct in-bounds coordinates occupy distinct flat indices.
pub proof fn lemma_idx_injective(w: int, h: int, x1: int, y1: int, x2: int, y2: int)
    requires
        0 <= x1 < w,
        0 <= y1 < h,
        0 <= x2 < w,
        0 <= y2 < h,
        y1 * w + x1 == y2 * w + x2,
    ensures
        x1 == x2,
        y1 == y2,
{
    assert(y1 == y2 && x1 == x2) by (nonlinear_arith)
        requires
            0 <= x1 < w,
            0 <= y1 < h,
            0 <= x2 < w,
            0 <= y2 < h,
            y1 * w + x1 == y2 * w + x2,
    ;
}

/// Whether the cell at (x, y) is alive; coordinates beyond the edge never
/// count and never wrap.
pub open spec fn alive_at(cells: Seq<bool>, w: int, h: int, x: int, y: int) -> bool {
    0 <= x < w && 0 <= y < h && cells[y * w + x]
}

/// 1 if the cell at (x, y) is alive, else 0.
pub open spec fn nb(cells: Seq<bool>, w: int, h: int, x: int, y: int) -> int {
    if alive_at(cells, w, h, x, y) {
        1int
    } else {
        0int
    }
}

/// Number of alive cells among the up-to-8 neighbors of (x, y), with
/// bounded (non-wrapping) adjacency.
pub open spec fn neighbor_count(cells: Seq<bool>, w: int, h: int, x: int, y: int) -> int {
    nb(cells, w, h, x - 1, y - 1) + nb(cells, w, h, x, y - 1) + nb(cells, w, h, x + 1, y - 1)
        + nb(cells, w, h, x - 1, y) + nb(cells, w, h, x + 1, y) + nb(cells, w, h, x - 1, y + 1)
        + nb(cells, w, h, x, y + 1) + nb(cells, w, h, x + 1, y + 1)
}

/// The Life rule: a live cell survives on 2 or 3 neighbors, a dead cell is
/// born on exactly 3.
pub open spec fn life_next(cells: Seq<bool>, w: int, h: int, x: int, y: int) -> bool {
    if alive_at(cells, w, h, x, y) {
        neighbor_count(cells, w, h, x, y) == 2 || neighbor_count(cells, w, h, x, y) == 3
    } else {
        neighbor_count(cells, w, h, x, y) == 3
    }
}

/// A step of an entirely dead grid breeds nothing: when every cell of
/// `pre` is dead and `post` is what one Life step of `pre` leaves behind,
/// every cell of `post` is dead too.
pub proof fn lemma_step_life_empty(pre: Grid, post: Grid)
    requires
        post.w == pre.w,
        post.h == pre.h,
        forall|x: int, y: int| pre.spec_in_bounds(x, y) ==> !(#[trigger] pre.cell(x, y)),
        forall|x: int, y: int|
            post.spec_in_bounds(x, y) ==> #[trigger] post.cell(x, y) == life_next(
                pre.cells@,
                pre.w as int,
                pre.h as int,
                x,
                y,
            ),
    ensures
        forall|x: int, y: int| post.spec_in_bounds(x, y) ==> !(#[trigger] post.cell(x, y)),
{
    let w = pre.w as int;
    let h = pre.h as int;
    assert forall|x: int, y: int| post.spec_in_bounds(x, y) implies !(#[trigger] post.cell(
        x,
        y,
    )) by {
        assert forall|i: int, j: int|
            x - 1 <= i <= x + 1 && y - 1 <= j <= y + 1 implies !alive_at(
            pre.cells@,
            w,
            h,
            i,
            j,
        ) by {
            if 0 <= i < w && 0 <= j < h {
                assert(!pre.cell(i, j));
            }
        }
        assert(neighbor_count(pre.cells@, w, h, x, y) == 0);
    }
}

impl Grid {
    /// Both buffers cover exactly `w * h` cells.
    pub open spec fn wf(self) -> bool {
        &&& self.cells@.len() == self.w * self.h
        &&& self.next@.len() == self.w * self.h
    }

    pub open spec fn spec_in_bounds(self, x: int, y: int) -> bool {
        0 <= x < self.w && 0 <= y < self.h
    }

    /// The cell at in-bounds (x, y).
    pub open spec fn cell(self, x: int, y: int) -> bool {
        self.cells@[y * self.w + x]
    }

    pub fn new(w: usize, h: usize) -> (g: Grid)
        requires
            w * h <= usize::MAX,
        ensures
            g.wf(),
            g.w == w,
            g.h == h,
            forall|x: int, y: int| g.spec_in_bounds(x, y) ==> !(#[trigger] g.cell(x, y)),
    {
        let n: usize = w * h;
        let g = Grid { w, h, cells: vec![false; n], next: vec![false; n] };
        proof {
            assert forall|x: int, y: int| g.spec_in_bounds(x, y) implies !(#[trigger] g.cell(
                x,
                y,
            )) by {
                lemma_idx_bound(w as int, h as int, x, y);
            }
        }
        g
    }

    pub fn in_bounds(&self, x: usize, y: usize) -> (r: bool)
        ensures
            r == self.spec_in_bounds(x as int, y as int),
    {
        x < self.w && y < self.h
    }

    /// Flat index of an in-bounds coordinate.
    pub fn idx(&self, x: usize, y: usize) -> (i: usize)
        requires
            self.wf(),
            self.spec_in_bounds(x as int, y as int),
        ensures
            i == y * self.w + x,
            i < self.cells@.len(),
    {
        let len = self.cells.len();
        proof {
            lemma_idx_bound(self.w as int, self.h as int, x as int, y as int);
            assert(y * self.w + x < len);
        }
        y * self.w + x
    }

    /// The cell value, or `None` for any out-of-bounds coordinate; never
    /// panics.
    pub fn get(&self, x: usize, y: usize) -> (r: Option<bool>)
        requires
            self.wf(),
        ensures
            r == if self.spec_in_bounds(x as int, y as int) {
                Some(self.cell(x as int, y as int))
            } else {
                None::<bool>
            },
    {
        if self.in_bounds(x, y) {
            let i = self.idx(x, y);
            Some(self.cells[i])
        } else {
            None
        }
    }

    /// Writes `v` at (x, y); a silent no-op for out-of-bounds coordinates.
    pub fn set(&mut self, x: usize, y: usize, v: bool)
        requires
            old(self).wf(),
        ensures
            final(self).wf(),
            final(self).w == old(self).w,
            final(self).h == old(self).h,
            final(self).next == old(self).next,
            !old(self).spec_in_bounds(x as int, y as int) ==> *final(self) == *old(self),
            old(self).spec_in_bounds(x as int, y as int) ==> final(self).cells@ == old(self).cells@.update(y * old(self).w + x, v),
            old(self).spec_in_bounds(x as int, y as int) ==> final(self).cell(
                x as int,
                y as int,
            ) == v,
            forall|i: int, j: int|
                old(self).spec_in_bounds(i, j) && !(i == x && j == y) ==> #[trigger] final(self).cell(i, j) == old(self).cell(i, j),
    {
        let ghost pre = *self;
        if self.in_bounds(x, y) {
            let i = self.idx(x, y);
            self.cells[i] = v;
        }
        proof {
            assert forall|i: int, j: int|
                pre.spec_in_bounds(i, j) && !(i == x && j == y) implies #[trigger] final(self).cell(
                i,
                j,
            ) == pre.cell(i, j) by {
                lemma_idx_bound(pre.w as int, pre.h as int, i, j);
                if pre.spec_in_bounds(x as int, y as int) {
                    lemma_idx_bound(pre.w as int, pre.h as int, x as int, y as int);
                    if j * pre.w + i == y * pre.w + x {
                        lemma_idx_injective(
                            pre.w as int,
                            pre.h as int,
                            i,
                            j,
                            x as int,
                            y as int,
                        );
                    }
                }
            }
        }
    }

    /// Flips the cell at (x, y); a silent no-op for out-of-bounds
    /// coordinates.
    pub fn toggle(&mut self, x: usize, y: usize)
        requires
            old(self).wf(),
        ensures
            final(self).wf(),
            final(self).w == old(self).w,
            final(self).h == old(self).h,
            final(self).next == old(self).next,
            !old(self).spec_in_bounds(x as int, y as int) ==> *final(self) == *old(self),
            old(self).spec_in_bounds(x as int, y as int) ==> final(self).cell(x as int, y as int)
                == !old(self).cell(x as int, y as int),
            forall|i: int, j: int|
                old(self).spec_in_bounds(i, j) && !(i == x && j == y) ==> #[trigger] final(self).cell(i, j) == old(self).cell(i, j),
    {
        if self.in_bounds(x, y) {
            let i = self.idx(x, y);
            let cur = self.cells[i];
            self.set(x, y, !cur);
        }
    }

    /// Sets every cell to `v` in one pass.
    pub fn fill(&mut self, v: bool)
        requires
            old(self).wf(),
        ensures
            final(self).wf(),
            final(self).w == old(self).w,
            final(self).h == old(self).h,
            final(self).next == old(self).next,
            forall|x: int, y: int|
                final(self).spec_in_bounds(x, y) ==> #[trigger] final(self).cell(x, y) == v,
    {
        let len = self.cells.len();
        let mut i: usize = 0;
        while i < len
            invariant
                self.wf(),
                self.w == old(self).w,
                self.h == old(self).h,
                self.next == old(self).next,
                self.cells@.len() == len,
                i <= len,
                forall|k: int| 0 <= k < i ==> self.cells@[k] == v,
            decreases len - i,
        {
            self.cells[i] = v;
            i += 1;
        }
        proof {
            assert forall|x: int, y: int| final(self).spec_in_bounds(x, y) implies #[trigger] final(self).cell(x, y) == v by {
                lemma_idx_bound(self.w as int, self.h as int, x, y);
            }
        }
    }

    /// Sets every cell to dead/empty.
    pub fn clear(&mut self)
        requires
            old(self).wf(),
        ensures
            final(self).wf(),
            final(self).w == old(self).w,
            final(self).h == old(self).h,
            final(self).next == old(self).next,
            forall|x: int, y: int|
                final(self).spec_in_bounds(x, y) ==> !(#[trigger] final(self).cell(x, y)),
    {
        self.fill(false);
    }

    /// 1 if (x, y) is in bounds and alive, else 0.
    fn nb_at(&self, x: usize, y: usize) -> (c: u8)
        requires
            self.wf(),
        ensures
            c as int == nb(self.cells@, self.w as int, self.h as int, x as int, y as int),
            c <= 1,
    {
        if x < self.w && y < self.h {
            let i = self.idx(x, y);
            if self.cells[i] {
                1
            } else {
                0
            }
        } else {
            0
        }
    }

    /// Alive neighbors of an in-bounds cell, bounded adjacency.
    fn count_neighbors(&self, x: usize, y: usize) -> (n: u8)
        requires
            self.wf(),
            self.spec_in_bounds(x as int, y as int),
        ensures
            n as int == neighbor_count(
                self.cells@,
                self.w as int,
                self.h as int,
                x as int,
                y as int,
            ),
    {
        let mut n: u8 = 0;
        if y >= 1 {
            if x >= 1 {
                n += self.nb_at(x - 1, y - 1);
            }
            n += self.nb_at(x, y - 1);
            if x + 1 < self.w {
                n += self.nb_at(x + 1, y - 1);
            }
        }
        if x >= 1 {
            n += self.nb_at(x - 1, y);
        }
        if x + 1 < self.w {
            n += self.nb_at(x + 1, y);
        }
        if y + 1 < self.h {
            if x >= 1 {
                n += self.nb_at(x - 1, y + 1);
            }
            n += self.nb_at(x, y + 1);
            if x + 1 < self.w {
                n += self.nb_at(x + 1, y + 1);
            }
        }
        n
    }

    /// One step of the Life automaton: every cell is judged against the
    /// current generation, and the result replaces it atomically (the old
    /// generation survives in the scratch buffer).
    pub fn step_life(&mut self)
        requires
            old(self).wf(),
        ensures
            final(self).wf(),
            final(self).w == old(self).w,
            final(self).h == old(self).h,
            forall|x: int, y: int|
                old(self).spec_in_bounds(x, y) ==> #[trigger] final(self).cell(x, y) == life_next(
                    old(self).cells@,
                    old(self).w as int,
                    old(self).h as int,
                    x,
                    y,
                ),
            final(self).next@ == old(self).cells@,
    {
        let w = self.w;
        let h = self.h;
        let ghost cells0 = self.cells@;
        let mut y: usize = 0;
        while y < h
            invariant
                self.wf(),
                self.w == w,
                self.h == h,
                self.cells@ == cells0,
                y <= h,
                forall|i: int, j: int|
                    0 <= i < w && 0 <= j < y ==> #[trigger] self.next@[j * w + i] == life_next(
                        cells0,
                        w as int,
                        h as int,
                        i,
                        j,
                    ),
            decreases h - y,
        {
            let mut x: usize = 0;
            while x < w
                invariant
                    self.wf(),
                    self.w == w,
                    self.h == h,
                    self.cells@ == cells0,
                    y < h,
                    x <= w,
                    forall|i: int, j: int|
                        0 <= i < w && 0 <= j < y ==> #[trigger] self.next@[j * w + i] == life_next(
                            cells0,
                            w as int,
                            h as int,
                            i,
                            j,
                        ),
                    forall|i: int|
                        0 <= i < x ==> #[trigger] self.next@[y * w + i] == life_next(
                            cells0,
                            w as int,
                            h as int,
                            i,
                            y as int,
                        ),
                decreases w - x,
            {
                let n = self.count_neighbors(x, y);
                let i = self.idx(x, y);
                let alive = self.cells[i];
                let v: bool = if alive {
                    n == 2 || n == 3
                } else {
                    n == 3
                };
                let ghost prev_next = self.next@;
                self.next[i] = v;
                proof {
                    assert forall|a: int, b: int|
                        0 <= a < w && 0 <= b < y implies #[trigger] self.next@[b * w + a]
                        == life_next(cells0, w as int, h as int, a, b) by {
                        lemma_idx_bound(w as int, h as int, a, b);
                        if b * w + a == y * w + x {
                            lemma_idx_injective(w as int, h as int, a, b, x as int, y as int);
                        }
                    }
                    assert forall|a: int| 0 <= a < x + 1 implies #[trigger] self.next@[y * w + a]
                        == life_next(cells0, w as int, h as int, a, y as int) by {
                        lemma_idx_bound(w as int, h as int, a, y as int);
                        if a < x && y * w + a == y * w + x {
                            lemma_idx_injective(w as int, h as int, a, y as int, x as int, y as int);
                        }
                    }
                }
                x += 1;
            }
            y += 1;
        }
        core::mem::swap(&mut self.cells, &mut self.next);
        proof {
            assert forall|a: int, b: int| final(self).spec_in_bounds(a, b) implies #[trigger] final(self).cell(a, b) == life_next(cells0, w as int, h as int, a, b) by {
                lemma_idx_bound(w as int, h as int, a, b);
            }
        }
    }
}

} // verus!

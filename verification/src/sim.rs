use vstd::prelude::*;

use crate::camera::{follow_axis, follow_axis_spec};
use crate::gen;
use crate::gen::{clamp_spec, clamp_usize, drunk_post, regen_post};
use crate::grid::{life_next, Grid};

verus! {

/// World size of the application's grid.
pub const WORLD_W: usize = 80;

pub const WORLD_H: usize = 42;

/// Probability of a wall on a random regeneration, as a ratio.
pub const RAND_NUM: u32 = 45;

pub const RAND_DEN: u32 = 100;

/// Share of cells the drunk walk carves open, as a ratio.
pub const DRUNK_NUM: u32 = 2;

pub const DRUNK_DEN: u32 = 5;

/// The three mutually exclusive simulation modes.
#[derive(Clone, Copy, Debug, PartialEq, Eq, Structural)]
pub enum Algorithm {
    Paint,
    Life,
    DrunkWalk,
}

/// The simulation state: the world grid, the cursor, the camera window,
/// the seed counter and the mode machine. Rendering and input stay
/// outside; they only read this state and call the operations below.
pub struct App {
    pub cursor_x: usize,
    pub cursor_y: usize,
    pub exit: bool,
    pub grid: Grid,
    pub cam_x: usize,
    pub cam_y: usize,
    pub view_w: usize,
    pub view_h: usize,
    pub seed: u64,
    pub algo: Algorithm,
    pub running: bool,
}

/// The seed counter steps with wrap-around.
pub open spec fn spec_next_seed(seed: u64) -> u64 {
    if seed == u64::MAX {
        0
    } else {
        (seed + 1) as u64
    }
}

/// `s` with its camera pulled after its cursor on both axes; untouched
/// while the viewport is still uninitialized (zero in either dimension).
pub open spec fn spec_follow(s: App) -> App {
    if s.view_w == 0 || s.view_h == 0 {
        s
    } else {
        App {
            cam_x: follow_axis_spec(
                s.cursor_x as int,
                s.cam_x as int,
                s.view_w as int,
                s.grid.w as int,
            ) as usize,
            cam_y: follow_axis_spec(
                s.cursor_y as int,
                s.cam_y as int,
                s.view_h as int,
                s.grid.h as int,
            ) as usize,
            ..s
        }
    }
}

impl App {
    /// The grid is well formed and modestly sized, and cursor, camera and
    /// viewport all stay within the world.
    pub open spec fn wf(self) -> bool {
        &&& self.grid.wf()
        &&& 3 <= self.grid.w <= 65536
        &&& 3 <= self.grid.h <= 65536
        &&& self.cursor_x < self.grid.w
        &&& self.cursor_y < self.grid.h
        &&& self.view_w <= self.grid.w
        &&& self.view_h <= self.grid.h
        &&& self.cam_x <= self.grid.w
        &&& self.cam_y <= self.grid.h
    }

    /// Pulls the camera after the cursor on both axes; a no-op while the
    /// viewport is uninitialized.
    pub fn follow_cursor(&mut self)
        requires
            old(self).wf(),
        ensures
            final(self).wf(),
            *final(self) == spec_follow(*old(self)),
    {
        if self.view_w == 0 || self.view_h == 0 {
            return ;
        }
        self.cam_x = follow_axis(self.cursor_x, self.cam_x, self.view_w, self.grid.w);
        self.cam_y = follow_axis(self.cursor_y, self.cam_y, self.view_h, self.grid.h);
    }

    /// Adopts a viewport size, clamped to at least one cell and at most
    /// the world.
    pub fn set_view(&mut self, vw: usize, vh: usize)
        requires
            old(self).wf(),
        ensures
            final(self).wf(),
            final(self).view_w == clamp_spec(vw as int, 1, old(self).grid.w as int),
            final(self).view_h == clamp_spec(vh as int, 1, old(self).grid.h as int),
            *final(self) == (App {
                view_w: final(self).view_w,
                view_h: final(self).view_h,
                ..*old(self)
            }),
    {
        self.view_w = clamp_usize(vw, 1, self.grid.w);
        self.view_h = clamp_usize(vh, 1, self.grid.h);
    }

    /// Cursor one cell left (stopping at 0), camera following.
    pub fn move_left(&mut self)
        requires
            old(self).wf(),
        ensures
            final(self).wf(),
            *final(self) == spec_follow(
                (App {
                    cursor_x: if old(self).cursor_x >= 1 {
                        (old(self).cursor_x - 1) as usize
                    } else {
                        0
                    },
                    ..*old(self)
                }),
            ),
    {
        if self.cursor_x >= 1 {
            self.cursor_x = self.cursor_x - 1;
        }
        self.follow_cursor();
    }

    /// Cursor one cell right (stopping at the world edge), camera
    /// following.
    pub fn move_right(&mut self)
        requires
            old(self).wf(),
        ensures
            final(self).wf(),
            *final(self) == spec_follow(
                (App {
                    cursor_x: if old(self).cursor_x + 1 < old(self).grid.w {
                        (old(self).cursor_x + 1) as usize
                    } else {
                        (old(self).grid.w - 1) as usize
                    },
                    ..*old(self)
                }),
            ),
    {
        if self.cursor_x + 1 < self.grid.w {
            self.cursor_x = self.cursor_x + 1;
        } else {
            self.cursor_x = self.grid.w - 1;
        }
        self.follow_cursor();
    }

    /// Cursor one cell up (stopping at 0), camera following.
    pub fn move_up(&mut self)
        requires
            old(self).wf(),
        ensures
            final(self).wf(),
            *final(self) == spec_follow(
                (App {
                    cursor_y: if old(self).cursor_y >= 1 {
                        (old(self).cursor_y - 1) as usize
                    } else {
                        0
                    },
                    ..*old(self)
                }),
            ),
    {
        if self.cursor_y >= 1 {
            self.cursor_y = self.cursor_y - 1;
        }
        self.follow_cursor();
    }

    /// Cursor one cell down (stopping at the world edge), camera
    /// following.
    pub fn move_down(&mut self)
        requires
            old(self).wf(),
        ensures
            final(self).wf(),
            *final(self) == spec_follow(
                (App {
                    cursor_y: if old(self).cursor_y + 1 < old(self).grid.h {
                        (old(self).cursor_y + 1) as usize
                    } else {
                        (old(self).grid.h - 1) as usize
                    },
                    ..*old(self)
                }),
            ),
    {
        if self.cursor_y + 1 < self.grid.h {
            self.cursor_y = self.cursor_y + 1;
        } else {
            self.cursor_y = self.grid.h - 1;
        }
        self.follow_cursor();
    }

    /// Flips the cell under the cursor.
    pub fn toggle_cell(&mut self)
        requires
            old(self).wf(),
        ensures
            final(self).wf(),
            final(self).grid.cell(old(self).cursor_x as int, old(self).cursor_y as int) == !old(
                self,
            ).grid.cell(old(self).cursor_x as int, old(self).cursor_y as int),
            forall|i: int, j: int|
                old(self).grid.spec_in_bounds(i, j) && !(i == old(self).cursor_x && j == old(
                    self,
                ).cursor_y) ==> #[trigger] final(self).grid.cell(i, j) == old(self).grid.cell(i, j),
            final(self).grid.w == old(self).grid.w,
            final(self).grid.h == old(self).grid.h,
            *final(self) == (App { grid: final(self).grid, ..*old(self) }),
    {
        let x = self.cursor_x;
        let y = self.cursor_y;
        self.grid.toggle(x, y);
    }

    /// Empties the whole grid.
    pub fn clear_grid(&mut self)
        requires
            old(self).wf(),
        ensures
            final(self).wf(),
            forall|i: int, j: int|
                final(self).grid.spec_in_bounds(i, j) ==> !(#[trigger] final(self).grid.cell(i, j)),
            final(self).grid.w == old(self).grid.w,
            final(self).grid.h == old(self).grid.h,
            *final(self) == (App { grid: final(self).grid, ..*old(self) }),
    {
        self.grid.clear();
    }

    /// Regenerates the grid at random from the current seed: sealed
    /// border, interior walls with probability `num/den`.
    pub fn regen_random(&mut self, num: u32, den: u32)
        requires
            old(self).wf(),
            1 <= den,
            num <= den,
        ensures
            final(self).wf(),
            regen_post(final(self).grid, old(self).seed, num, den),
            num == 0 ==> forall|i: int, j: int|
                final(self).grid.spec_in_bounds(i, j) ==> #[trigger] final(self).grid.cell(i, j)
                    == gen::on_border(
                    final(self).grid.w as int,
                    final(self).grid.h as int,
                    i,
                    j,
                ),
            final(self).grid.w == old(self).grid.w,
            final(self).grid.h == old(self).grid.h,
            *final(self) == (App { grid: final(self).grid, ..*old(self) }),
    {
        gen::regen_random(&mut self.grid, self.seed, num, den);
    }

    /// Steps the seed counter, then regenerates at random.
    pub fn regen_new_seed(&mut self, num: u32, den: u32)
        requires
            old(self).wf(),
            1 <= den,
            num <= den,
        ensures
            final(self).wf(),
            final(self).seed == spec_next_seed(old(self).seed),
            regen_post(final(self).grid, final(self).seed, num, den),
            final(self).grid.w == old(self).grid.w,
            final(self).grid.h == old(self).grid.h,
            *final(self) == (App { grid: final(self).grid, seed: final(self).seed, ..*old(self) }),
    {
        self.seed = if self.seed == u64::MAX {
            0
        } else {
            self.seed + 1
        };
        gen::regen_random(&mut self.grid, self.seed, num, den);
    }

    /// Toggles autonomous stepping.
    pub fn toggle_run(&mut self)
        requires
            old(self).wf(),
        ensures
            final(self).wf(),
            final(self).running == !old(self).running,
            *final(self) == (App { running: !old(self).running, ..*old(self) }),
    {
        self.running = !self.running;
    }

    /// Asks the surrounding loop to stop.
    pub fn request_exit(&mut self)
        requires
            old(self).wf(),
        ensures
            final(self).wf(),
            *final(self) == (App { exit: true, ..*old(self) }),
    {
        self.exit = true;
    }

    /// Switches to manual paint mode.
    pub fn select_paint(&mut self)
        requires
            old(self).wf(),
        ensures
            final(self).wf(),
            *final(self) == (App { algo: Algorithm::Paint, ..*old(self) }),
    {
        self.algo = Algorithm::Paint;
    }

    /// Switches to Life mode; autonomous stepping always comes up paused.
    pub fn select_life(&mut self)
        requires
            old(self).wf(),
        ensures
            final(self).wf(),
            final(self).running == false,
            *final(self) == (App { algo: Algorithm::Life, running: false, ..*old(self) }),
    {
        self.algo = Algorithm::Life;
        self.running = false;
    }

    /// Switches to drunk-walk mode; autonomous stepping always comes up
    /// paused.
    pub fn select_drunk_walk(&mut self)
        requires
            old(self).wf(),
        ensures
            final(self).wf(),
            final(self).running == false,
            *final(self) == (App { algo: Algorithm::DrunkWalk, running: false, ..*old(self) }),
    {
        self.algo = Algorithm::DrunkWalk;
        self.running = false;
    }

    /// Recarves the cave from the current seed with ratio `num/den`.
    pub fn gen_drunk_walk(&mut self, num: u32, den: u32)
        requires
            old(self).wf(),
            1 <= den,
            num <= den,
            den <= 65536,
        ensures
            final(self).wf(),
            drunk_post(final(self).grid, old(self).seed, num, den),
            final(self).grid.w == old(self).grid.w,
            final(self).grid.h == old(self).grid.h,
            *final(self) == (App { grid: final(self).grid, ..*old(self) }),
    {
        proof {
            assert(2 * (self.grid.w * self.grid.h) * num + den <= u64::MAX) by (nonlinear_arith)
                requires
                    3 <= self.grid.w <= 65536,
                    3 <= self.grid.h <= 65536,
                    num <= den,
                    den <= 65536,
            ;
        }
        gen::gen_drunk_walk(&mut self.grid, self.seed, num, den);
    }

    /// One simulation step of the active mode: paint does nothing, Life
    /// evolves the grid one generation, drunk-walk takes a fresh seed,
    /// recarves the cave and recenters the cursor (camera following).
    pub fn step_active(&mut self)
        requires
            old(self).wf(),
        ensures
            final(self).wf(),
            old(self).algo == Algorithm::Paint ==> *final(self) == *old(self),
            old(self).algo == Algorithm::Life ==> {
                &&& forall|i: int, j: int|
                    old(self).grid.spec_in_bounds(i, j) ==> #[trigger] final(self).grid.cell(i, j)
                        == life_next(
                        old(self).grid.cells@,
                        old(self).grid.w as int,
                        old(self).grid.h as int,
                        i,
                        j,
                    )
                &&& final(self).grid.w == old(self).grid.w
                &&& final(self).grid.h == old(self).grid.h
                &&& *final(self) == (App { grid: final(self).grid, ..*old(self) })
            },
            old(self).algo == Algorithm::DrunkWalk ==> {
                &&& final(self).seed == spec_next_seed(old(self).seed)
                &&& drunk_post(final(self).grid, final(self).seed, DRUNK_NUM, DRUNK_DEN)
                &&& final(self).grid.w == old(self).grid.w
                &&& final(self).grid.h == old(self).grid.h
                &&& *final(self) == spec_follow(
                    (App {
                        grid: final(self).grid,
                        seed: final(self).seed,
                        cursor_x: (if old(self).grid.w / 2 + old(self).view_w / 2 < old(
                            self,
                        ).grid.w {
                            old(self).grid.w / 2 + old(self).view_w / 2
                        } else {
                            old(self).grid.w - 1
                        }) as usize,
                        cursor_y: (if old(self).grid.h / 2 + old(self).view_h / 2 < old(
                            self,
                        ).grid.h {
                            old(self).grid.h / 2 + old(self).view_h / 2
                        } else {
                            old(self).grid.h - 1
                        }) as usize,
                        ..*old(self)
                    }),
                )
            },
    {
        match self.algo {
            Algorithm::Paint => {},
            Algorithm::Life => {
                self.grid.step_life();
            },
            Algorithm::DrunkWalk => {
                self.seed = if self.seed == u64::MAX {
                    0
                } else {
                    self.seed + 1
                };
                proof {
                    assert(2 * (self.grid.w * self.grid.h) * DRUNK_NUM + DRUNK_DEN
                        <= u64::MAX) by (nonlinear_arith)
                        requires
                            3 <= self.grid.w <= 65536,
                            3 <= self.grid.h <= 65536,
                    ;
                }
                gen::gen_drunk_walk(&mut self.grid, self.seed, DRUNK_NUM, DRUNK_DEN);
                let cx = self.grid.w / 2 + self.view_w / 2;
                self.cursor_x = if cx < self.grid.w {
                    cx
                } else {
                    self.grid.w - 1
                };
                let cy = self.grid.h / 2 + self.view_h / 2;
                self.cursor_y = if cy < self.grid.h {
                    cy
                } else {
                    self.grid.h - 1
                };
                self.follow_cursor();
            },
        }
    }
}

/// After a camera follow with an initialized viewport that fits the
/// world, the cursor lies inside the viewport and the viewport inside the
/// world, on both axes.
pub proof fn lemma_follow_keeps_cursor_visible(s: App)
    requires
        s.wf(),
        1 <= s.view_w,
        1 <= s.view_h,
    ensures
        spec_follow(s).cam_x <= s.cursor_x < spec_follow(s).cam_x + s.view_w,
        spec_follow(s).cam_y <= s.cursor_y < spec_follow(s).cam_y + s.view_h,
        spec_follow(s).cam_x + s.view_w <= s.grid.w,
        spec_follow(s).cam_y + s.view_h <= s.grid.h,
{
    crate::camera::lemma_follow_axis_in_view(
        s.cursor_x as int,
        s.cam_x as int,
        s.view_w as int,
        s.grid.w as int,
    );
    crate::camera::lemma_follow_axis_in_view(
        s.cursor_y as int,
        s.cam_y as int,
        s.view_h as int,
        s.grid.h as int,
    );
}

impl Default for App {
    /// A paused paint-mode world of 80 by 42 empty cells, cursor and
    /// camera at the origin, a 1-by-1 viewport and seed 1.
    fn default() -> (a: App)
        ensures
            a.wf(),
            a.cursor_x == 0,
            a.cursor_y == 0,
            a.exit == false,
            a.grid.w == WORLD_W,
            a.grid.h == WORLD_H,
            forall|i: int, j: int| a.grid.spec_in_bounds(i, j) ==> !(#[trigger] a.grid.cell(i, j)),
            a.cam_x == 0,
            a.cam_y == 0,
            a.view_w == 1,
            a.view_h == 1,
            a.seed == 1,
            a.algo == Algorithm::Paint,
            a.running == false,
    {
        App {
            cursor_x: 0,
            cursor_y: 0,
            exit: false,
            grid: Grid::new(WORLD_W, WORLD_H),
            cam_x: 0,
            cam_y: 0,
            view_w: 1,
            view_h: 1,
            seed: 1,
            algo: Algorithm::Paint,
            running: false,
        }
    }
}

} // verus!

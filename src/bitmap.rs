//! A bitmap dungeon: a grid of 0 (rock) and 1 (open) cells carved from rooms,
//! corridors and random walks.
use vstd::prelude::*;
use crate::automata::neighbor;
use crate::builder::{
    Corr, ROOM_MAX, ROOM_MIN, Rect, build_corr, build_rect, center_u, height_of, in_rect, in_some_room, is_grid,
    on_corr, on_ring_upto, only_stamped, rect_center, rect_inside, ring_corr, same_shape, set_cell, side_ok,
    width_of,
};
use crate::dungeon::Dungeon as Level;
use crate::grid::{Grid, cell, grid_wf, in_bounds};
use crate::rng::random_range;

verus! {

/// Random-walk passes made by `Dungeon::new`, and the steps of each.
pub const WALK_PASSES: usize = 3;
pub const WALK_STEPS: usize = 1500;

/// A dungeon as a `w` by `h` bitmap, and the rooms carved into it.
#[derive(Clone, Debug, Default)]
pub struct Dungeon {
    pub grid: Vec<Vec<u8>>,
    pub w: i32,
    pub h: i32,
    pub rooms: Vec<Rect>,
}

/// Every cell of the grid is 0 or 1.
pub open spec fn bits(g: Seq<Vec<u8>>) -> bool {
    forall|i: int, j: int| in_bounds(i, j, width_of(g), height_of(g)) ==> #[trigger] cell(g, i, j) <= 1
}

/// Where `Dungeon::new` starts its walks: the first room's centre, or the
/// grid's centre when there is no room.
pub open spec fn walk_start(rooms: Seq<Rect>, w: int, h: int) -> (int, int) {
    if rooms.len() > 0 {
        (center_u(rooms[0]).0 as int, center_u(rooms[0]).1 as int)
    } else {
        (w / 2, h / 2)
    }
}

/// One walk step from `(x, y)` in direction `dir` (0 east, 1 west, 2 south,
/// 3 north): move unless that leaves the grid, and open the cell reached.
pub fn walk_open_step(grid: &mut Grid<u8>, x: usize, y: usize, dir: usize) -> (r: (usize, usize))
    requires
        is_grid(old(grid)@),
        in_bounds(x as int, y as int, width_of(old(grid)@), height_of(old(grid)@)),
        dir < 4,
    ensures
        same_shape(old(grid)@, final(grid)@),
        ({
            let t = neighbor((x as int, y as int), dir as int);
            if in_bounds(t.0, t.1, width_of(old(grid)@), height_of(old(grid)@)) {
                r.0 == t.0 && r.1 == t.1
            } else {
                r == (x, y)
            }
        }),
        forall|i: int, j: int|
            in_bounds(i, j, width_of(old(grid)@), height_of(old(grid)@)) ==> #[trigger] cell(final(grid)@, i, j)
                == if i == r.0 && j == r.1 { 1u8 } else { cell(old(grid)@, i, j) },
{
    let w = grid.len();
    let h = grid[0].len();
    let mut nx = x;
    let mut ny = y;
    if dir == 0 && x + 1 < w {
        nx = x + 1;
    } else if dir == 1 && x > 0 {
        nx = x - 1;
    } else if dir == 2 && y + 1 < h {
        ny = y + 1;
    } else if dir == 3 && y > 0 {
        ny = y - 1;
    }
    set_cell(grid, nx, ny, 1u8);
    (nx, ny)
}

/// Walk `iterations` random steps from `start`, opening `start` and every cell
/// reached; steps off the grid are skipped.
fn walk_open(grid: &mut Grid<u8>, start: (usize, usize), iterations: usize)
    requires
        is_grid(old(grid)@),
        in_bounds(start.0 as int, start.1 as int, width_of(old(grid)@), height_of(old(grid)@)),
    ensures
        same_shape(old(grid)@, final(grid)@),
        only_stamped(old(grid)@, final(grid)@, 1u8),
        cell(final(grid)@, start.0 as int, start.1 as int) == 1,
{
    let ghost g0 = grid@;
    let w = grid.len();
    let h = grid[0].len();
    set_cell(grid, start.0, start.1, 1u8);
    let mut x = start.0;
    let mut y = start.1;
    let mut n: usize = 0;
    while n < iterations
        invariant
            w == width_of(g0) && h == height_of(g0),
            same_shape(g0, grid@),
            only_stamped(g0, grid@, 1u8),
            in_bounds(x as int, y as int, w as int, h as int),
            cell(grid@, start.0 as int, start.1 as int) == 1,
            in_bounds(start.0 as int, start.1 as int, w as int, h as int),
        decreases iterations - n,
    {
        let dir = random_range(0, 4);
        let ghost g1 = grid@;
        let p = walk_open_step(grid, x, y, dir);
        x = p.0;
        y = p.1;
        proof {
            assert forall|i: int, j: int| in_bounds(i, j, w as int, h as int) implies #[trigger] cell(grid@, i, j)
                == cell(g0, i, j) || cell(grid@, i, j) == 1u8 by {
                assert(cell(g1, i, j) == cell(g0, i, j) || cell(g1, i, j) == 1u8);
            }
        }
        n = n + 1;
    }
}

impl Dungeon {
    /// The grid has the dungeon's size, its cells are bits, and the rooms lie inside it.
    pub open spec fn wf(&self) -> bool {
        &&& self.w >= 0 && self.h >= 0
        &&& grid_wf(self.grid@, self.w as int, self.h as int)
        &&& is_grid(self.grid@)
        &&& width_of(self.grid@) == self.w && (self.w > 0 ==> height_of(self.grid@) == self.h)
        &&& bits(self.grid@)
        &&& forall|k: int| 0 <= k < self.rooms@.len() ==> rect_inside(#[trigger] self.rooms@[k], self.w as int, self.h as int)
    }

    /// Consider the candidate room at `(x, y)` with `l` rows and `rw`
    /// columns: keep and open it exactly when it stays off the far border.
    fn try_room(&mut self, x: usize, y: usize, l: usize, rw: usize) -> (placed: bool)
        requires
            old(self).wf(),
            old(self).w >= 4 && old(self).h >= 4,
            1 <= x < old(self).w - 2,
            1 <= y < old(self).h - 2,
            ROOM_MIN <= l < ROOM_MAX,
            ROOM_MIN <= rw < ROOM_MAX,
        ensures
            final(self).wf(),
            final(self).w == old(self).w && final(self).h == old(self).h,
            placed == (rw < old(self).w - x && l < old(self).h - y),
            placed ==> final(self).rooms@ == old(self).rooms@.push(Rect { x, y, l, w: rw }),
            placed ==> forall|i: int, j: int|
                in_bounds(i, j, old(self).w as int, old(self).h as int) ==> #[trigger] cell(final(self).grid@, i, j)
                    == if in_rect(Rect { x, y, l, w: rw }, i, j) { 1 } else { cell(old(self).grid@, i, j) },
            !placed ==> *final(self) == *old(self),
    {
        let w = self.w as usize;
        let h = self.h as usize;
        if rw < w - x && l < h - y {
            let r = Rect::new(x, y, l, rw);
            self.build_rect(&r);
            let ghost old_rooms = self.rooms@;
            self.rooms.push(r);
            proof {
                assert forall|q: int| 0 <= q < self.rooms@.len() implies rect_inside(
                    #[trigger] self.rooms@[q],
                    self.w as int,
                    self.h as int,
                ) by {
                    if q < old_rooms.len() {
                        assert(self.rooms@[q] == old_rooms[q]);
                    }
                }
            }
            true
        } else {
            false
        }
    }

    /// Sample `n` candidate rooms; each that stays off the border is opened on
    /// the grid and kept, in order, replacing the earlier rooms. Candidates are
    /// checked against the border only, so rooms may overlap.
    fn add_rooms(&mut self, n: i32)
        requires
            old(self).wf(),
        ensures
            final(self).wf(),
            final(self).w == old(self).w && final(self).h == old(self).h,
            final(self).rooms@.len() <= if n < 0 { 0 } else { n as int },
            forall|k: int| 0 <= k < final(self).rooms@.len() ==> side_ok(#[trigger] final(self).rooms@[k]),
            forall|k: int, i: int, j: int|
                0 <= k < final(self).rooms@.len() && in_rect(#[trigger] final(self).rooms@[k], i, j) ==> #[trigger] cell(
                    final(self).grid@,
                    i,
                    j,
                ) == 1,
            forall|i: int, j: int|
                in_bounds(i, j, old(self).w as int, old(self).h as int) && !in_some_room(final(self).rooms@, i, j)
                    ==> #[trigger] cell(final(self).grid@, i, j) == cell(old(self).grid@, i, j),
    {
        let ghost g0 = self.grid@;
        self.rooms = Vec::new();
        if self.w < 4 || self.h < 4 {
            return;
        }
        let w = self.w as usize;
        let h = self.h as usize;
        let mut k: i32 = 0;
        while k < n
            invariant
                self.wf(),
                w == self.w && h == self.h,
                w >= 4 && h >= 4,
                0 <= k,
                k <= if n < 0 { 0 } else { n },
                width_of(g0) == w && height_of(g0) == h,
                self.rooms@.len() <= k,
                forall|q: int| 0 <= q < self.rooms@.len() ==> side_ok(#[trigger] self.rooms@[q]),
                forall|q: int, i: int, j: int|
                    0 <= q < self.rooms@.len() && in_rect(#[trigger] self.rooms@[q], i, j) ==> #[trigger] cell(
                        self.grid@,
                        i,
                        j,
                    ) == 1,
                forall|i: int, j: int|
                    in_bounds(i, j, w as int, h as int) && !in_some_room(self.rooms@, i, j) ==> #[trigger] cell(
                        self.grid@,
                        i,
                        j,
                    ) == cell(g0, i, j),
            decreases n - k,
        {
            let x = random_range(1, w - 2);
            let y = random_range(1, h - 2);
            let l = random_range(ROOM_MIN, ROOM_MAX);
            let rw = random_range(ROOM_MIN, ROOM_MAX);
            let ghost g1 = self.grid@;
            let ghost old_rooms = self.rooms@;
            if self.try_room(x, y, l, rw) {
                proof {
                    let r = Rect { x, y, l, w: rw };
                    assert(self.rooms@[old_rooms.len() as int] == r);
                    assert forall|q: int| 0 <= q < self.rooms@.len() implies side_ok(#[trigger] self.rooms@[q]) by {
                        if q < old_rooms.len() {
                            assert(self.rooms@[q] == old_rooms[q]);
                        }
                    }
                    assert forall|q: int, i: int, j: int|
                        0 <= q < self.rooms@.len() && in_rect(#[trigger] self.rooms@[q], i, j) implies #[trigger] cell(
                            self.grid@,
                            i,
                            j,
                        ) == 1 by {
                        if q < old_rooms.len() {
                            assert(self.rooms@[q] == old_rooms[q]);
                            assert(cell(g1, i, j) == 1);
                        }
                    }
                    assert forall|i: int, j: int|
                        in_bounds(i, j, w as int, h as int) && !in_some_room(self.rooms@, i, j) implies #[trigger] cell(
                            self.grid@,
                            i,
                            j,
                        ) == cell(g0, i, j) by {
                        if in_some_room(old_rooms, i, j) {
                            let q = choose|q: int| 0 <= q < old_rooms.len() && #[trigger] in_rect(old_rooms[q], i, j);
                            assert(self.rooms@[q] == old_rooms[q]);
                        }
                        if in_rect(r, i, j) {
                            assert(in_rect(self.rooms@[old_rooms.len() as int], i, j));
                        }
                    }
                }
            }
            k = k + 1;
        }
    }

    /// Open corridor `c` on the grid.
    fn build_corr(&mut self, c: &Corr)
        requires
            old(self).wf(),
            in_bounds(c.start.0 as int, c.start.1 as int, old(self).w as int, old(self).h as int),
            in_bounds(c.end.0 as int, c.end.1 as int, old(self).w as int, old(self).h as int),
        ensures
            final(self).wf(),
            final(self).w == old(self).w && final(self).h == old(self).h,
            final(self).rooms == old(self).rooms,
            forall|i: int, j: int|
                in_bounds(i, j, old(self).w as int, old(self).h as int) ==> #[trigger] cell(final(self).grid@, i, j)
                    == if on_corr(*c, i, j) { 1 } else { cell(old(self).grid@, i, j) },
    {
        build_corr(&mut self.grid, c, 1u8);
    }

    /// Open room `r` on the grid.
    fn build_rect(&mut self, r: &Rect)
        requires
            old(self).wf(),
            rect_inside(*r, old(self).w as int, old(self).h as int),
        ensures
            final(self).wf(),
            final(self).w == old(self).w && final(self).h == old(self).h,
            final(self).rooms == old(self).rooms,
            forall|i: int, j: int|
                in_bounds(i, j, old(self).w as int, old(self).h as int) ==> #[trigger] cell(final(self).grid@, i, j)
                    == if in_rect(*r, i, j) { 1 } else { cell(old(self).grid@, i, j) },
    {
        build_rect(&mut self.grid, r, 1u8);
    }

    /// Join each room's centre to the next one's, and the last room's to the
    /// first's, by corridors; with fewer than two rooms nothing changes.
    fn connect_rooms(&mut self)
        requires
            old(self).wf(),
        ensures
            final(self).wf(),
            final(self).w == old(self).w && final(self).h == old(self).h,
            final(self).rooms == old(self).rooms,
            old(self).rooms@.len() < 2 ==> final(self).grid == old(self).grid,
            old(self).rooms@.len() >= 2 ==> forall|k: int, i: int, j: int|
                0 <= k < old(self).rooms@.len() && in_bounds(i, j, old(self).w as int, old(self).h as int) && #[trigger] on_corr(
                    ring_corr(old(self).rooms@, k),
                    i,
                    j,
                ) ==> cell(final(self).grid@, i, j) == 1,
            forall|i: int, j: int|
                in_bounds(i, j, old(self).w as int, old(self).h as int) && !(old(self).rooms@.len() >= 2
                    && on_ring_upto(old(self).rooms@, old(self).rooms@.len() as int, i, j)) ==> #[trigger] cell(
                    final(self).grid@,
                    i,
                    j,
                ) == cell(old(self).grid@, i, j),
    {
        let ghost g0 = self.grid@;
        let ghost rooms = self.rooms@;
        let n = self.rooms.len();
        if n < 2 {
            return;
        }
        assert(rect_inside(self.rooms@[0], self.w as int, self.h as int));
        let mut r: usize = 0;
        while r < n
            invariant
                self.wf(),
                n == self.rooms@.len(),
                n >= 2,
                r <= n,
                rooms == self.rooms@,
                self.w == old(self).w && self.h == old(self).h,
                self.rooms == old(self).rooms,
                g0 == old(self).grid@,
                forall|k: int, i: int, j: int|
                    0 <= k < r && in_bounds(i, j, self.w as int, self.h as int) && #[trigger] on_corr(ring_corr(rooms, k), i, j)
                        ==> cell(self.grid@, i, j) == 1,
                forall|i: int, j: int|
                    in_bounds(i, j, self.w as int, self.h as int) && !on_ring_upto(rooms, r as int, i, j)
                        ==> #[trigger] cell(self.grid@, i, j) == cell(g0, i, j),
            decreases n - r,
        {
            let a = self.rooms[r];
            let b = if r + 1 < n { self.rooms[r + 1] } else { self.rooms[0] };
            proof {
                assert(rect_inside(a, self.w as int, self.h as int));
                assert(rect_inside(b, self.w as int, self.h as int));
                assert((r + 1) % (n as int) == if r + 1 < n { r + 1 } else { 0 }) by (nonlinear_arith)
                    requires
                        r < n,
                ;
            }
            let c = Corr::new(a.center(), b.center());
            assert(c == ring_corr(rooms, r as int));
            let ghost g1 = self.grid@;
            self.build_corr(&c);
            proof {
                assert forall|k: int, i: int, j: int|
                    0 <= k < r + 1 && in_bounds(i, j, self.w as int, self.h as int) && #[trigger] on_corr(ring_corr(rooms, k), i, j)
                        implies cell(self.grid@, i, j) == 1 by {
                    if k < r && !on_corr(c, i, j) {
                        assert(cell(g1, i, j) == 1);
                    }
                }
                assert forall|i: int, j: int|
                    in_bounds(i, j, self.w as int, self.h as int) && !on_ring_upto(rooms, r + 1, i, j) implies #[trigger] cell(
                        self.grid@,
                        i,
                        j,
                    ) == cell(g0, i, j) by {
                    assert(!on_corr(ring_corr(rooms, r as int), i, j));
                    assert(!on_ring_upto(rooms, r as int, i, j));
                    assert(cell(g1, i, j) == cell(g0, i, j));
                }
            }
            r = r + 1;
        }
    }

    /// The centre of the first room, where the player starts; `None` when no
    /// room was placed.
    pub fn get_starting_location(&self) -> (r: Option<(i32, i32)>)
        requires
            self.wf(),
        ensures
            self.rooms@.len() == 0 ==> r is None,
            self.rooms@.len() > 0 ==> r == Some(
                (rect_center(self.rooms@[0]).0 as i32, rect_center(self.rooms@[0]).1 as i32),
            ),
    {
        if self.rooms.len() == 0 {
            return None;
        }
        let c = self.rooms[0].center();
        Some((c.0 as i32, c.1 as i32))
    }

    /// A `w` by `h` bitmap (no columns when `w` is negative, no rows when `h`
    /// is) with `rooms` candidate rooms opened and joined in a ring of
    /// corridors, then three random walks of open cells from the first room's
    /// centre, or the grid's centre.
    pub fn new(w: i32, h: i32, rooms: i32) -> (r: Dungeon)
        ensures
            r.wf(),
            r.w == if w < 0 { 0 } else { w },
            r.h == if h < 0 { 0 } else { h },
            r.rooms@.len() <= if rooms < 0 { 0 } else { rooms as int },
            forall|k: int| 0 <= k < r.rooms@.len() ==> side_ok(#[trigger] r.rooms@[k]),
            forall|k: int, i: int, j: int|
                0 <= k < r.rooms@.len() && in_rect(#[trigger] r.rooms@[k], i, j) ==> #[trigger] cell(r.grid@, i, j) == 1,
            r.rooms@.len() >= 2 ==> forall|k: int, i: int, j: int|
                0 <= k < r.rooms@.len() && in_bounds(i, j, r.w as int, r.h as int) && #[trigger] on_corr(
                    ring_corr(r.rooms@, k),
                    i,
                    j,
                ) ==> cell(r.grid@, i, j) == 1,
            r.w > 0 && r.h > 0 ==> cell(
                r.grid@,
                walk_start(r.rooms@, r.w as int, r.h as int).0,
                walk_start(r.rooms@, r.w as int, r.h as int).1,
            ) == 1,
    {
        let w: i32 = if w < 0 { 0 } else { w };
        let h: i32 = if h < 0 { 0 } else { h };
        let grid = Level::generate_grid(w as usize, h as usize, 0u8);
        let mut d = Dungeon { grid, rooms: Vec::new(), w, h };
        proof {
            if w > 0 {
                assert(d.grid@[0]@.len() == h);
            }
            assert forall|i: int, j: int| in_bounds(i, j, width_of(d.grid@), height_of(d.grid@)) implies #[trigger] cell(
                d.grid@,
                i,
                j,
            ) <= 1 by {
                assert(cell(d.grid@, i, j) == 0);
            }
        }
        d.add_rooms(rooms);
        let ghost g1 = d.grid@;
        d.connect_rooms();
        proof {
            assert forall|k: int, i: int, j: int|
                0 <= k < d.rooms@.len() && in_rect(#[trigger] d.rooms@[k], i, j) implies #[trigger] cell(d.grid@, i, j)
                    == 1 by {
                assert(rect_inside(d.rooms@[k], w as int, h as int));
                assert(cell(g1, i, j) == 1);
                if d.rooms@.len() >= 2 && on_ring_upto(d.rooms@, d.rooms@.len() as int, i, j) {
                    let q = choose|q: int| 0 <= q < d.rooms@.len() && #[trigger] on_corr(ring_corr(d.rooms@, q), i, j);
                    assert(cell(d.grid@, i, j) == 1);
                }
            }
        }
        if w > 0 && h > 0 {
            let start: (usize, usize) = if d.rooms.len() > 0 {
                proof {
                    assert(rect_inside(d.rooms@[0], w as int, h as int));
                }
                d.rooms[0].center()
            } else {
                ((w / 2) as usize, (h / 2) as usize)
            };
            let mut p: usize = 0;
            while p < WALK_PASSES
                invariant
                    d.wf(),
                    d.w == w && d.h == h,
                    w > 0 && h > 0,
                    d.rooms@.len() <= if rooms < 0 { 0 } else { rooms as int },
                    forall|k: int| 0 <= k < d.rooms@.len() ==> side_ok(#[trigger] d.rooms@[k]),
                    in_bounds(start.0 as int, start.1 as int, w as int, h as int),
                    (start.0 as int, start.1 as int) == walk_start(d.rooms@, w as int, h as int),
                    p > 0 ==> cell(d.grid@, start.0 as int, start.1 as int) == 1,
                    forall|k: int, i: int, j: int|
                        0 <= k < d.rooms@.len() && in_rect(#[trigger] d.rooms@[k], i, j) ==> #[trigger] cell(
                            d.grid@,
                            i,
                            j,
                        ) == 1,
                    d.rooms@.len() >= 2 ==> forall|k: int, i: int, j: int|
                        0 <= k < d.rooms@.len() && in_bounds(i, j, w as int, h as int) && #[trigger] on_corr(
                            ring_corr(d.rooms@, k),
                            i,
                            j,
                        ) ==> cell(d.grid@, i, j) == 1,
                decreases WALK_PASSES - p,
            {
                let ghost g2 = d.grid@;
                walk_open(&mut d.grid, start, WALK_STEPS);
                proof {
                    assert forall|i: int, j: int| in_bounds(i, j, width_of(d.grid@), height_of(d.grid@)) implies #[trigger] cell(
                        d.grid@,
                        i,
                        j,
                    ) <= 1 by {
                        assert(cell(g2, i, j) <= 1);
                    }
                    assert forall|k: int, i: int, j: int|
                        0 <= k < d.rooms@.len() && in_rect(#[trigger] d.rooms@[k], i, j) implies #[trigger] cell(
                            d.grid@,
                            i,
                            j,
                        ) == 1 by {
                        assert(rect_inside(d.rooms@[k], w as int, h as int));
                        assert(cell(g2, i, j) == 1);
                    }
                    if d.rooms@.len() >= 2 {
                        assert forall|k: int, i: int, j: int|
                            0 <= k < d.rooms@.len() && in_bounds(i, j, w as int, h as int) && #[trigger] on_corr(
                                ring_corr(d.rooms@, k),
                                i,
                                j,
                            ) implies cell(d.grid@, i, j) == 1 by {
                            assert(cell(g2, i, j) == 1);
                        }
                    }
                }
                p = p + 1;
            }
        }
        d
    }

    /// Generate a fresh bitmap of the same size with as many candidate rooms
    /// as this one holds, and take its grid.
    pub fn regen(&mut self)
        requires
            old(self).wf(),
            old(self).rooms@.len() <= i32::MAX,
        ensures
            final(self).wf(),
            final(self).w == old(self).w && final(self).h == old(self).h,
            final(self).rooms == old(self).rooms,
    {
        let d = Dungeon::new(self.w, self.h, self.rooms.len() as i32);
        self.grid = d.grid;
    }
}

} // verus!

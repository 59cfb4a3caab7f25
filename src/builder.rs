//! The structural builder: rectangular rooms joined by L-shaped corridors.
use vstd::prelude::*;
use crate::grid::{Grid, cell, grid_wf, in_bounds};
use crate::reach::{all_reach, none_open, open_at, opens_kept, reach, lemma_line_x, lemma_line_y, lemma_reach_mono, lemma_reach_refl, lemma_reach_trans};
use crate::rng::random_range;
use crate::tile::{Tile, is_walkable};

verus! {

/// A room footprint: columns `x .. x + w`, rows `y .. y + l`.
#[derive(Clone, Copy, PartialEq, Eq, Structural, Debug)]
pub struct Rect {
    pub x: usize,
    pub y: usize,
    pub l: usize,
    pub w: usize,
}

/// A corridor from `start` to `end`: first along x, then along y.
#[derive(Clone, Copy, Debug)]
pub struct Corr {
    pub start: (usize, usize),
    pub end: (usize, usize),
}

/// Smallest side of a room.
pub const ROOM_MIN: usize = 5;
/// One past the largest side of a room.
pub const ROOM_MAX: usize = 20;

/// Number of columns of a grid.
pub open spec fn width_of<T>(g: Seq<Vec<T>>) -> int {
    g.len() as int
}

/// Number of rows of a grid: the length of its first column.
pub open spec fn height_of<T>(g: Seq<Vec<T>>) -> int {
    if g.len() > 0 { g[0]@.len() as int } else { 0 }
}

/// All columns of `g` have the same length.
pub open spec fn is_grid<T>(g: Seq<Vec<T>>) -> bool {
    grid_wf(g, width_of(g), height_of(g))
}

/// `g2` has the shape of `g1`.
pub open spec fn same_shape<T>(g1: Seq<Vec<T>>, g2: Seq<Vec<T>>) -> bool {
    &&& is_grid(g2)
    &&& width_of(g2) == width_of(g1)
    &&& height_of(g2) == height_of(g1)
}

pub open spec fn in_rect(r: Rect, i: int, j: int) -> bool {
    r.x <= i < r.x + r.w && r.y <= j < r.y + r.l
}

pub open spec fn rect_center(r: Rect) -> (int, int) {
    (r.x + r.w / 2, r.y + r.l / 2)
}

/// The room is non-empty and lies inside a `w` by `h` grid, off its border.
pub open spec fn rect_inside(r: Rect, w: int, h: int) -> bool {
    &&& r.w >= 1 && r.l >= 1
    &&& r.x >= 1 && r.y >= 1
    &&& r.x + r.w < w && r.y + r.l < h
}

/// `v` lies after `a` and up to `b`, walking from `a` towards `b`.
pub open spec fn seg(a: int, b: int, v: int) -> bool {
    (a < v <= b) || (b <= v < a)
}

/// The cells that a corridor stamps: all of its L-path but the start.
pub open spec fn on_corr(c: Corr, i: int, j: int) -> bool {
    ||| (j == c.start.1 && seg(c.start.0 as int, c.end.0 as int, i))
    ||| (i == c.end.0 && seg(c.start.1 as int, c.end.1 as int, j))
}

/// Set the cell at column `x`, row `y` to `v`.
pub fn set_cell<T>(grid: &mut Grid<T>, x: usize, y: usize, v: T)
    requires
        is_grid(old(grid)@),
        in_bounds(x as int, y as int, width_of(old(grid)@), height_of(old(grid)@)),
    ensures
        same_shape(old(grid)@, final(grid)@),
        forall|i: int, j: int|
            in_bounds(i, j, width_of(old(grid)@), height_of(old(grid)@)) ==> #[trigger] cell(final(grid)@, i, j)
                == if i == x && j == y { v } else { cell(old(grid)@, i, j) },
{
    let ghost g0 = grid@;
    grid[x][y] = v;
    proof {
        assert(grid@[x as int]@ == g0[x as int]@.update(y as int, v));
        assert forall|i: int| 0 <= i < width_of(grid@) implies (#[trigger] grid@[i])@.len() == height_of(grid@) by {
            if i != x {
                assert(grid@[i] == g0[i]);
            }
            assert(g0[i]@.len() == height_of(g0));
            if x != 0 {
                assert(grid@[0] == g0[0]);
            }
        }
        assert forall|i: int, j: int|
            in_bounds(i, j, width_of(g0), height_of(g0)) implies #[trigger] cell(grid@, i, j)
                == if i == x && j == y { v } else { cell(g0, i, j) } by {
            if i != x {
                assert(grid@[i] == g0[i]);
            }
        }
    }
}

/// The centre of a room as grid coordinates.
pub open spec fn center_u(r: Rect) -> (usize, usize) {
    ((r.x + r.w / 2) as usize, (r.y + r.l / 2) as usize)
}

/// Sides of a room lie in `[ROOM_MIN, ROOM_MAX)`.
pub open spec fn side_ok(r: Rect) -> bool {
    ROOM_MIN <= r.w < ROOM_MAX && ROOM_MIN <= r.l < ROOM_MAX
}

/// `(i, j)` lies in one of `rooms`.
pub open spec fn in_some_room(rooms: Seq<Rect>, i: int, j: int) -> bool {
    exists|k: int| 0 <= k < rooms.len() && #[trigger] in_rect(rooms[k], i, j)
}

/// The corridor from room `k`'s centre to the next room's, the last joining the first.
pub open spec fn ring_corr(rooms: Seq<Rect>, k: int) -> Corr {
    Corr { start: center_u(rooms[k]), end: center_u(rooms[(k + 1) % (rooms.len() as int)]) }
}

/// `(i, j)` lies on one of the first `m` corridors of the ring of `rooms`.
pub open spec fn on_ring_upto(rooms: Seq<Rect>, m: int, i: int, j: int) -> bool {
    exists|k: int| 0 <= k < m && #[trigger] on_corr(ring_corr(rooms, k), i, j)
}

impl Rect {
    pub fn new(x: usize, y: usize, l: usize, w: usize) -> (r: Rect)
        ensures
            r == (Rect { x, y, l, w }),
    {
        Rect { x, y, l, w }
    }

    /// The cell at the middle of the room.
    pub fn center(&self) -> (r: (usize, usize))
        requires
            self.x + self.w <= usize::MAX,
            self.y + self.l <= usize::MAX,
        ensures
            r.0 == rect_center(*self).0,
            r.1 == rect_center(*self).1,
            r == center_u(*self),
    {
        (self.x + self.w / 2, self.y + self.l / 2)
    }
}

impl Corr {
    pub fn new(start: (usize, usize), end: (usize, usize)) -> (r: Corr)
        ensures
            r == (Corr { start, end }),
    {
        Corr { start, end }
    }
}

/// Set every cell of room `r` to `v`.
pub fn build_rect<T: Copy>(grid: &mut Grid<T>, r: &Rect, v: T)
    requires
        is_grid(old(grid)@),
        r.x + r.w <= width_of(old(grid)@),
        r.y + r.l <= height_of(old(grid)@),
    ensures
        same_shape(old(grid)@, final(grid)@),
        forall|i: int, j: int|
            in_bounds(i, j, width_of(old(grid)@), height_of(old(grid)@)) ==> #[trigger] cell(final(grid)@, i, j)
                == if in_rect(*r, i, j) { v } else { cell(old(grid)@, i, j) },
{
    let ghost g0 = grid@;
    let ghost w0 = width_of(g0);
    let ghost h0 = height_of(g0);
    if r.w == 0 {
        return;
    }
    let gw: usize = grid.len();
    let gh: usize = grid[0].len();
    let mut a: usize = 0;
    while a < r.w
        invariant
            a <= r.w,
            w0 == gw && h0 == gh,
            r.x + r.w <= w0,
            r.y + r.l <= h0,
            same_shape(g0, grid@),
            w0 == width_of(g0) && h0 == height_of(g0),
            forall|i: int, j: int|
                in_bounds(i, j, w0, h0) ==> #[trigger] cell(grid@, i, j) == if r.x <= i < r.x + a
                    && r.y <= j < r.y + r.l { v } else { cell(g0, i, j) },
        decreases r.w - a,
    {
        let mut b: usize = 0;
        while b < r.l
            invariant
                a < r.w,
                b <= r.l,
                w0 == gw && h0 == gh,
                r.x + r.w <= w0,
                r.y + r.l <= h0,
                same_shape(g0, grid@),
                w0 == width_of(g0) && h0 == height_of(g0),
                forall|i: int, j: int|
                    in_bounds(i, j, w0, h0) ==> #[trigger] cell(grid@, i, j) == if (r.x <= i < r.x + a
                        && r.y <= j < r.y + r.l) || (i == r.x + a && r.y <= j < r.y + b) { v } else {
                        cell(g0, i, j)
                    },
            decreases r.l - b,
        {
            set_cell(grid, r.x + a, r.y + b, v);
            b = b + 1;
        }
        a = a + 1;
    }
}

/// Set every cell of corridor `c` but its start to `v`: first along x from the
/// start's column to the end's, then along y in the end's column.
pub fn build_corr<T: Copy>(grid: &mut Grid<T>, c: &Corr, v: T)
    requires
        is_grid(old(grid)@),
        in_bounds(c.start.0 as int, c.start.1 as int, width_of(old(grid)@), height_of(old(grid)@)),
        in_bounds(c.end.0 as int, c.end.1 as int, width_of(old(grid)@), height_of(old(grid)@)),
    ensures
        same_shape(old(grid)@, final(grid)@),
        forall|i: int, j: int|
            in_bounds(i, j, width_of(old(grid)@), height_of(old(grid)@)) ==> #[trigger] cell(final(grid)@, i, j)
                == if on_corr(*c, i, j) { v } else { cell(old(grid)@, i, j) },
{
    let ghost g0 = grid@;
    let ghost w0 = width_of(g0);
    let ghost h0 = height_of(g0);
    let (sx, sy) = c.start;
    let (ex, ey) = c.end;
    let mut mx: usize = sx;
    while mx != ex
        invariant
            same_shape(g0, grid@),
            w0 == width_of(g0) && h0 == height_of(g0),
            in_bounds(sx as int, sy as int, w0, h0),
            in_bounds(ex as int, ey as int, w0, h0),
            (sx <= mx <= ex) || (ex <= mx <= sx),
            forall|i: int, j: int|
                in_bounds(i, j, w0, h0) ==> #[trigger] cell(grid@, i, j) == if j == sy && seg(
                    sx as int,
                    mx as int,
                    i,
                ) { v } else { cell(g0, i, j) },
        decreases if mx <= ex { ex - mx } else { mx - ex },
    {
        if mx < ex {
            mx = mx + 1;
        } else {
            mx = mx - 1;
        }
        set_cell(grid, mx, sy, v);
    }
    let mut my: usize = sy;
    while my != ey
        invariant
            same_shape(g0, grid@),
            w0 == width_of(g0) && h0 == height_of(g0),
            in_bounds(sx as int, sy as int, w0, h0),
            in_bounds(ex as int, ey as int, w0, h0),
            (sy <= my <= ey) || (ey <= my <= sy),
            forall|i: int, j: int|
                in_bounds(i, j, w0, h0) ==> #[trigger] cell(grid@, i, j) == if (j == sy && seg(
                    sx as int,
                    ex as int,
                    i,
                )) || (i == ex && seg(sy as int, my as int, j)) { v } else { cell(g0, i, j) },
        decreases if my <= ey { ey - my } else { my - ey },
    {
        if my < ey {
            my = my + 1;
        } else {
            my = my - 1;
        }
        set_cell(grid, ex, my, v);
    }
}

} // verus!

verus! {

/// In a room whose cells are all walkable, any two of its cells reach each other.
pub proof fn lemma_rect_reach(g: Seq<Vec<Tile>>, r: Rect, a: (int, int), b: (int, int))
    requires
        forall|i: int, j: int| in_rect(r, i, j) ==> #[trigger] open_at(g, (i, j)),
        in_rect(r, a.0, a.1),
        in_rect(r, b.0, b.1),
    ensures
        reach(g, a, b),
{
    assert forall|x: int| (a.0 <= x <= b.0 || b.0 <= x <= a.0) implies #[trigger] open_at(g, (x, a.1)) by {
        assert(in_rect(r, x, a.1));
    }
    lemma_line_x(g, a.0, b.0, a.1);
    assert forall|y: int| (a.1 <= y <= b.1 || b.1 <= y <= a.1) implies #[trigger] open_at(g, (b.0, y)) by {
        assert(in_rect(r, b.0, y));
    }
    lemma_line_y(g, b.0, a.1, b.1);
    lemma_reach_trans(g, a, (b.0, a.1), b);
}

pub open spec fn corr_start(c: Corr) -> (int, int) {
    (c.start.0 as int, c.start.1 as int)
}

pub open spec fn corr_end(c: Corr) -> (int, int) {
    (c.end.0 as int, c.end.1 as int)
}

/// Along a walkable corridor, every cell of it reaches its start.
pub proof fn lemma_corr_reach(g: Seq<Vec<Tile>>, c: Corr, a: (int, int))
    requires
        open_at(g, corr_start(c)),
        forall|i: int, j: int| on_corr(c, i, j) ==> #[trigger] open_at(g, (i, j)),
        a == corr_start(c) || on_corr(c, a.0, a.1) || a == corr_end(c),
    ensures
        reach(g, a, corr_start(c)),
{
    let sx = c.start.0 as int;
    let sy = c.start.1 as int;
    let ex = c.end.0 as int;
    let ey = c.end.1 as int;
    assert forall|x: int| (sx <= x <= ex || ex <= x <= sx) implies #[trigger] open_at(g, (x, sy)) by {
        if x != sx {
            assert(on_corr(c, x, sy));
        }
    }
    if a == corr_start(c) {
        lemma_reach_refl(g, a);
    } else if a.1 == sy && (seg(sx, ex, a.0) || a.0 == sx) {
        assert forall|x: int| (a.0 <= x <= sx || sx <= x <= a.0) implies #[trigger] open_at(g, (x, sy)) by {
            assert(sx <= x <= ex || ex <= x <= sx);
        }
        lemma_line_x(g, a.0, sx, sy);
    } else {
        assert(a.0 == ex && (seg(sy, ey, a.1) || a.1 == sy));
        assert forall|y: int| (a.1 <= y <= sy || sy <= y <= a.1) implies #[trigger] open_at(g, (ex, y)) by {
            if y != sy {
                assert(on_corr(c, ex, y));
            } else {
                assert(sx <= ex <= ex || ex <= ex <= sx);
            }
        }
        lemma_line_y(g, ex, a.1, sy);
        lemma_line_x(g, ex, sx, sy);
        lemma_reach_trans(g, a, (ex, sy), corr_start(c));
    }
}

/// A corridor dug from a cell that reaches the hub keeps every cell reaching it.
pub proof fn lemma_corr_joined(g1: Seq<Vec<Tile>>, g2: Seq<Vec<Tile>>, hub: (int, int), c: Corr)
    requires
        all_reach(g1, hub),
        opens_kept(g1, g2),
        forall|a: (int, int)| open_at(g2, a) ==> open_at(g1, a) || on_corr(c, a.0, a.1),
        forall|i: int, j: int| on_corr(c, i, j) ==> #[trigger] open_at(g2, (i, j)),
        open_at(g1, corr_start(c)),
    ensures
        all_reach(g2, hub),
{
    assert(reach(g1, corr_start(c), hub));
    lemma_reach_mono(g1, g2, corr_start(c), hub);
    assert forall|a: (int, int)| open_at(g2, a) implies #[trigger] reach(g2, a, hub) by {
        if open_at(g1, a) {
            lemma_reach_mono(g1, g2, a, hub);
        } else {
            lemma_corr_reach(g2, c, a);
            lemma_reach_trans(g2, a, corr_start(c), hub);
        }
    }
}

/// A room, and a corridor from a cell that reaches the hub to the room's centre,
/// keep every cell reaching the hub.
pub proof fn lemma_room_joined(
    g1: Seq<Vec<Tile>>,
    g2: Seq<Vec<Tile>>,
    hub: (int, int),
    r: Rect,
    c: Corr,
)
    requires
        all_reach(g1, hub),
        opens_kept(g1, g2),
        forall|a: (int, int)| open_at(g2, a) ==> open_at(g1, a) || in_rect(r, a.0, a.1) || on_corr(c, a.0, a.1),
        forall|i: int, j: int| in_rect(r, i, j) ==> #[trigger] open_at(g2, (i, j)),
        forall|i: int, j: int| on_corr(c, i, j) ==> #[trigger] open_at(g2, (i, j)),
        open_at(g1, corr_start(c)),
        in_rect(r, corr_end(c).0, corr_end(c).1),
    ensures
        all_reach(g2, hub),
{
    assert(reach(g1, corr_start(c), hub));
    lemma_reach_mono(g1, g2, corr_start(c), hub);
    lemma_corr_reach(g2, c, corr_end(c));
    lemma_reach_trans(g2, corr_end(c), corr_start(c), hub);
    assert forall|a: (int, int)| open_at(g2, a) implies #[trigger] reach(g2, a, hub) by {
        if open_at(g1, a) {
            lemma_reach_mono(g1, g2, a, hub);
        } else if in_rect(r, a.0, a.1) {
            lemma_rect_reach(g2, r, a, corr_end(c));
            lemma_reach_trans(g2, a, corr_end(c), hub);
        } else {
            lemma_corr_reach(g2, c, a);
            lemma_reach_trans(g2, a, corr_start(c), hub);
        }
    }
}

/// The first room on a map with nothing walkable makes every cell reach its centre.
pub proof fn lemma_first_room(g1: Seq<Vec<Tile>>, g2: Seq<Vec<Tile>>, r: Rect)
    requires
        none_open(g1),
        forall|a: (int, int)| open_at(g2, a) ==> open_at(g1, a) || in_rect(r, a.0, a.1),
        forall|i: int, j: int| in_rect(r, i, j) ==> #[trigger] open_at(g2, (i, j)),
        in_rect(r, rect_center(r).0, rect_center(r).1),
    ensures
        all_reach(g2, rect_center(r)),
{
    assert forall|a: (int, int)| open_at(g2, a) implies #[trigger] reach(g2, a, rect_center(r)) by {
        assert(!open_at(g1, a));
        lemma_rect_reach(g2, r, a, rect_center(r));
    }
}

} // verus!

verus! {

/// Every cell of `g2` is the cell of `g1` or `v`.
pub open spec fn only_stamped<T>(g1: Seq<Vec<T>>, g2: Seq<Vec<T>>, v: T) -> bool {
    forall|i: int, j: int|
        in_bounds(i, j, width_of(g1), height_of(g1)) ==> #[trigger] cell(g2, i, j) == cell(g1, i, j)
            || cell(g2, i, j) == v
}

/// The structural builder: places rooms at random and joins each to the previous
/// one, and the last to the first, by corridors.
#[derive(Clone, Copy, Debug)]
pub struct Simple {
    pub attempts: usize,
}

impl Simple {
    /// A builder that samples `attempts` candidate rooms.
    pub fn new(attempts: usize) -> (r: Simple)
        ensures
            r.attempts == attempts,
    {
        Simple { attempts }
    }

    /// Consider the candidate room at `(x, y)` with `l` rows and `rw` columns:
    /// keep it exactly when it stays off the far border, then carve it and a
    /// corridor to it from the previous room's centre.
    fn try_room(
        grid: &mut Grid<Tile>,
        rooms: &mut Vec<Rect>,
        floor: Tile,
        w: usize,
        h: usize,
        x: usize,
        y: usize,
        l: usize,
        rw: usize,
        Ghost(g0): Ghost<Seq<Vec<Tile>>>,
    ) -> (placed: bool)
        requires
            same_shape(g0, old(grid)@),
            w == width_of(g0) && h == height_of(g0),
            w >= 4 && h >= 4,
            is_walkable(floor.tiletype),
            none_open(g0),
            only_stamped(g0, old(grid)@, floor),
            forall|k: int| 0 <= k < old(rooms)@.len() ==> rect_inside(#[trigger] old(rooms)@[k], w as int, h as int),
            forall|k: int| 0 <= k < old(rooms)@.len() ==> side_ok(#[trigger] old(rooms)@[k]),
            forall|k: int, i: int, j: int|
                0 <= k < old(rooms)@.len() && in_rect(#[trigger] old(rooms)@[k], i, j) ==> #[trigger] cell(
                    old(grid)@,
                    i,
                    j,
                ) == floor,
            old(rooms)@.len() == 0 ==> old(grid)@ == g0,
            old(rooms)@.len() > 0 ==> all_reach(old(grid)@, rect_center(old(rooms)@[0])),
            1 <= x < w - 2,
            1 <= y < h - 2,
            ROOM_MIN <= l < ROOM_MAX,
            ROOM_MIN <= rw < ROOM_MAX,
        ensures
            same_shape(g0, final(grid)@),
            w == width_of(g0) && h == height_of(g0),
            w >= 4 && h >= 4,
            is_walkable(floor.tiletype),
            none_open(g0),
            only_stamped(g0, final(grid)@, floor),
            forall|k: int| 0 <= k < final(rooms)@.len() ==> rect_inside(#[trigger] final(rooms)@[k], w as int, h as int),
            forall|k: int| 0 <= k < final(rooms)@.len() ==> side_ok(#[trigger] final(rooms)@[k]),
            forall|k: int, i: int, j: int|
                0 <= k < final(rooms)@.len() && in_rect(#[trigger] final(rooms)@[k], i, j) ==> #[trigger] cell(
                    final(grid)@,
                    i,
                    j,
                ) == floor,
            final(rooms)@.len() == 0 ==> final(grid)@ == g0,
            final(rooms)@.len() > 0 ==> all_reach(final(grid)@, rect_center(final(rooms)@[0])),
            placed == (rw < w - x && l < h - y),
            placed ==> final(rooms)@ == old(rooms)@.push(Rect { x, y, l, w: rw }),
            !placed ==> final(rooms)@ == old(rooms)@ && final(grid)@ == old(grid)@,
    {
        if rw < w - x && l < h - y {
            let r = Rect::new(x, y, l, rw);
            let ghost g1 = grid@;
            build_rect(grid, &r, floor);
            let ghost g2 = grid@;
            assert forall|i: int, j: int| in_rect(r, i, j) implies #[trigger] open_at(g2, (i, j)) by {
                assert(cell(g2, i, j) == floor);
            }
            if rooms.len() > 0 {
                let prev = rooms[rooms.len() - 1];
                let c = Corr::new(prev.center(), r.center());
                build_corr(grid, &c, floor);
                let ghost g3 = grid@;
                proof {
                    let hub = rect_center(rooms@[0]);
                    assert(in_rect(prev, rect_center(prev).0, rect_center(prev).1));
                    assert(cell(g1, rect_center(prev).0, rect_center(prev).1) == floor);
                    assert forall|a: (int, int)| open_at(g1, a) implies #[trigger] open_at(g3, a) by {
                        assert(cell(g2, a.0, a.1) == cell(g1, a.0, a.1) || cell(g2, a.0, a.1) == floor);
                        assert(cell(g3, a.0, a.1) == cell(g2, a.0, a.1) || cell(g3, a.0, a.1) == floor);
                    }
                    assert forall|a: (int, int)| open_at(g3, a) implies open_at(g1, a) || in_rect(r, a.0, a.1)
                        || on_corr(c, a.0, a.1) by {
                        assert(cell(g3, a.0, a.1) == if on_corr(c, a.0, a.1) { floor } else { cell(g2, a.0, a.1) });
                    }
                    assert forall|i: int, j: int| in_rect(r, i, j) implies #[trigger] open_at(g3, (i, j)) by {
                        assert(cell(g3, i, j) == floor);
                    }
                    assert forall|i: int, j: int| on_corr(c, i, j) implies #[trigger] open_at(g3, (i, j)) by {
                        assert(cell(g3, i, j) == floor);
                    }
                    lemma_room_joined(g1, g3, hub, r, c);
                }
            } else {
                proof {
                    assert forall|a: (int, int)| open_at(g2, a) implies open_at(g1, a) || in_rect(r, a.0, a.1) by {
                        assert(cell(g2, a.0, a.1) == if in_rect(r, a.0, a.1) { floor } else { cell(g1, a.0, a.1) });
                    }
                    lemma_first_room(g1, g2, r);
                }
            }
            let ghost g4 = grid@;
            let ghost old_rooms = rooms@;
            rooms.push(r);
            proof {
                assert(rooms@[0] == if old_rooms.len() > 0 { old_rooms[0] } else { r });
                assert forall|k: int, i: int, j: int|
                    0 <= k < rooms@.len() && in_rect(#[trigger] rooms@[k], i, j) implies #[trigger] cell(
                        grid@,
                        i,
                        j,
                    ) == floor by {
                    if k < old_rooms.len() {
                        assert(rooms@[k] == old_rooms[k]);
                        assert(cell(g1, i, j) == floor);
                    }
                }
            }
            true
        } else {
            false
        }
    }

    /// Carve rooms and corridors of `floor` into `grid`, which holds nothing
    /// walkable yet; return the rooms in the order they were placed. Each
    /// candidate that would reach the grid's border is dropped; candidates are
    /// checked against the border only, so rooms may overlap. With a room
    /// placed, every walkable cell then reaches the first room's centre.
    pub fn apply(&self, grid: &mut Grid<Tile>, floor: Tile) -> (rooms: Vec<Rect>)
        requires
            is_grid(old(grid)@),
            is_walkable(floor.tiletype),
            none_open(old(grid)@),
        ensures
            same_shape(old(grid)@, final(grid)@),
            only_stamped(old(grid)@, final(grid)@, floor),
            forall|k: int|
                0 <= k < rooms@.len() ==> rect_inside(
                    #[trigger] rooms@[k],
                    width_of(old(grid)@),
                    height_of(old(grid)@),
                ),
            forall|k: int, i: int, j: int|
                0 <= k < rooms@.len() && in_rect(#[trigger] rooms@[k], i, j) ==> #[trigger] cell(
                    final(grid)@,
                    i,
                    j,
                ) == floor,
            rooms@.len() <= self.attempts,
            forall|k: int| 0 <= k < rooms@.len() ==> side_ok(#[trigger] rooms@[k]),
            rooms@.len() == 0 ==> final(grid)@ == old(grid)@,
            rooms@.len() > 0 ==> open_at(final(grid)@, rect_center(rooms@[0])) && all_reach(
                final(grid)@,
                rect_center(rooms@[0]),
            ),
    {
        let ghost g0 = grid@;
        let mut rooms: Vec<Rect> = Vec::new();
        let w: usize = grid.len();
        if w < 4 {
            return rooms;
        }
        let h: usize = grid[0].len();
        if h < 4 {
            return rooms;
        }
        let mut n: usize = 0;
        while n < self.attempts
            invariant
                same_shape(g0, grid@),
                w == width_of(g0) && h == height_of(g0),
                w >= 4 && h >= 4,
                is_walkable(floor.tiletype),
                none_open(g0),
                only_stamped(g0, grid@, floor),
                forall|k: int| 0 <= k < rooms@.len() ==> rect_inside(#[trigger] rooms@[k], w as int, h as int),
                forall|k: int, i: int, j: int|
                    0 <= k < rooms@.len() && in_rect(#[trigger] rooms@[k], i, j) ==> #[trigger] cell(
                        grid@,
                        i,
                        j,
                    ) == floor,
                forall|k: int| 0 <= k < rooms@.len() ==> side_ok(#[trigger] rooms@[k]),
                rooms@.len() <= n,
                n <= self.attempts,
                rooms@.len() == 0 ==> grid@ == g0,
                rooms@.len() > 0 ==> all_reach(grid@, rect_center(rooms@[0])),
            decreases self.attempts - n,
        {
            let x = random_range(1, w - 2);
            let y = random_range(1, h - 2);
            let l = random_range(ROOM_MIN, ROOM_MAX);
            let rw = random_range(ROOM_MIN, ROOM_MAX);
            let ghost rooms_before = rooms@;
            if Simple::try_room(grid, &mut rooms, floor, w, h, x, y, l, rw, Ghost(g0)) {
                assert(rooms@.len() == rooms_before.len() + 1);
            }
            n = n + 1;
        }
        if rooms.len() > 1 {
            let last = rooms[rooms.len() - 1];
            let first = rooms[0];
            let c = Corr::new(last.center(), first.center());
            let ghost g1 = grid@;
            build_corr(grid, &c, floor);
            proof {
                let g2 = grid@;
                assert(in_rect(last, rect_center(last).0, rect_center(last).1));
                assert(cell(g1, rect_center(last).0, rect_center(last).1) == floor);
                assert forall|a: (int, int)| open_at(g1, a) implies #[trigger] open_at(g2, a) by {
                    assert(cell(g2, a.0, a.1) == cell(g1, a.0, a.1) || cell(g2, a.0, a.1) == floor);
                }
                assert forall|a: (int, int)| open_at(g2, a) implies open_at(g1, a) || on_corr(c, a.0, a.1) by {
                    assert(cell(g2, a.0, a.1) == if on_corr(c, a.0, a.1) { floor } else { cell(g1, a.0, a.1) });
                }
                assert forall|i: int, j: int| on_corr(c, i, j) implies #[trigger] open_at(g2, (i, j)) by {
                    assert(cell(g2, i, j) == floor);
                }
                lemma_corr_joined(g1, g2, rect_center(rooms@[0]), c);
            }
        }
        proof {
            if rooms@.len() > 0 {
                let r0 = rooms@[0];
                assert(in_rect(r0, rect_center(r0).0, rect_center(r0).1));
                assert(cell(grid@, rect_center(r0).0, rect_center(r0).1) == floor);
            }
        }
        rooms
    }
}

} // verus!

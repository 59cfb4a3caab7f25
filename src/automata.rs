//! The drunkard's walk: a random walk that erodes walls into floor.
use vstd::prelude::*;
use crate::builder::{height_of, is_grid, same_shape, set_cell, width_of};
use crate::color::RGB;
use crate::grid::{Grid, cell, in_bounds};
use crate::reach::{adjacent, all_reach, lemma_open_beside, lemma_reach_refl, none_open, open_at, opens_kept};
use crate::rng::random_range;
use crate::tile::{Tile, Type, is_walkable};

verus! {

/// `t` with its background colour replaced by `bg`.
pub open spec fn with_bg(t: Tile, bg: RGB) -> Tile {
    Tile { bg: bg, ..t }
}

/// `skip` names terrain `t`.
pub open spec fn skip_matches(skip: Option<Type>, t: Type) -> bool {
    skip is Some && skip->0 == t
}

/// The side neighbour of `c` in direction `dir`: east, west, south, north.
pub open spec fn neighbor(c: (int, int), dir: int) -> (int, int) {
    if dir == 0 {
        (c.0 + 1, c.1)
    } else if dir == 1 {
        (c.0 - 1, c.1)
    } else if dir == 2 {
        (c.0, c.1 + 1)
    } else {
        (c.0, c.1 - 1)
    }
}

/// Every cell of `g2` is the cell of `g1`, or `floor` on the background of the cell of `g1`.
pub open spec fn only_eroded(g1: Seq<Vec<Tile>>, g2: Seq<Vec<Tile>>, floor: Tile) -> bool {
    forall|i: int, j: int|
        in_bounds(i, j, width_of(g1), height_of(g1)) ==> #[trigger] cell(g2, i, j) == cell(g1, i, j)
            || cell(g2, i, j) == with_bg(floor, cell(g1, i, j).bg)
}

/// Convert the cell at `(x, y)` to `floor`, keeping its background colour,
/// unless `skip` names its terrain. Returns whether it was converted.
pub fn erode_cell(grid: &mut Grid<Tile>, x: usize, y: usize, skip: Option<Type>, floor: Tile) -> (r: bool)
    requires
        is_grid(old(grid)@),
        in_bounds(x as int, y as int, width_of(old(grid)@), height_of(old(grid)@)),
    ensures
        same_shape(old(grid)@, final(grid)@),
        r == !skip_matches(skip, cell(old(grid)@, x as int, y as int).tiletype),
        r ==> forall|i: int, j: int|
            in_bounds(i, j, width_of(old(grid)@), height_of(old(grid)@)) ==> #[trigger] cell(final(grid)@, i, j)
                == if i == x && j == y { with_bg(floor, cell(old(grid)@, i, j).bg) } else { cell(old(grid)@, i, j) },
        !r ==> final(grid)@ == old(grid)@,
{
    let cur = grid[x][y];
    let skipped = match skip {
        Some(s) => s == cur.tiletype,
        None => false,
    };
    if skipped {
        false
    } else {
        let mut t = floor;
        t.bg = cur.bg;
        set_cell(grid, x, y, t);
        true
    }
}

/// One step of the walk from `cursor` in direction `dir` (0 east, 1 west,
/// 2 south, 3 north). A target off the grid, or one whose terrain `skip` names,
/// is left alone and the cursor stays; otherwise the target becomes `floor` on
/// its own background and the cursor moves there.
pub fn walk_step(
    grid: &mut Grid<Tile>,
    cursor: (usize, usize),
    dir: usize,
    skip: Option<Type>,
    floor: Tile,
) -> (r: (usize, usize))
    requires
        is_grid(old(grid)@),
        in_bounds(cursor.0 as int, cursor.1 as int, width_of(old(grid)@), height_of(old(grid)@)),
        dir < 4,
    ensures
        same_shape(old(grid)@, final(grid)@),
        ({
            let t = neighbor((cursor.0 as int, cursor.1 as int), dir as int);
            if in_bounds(t.0, t.1, width_of(old(grid)@), height_of(old(grid)@)) && !skip_matches(
                skip,
                cell(old(grid)@, t.0, t.1).tiletype,
            ) {
                &&& r.0 == t.0 && r.1 == t.1
                &&& forall|i: int, j: int|
                    in_bounds(i, j, width_of(old(grid)@), height_of(old(grid)@)) ==> #[trigger] cell(
                        final(grid)@,
                        i,
                        j,
                    ) == if i == t.0 && j == t.1 { with_bg(floor, cell(old(grid)@, i, j).bg) } else {
                        cell(old(grid)@, i, j)
                    }
            } else {
                r == cursor && final(grid)@ == old(grid)@
            }
        }),
{
    let (x, y) = cursor;
    let w = grid.len();
    let h = grid[0].len();
    let target: Option<(usize, usize)> = if dir == 0 {
        if x + 1 < w { Some((x + 1, y)) } else { None }
    } else if dir == 1 {
        if x > 0 { Some((x - 1, y)) } else { None }
    } else if dir == 2 {
        if y + 1 < h { Some((x, y + 1)) } else { None }
    } else {
        if y > 0 { Some((x, y - 1)) } else { None }
    };
    match target {
        Some(t) => {
            if erode_cell(grid, t.0, t.1, skip, floor) {
                t
            } else {
                cursor
            }
        },
        None => cursor,
    }
}

/// A drunkard's walk whose `chaos`, in percent, is the chance that a step picks
/// a fresh random direction rather than keeping the previous one.
#[derive(Clone, Copy, Debug)]
pub struct DrunkardsWalk {
    pub chaos: usize,
}

impl DrunkardsWalk {
    pub fn new(chaos: usize) -> (r: DrunkardsWalk)
        ensures
            r.chaos == chaos,
    {
        DrunkardsWalk { chaos }
    }

    /// Walk `iterations` steps from `start`, which is eroded first, turning each
    /// cell reached into `floor` on its own background; cells whose terrain
    /// `skip` names are never converted. When the walk starts on a walkable cell
    /// that every walkable cell reaches, or on a map with nothing walkable yet,
    /// and `floor` is walkable, every walkable cell still reaches `start`.
    pub fn apply(
        &self,
        grid: &mut Grid<Tile>,
        skip: Option<Type>,
        floor: Tile,
        start: (usize, usize),
        iterations: usize,
    )
        requires
            is_grid(old(grid)@),
            in_bounds(start.0 as int, start.1 as int, width_of(old(grid)@), height_of(old(grid)@)),
        ensures
            same_shape(old(grid)@, final(grid)@),
            only_eroded(old(grid)@, final(grid)@, floor),
            iterations > 0 && !skip_matches(skip, cell(old(grid)@, start.0 as int, start.1 as int).tiletype)
                ==> cell(final(grid)@, start.0 as int, start.1 as int).tiletype == floor.tiletype,
            is_walkable(floor.tiletype) && ((open_at(old(grid)@, (start.0 as int, start.1 as int))
                && all_reach(old(grid)@, (start.0 as int, start.1 as int))) || (none_open(old(grid)@)
                && !skip_matches(skip, cell(old(grid)@, start.0 as int, start.1 as int).tiletype)))
                ==> opens_kept(old(grid)@, final(grid)@) && all_reach(
                final(grid)@,
                (start.0 as int, start.1 as int),
            ),
    {
        let ghost g0 = grid@;
        let ghost s = (start.0 as int, start.1 as int);
        let ghost conn = is_walkable(floor.tiletype) && ((open_at(g0, s) && all_reach(g0, s)) || (
        none_open(g0) && !skip_matches(skip, cell(g0, s.0, s.1).tiletype)));
        if iterations == 0 {
            return;
        }
        let carved = erode_cell(grid, start.0, start.1, skip, floor);
        proof {
            if conn {
                if carved && !open_at(g0, s) {
                    assert(open_at(grid@, s));
                    assert forall|a: (int, int)| open_at(grid@, a) implies #[trigger] crate::reach::reach(grid@, a, s) by {
                        lemma_open_at_cell(grid@, a);
                        lemma_open_at_cell(g0, a);
                        assert(a == s);
                        lemma_reach_refl(grid@, s);
                    }
                } else if carved {
                    assert forall|a: (int, int)| #[trigger] open_at(grid@, a) == (open_at(g0, a) || a == s) by {
                        lemma_open_at_cell(grid@, a);
                        lemma_open_at_cell(g0, a);
                    }
                    lemma_open_beside_same(g0, grid@, s);
                }
            }
        }
        let mut cursor = start;
        let mut dir: usize = random_range(0, 4);
        let mut n: usize = 0;
        while n < iterations
            invariant
                same_shape(g0, grid@),
                only_eroded(g0, grid@, floor),
                in_bounds(cursor.0 as int, cursor.1 as int, width_of(g0), height_of(g0)),
                s == (start.0 as int, start.1 as int),
                in_bounds(s.0, s.1, width_of(g0), height_of(g0)),
                dir < 4,
                !skip_matches(skip, cell(g0, s.0, s.1).tiletype) ==> cell(grid@, s.0, s.1).tiletype
                    == floor.tiletype,
                conn == (is_walkable(floor.tiletype) && ((open_at(g0, s) && all_reach(g0, s)) || (
                none_open(g0) && !skip_matches(skip, cell(g0, s.0, s.1).tiletype)))),
                conn ==> opens_kept(g0, grid@) && all_reach(grid@, s) && open_at(
                    grid@,
                    (cursor.0 as int, cursor.1 as int),
                ),
            decreases iterations - n,
        {
            if random_range(0, 100) < self.chaos {
                dir = random_range(0, 4);
            }
            let ghost g1 = grid@;
            let ghost c1 = (cursor.0 as int, cursor.1 as int);
            cursor = walk_step(grid, cursor, dir, skip, floor);
            proof {
                let t = neighbor(c1, dir as int);
                if (cursor.0 as int, cursor.1 as int) != c1 || grid@ != g1 {
                    assert(in_bounds(t.0, t.1, width_of(g1), height_of(g1)));
                    assert(!skip_matches(skip, cell(g1, t.0, t.1).tiletype));
                    assert(in_bounds(s.0, s.1, width_of(g1), height_of(g1)));
                    assert(cell(grid@, s.0, s.1) == if s.0 == t.0 && s.1 == t.1 {
                        with_bg(floor, cell(g1, s.0, s.1).bg)
                    } else {
                        cell(g1, s.0, s.1)
                    });
                    assert(cell(grid@, t.0, t.1) == with_bg(floor, cell(g1, t.0, t.1).bg));
                    assert(cell(grid@, s.0, s.1) == cell(g1, s.0, s.1) || cell(grid@, s.0, s.1) == with_bg(
                        floor,
                        cell(g1, s.0, s.1).bg,
                    ));
                    assert forall|i: int, j: int|
                        in_bounds(i, j, width_of(g0), height_of(g0)) implies #[trigger] cell(grid@, i, j) == cell(g0, i, j)
                            || cell(grid@, i, j) == with_bg(floor, cell(g0, i, j).bg) by {
                        assert(cell(g1, i, j) == cell(g0, i, j) || cell(g1, i, j) == with_bg(floor, cell(g0, i, j).bg));
                    }
                    if conn {
                        assert(adjacent(c1, t));
                        lemma_open_at_cell(grid@, t);
                        assert forall|a: (int, int)| open_at(g1, a) implies #[trigger] open_at(grid@, a) by {
                            lemma_open_at_cell(grid@, a);
                            lemma_open_at_cell(g1, a);
                        }
                        assert forall|a: (int, int)| open_at(g0, a) implies #[trigger] open_at(grid@, a) by {
                            assert(open_at(g1, a));
                        }
                        assert forall|a: (int, int)| open_at(grid@, a) implies open_at(g1, a) || a == t by {
                            lemma_open_at_cell(grid@, a);
                            lemma_open_at_cell(g1, a);
                        }
                        lemma_open_beside(g1, grid@, s, c1, t);
                    }
                }
            }
            n = n + 1;
        }
    }
}

/// In a grid, a walkable cell is one in bounds whose terrain is walkable.
pub proof fn lemma_open_at_cell(g: Seq<Vec<Tile>>, a: (int, int))
    requires
        is_grid(g),
    ensures
        open_at(g, a) == (in_bounds(a.0, a.1, width_of(g), height_of(g)) && is_walkable(cell(g, a.0, a.1).tiletype)),
{
    if 0 <= a.0 < g.len() {
        assert(g[a.0]@.len() == height_of(g));
    }
}

/// Turning an already walkable cell into walkable floor keeps every cell reaching `s`.
proof fn lemma_open_beside_same(g1: Seq<Vec<Tile>>, g2: Seq<Vec<Tile>>, s: (int, int))
    requires
        all_reach(g1, s),
        open_at(g1, s),
        open_at(g2, s),
        g1.len() == g2.len(),
        forall|a: (int, int)| #[trigger] open_at(g2, a) == (open_at(g1, a) || a == s),
    ensures
        all_reach(g2, s),
{
    assert forall|a: (int, int)| open_at(g2, a) implies #[trigger] crate::reach::reach(g2, a, s) by {
        assert(open_at(g1, a));
        crate::reach::lemma_reach_mono(g1, g2, a, s);
    }
}

} // verus!

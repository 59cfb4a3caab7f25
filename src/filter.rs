//! The structure filter: knocks openings through thin walls between walkable cells.
use vstd::prelude::*;
use crate::automata::{lemma_open_at_cell, only_eroded, with_bg};
use crate::builder::{height_of, is_grid, same_shape, set_cell, width_of};
use crate::grid::{Grid, cell, in_bounds};
use crate::reach::{adjacent, all_reach, lemma_open_beside, open_at, opens_kept};
use crate::rng::random_range;
use crate::tile::{Tile, is_walkable, walkable};

verus! {

/// Chance, in percent, that a thin wall gets an opening.
pub const OPENING_CHANCE: usize = 25;

/// The wall at `(x, y)` separates two walkable cells, east and west or north and south.
pub open spec fn thin_wall(g: Seq<Vec<Tile>>, x: int, y: int) -> bool {
    &&& cell(g, x, y).tiletype is Wall
    &&& (open_at(g, (x - 1, y)) && open_at(g, (x + 1, y))) || (open_at(g, (x, y - 1)) && open_at(g, (x, y + 1)))
}

/// The structure filter, with the chance in percent that a thin wall opens.
#[derive(Clone, Copy, Debug)]
pub struct Structure {
    pub chance: usize,
}

impl Structure {
    pub fn new() -> (r: Structure)
        ensures
            r.chance == OPENING_CHANCE,
    {
        Structure { chance: OPENING_CHANCE }
    }

    /// Whether the interior wall at `(x, y)` is thin.
    fn is_thin(grid: &Grid<Tile>, x: usize, y: usize, w: usize, h: usize) -> (r: bool)
        requires
            is_grid(grid@),
            w == width_of(grid@) && h == height_of(grid@),
            1 <= x < width_of(grid@) - 1,
            1 <= y < height_of(grid@) - 1,
        ensures
            r == thin_wall(grid@, x as int, y as int),
    {
        proof {
            assert(grid@[x - 1]@.len() == height_of(grid@));
            assert(grid@[x as int]@.len() == height_of(grid@));
            assert(grid@[x + 1]@.len() == height_of(grid@));
        }
        let wall = match grid[x][y].tiletype {
            crate::tile::Type::Wall(_) => true,
            _ => false,
        };
        let we = walkable(&grid[x - 1][y]) && walkable(&grid[x + 1][y]);
        let ns = walkable(&grid[x][y - 1]) && walkable(&grid[x][y + 1]);
        wall && (we || ns)
    }

    /// Open the interior cell `(x, y)` as `floor` on its own background when
    /// it is a thin wall and `roll`, drawn from `[0, 100)`, is under the chance.
    pub fn try_opening(&self, grid: &mut Grid<Tile>, x: usize, y: usize, roll: usize, floor: Tile) -> (opened: bool)
        requires
            is_grid(old(grid)@),
            1 <= x < width_of(old(grid)@) - 1,
            1 <= y < height_of(old(grid)@) - 1,
        ensures
            same_shape(old(grid)@, final(grid)@),
            opened == (thin_wall(old(grid)@, x as int, y as int) && roll < self.chance),
            opened ==> forall|i: int, j: int|
                in_bounds(i, j, width_of(old(grid)@), height_of(old(grid)@)) ==> #[trigger] cell(final(grid)@, i, j)
                    == if i == x && j == y { with_bg(floor, cell(old(grid)@, i, j).bg) } else { cell(old(grid)@, i, j) },
            !opened ==> final(grid)@ == old(grid)@,
    {
        let w = grid.len();
        let h = grid[0].len();
        if Structure::is_thin(grid, x, y, w, h) && roll < self.chance {
            assert(grid@[x as int]@.len() == h);
            let mut t = floor;
            t.bg = grid[x][y].bg;
            set_cell(grid, x, y, t);
            true
        } else {
            false
        }
    }

    /// Scan the interior in column order; each thin wall met becomes `floor` on
    /// its own background with the filter's chance. Openings join walkable
    /// cells, so with a walkable `floor` every cell that reached `hub` still does.
    pub fn apply(&self, grid: &mut Grid<Tile>, floor: Tile, hub: (usize, usize))
        requires
            is_grid(old(grid)@),
        ensures
            same_shape(old(grid)@, final(grid)@),
            only_eroded(old(grid)@, final(grid)@, floor),
            forall|i: int, j: int|
                in_bounds(i, j, width_of(old(grid)@), height_of(old(grid)@)) && #[trigger] cell(final(grid)@, i, j)
                    != cell(old(grid)@, i, j) ==> cell(old(grid)@, i, j).tiletype is Wall,
            is_walkable(floor.tiletype) && all_reach(old(grid)@, (hub.0 as int, hub.1 as int)) ==> all_reach(
                final(grid)@,
                (hub.0 as int, hub.1 as int),
            ) && opens_kept(old(grid)@, final(grid)@),
    {
        let ghost g0 = grid@;
        let ghost hub = (hub.0 as int, hub.1 as int);
        let ghost conn = is_walkable(floor.tiletype) && all_reach(g0, hub);
        let w = grid.len();
        if w < 3 {
            return;
        }
        let h = grid[0].len();
        if h < 3 {
            return;
        }
        let mut x: usize = 1;
        while x < w - 1
            invariant
                1 <= x <= w - 1,
                w == width_of(g0) && h == height_of(g0),
                w >= 3 && h >= 3,
                same_shape(g0, grid@),
                only_eroded(g0, grid@, floor),
                forall|i: int, j: int|
                    in_bounds(i, j, w as int, h as int) && #[trigger] cell(grid@, i, j) != cell(g0, i, j) ==> cell(
                        g0,
                        i,
                        j,
                    ).tiletype is Wall,
                conn == (is_walkable(floor.tiletype) && all_reach(g0, hub)),
                conn ==> all_reach(grid@, hub) && opens_kept(g0, grid@),
            decreases w - x,
        {
            let mut y: usize = 1;
            while y < h - 1
                invariant
                    1 <= x < w - 1,
                    1 <= y <= h - 1,
                    w == width_of(g0) && h == height_of(g0),
                    w >= 3 && h >= 3,
                    same_shape(g0, grid@),
                    only_eroded(g0, grid@, floor),
                    forall|i: int, j: int|
                        in_bounds(i, j, w as int, h as int) && #[trigger] cell(grid@, i, j) != cell(g0, i, j)
                            ==> cell(g0, i, j).tiletype is Wall,
                    conn == (is_walkable(floor.tiletype) && all_reach(g0, hub)),
                    conn ==> all_reach(grid@, hub) && opens_kept(g0, grid@),
                decreases h - y,
            {
                let roll = random_range(0, 100);
                let ghost g1 = grid@;
                if self.try_opening(grid, x, y, roll, floor) {
                    proof {
                        let c = (x as int, y as int);
                        assert(cell(g1, x as int, y as int).tiletype is Wall);
                        assert(cell(g0, x as int, y as int).tiletype is Wall);
                        assert(cell(g1, x as int, y as int).bg == cell(g0, x as int, y as int).bg);
                        assert forall|i: int, j: int|
                            in_bounds(i, j, w as int, h as int) implies #[trigger] cell(grid@, i, j) == cell(g0, i, j)
                                || cell(grid@, i, j) == with_bg(floor, cell(g0, i, j).bg) by {
                            assert(cell(g1, i, j) == cell(g0, i, j) || cell(g1, i, j) == with_bg(floor, cell(g0, i, j).bg));
                        }
                        assert forall|i: int, j: int|
                            in_bounds(i, j, w as int, h as int) && #[trigger] cell(grid@, i, j) != cell(g0, i, j)
                                implies cell(g0, i, j).tiletype is Wall by {
                            if i != x || j != y {
                                assert(cell(grid@, i, j) == cell(g1, i, j));
                            }
                        }
                        if conn {
                            let n = if open_at(g1, (x - 1, y as int)) && open_at(g1, (x + 1, y as int)) {
                                (x - 1, y as int)
                            } else {
                                (x as int, y - 1)
                            };
                            assert(open_at(g1, n));
                            assert(adjacent(n, c));
                            lemma_open_at_cell(grid@, c);
                            assert forall|a: (int, int)| open_at(g1, a) implies #[trigger] open_at(grid@, a) by {
                                lemma_open_at_cell(grid@, a);
                                lemma_open_at_cell(g1, a);
                                lemma_open_at_cell(g1, c);
                            }
                            assert forall|a: (int, int)| open_at(grid@, a) implies open_at(g1, a) || a == c by {
                                lemma_open_at_cell(grid@, a);
                                lemma_open_at_cell(g1, a);
                            }
                            lemma_open_beside(g1, grid@, hub, n, c);
                            assert forall|a: (int, int)| open_at(g0, a) implies #[trigger] open_at(grid@, a) by {
                                assert(open_at(g1, a));
                            }
                        }
                    }
                }
                y = y + 1;
            }
            x = x + 1;
        }
    }
}

} // verus!

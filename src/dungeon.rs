//! A dungeon level: its tile grid, the generation pipeline and the scent field.
use vstd::prelude::*;
use crate::automata::{DrunkardsWalk, only_eroded, with_bg, lemma_open_at_cell};
use crate::builder::{Simple, height_of, is_grid, same_shape, set_cell, width_of, rect_center};
use crate::color::RGB;
use crate::count::{lemma_count_less_one, lemma_count_zero, spawn_count};
use crate::grid::{Grid, cell, grid_wf, in_bounds};
use crate::filter::Structure;
use crate::noise::Fussy;
use crate::paint::{Pass, apply_pass, cell_rel, class_kept, grass_palette, terrain_ok, vine_glyphs};
use crate::pos::Pos;
use crate::reach::{all_reach, connected, lemma_all_reach_same, lemma_hub_connected, open_at, same_opens};
use crate::rng::random_range;
use crate::tile::{
    DownStair, Floor, Scent, Stair, Tile, Trap, Type, UpStair, Wall, faded, is_spawnable, is_walkable,
    reinforced, scent_add, scent_index, spawnable, _Scent,
};

verus! {

/// Why a level could not be generated.
#[derive(Clone, Copy, PartialEq, Eq, Structural, Debug)]
pub enum GenerationError {
    /// No interior cell was left on which a stair or trap could stand.
    NoValidPlacement,
}

/// A level: a `width` by `height` grid of tiles.
#[derive(Clone, Debug, Default)]
pub struct Dungeon {
    pub width: usize,
    pub height: usize,
    pub grid: Grid<Tile>,
}

/// Candidate rooms the structural builder samples.
pub const ROOM_ATTEMPTS: usize = 30;

/// `(x, y)` lies inside a `w` by `h` grid and off its border.
pub open spec fn interior(x: int, y: int, w: int, h: int) -> bool {
    1 <= x < w - 1 && 1 <= y < h - 1
}

/// Terrain of a down stair.
pub open spec fn is_down(t: Type) -> bool {
    t == Type::Stair(Stair::DownStair(DownStair::Normal))
}

/// Terrain of an up stair.
pub open spec fn is_up(t: Type) -> bool {
    t == Type::Stair(Stair::UpStair(UpStair::Normal))
}

/// Every tile of the grid keeps its scents in declaration order.
pub open spec fn tiles_wf(g: Seq<Vec<Tile>>) -> bool {
    forall|i: int, j: int| in_bounds(i, j, width_of(g), height_of(g)) ==> (#[trigger] cell(g, i, j)).wf()
}

/// A grid part way through generation: the right shape, sound tiles, and only
/// walls, floors, water, grass and vines.
pub open spec fn stage_ok(g: Seq<Vec<Tile>>, w: int, h: int) -> bool {
    &&& grid_wf(g, w, h)
    &&& is_grid(g)
    &&& width_of(g) == w && height_of(g) == h
    &&& tiles_wf(g)
    &&& forall|i: int, j: int| in_bounds(i, j, w, h) ==> terrain_ok((#[trigger] cell(g, i, j)).tiletype)
}

/// Hard walls show `#`; tall grass shows `"` in a grass colour; vines show a
/// vine glyph in a grass colour.
pub open spec fn decor_ok(t: Tile) -> bool {
    &&& t.tiletype == Type::Wall(Wall::Hard) ==> t.glyph == '#'
    &&& t.tiletype is TallGrass ==> t.glyph == '"' && grass_palette().contains(t.fg)
    &&& t.tiletype is Vine ==> vine_glyphs().contains(t.glyph) && grass_palette().contains(t.fg)
}

/// Every cell of the `w` by `h` grid `g` is decorated as its pass left it.
pub open spec fn decor_all(g: Seq<Vec<Tile>>, w: int, h: int) -> bool {
    forall|i: int, j: int| in_bounds(i, j, w, h) ==> decor_ok(#[trigger] cell(g, i, j))
}

/// No cell of the `w` by `h` grid `g` holds a vine.
pub open spec fn no_vines(g: Seq<Vec<Tile>>, w: int, h: int) -> bool {
    forall|i: int, j: int| in_bounds(i, j, w, h) ==> !(#[trigger] cell(g, i, j).tiletype is Vine)
}

/// Only normal walls and floors, as carving leaves a grid.
pub open spec fn plain(g: Seq<Vec<Tile>>, w: int, h: int) -> bool {
    forall|i: int, j: int|
        in_bounds(i, j, w, h) ==> #[trigger] cell(g, i, j).tiletype == Type::Wall(Wall::Normal) || cell(
            g,
            i,
            j,
        ).tiletype is Floor
}

/// A pass keeps the grid generated so far sound, connected, and decorated as
/// the earlier passes left it; no pass before the vine pass makes a vine.
proof fn lemma_stage_step(g1: Seq<Vec<Tile>>, g2: Seq<Vec<Tile>>, w: int, h: int, hub: (int, int), p: Pass)
    requires
        stage_ok(g1, w, h),
        same_shape(g1, g2),
        forall|i: int, j: int|
            in_bounds(i, j, w, h) && terrain_ok(cell(g1, i, j).tiletype) ==> class_kept(
                cell(g1, i, j),
                #[trigger] cell(g2, i, j),
            ),
        forall|i: int, j: int|
            in_bounds(i, j, w, h) ==> #[trigger] cell(g2, i, j) == cell(g1, i, j) || cell_rel(
                p,
                cell(g1, i, j),
                cell(g2, i, j),
            ),
        all_reach(g1, hub),
        open_at(g1, hub),
        decor_all(g1, w, h),
        p != Pass::HardWalls && p != Pass::Features ==> no_vines(g1, w, h),
    ensures
        stage_ok(g2, w, h),
        all_reach(g2, hub),
        open_at(g2, hub),
        decor_all(g2, w, h),
        p != Pass::HardWalls && p != Pass::Features && p != Pass::Vines ==> no_vines(g2, w, h),
{
    lemma_pass_kept(g1, g2, w, h, hub);
    assert forall|i: int, j: int| in_bounds(i, j, w, h) implies decor_ok(#[trigger] cell(g2, i, j)) && (p
        != Pass::HardWalls && p != Pass::Features && p != Pass::Vines ==> !(cell(g2, i, j).tiletype is Vine)) by {
        let t = cell(g1, i, j);
        assert(decor_ok(t) && terrain_ok(t.tiletype));
        if p != Pass::HardWalls && p != Pass::Features {
            assert(!(t.tiletype is Vine));
        }
    }
}

/// A pass that keeps each generated cell's class keeps the stage sound and the
/// cells reaching `hub`.
proof fn lemma_pass_kept(g1: Seq<Vec<Tile>>, g2: Seq<Vec<Tile>>, w: int, h: int, hub: (int, int))
    requires
        stage_ok(g1, w, h),
        same_shape(g1, g2),
        forall|i: int, j: int|
            in_bounds(i, j, w, h) && terrain_ok(cell(g1, i, j).tiletype) ==> class_kept(
                cell(g1, i, j),
                #[trigger] cell(g2, i, j),
            ),
        all_reach(g1, hub),
        open_at(g1, hub),
    ensures
        stage_ok(g2, w, h),
        all_reach(g2, hub),
        open_at(g2, hub),
        same_opens(g1, g2),
{
    assert forall|i: int, j: int| in_bounds(i, j, w, h) implies terrain_ok((#[trigger] cell(g2, i, j)).tiletype)
        && cell(g2, i, j).wf() by {
        assert(terrain_ok(cell(g1, i, j).tiletype) && cell(g1, i, j).wf());
    }
    assert forall|a: (int, int)| #[trigger] open_at(g1, a) == open_at(g2, a) by {
        lemma_open_at_cell(g1, a);
        lemma_open_at_cell(g2, a);
        if in_bounds(a.0, a.1, w, h) {
            assert(terrain_ok(cell(g1, a.0, a.1).tiletype));
            assert(class_kept(cell(g1, a.0, a.1), cell(g2, a.0, a.1)));
        }
    }
    lemma_all_reach_same(g1, g2, hub);
}

fn wall_tile() -> (r: Tile)
    ensures
        r.wf(),
        r.tiletype == Type::Wall(Wall::Normal),
{
    Tile::new("Wall", ' ', RGB(40, 40, 40), RGB(33, 33, 33), Type::Wall(Wall::Normal))
}

fn floor_tile() -> (r: Tile)
    ensures
        r.wf(),
        r.tiletype == Type::Floor(Floor::Normal),
{
    Tile::new("Floor", ' ', RGB(27, 27, 27), RGB(20, 20, 20), Type::Floor(Floor::Normal))
}

/// Find an interior cell that is spawnable: first by random draws, at most one
/// per cell of the grid, then by a scan. `None` exactly when there is none.
fn find_spawnable(grid: &Grid<Tile>) -> (r: Option<(usize, usize)>)
    requires
        is_grid(grid@),
    ensures
        r is Some ==> interior((r->0).0 as int, (r->0).1 as int, width_of(grid@), height_of(grid@))
            && is_spawnable(cell(grid@, (r->0).0 as int, (r->0).1 as int).tiletype),
        r is None ==> forall|x: int, y: int|
            interior(x, y, width_of(grid@), height_of(grid@)) ==> !is_spawnable(
                #[trigger] cell(grid@, x, y).tiletype,
            ),
{
    let w = grid.len();
    if w < 3 {
        return None;
    }
    let h = grid[0].len();
    if h < 3 {
        return None;
    }
    let budget: usize = match w.checked_mul(h) {
        Some(b) => b,
        None => usize::MAX,
    };
    let mut n: usize = 0;
    while n < budget
        invariant
            is_grid(grid@),
            w == width_of(grid@) && h == height_of(grid@),
            w >= 3 && h >= 3,
        decreases budget - n,
    {
        let x = random_range(1, w - 1);
        let y = random_range(1, h - 1);
        assert(grid@[x as int]@.len() == h);
        if spawnable(&grid[x][y]) {
            return Some((x, y));
        }
        n = n + 1;
    }
    let mut x: usize = 1;
    while x < w - 1
        invariant
            is_grid(grid@),
            w == width_of(grid@) && h == height_of(grid@),
            w >= 3 && h >= 3,
            1 <= x <= w - 1,
            forall|i: int, j: int|
                1 <= i < x && 1 <= j < h - 1 ==> !is_spawnable(#[trigger] cell(grid@, i, j).tiletype),
        decreases w - x,
    {
        let mut y: usize = 1;
        while y < h - 1
            invariant
                is_grid(grid@),
                w == width_of(grid@) && h == height_of(grid@),
                w >= 3 && h >= 3,
                1 <= x < w - 1,
                1 <= y <= h - 1,
                forall|i: int, j: int|
                    (1 <= i < x && 1 <= j < h - 1) || (i == x && 1 <= j < y) ==> !is_spawnable(
                        #[trigger] cell(grid@, i, j).tiletype,
                    ),
            decreases h - y,
        {
            assert(grid@[x as int]@.len() == h);
            if spawnable(&grid[x][y]) {
                return Some((x, y));
            }
            y = y + 1;
        }
        x = x + 1;
    }
    None
}

/// Run pass `p` over the cells of a fresh noise mask cut at `cutoff`.
fn noise_pass(grid: &mut Grid<Tile>, cutoff: u32, p: Pass)
    requires
        is_grid(old(grid)@),
    ensures
        same_shape(old(grid)@, final(grid)@),
        forall|i: int, j: int|
            in_bounds(i, j, width_of(old(grid)@), height_of(old(grid)@)) && terrain_ok(
                cell(old(grid)@, i, j).tiletype,
            ) ==> class_kept(cell(old(grid)@, i, j), #[trigger] cell(final(grid)@, i, j)),
        forall|i: int, j: int|
            in_bounds(i, j, width_of(old(grid)@), height_of(old(grid)@)) ==> #[trigger] cell(final(grid)@, i, j)
                == cell(old(grid)@, i, j) || cell_rel(p, cell(old(grid)@, i, j), cell(final(grid)@, i, j)),
{
    let w = grid.len();
    let h: usize = if w > 0 { grid[0].len() } else { 0 };
    let mask = Fussy::new(Dungeon::generate_grid(w, h, 0u8), cutoff).build();
    apply_pass(grid, &mask, p);
}

/// Run pass `p` over every cell.
fn full_pass(grid: &mut Grid<Tile>, p: Pass)
    requires
        is_grid(old(grid)@),
    ensures
        same_shape(old(grid)@, final(grid)@),
        forall|i: int, j: int|
            in_bounds(i, j, width_of(old(grid)@), height_of(old(grid)@)) && terrain_ok(
                cell(old(grid)@, i, j).tiletype,
            ) ==> class_kept(cell(old(grid)@, i, j), #[trigger] cell(final(grid)@, i, j)),
        forall|i: int, j: int|
            in_bounds(i, j, width_of(old(grid)@), height_of(old(grid)@)) ==> #[trigger] cell(final(grid)@, i, j)
                == cell(old(grid)@, i, j) || cell_rel(p, cell(old(grid)@, i, j), cell(final(grid)@, i, j)),
{
    let w = grid.len();
    let h: usize = if w > 0 { grid[0].len() } else { 0 };
    let mask = Dungeon::generate_grid(w, h, 1u8);
    apply_pass(grid, &mask, p);
}

impl Dungeon {
    /// The grid has the level's size and every tile keeps its scents in order.
    pub open spec fn wf(&self) -> bool {
        &&& grid_wf(self.grid@, self.width as int, self.height as int)
        &&& forall|i: int, j: int|
            in_bounds(i, j, self.width as int, self.height as int) ==> (#[trigger] cell(self.grid@, i, j)).wf()
    }

    /// A `w` by `h` grid with every cell set to `init`.
    pub fn generate_grid<T: Copy>(w: usize, h: usize, init: T) -> (r: Grid<T>)
        ensures
            grid_wf(r@, w as int, h as int),
            forall|i: int, j: int| in_bounds(i, j, w as int, h as int) ==> #[trigger] cell(r@, i, j) == init,
    {
        let mut grid: Grid<T> = Vec::new();
        let mut x: usize = 0;
        while x < w
            invariant
                x <= w,
                grid_wf(grid@, x as int, h as int),
                forall|i: int, j: int| in_bounds(i, j, x as int, h as int) ==> #[trigger] cell(grid@, i, j) == init,
            decreases w - x,
        {
            let mut column: Vec<T> = Vec::new();
            let mut y: usize = 0;
            while y < h
                invariant
                    y <= h,
                    column@.len() == y,
                    forall|j: int| 0 <= j < y ==> #[trigger] column@[j] == init,
                decreases h - y,
            {
                column.push(init);
                y = y + 1;
            }
            let ghost col = column@;
            let ghost before = grid@;
            grid.push(column);
            proof {
                assert forall|i: int, j: int| in_bounds(i, j, x + 1, h as int) implies #[trigger] cell(grid@, i, j)
                    == init by {
                    if i == x as int {
                        assert(grid@[i]@ == col);
                    } else {
                        assert(grid@[i] == before[i]);
                        assert(cell(before, i, j) == init);
                    }
                }
            }
            x = x + 1;
        }
        grid
    }

    /// Put `t` at `(x, y)`, keeping the background colour of the tile it replaces.
    fn add_tile(g: &mut Grid<Tile>, t: Tile, x: usize, y: usize)
        requires
            is_grid(old(g)@),
            in_bounds(x as int, y as int, width_of(old(g)@), height_of(old(g)@)),
        ensures
            same_shape(old(g)@, final(g)@),
            forall|i: int, j: int|
                in_bounds(i, j, width_of(old(g)@), height_of(old(g)@)) ==> #[trigger] cell(final(g)@, i, j) == if i
                    == x && j == y { with_bg(t, cell(old(g)@, i, j).bg) } else { cell(old(g)@, i, j) },
    {
        assert(g@[x as int]@.len() == height_of(g@));
        let bg = g[x][y].bg;
        let mut t = t;
        t.bg = bg;
        set_cell(g, x, y, t);
    }
}

} // verus!

verus! {

/// Place `t` on a spawnable interior cell, keeping that cell's background colour.
fn place(grid: &mut Grid<Tile>, t: Tile) -> (r: Result<(usize, usize), GenerationError>)
    requires
        is_grid(old(grid)@),
    ensures
        same_shape(old(grid)@, final(grid)@),
        r is Ok ==> ({
            let p = r->Ok_0;
            &&& interior(p.0 as int, p.1 as int, width_of(old(grid)@), height_of(old(grid)@))
            &&& is_spawnable(cell(old(grid)@, p.0 as int, p.1 as int).tiletype)
            &&& forall|i: int, j: int|
                in_bounds(i, j, width_of(old(grid)@), height_of(old(grid)@)) ==> #[trigger] cell(final(grid)@, i, j)
                    == if i == p.0 && j == p.1 { with_bg(t, cell(old(grid)@, i, j).bg) } else { cell(old(grid)@, i, j) }
        }),
        r is Err ==> final(grid)@ == old(grid)@ && forall|x: int, y: int|
            interior(x, y, width_of(old(grid)@), height_of(old(grid)@)) ==> !is_spawnable(
                #[trigger] cell(old(grid)@, x, y).tiletype,
            ),
{
    match find_spawnable(grid) {
        Some(p) => {
            Dungeon::add_tile(grid, t, p.0, p.1);
            Ok(p)
        },
        None => Err(GenerationError::NoValidPlacement),
    }
}

fn down_stair() -> (r: Tile)
    ensures
        r.wf(),
        is_down(r.tiletype),
{
    Tile::new("Down Stair", '>', RGB(255, 255, 255), RGB(0, 0, 0), Type::Stair(Stair::DownStair(DownStair::Normal)))
}

fn up_stair() -> (r: Tile)
    ensures
        r.wf(),
        is_up(r.tiletype),
{
    Tile::new("Up Stair", '<', RGB(255, 255, 255), RGB(0, 0, 0), Type::Stair(Stair::UpStair(UpStair::Normal)))
}

fn features() -> (r: [Tile; 6])
    ensures
        forall|q: int| 0 <= q < 6 ==> (#[trigger] r@[q]).wf() && r@[q].tiletype == feature_types()[q],
{
    let r = [
        down_stair(),
        up_stair(),
        Tile::new("Memory Loss Trap", '^', RGB(255, 255, 0), RGB(0, 0, 0), Type::Trap(Trap::MemoryLoss)),
        Tile::new("Shaft", '^', RGB(200, 50, 20), RGB(0, 0, 0), Type::Trap(Trap::Shaft)),
        Tile::new("Paint bomb", '^', RGB(50, 200, 20), RGB(0, 0, 0), Type::Trap(Trap::PaintBomb)),
        Tile::new("Teleport Trap", '^', RGB(50, 127, 200), RGB(0, 0, 0), Type::Trap(Trap::Teleport)),
    ];
    r
}

/// The terrain of the features a level receives, in placement order: the
/// down stair, the up stair, then the four traps.
pub open spec fn feature_types() -> Seq<Type> {
    seq![
        Type::Stair(Stair::DownStair(DownStair::Normal)),
        Type::Stair(Stair::UpStair(UpStair::Normal)),
        Type::Trap(Trap::MemoryLoss),
        Type::Trap(Trap::Shaft),
        Type::Trap(Trap::PaintBomb),
        Type::Trap(Trap::Teleport),
    ]
}

/// A stair or a trap.
pub open spec fn is_feature(t: Type) -> bool {
    t is Stair || t is Trap
}

/// Exactly one cell of the `w` by `h` grid `g` has terrain `t`.
pub open spec fn exactly_one(g: Seq<Vec<Tile>>, w: int, h: int, t: Type) -> bool {
    exists|x: int, y: int|
        #![trigger cell(g, x, y)]
        in_bounds(x, y, w, h) && cell(g, x, y).tiletype == t && forall|i: int, j: int|
            in_bounds(i, j, w, h) && #[trigger] cell(g, i, j).tiletype == t ==> i == x && j == y
}

/// `g` is `g0` with the six features placed: each feature stands on exactly
/// one cell, which lies off the border and was spawnable in `g0`, on that
/// cell's background; every other cell is as in `g0`.
pub open spec fn features_placed(g0: Seq<Vec<Tile>>, g: Seq<Vec<Tile>>) -> bool {
    let w = width_of(g0);
    let h = height_of(g0);
    &&& forall|q: int| 0 <= q < 6 ==> #[trigger] exactly_one(g, w, h, feature_types()[q])
    &&& forall|i: int, j: int|
        in_bounds(i, j, w, h) ==> #[trigger] cell(g, i, j) == cell(g0, i, j) || ({
            &&& interior(i, j, w, h)
            &&& is_spawnable(cell(g0, i, j).tiletype)
            &&& is_feature(cell(g, i, j).tiletype)
            &&& cell(g, i, j).bg == cell(g0, i, j).bg
            &&& cell(g, i, j).wf()
        })
}

/// Place the down stair, the up stair and the four traps, in that order, each
/// on a spawnable interior cell of a grid that has no stair or trap yet. Fails
/// exactly when the grid has fewer than six spawnable interior cells.
pub fn place_features(grid: &mut Grid<Tile>) -> (r: Result<(), GenerationError>)
    requires
        is_grid(old(grid)@),
        forall|i: int, j: int|
            in_bounds(i, j, width_of(old(grid)@), height_of(old(grid)@)) ==> !is_feature(
                #[trigger] cell(old(grid)@, i, j).tiletype,
            ),
    ensures
        same_shape(old(grid)@, final(grid)@),
        r is Err <==> spawn_count(old(grid)@) < 6,
        r is Ok ==> features_placed(old(grid)@, final(grid)@),
        r is Ok ==> same_opens(old(grid)@, final(grid)@),
{
    let ghost g0 = grid@;
    let ghost w = width_of(g0);
    let ghost h = height_of(g0);
    let ts = features();
    let ghost mut ps: Seq<(int, int)> = Seq::empty();
    let mut q: usize = 0;
    while q < 6
        invariant
            g0 == old(grid)@,
            w == width_of(g0) && h == height_of(g0),
            forall|i: int, j: int| in_bounds(i, j, w, h) ==> !is_feature(#[trigger] cell(g0, i, j).tiletype),
            forall|a: int| 0 <= a < 6 ==> (#[trigger] ts@[a]).wf() && ts@[a].tiletype == feature_types()[a],
            is_grid(g0),
            same_shape(g0, grid@),
            q <= 6,
            ps.len() == q,
            forall|a: int|
                0 <= a < q ==> interior((#[trigger] ps[a]).0, ps[a].1, w, h) && is_spawnable(
                    cell(g0, ps[a].0, ps[a].1).tiletype,
                ) && cell(grid@, ps[a].0, ps[a].1) == with_bg(ts@[a], cell(g0, ps[a].0, ps[a].1).bg),
            forall|a: int, b: int| 0 <= a < b < q ==> #[trigger] ps[a] != #[trigger] ps[b],
            forall|i: int, j: int|
                in_bounds(i, j, w, h) && !ps.contains((i, j)) ==> #[trigger] cell(grid@, i, j) == cell(g0, i, j),
            spawn_count(g0) == spawn_count(grid@) + q,
            same_opens(g0, grid@),
        decreases 6 - q,
    {
        let ghost g1 = grid@;
        match place(grid, ts[q]) {
            Ok(p) => {
                proof {
                    let pi = (p.0 as int, p.1 as int);
                    assert(!ps.contains(pi)) by {
                        if ps.contains(pi) {
                            let a = choose|a: int| 0 <= a < ps.len() && ps[a] == pi;
                            assert(is_feature(feature_types()[a]));
                        }
                    }
                    assert(cell(g1, pi.0, pi.1) == cell(g0, pi.0, pi.1));
                    let np = ps.push(pi);
                    assert forall|a: int|
                        0 <= a < q + 1 implies interior((#[trigger] np[a]).0, np[a].1, w, h) && is_spawnable(
                            cell(g0, np[a].0, np[a].1).tiletype,
                        ) && cell(grid@, np[a].0, np[a].1) == with_bg(ts@[a], cell(g0, np[a].0, np[a].1).bg) by {
                        if a < q {
                            assert(np[a] == ps[a]);
                            assert(ps[a] != pi) by {
                                assert(ps.contains(ps[a]));
                            }
                        }
                    }
                    assert forall|a: int, b: int| 0 <= a < b < q + 1 implies #[trigger] np[a] != #[trigger] np[b] by {
                        if b == q {
                            assert(np[a] == ps[a]);
                            assert(ps.contains(ps[a]));
                        } else {
                            assert(np[a] == ps[a] && np[b] == ps[b]);
                        }
                    }
                    assert forall|i: int, j: int|
                        in_bounds(i, j, w, h) && !np.contains((i, j)) implies #[trigger] cell(grid@, i, j) == cell(g0, i, j) by {
                        assert((i, j) != pi) by {
                            assert(np[q as int] == pi);
                        }
                        if ps.contains((i, j)) {
                            let a = choose|a: int| 0 <= a < ps.len() && ps[a] == (i, j);
                            assert(np[a] == (i, j));
                        }
                    }
                    assert forall|i: int, j: int|
                        1 <= i < w - 1 && 1 <= j < h - 1 && (i, j) != pi implies is_spawnable(
                            #[trigger] cell(g1, i, j).tiletype,
                        ) == is_spawnable(cell(grid@, i, j).tiletype) by {}
                    assert(is_feature(ts@[q as int].tiletype));
                    lemma_count_less_one(g1, grid@, pi);
                    assert forall|a: (int, int)| #[trigger] open_at(g0, a) == open_at(grid@, a) by {
                        assert(open_at(g0, a) == open_at(g1, a));
                        lemma_open_at_cell(g1, a);
                        lemma_open_at_cell(grid@, a);
                    }
                    ps = np;
                }
            },
            Err(e) => {
                proof {
                    assert(grid@ == g1);
                    assert forall|i: int, j: int|
                        1 <= i < width_of(g1) - 1 && 1 <= j < height_of(g1) - 1 implies !is_spawnable(
                            #[trigger] cell(g1, i, j).tiletype,
                        ) by {
                        assert(interior(i, j, width_of(g1), height_of(g1)));
                    }
                    lemma_count_zero(g1);
                }
                return Err(e);
            },
        }
        q = q + 1;
    }
    proof {
        let g = grid@;
        assert forall|a: int| 0 <= a < 6 implies #[trigger] exactly_one(g, w, h, feature_types()[a]) by {
            let t = feature_types()[a];
            let pa = ps[a];
            assert(cell(g, pa.0, pa.1).tiletype == t);
            assert forall|i: int, j: int| in_bounds(i, j, w, h) && #[trigger] cell(g, i, j).tiletype == t implies i
                == pa.0 && j == pa.1 by {
                if ps.contains((i, j)) {
                    let b = choose|b: int| 0 <= b < ps.len() && ps[b] == (i, j);
                    assert(feature_types()[b] == t);
                    if b != a {
                        assert(feature_types()[b] != feature_types()[a]);
                    }
                } else {
                    assert(cell(g, i, j) == cell(g0, i, j));
                    assert(is_feature(t));
                }
            }
        }
        assert forall|i: int, j: int| in_bounds(i, j, w, h) implies #[trigger] cell(g, i, j) == cell(g0, i, j) || ({
            &&& interior(i, j, w, h)
            &&& is_spawnable(cell(g0, i, j).tiletype)
            &&& is_feature(cell(g, i, j).tiletype)
            &&& cell(g, i, j).bg == cell(g0, i, j).bg
            &&& cell(g, i, j).wf()
        }) by {
            if ps.contains((i, j)) {
                let b = choose|b: int| 0 <= b < ps.len() && ps[b] == (i, j);
                assert(ts@[b].wf());
            }
        }
    }
    Ok(())
}

impl Dungeon {
    /// Generate the level: walls, then rooms and corridors, three drunkard's
    /// walks from the first room's centre (or the grid's centre), openings
    /// through thin walls, the biome,
    /// water, crystal, grass and vine masks in that order, hardened walls and
    /// floor features, then a down stair, an up stair and four traps, each on a
    /// spawnable interior cell (see `place_features`). Fails on a grid under 3
    /// by 3, and otherwise only when the painted grid has fewer than six
    /// spawnable interior cells. A generated level has the requested size;
    /// each stair and trap stands on exactly one interior cell; every other
    /// cell is a wall, floor, water, tall grass or vine, with the glyphs and
    /// colours its pass gave it; and every walkable cell can reach every other.
    pub fn build(self) -> (r: Result<Dungeon, GenerationError>)
        ensures
            (self.width < 3 || self.height < 3) ==> r is Err,
            r is Ok ==> ({
                let d = r->Ok_0;
                &&& d.wf()
                &&& d.width == self.width && d.height == self.height
                &&& forall|q: int|
                    0 <= q < 6 ==> #[trigger] exactly_one(d.grid@, d.width as int, d.height as int, feature_types()[q])
                &&& connected(d.grid@)
                &&& forall|i: int, j: int|
                    in_bounds(i, j, d.width as int, d.height as int) ==> ({
                        let t = #[trigger] cell(d.grid@, i, j);
                        &&& terrain_ok(t.tiletype) || is_feature(t.tiletype)
                        &&& is_feature(t.tiletype) ==> interior(i, j, d.width as int, d.height as int)
                        &&& decor_ok(t)
                    })
            }),
            r is Err ==> self.width < 3 || self.height < 3 || exists|g: Seq<Vec<Tile>>|
                stage_ok(g, self.width as int, self.height as int) && spawn_count(g) < 6,
    {
        let w = self.width;
        let h = self.height;
        if w < 3 || h < 3 {
            return Err(GenerationError::NoValidPlacement);
        }
        let wall = wall_tile();
        let floor = floor_tile();
        let mut grid = Dungeon::generate_grid(w, h, wall);
        let ghost g0 = grid@;
        proof {
            assert(g0[0]@.len() == h);
            assert forall|a: (int, int)| !#[trigger] open_at(g0, a) by {
                lemma_open_at_cell(g0, a);
                if in_bounds(a.0, a.1, w as int, h as int) {
                    assert(cell(g0, a.0, a.1) == wall);
                }
            }
        }
        let rooms = Simple::new(ROOM_ATTEMPTS).apply(&mut grid, floor);
        let hub: (usize, usize) = if rooms.len() > 0 {
            rooms[0].center()
        } else {
            (w / 2, h / 2)
        };
        let ghost hubi = (hub.0 as int, hub.1 as int);
        proof {
            assert forall|i: int, j: int| in_bounds(i, j, w as int, h as int) implies terrain_ok(
                (#[trigger] cell(grid@, i, j)).tiletype,
            ) && cell(grid@, i, j).wf() && (cell(grid@, i, j).tiletype == Type::Wall(Wall::Normal) || cell(
                grid@,
                i,
                j,
            ).tiletype is Floor) by {
                assert(cell(g0, i, j) == wall);
            }
            assert(plain(grid@, w as int, h as int));
            if rooms@.len() > 0 {
                assert(hubi == rect_center(rooms@[0]));
            }
            assert(stage_ok(grid@, w as int, h as int));
        }
        let ghost g1 = grid@;
        DrunkardsWalk::new(100).apply(&mut grid, None, floor, hub, 800);
        proof {
            lemma_eroded(g1, grid@, w as int, h as int, floor);
            lemma_open_at_cell(grid@, hubi);
        }
        let ghost g2 = grid@;
        DrunkardsWalk::new(50).apply(&mut grid, None, floor, hub, 1000);
        proof {
            lemma_eroded(g2, grid@, w as int, h as int, floor);
            lemma_open_at_cell(grid@, hubi);
        }
        let ghost g3 = grid@;
        DrunkardsWalk::new(25).apply(&mut grid, None, floor, hub, 1000);
        proof {
            lemma_eroded(g3, grid@, w as int, h as int, floor);
            lemma_open_at_cell(grid@, hubi);
        }
        let ghost g3s = grid@;
        Structure::new().apply(&mut grid, floor, hub);
        proof {
            lemma_eroded(g3s, grid@, w as int, h as int, floor);
        }
        let ghost gs = grid@;
        proof {
            assert forall|i: int, j: int| in_bounds(i, j, w as int, h as int) implies decor_ok(
                #[trigger] cell(gs, i, j),
            ) && !(cell(gs, i, j).tiletype is Vine) by {
                assert(plain(gs, w as int, h as int));
            }
            assert(decor_all(gs, w as int, h as int) && no_vines(gs, w as int, h as int));
        }
        let ghost q0 = grid@;
        noise_pass(&mut grid, 600, Pass::Cave);
        proof {
            lemma_stage_step(q0, grid@, w as int, h as int, hubi, Pass::Cave);
        }
        let ghost q1 = grid@;
        noise_pass(&mut grid, 600, Pass::Crypt);
        proof {
            lemma_stage_step(q1, grid@, w as int, h as int, hubi, Pass::Crypt);
        }
        let ghost q2 = grid@;
        noise_pass(&mut grid, 700, Pass::Sunken);
        proof {
            lemma_stage_step(q2, grid@, w as int, h as int, hubi, Pass::Sunken);
        }
        let ghost q3 = grid@;
        noise_pass(&mut grid, 700, Pass::Water);
        proof {
            lemma_stage_step(q3, grid@, w as int, h as int, hubi, Pass::Water);
        }
        let ghost q4 = grid@;
        noise_pass(&mut grid, 835, Pass::Crystal);
        proof {
            lemma_stage_step(q4, grid@, w as int, h as int, hubi, Pass::Crystal);
        }
        let ghost q5 = grid@;
        noise_pass(&mut grid, 750, Pass::Grass);
        proof {
            lemma_stage_step(q5, grid@, w as int, h as int, hubi, Pass::Grass);
        }
        let ghost q6 = grid@;
        noise_pass(&mut grid, 775, Pass::Vines);
        proof {
            lemma_stage_step(q6, grid@, w as int, h as int, hubi, Pass::Vines);
        }
        let ghost q7 = grid@;
        full_pass(&mut grid, Pass::HardWalls);
        proof {
            lemma_stage_step(q7, grid@, w as int, h as int, hubi, Pass::HardWalls);
        }
        let ghost q8 = grid@;
        full_pass(&mut grid, Pass::Features);
        proof {
            lemma_stage_step(q8, grid@, w as int, h as int, hubi, Pass::Features);
        }
        let ghost gp = grid@;
        proof {
            assert forall|i: int, j: int| in_bounds(i, j, width_of(gp), height_of(gp)) implies !is_feature(
                #[trigger] cell(gp, i, j).tiletype,
            ) by {
                assert(terrain_ok(cell(gp, i, j).tiletype));
            }
        }
        match place_features(&mut grid) {
            Ok(()) => {},
            Err(e) => {
                proof {
                    assert(stage_ok(gp, w as int, h as int) && spawn_count(gp) < 6);
                }
                return Err(e);
            },
        }
        proof {
            let g = grid@;
            lemma_all_reach_same(gp, g, hubi);
            lemma_open_at_cell(gp, hubi);
            assert(open_at(g, hubi));
            lemma_hub_connected(g, hubi);
            assert forall|i: int, j: int| in_bounds(i, j, w as int, h as int) implies ({
                let t = #[trigger] cell(g, i, j);
                &&& t.wf()
                &&& terrain_ok(t.tiletype) || is_feature(t.tiletype)
                &&& is_feature(t.tiletype) ==> interior(i, j, w as int, h as int)
                &&& decor_ok(t)
            }) by {
                assert(cell(gp, i, j).wf() && terrain_ok(cell(gp, i, j).tiletype) && decor_ok(cell(gp, i, j)));
            }
        }
        Ok(Dungeon { width: w, height: h, grid })
    }
}

/// A walk that erodes into walkable, sound floor keeps a generated grid sound.
proof fn lemma_eroded(g1: Seq<Vec<Tile>>, g2: Seq<Vec<Tile>>, w: int, h: int, floor: Tile)
    requires
        stage_ok(g1, w, h),
        same_shape(g1, g2),
        only_eroded(g1, g2, floor),
        floor.wf(),
        floor.tiletype is Floor,
    ensures
        stage_ok(g2, w, h),
        plain(g1, w, h) ==> plain(g2, w, h),
{
    assert forall|i: int, j: int| in_bounds(i, j, w, h) implies terrain_ok((#[trigger] cell(g2, i, j)).tiletype)
        && cell(g2, i, j).wf() && (plain(g1, w, h) ==> (cell(g2, i, j).tiletype == Type::Wall(Wall::Normal) || cell(
        g2,
        i,
        j,
    ).tiletype is Floor)) by {
        assert(cell(g1, i, j).wf());
        assert(cell(g2, i, j) == cell(g1, i, j) || cell(g2, i, j) == with_bg(floor, cell(g1, i, j).bg));
    }
}

} // verus!

verus! {

/// `(p.x, p.y)` is a cell of a `w` by `h` grid.
pub open spec fn pos_in(p: Pos, w: int, h: int) -> bool {
    0 <= p.x < w && 0 <= p.y < h
}

impl Dungeon {
    /// An empty level of the given size, not yet generated.
    pub fn new(map_dim: Pos) -> (r: Dungeon)
        requires
            map_dim.x >= 0,
            map_dim.y >= 0,
        ensures
            r.width == map_dim.x,
            r.height == map_dim.y,
            r.grid@.len() == 0,
    {
        Dungeon { width: map_dim.x as usize, height: map_dim.y as usize, grid: Vec::new() }
    }

    /// Number of columns of the grid.
    pub fn width(&self) -> (r: usize)
        ensures
            r == self.grid@.len(),
    {
        self.grid.len()
    }

    /// Number of rows of the grid.
    pub fn height(&self) -> (r: usize)
        requires
            self.grid@.len() > 0,
        ensures
            r == self.grid@[0]@.len(),
    {
        self.grid[0].len()
    }

    /// The level's size as a point.
    pub fn get_bounds_pos(&self) -> (r: Pos)
        requires
            self.width <= isize::MAX,
            self.height <= isize::MAX,
        ensures
            r.x == self.width && r.y == self.height,
    {
        Pos::from_usize(self.width, self.height)
    }

    /// Whether `(x, y)` is a cell of the level.
    pub fn is_valid(&self, x: usize, y: usize) -> (r: bool)
        ensures
            r == (x < self.width && y < self.height),
    {
        x < self.width && y < self.height
    }

    /// A spawnable interior cell of `grid`, for placing an actor or item; fails
    /// exactly when there is none.
    pub fn get_valid_location(grid: &Grid<Tile>) -> (r: Result<Pos, GenerationError>)
        requires
            is_grid(grid@),
            width_of(grid@) <= isize::MAX,
            height_of(grid@) <= isize::MAX,
        ensures
            r is Ok ==> interior(r->Ok_0.x as int, r->Ok_0.y as int, width_of(grid@), height_of(grid@))
                && is_spawnable(cell(grid@, r->Ok_0.x as int, r->Ok_0.y as int).tiletype),
            r is Err <==> forall|x: int, y: int|
                interior(x, y, width_of(grid@), height_of(grid@)) ==> !is_spawnable(
                    #[trigger] cell(grid@, x, y).tiletype,
                ),
    {
        match find_spawnable(grid) {
            Some(p) => Ok(Pos::from_usize(p.0, p.1)),
            None => Err(GenerationError::NoValidPlacement),
        }
    }

    fn at(&self, x: usize, y: usize) -> (r: Tile)
        requires
            self.wf(),
            in_bounds(x as int, y as int, self.width as int, self.height as int),
        ensures
            r == cell(self.grid@, x as int, y as int),
    {
        assert(self.grid@[x as int]@.len() == self.height);
        self.grid[x][y]
    }

    fn replace(&mut self, x: usize, y: usize, t: Tile)
        requires
            old(self).wf(),
            in_bounds(x as int, y as int, old(self).width as int, old(self).height as int),
            t.wf(),
        ensures
            final(self).wf(),
            final(self).width == old(self).width && final(self).height == old(self).height,
            forall|i: int, j: int|
                in_bounds(i, j, old(self).width as int, old(self).height as int) ==> #[trigger] cell(
                    final(self).grid@,
                    i,
                    j,
                ) == if i == x && j == y { t } else { cell(old(self).grid@, i, j) },
    {
        proof {
            assert(self.grid@[0]@.len() == self.height);
        }
        set_cell(&mut self.grid, x, y, t);
        proof {
            assert forall|i: int, j: int|
                in_bounds(i, j, self.width as int, self.height as int) implies (#[trigger] cell(self.grid@, i, j)).wf() by {
                if i != x || j != y {
                    assert(cell(old(self).grid@, i, j).wf());
                }
            }
        }
    }

    /// The tile at `pos`.
    pub fn tile(&self, pos: Pos) -> (r: Tile)
        requires
            self.wf(),
            pos_in(pos, self.width as int, self.height as int),
        ensures
            r == cell(self.grid@, pos.x as int, pos.y as int),
    {
        self.at(pos.x as usize, pos.y as usize)
    }

    /// Replace the tile at `pos`.
    pub fn set_tile(&mut self, pos: Pos, t: Tile)
        requires
            old(self).wf(),
            pos_in(pos, old(self).width as int, old(self).height as int),
            t.wf(),
        ensures
            final(self).wf(),
            final(self).width == old(self).width && final(self).height == old(self).height,
            forall|i: int, j: int|
                in_bounds(i, j, old(self).width as int, old(self).height as int) ==> #[trigger] cell(
                    final(self).grid@,
                    i,
                    j,
                ) == if i == pos.x && j == pos.y { t } else { cell(old(self).grid@, i, j) },
    {
        self.replace(pos.x as usize, pos.y as usize, t);
    }

    /// Intensity of scent `s` at `pos`.
    pub fn scent(&self, pos: Pos, s: Scent) -> (r: u8)
        requires
            self.wf(),
            pos_in(pos, self.width as int, self.height as int),
        ensures
            r == cell(self.grid@, pos.x as int, pos.y as int).scent_of(s),
    {
        self.tile(pos).scent(s)
    }

    /// Strengthen scent `s` at `pos` by `amount`, stopping at 255; every other
    /// scent and cell is kept.
    pub fn increment_scent(&mut self, pos: Pos, s: Scent, amount: u8)
        requires
            old(self).wf(),
            pos_in(pos, old(self).width as int, old(self).height as int),
        ensures
            final(self).wf(),
            final(self).width == old(self).width && final(self).height == old(self).height,
            cell(final(self).grid@, pos.x as int, pos.y as int).scent_of(s) == scent_add(
                cell(old(self).grid@, pos.x as int, pos.y as int).scent_of(s),
                amount,
            ),
            cell(final(self).grid@, pos.x as int, pos.y as int).scents@ == cell(
                old(self).grid@,
                pos.x as int,
                pos.y as int,
            ).scents@.update(
                scent_index(s),
                _Scent {
                    val: scent_add(cell(old(self).grid@, pos.x as int, pos.y as int).scent_of(s), amount),
                    ..cell(old(self).grid@, pos.x as int, pos.y as int).scents@[scent_index(s)]
                },
            ),
            cell(final(self).grid@, pos.x as int, pos.y as int) == (Tile {
                scents: cell(final(self).grid@, pos.x as int, pos.y as int).scents,
                ..cell(old(self).grid@, pos.x as int, pos.y as int)
            }),
            cell(old(self).grid@, pos.x as int, pos.y as int).scent_of(s) == 255 ==> cell(
                final(self).grid@,
                pos.x as int,
                pos.y as int,
            ).scent_of(s) == 255,
            forall|t: Scent|
                t != s ==> #[trigger] cell(final(self).grid@, pos.x as int, pos.y as int).scent_of(t) == cell(
                    old(self).grid@,
                    pos.x as int,
                    pos.y as int,
                ).scent_of(t),
            forall|i: int, j: int|
                in_bounds(i, j, old(self).width as int, old(self).height as int) && (i != pos.x || j != pos.y)
                    ==> #[trigger] cell(final(self).grid@, i, j) == cell(old(self).grid@, i, j),
    {
        let mut t = self.tile(pos);
        t.increment_scent(s, amount);
        proof {
            assert forall|u: Scent| u != s implies #[trigger] t.scent_of(u) == cell(
                old(self).grid@,
                pos.x as int,
                pos.y as int,
            ).scent_of(u) by {
                assert(scent_index(u) != scent_index(s));
            }
        }
        self.set_tile(pos, t);
    }

    /// Fade every scent of every cell by one tick.
    pub fn decay_scents(&mut self)
        requires
            old(self).wf(),
        ensures
            final(self).wf(),
            final(self).width == old(self).width && final(self).height == old(self).height,
            forall|i: int, j: int|
                in_bounds(i, j, old(self).width as int, old(self).height as int) ==> faded(
                    cell(old(self).grid@, i, j),
                    #[trigger] cell(final(self).grid@, i, j),
                ),
    {
        let ghost d0 = *self;
        let w = self.width;
        let h = self.height;
        let mut x: usize = 0;
        while x < w
            invariant
                x <= w,
                w == self.width && h == self.height,
                w == d0.width && h == d0.height,
                self.wf(),
                forall|i: int, j: int|
                    in_bounds(i, j, w as int, h as int) ==> if i < x {
                        faded(cell(d0.grid@, i, j), #[trigger] cell(self.grid@, i, j))
                    } else {
                        cell(self.grid@, i, j) == cell(d0.grid@, i, j)
                    },
            decreases w - x,
        {
            let mut y: usize = 0;
            while y < h
                invariant
                    x < w,
                    y <= h,
                    w == self.width && h == self.height,
                    w == d0.width && h == d0.height,
                    self.wf(),
                    forall|i: int, j: int|
                        in_bounds(i, j, w as int, h as int) ==> if i < x || (i == x && j < y) {
                            faded(cell(d0.grid@, i, j), #[trigger] cell(self.grid@, i, j))
                        } else {
                            cell(self.grid@, i, j) == cell(d0.grid@, i, j)
                        },
                decreases h - y,
            {
                let ghost before = self.grid@;
                assert(cell(before, x as int, y as int) == cell(d0.grid@, x as int, y as int));
                let mut t = self.at(x, y);
                proof {
                    assert(t.wf());
                }
                t.decay();
                self.replace(x, y, t);
                proof {
                    assert forall|i: int, j: int| in_bounds(i, j, w as int, h as int) implies if i < x || (i == x && j
                        < y + 1) {
                        faded(cell(d0.grid@, i, j), #[trigger] cell(self.grid@, i, j))
                    } else {
                        cell(self.grid@, i, j) == cell(d0.grid@, i, j)
                    } by {
                        if i != x || j != y {
                            assert(cell(self.grid@, i, j) == cell(before, i, j));
                        }
                    }
                }
                y = y + 1;
            }
            x = x + 1;
        }
    }

    /// Leave the player's scent on the walkable cells of the 3 by 3 block
    /// centred on `player` that lie on the level, each strengthened by `amount`.
    pub fn reinforce_player_scent(&mut self, player: Pos, amount: u8)
        requires
            old(self).wf(),
            old(self).width <= isize::MAX,
            old(self).height <= isize::MAX,
            isize::MIN < player.x < isize::MAX,
            isize::MIN < player.y < isize::MAX,
        ensures
            final(self).wf(),
            final(self).width == old(self).width && final(self).height == old(self).height,
            forall|i: int, j: int|
                in_bounds(i, j, old(self).width as int, old(self).height as int) ==> {
                    let t0 = cell(old(self).grid@, i, j);
                    let t1 = #[trigger] cell(final(self).grid@, i, j);
                    if player.x - 1 <= i <= player.x + 1 && player.y - 1 <= j <= player.y + 1 && is_walkable(
                        t0.tiletype,
                    ) {
                        reinforced(t0, t1, amount)
                    } else {
                        t1 == t0
                    }
                },
    {
        let ghost d0 = *self;
        let mut dx: isize = -1;
        while dx <= 1
            invariant
                -1 <= dx <= 2,
                self.wf(),
                self.width == d0.width && self.height == d0.height,
                d0.width <= isize::MAX && d0.height <= isize::MAX,
                isize::MIN < player.x < isize::MAX,
                isize::MIN < player.y < isize::MAX,
                forall|i: int, j: int|
                    in_bounds(i, j, d0.width as int, d0.height as int) ==> {
                        let t0 = cell(d0.grid@, i, j);
                        let t1 = #[trigger] cell(self.grid@, i, j);
                        if player.x - 1 <= i < player.x + dx && player.y - 1 <= j <= player.y + 1 && is_walkable(
                            t0.tiletype,
                        ) {
                            reinforced(t0, t1, amount)
                        } else {
                            t1 == t0
                        }
                    },
            decreases 2 - dx,
        {
            let mut dy: isize = -1;
            while dy <= 1
                invariant
                    -1 <= dx <= 1,
                    -1 <= dy <= 2,
                    self.wf(),
                    self.width == d0.width && self.height == d0.height,
                    d0.width <= isize::MAX && d0.height <= isize::MAX,
                    isize::MIN < player.x < isize::MAX,
                    isize::MIN < player.y < isize::MAX,
                    forall|i: int, j: int|
                        in_bounds(i, j, d0.width as int, d0.height as int) ==> {
                            let t0 = cell(d0.grid@, i, j);
                            let t1 = #[trigger] cell(self.grid@, i, j);
                            if ((player.x - 1 <= i < player.x + dx && player.y - 1 <= j <= player.y + 1) || (i
                                == player.x + dx && player.y - 1 <= j < player.y + dy)) && is_walkable(
                                t0.tiletype,
                            ) {
                                reinforced(t0, t1, amount)
                            } else {
                                t1 == t0
                            }
                        },
                decreases 2 - dy,
            {
                let x = player.x + dx;
                let y = player.y + dy;
                if x >= 0 && y >= 0 && (x as usize) < self.width && (y as usize) < self.height {
                    let p = Pos::new(x, y);
                    let ghost before = self.grid@;
                    assert(cell(before, x as int, y as int) == cell(d0.grid@, x as int, y as int));
                    let t = self.tile(p);
                    if crate::tile::walkable(&t) {
                        self.increment_scent(p, Scent::Player, amount);
                    }
                    proof {
                        assert forall|i: int, j: int| in_bounds(i, j, d0.width as int, d0.height as int) && (i != x
                            || j != y) implies #[trigger] cell(self.grid@, i, j) == cell(before, i, j) by {}
                        if is_walkable(t.tiletype) {
                            assert(scent_index(Scent::Player) == 0);
                            assert(reinforced(t, cell(self.grid@, x as int, y as int), amount));
                        } else {
                            assert(self.grid@ == before);
                        }
                    }
                }
                dy = dy + 1;
            }
            dx = dx + 1;
        }
    }
}

} // verus!

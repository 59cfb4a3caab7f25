//! Biome painting and decoration: passes that rewrite the cells a mask selects.
use vstd::prelude::*;
use crate::builder::{height_of, is_grid, same_shape, set_cell, width_of};
use crate::color::RGB;
use crate::grid::{Grid, cell, grid_wf, in_bounds};
use crate::rng::{pick, random_range};
use crate::tile::{Biome, Floor, Tile, Type, Wall, is_walkable, SCENT_COUNT};

verus! {

/// Terrain that generation produces before stairs and traps are placed.
pub open spec fn terrain_ok(t: Type) -> bool {
    t is Wall || t is Floor || t is Water || t is TallGrass || t is Vine
}

/// `b` may replace `a` without changing what can be walked on.
pub open spec fn class_kept(a: Tile, b: Tile) -> bool {
    &&& is_walkable(a.tiletype) == is_walkable(b.tiletype)
    &&& terrain_ok(b.tiletype)
    &&& (a.wf() ==> b.wf())
}

/// `r` is a tile fresh from `Tile::new` with these glyph, colours and terrain.
pub open spec fn fresh(r: Tile, glyph: char, fg: RGB, bg: RGB, tt: Type) -> bool {
    &&& r.wf()
    &&& r.glyph == glyph && r.fg == fg && r.bg == bg && r.tiletype == tt
    &&& r.biome == Biome::Dungeon && r.sound == 0 && !r.seen
    &&& forall|i: int| 0 <= i < SCENT_COUNT ==> #[trigger] r.scents@[i].val == 0
}

pub open spec fn grass_palette() -> Seq<RGB> {
    seq![RGB(76, 74, 75), RGB(76, 79, 75), RGB(80, 74, 75)]
}

pub open spec fn vine_glyphs() -> Seq<char> {
    seq!['/', '|', '\\', '-', '~']
}

pub open spec fn feature_glyph(k: int) -> char {
    if k == 1 { ',' } else if k == 2 { '.' } else if k == 3 { '%' } else { '*' }
}

/// Foreground of a cave floor feature for a foliage roll, if the roll gives one.
pub open spec fn foliage(roll: int) -> Option<RGB> {
    if 1 <= roll <= 5 || 11 <= roll <= 20 {
        Some(RGB(76, 74, 45))
    } else if 6 <= roll <= 10 {
        Some(RGB(35, 30, 30))
    } else {
        None
    }
}

/// A cell retagged with biome `b`: walls take `wfg`/`wbg`, stairs and tall grass
/// take background `sbg`, anything else takes `ffg` on `sbg`.
pub open spec fn biome_painted(t: Tile, b: Biome, wfg: RGB, wbg: RGB, sbg: RGB, ffg: RGB) -> Tile {
    if t.tiletype is Wall {
        Tile { biome: b, fg: wfg, bg: wbg, ..t }
    } else if t.tiletype is Stair || t.tiletype is TallGrass {
        Tile { biome: b, bg: sbg, ..t }
    } else {
        Tile { biome: b, fg: ffg, bg: sbg, ..t }
    }
}

/// A cell flooded: anything but a wall or a stair becomes water on blue.
pub open spec fn watered(t: Tile) -> Tile {
    if t.tiletype is Wall || t.tiletype is Stair {
        t
    } else {
        Tile { bg: RGB(57, 144, 255), tiletype: Type::Water, ..t }
    }
}

/// A hardened wall.
pub open spec fn hardened(t: Tile) -> Tile {
    Tile { glyph: '#', tiletype: Type::Wall(Wall::Hard), ..t }
}

/// The passes that paint and decorate the map, in the order generation runs them.
#[derive(Clone, Copy, PartialEq, Eq, Structural, Debug)]
pub enum Pass {
    Cave,
    Crypt,
    Sunken,
    Water,
    Crystal,
    Grass,
    Vines,
    HardWalls,
    Features,
}

/// What pass `p` may make of a selected cell `t`: `r`.
pub open spec fn cell_rel(p: Pass, t: Tile, r: Tile) -> bool {
    match p {
        Pass::Cave => r == biome_painted(t, Biome::Cave, RGB(67, 57, 57), RGB(60, 50, 50), RGB(25, 20, 20), RGB(32, 27, 27)),
        Pass::Crypt => r == biome_painted(t, Biome::Crypt, RGB(57, 57, 57), RGB(50, 50, 50), RGB(20, 20, 20), RGB(27, 27, 27)),
        Pass::Sunken => r == biome_painted(t, Biome::Sunken, RGB(57, 57, 67), RGB(50, 50, 60), RGB(20, 20, 25), RGB(27, 27, 32)),
        Pass::Water => r == watered(t),
        Pass::Crystal => if t.tiletype is Floor {
            fresh(r, ' ', RGB(0, 0, 0), RGB(183, 141, 212), Type::Floor(Floor::Crystal))
        } else if t.tiletype is Wall {
            fresh(r, ' ', RGB(0, 0, 0), RGB(216, 197, 244), Type::Wall(Wall::Crystal))
        } else {
            r == t
        },
        Pass::Grass => if t.tiletype is Floor {
            grass_palette().contains(r.fg) && fresh(r, '"', r.fg, t.bg, Type::TallGrass)
        } else {
            r == t
        },
        Pass::Vines => if t.tiletype is Floor {
            vine_glyphs().contains(r.glyph) && grass_palette().contains(r.fg) && fresh(r, r.glyph, r.fg, t.bg, Type::Vine)
        } else {
            r == t
        },
        Pass::HardWalls => if t.tiletype == Type::Wall(Wall::Normal) {
            r == t || r == hardened(t)
        } else {
            r == t
        },
        Pass::Features => if t.tiletype == Type::Floor(Floor::Normal) {
            &&& r == (Tile { glyph: r.glyph, fg: r.fg, ..t })
            &&& (exists|k: int| 1 <= k <= 4 && r.glyph == feature_glyph(k)) || r.glyph == t.glyph
            &&& r.fg == t.fg || (t.biome == Biome::Cave && (r.fg == RGB(76, 74, 45) || r.fg == RGB(35, 30, 30)))
        } else {
            r == t
        },
    }
}

fn grass_colors() -> (r: [RGB; 3])
    ensures
        r@ == grass_palette(),
{
    let r = [RGB(76, 74, 75), RGB(76, 79, 75), RGB(80, 74, 75)];
    assert(r@ =~= grass_palette());
    r
}

fn vine_glyph_set() -> (r: [char; 5])
    ensures
        r@ == vine_glyphs(),
{
    let r = ['/', '|', '\\', '-', '~'];
    assert(r@ =~= vine_glyphs());
    r
}

/// Harden a normal wall when `roll`, drawn from `[1, 100)`, exceeds 70.
pub fn harden(t: Tile, roll: usize) -> (r: Tile)
    ensures
        r == if t.tiletype == Type::Wall(Wall::Normal) && roll > 70 { hardened(t) } else { t },
{
    if t.tiletype == Type::Wall(Wall::Normal) && roll > 70 {
        let mut r = t;
        r.glyph = '#';
        r.tiletype = Type::Wall(Wall::Hard);
        r
    } else {
        t
    }
}

/// Decorate a normal floor: when `chance`, drawn from `[1, 100)`, exceeds 90 it
/// takes the feature glyph of `kind` (1 to 4), and in a cave its foreground
/// follows `foliage_roll`.
pub fn decorate(t: Tile, chance: usize, kind: usize, foliage_roll: usize) -> (r: Tile)
    ensures
        r == if t.tiletype == Type::Floor(Floor::Normal) && chance > 90 {
            Tile {
                glyph: if 1 <= kind <= 4 { feature_glyph(kind as int) } else { t.glyph },
                fg: if t.biome == Biome::Cave && foliage(foliage_roll as int) is Some {
                    foliage(foliage_roll as int)->0
                } else {
                    t.fg
                },
                ..t
            }
        } else {
            t
        },
{
    if t.tiletype == Type::Floor(Floor::Normal) && chance > 90 {
        let mut r = t;
        if kind == 1 {
            r.glyph = ',';
        } else if kind == 2 {
            r.glyph = '.';
        } else if kind == 3 {
            r.glyph = '%';
        } else if kind == 4 {
            r.glyph = '*';
        }
        if t.biome == Biome::Cave {
            if (1 <= foliage_roll && foliage_roll <= 5) || (11 <= foliage_roll && foliage_roll <= 20) {
                r.fg = RGB(76, 74, 45);
            } else if 6 <= foliage_roll && foliage_roll <= 10 {
                r.fg = RGB(35, 30, 30);
            }
        }
        r
    } else {
        t
    }
}

/// Apply pass `p` to one selected cell.
pub fn paint_cell(t: Tile, p: Pass) -> (r: Tile)
    ensures
        cell_rel(p, t, r),
        terrain_ok(t.tiletype) ==> class_kept(t, r),
{
    match p {
        Pass::Cave | Pass::Crypt | Pass::Sunken => {
            let (b, wfg, wbg, sbg, ffg) = match p {
                Pass::Cave => (Biome::Cave, RGB(67, 57, 57), RGB(60, 50, 50), RGB(25, 20, 20), RGB(32, 27, 27)),
                Pass::Crypt => (Biome::Crypt, RGB(57, 57, 57), RGB(50, 50, 50), RGB(20, 20, 20), RGB(27, 27, 27)),
                _ => (Biome::Sunken, RGB(57, 57, 67), RGB(50, 50, 60), RGB(20, 20, 25), RGB(27, 27, 32)),
            };
            let mut r = t;
            r.biome = b;
            match t.tiletype {
                Type::Wall(_) => {
                    r.fg = wfg;
                    r.bg = wbg;
                },
                Type::Stair(_) | Type::TallGrass => {
                    r.bg = sbg;
                },
                _ => {
                    r.fg = ffg;
                    r.bg = sbg;
                },
            }
            r
        },
        Pass::Water => match t.tiletype {
            Type::Wall(_) | Type::Stair(_) => t,
            _ => {
                let mut r = t;
                r.bg = RGB(57, 144, 255);
                r.tiletype = Type::Water;
                r
            },
        },
        Pass::Crystal => match t.tiletype {
            Type::Floor(_) => Tile::new(
                "Crystaline Floor",
                ' ',
                RGB(0, 0, 0),
                RGB(183, 141, 212),
                Type::Floor(Floor::Crystal),
            ),
            Type::Wall(_) => Tile::new(
                "Crystaline Wall",
                ' ',
                RGB(0, 0, 0),
                RGB(216, 197, 244),
                Type::Wall(Wall::Crystal),
            ),
            _ => t,
        },
        Pass::Grass => match t.tiletype {
            Type::Floor(_) => {
                let colors = grass_colors();
                let fg = match pick(colors.as_slice()) {
                    Some(c) => c,
                    None => colors[0],
                };
                Tile::new("Tall Grass", '"', fg, t.bg, Type::TallGrass)
            },
            _ => t,
        },
        Pass::Vines => match t.tiletype {
            Type::Floor(_) => {
                let glyphs = vine_glyph_set();
                let colors = grass_colors();
                let glyph = match pick(glyphs.as_slice()) {
                    Some(g) => g,
                    None => glyphs[0],
                };
                let fg = match pick(colors.as_slice()) {
                    Some(c) => c,
                    None => colors[0],
                };
                Tile::new("Vine", glyph, fg, t.bg, Type::Vine)
            },
            _ => t,
        },
        Pass::HardWalls => {
            let roll = random_range(1, 100);
            harden(t, roll)
        },
        Pass::Features => {
            let chance = random_range(1, 100);
            let kind = random_range(1, 5);
            let foliage_roll = random_range(1, 100);
            let r = decorate(t, chance, kind, foliage_roll);
            proof {
                if t.tiletype == Type::Floor(Floor::Normal) && chance > 90 {
                    assert(r.glyph == feature_glyph(kind as int));
                }
            }
            r
        },
    }
}

/// Apply pass `p` to every cell whose mask value is 1; other cells are kept.
pub fn apply_pass(grid: &mut Grid<Tile>, mask: &Grid<u8>, p: Pass)
    requires
        is_grid(old(grid)@),
        grid_wf(mask@, width_of(old(grid)@), height_of(old(grid)@)),
    ensures
        same_shape(old(grid)@, final(grid)@),
        forall|i: int, j: int|
            in_bounds(i, j, width_of(old(grid)@), height_of(old(grid)@)) ==> if cell(mask@, i, j) == 1 {
                cell_rel(p, cell(old(grid)@, i, j), #[trigger] cell(final(grid)@, i, j))
            } else {
                cell(final(grid)@, i, j) == cell(old(grid)@, i, j)
            },
        forall|i: int, j: int|
            in_bounds(i, j, width_of(old(grid)@), height_of(old(grid)@)) && terrain_ok(
                cell(old(grid)@, i, j).tiletype,
            ) ==> class_kept(cell(old(grid)@, i, j), #[trigger] cell(final(grid)@, i, j)),
{
    let ghost g0 = grid@;
    let w = grid.len();
    if w == 0 {
        return;
    }
    let h = grid[0].len();
    let mut x: usize = 0;
    while x < w
        invariant
            x <= w,
            w == width_of(g0) && h == height_of(g0),
            same_shape(g0, grid@),
            grid_wf(mask@, w as int, h as int),
            forall|i: int, j: int|
                in_bounds(i, j, w as int, h as int) ==> if i < x {
                    &&& if cell(mask@, i, j) == 1 {
                        cell_rel(p, cell(g0, i, j), #[trigger] cell(grid@, i, j))
                    } else {
                        cell(grid@, i, j) == cell(g0, i, j)
                    }
                    &&& terrain_ok(cell(g0, i, j).tiletype) ==> class_kept(cell(g0, i, j), cell(grid@, i, j))
                } else {
                    cell(grid@, i, j) == cell(g0, i, j)
                },
        decreases w - x,
    {
        let mut y: usize = 0;
        while y < h
            invariant
                x < w,
                y <= h,
                w == width_of(g0) && h == height_of(g0),
                same_shape(g0, grid@),
                grid_wf(mask@, w as int, h as int),
                forall|i: int, j: int|
                    in_bounds(i, j, w as int, h as int) ==> if i < x || (i == x && j < y) {
                        &&& if cell(mask@, i, j) == 1 {
                            cell_rel(p, cell(g0, i, j), #[trigger] cell(grid@, i, j))
                        } else {
                            cell(grid@, i, j) == cell(g0, i, j)
                        }
                        &&& terrain_ok(cell(g0, i, j).tiletype) ==> class_kept(cell(g0, i, j), cell(grid@, i, j))
                    } else {
                        cell(grid@, i, j) == cell(g0, i, j)
                    },
            decreases h - y,
        {
            proof {
                assert(mask@[x as int]@.len() == h);
                assert(grid@[x as int]@.len() == h);
            }
            let ghost g1 = grid@;
            assert(cell(g1, x as int, y as int) == cell(g0, x as int, y as int));
            let t = grid[x][y];
            let m = mask[x][y];
            if m == 1 {
                let r = paint_cell(t, p);
                set_cell(grid, x, y, r);
            }
            proof {
                assert forall|i: int, j: int| in_bounds(i, j, w as int, h as int) implies if i < x || (i == x && j < y + 1) {
                    &&& if cell(mask@, i, j) == 1 {
                        cell_rel(p, cell(g0, i, j), #[trigger] cell(grid@, i, j))
                    } else {
                        cell(grid@, i, j) == cell(g0, i, j)
                    }
                    &&& terrain_ok(cell(g0, i, j).tiletype) ==> class_kept(cell(g0, i, j), cell(grid@, i, j))
                } else {
                    cell(grid@, i, j) == cell(g0, i, j)
                } by {
                    if i != x || j != y {
                        assert(cell(grid@, i, j) == cell(g1, i, j));
                    }
                }
            }
            y = y + 1;
        }
        x = x + 1;
    }
}

} // verus!

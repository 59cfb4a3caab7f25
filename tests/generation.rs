use std::collections::VecDeque;

use eq_dungeon::automata::{walk_step, DrunkardsWalk};
use eq_dungeon::builder::{build_corr, build_rect, Corr, Rect, Simple};
use eq_dungeon::color::RGB;
use eq_dungeon::bitmap::{walk_open_step, Dungeon as Bitmap};
use eq_dungeon::dungeon::{place_features, Dungeon, GenerationError};
use eq_dungeon::filter::Structure;
use eq_dungeon::noise::{noise_at, threshold_mask, Fussy};
use eq_dungeon::pos::Pos;
use eq_dungeon::tile::{generic_floor, generic_wall, walkable, DownStair, Floor, Stair, Tile, Trap, Type, UpStair, Wall};

fn is_down(t: &Tile) -> bool {
    t.tiletype == Type::Stair(Stair::DownStair(DownStair::Normal))
}

fn is_up(t: &Tile) -> bool {
    t.tiletype == Type::Stair(Stair::UpStair(UpStair::Normal))
}

fn reachable_from(grid: &Vec<Vec<Tile>>, start: (usize, usize)) -> Vec<Vec<bool>> {
    let w = grid.len();
    let h = grid[0].len();
    let mut seen = vec![vec![false; h]; w];
    let mut queue = VecDeque::new();
    if walkable(&grid[start.0][start.1]) {
        seen[start.0][start.1] = true;
        queue.push_back(start);
    }
    while let Some((x, y)) = queue.pop_front() {
        let mut next = Vec::new();
        if x + 1 < w {
            next.push((x + 1, y));
        }
        if x > 0 {
            next.push((x - 1, y));
        }
        if y + 1 < h {
            next.push((x, y + 1));
        }
        if y > 0 {
            next.push((x, y - 1));
        }
        for (nx, ny) in next {
            if !seen[nx][ny] && walkable(&grid[nx][ny]) {
                seen[nx][ny] = true;
                queue.push_back((nx, ny));
            }
        }
    }
    seen
}

fn count(grid: &Vec<Vec<Tile>>, f: fn(&Tile) -> bool) -> usize {
    grid.iter().map(|c| c.iter().filter(|t| f(t)).count()).sum()
}

#[test]
fn build_fifty_by_fifty() {
    let d = Dungeon::new(Pos::new(50, 50)).build().expect("a 50 by 50 level has room for its features");
    assert_eq!(d.width, 50);
    assert_eq!(d.height, 50);
    assert_eq!(d.width(), 50);
    assert_eq!(d.height(), 50);
    assert!(d.grid.iter().all(|c| c.len() == 50));
    assert_eq!(count(&d.grid, is_down), 1);
    assert_eq!(count(&d.grid, is_up), 1);
    let start = Dungeon::get_valid_location(&d.grid).expect("spawnable cells remain");
    let seen = reachable_from(&d.grid, (start.x as usize, start.y as usize));
    for x in 0..50 {
        for y in 0..50 {
            if is_down(&d.grid[x][y]) || is_up(&d.grid[x][y]) {
                assert!(seen[x][y], "stair at {} {} unreachable", x, y);
            }
        }
    }
}

#[test]
fn build_connects_every_walkable_cell() {
    for _ in 0..5 {
        let d = Dungeon::new(Pos::new(40, 30)).build().expect("level");
        let mut start = None;
        for x in 0..40 {
            for y in 0..30 {
                if start.is_none() && walkable(&d.grid[x][y]) {
                    start = Some((x, y));
                }
            }
        }
        let seen = reachable_from(&d.grid, start.expect("some walkable cell"));
        for x in 0..40 {
            for y in 0..30 {
                assert_eq!(seen[x][y], walkable(&d.grid[x][y]));
            }
        }
    }
}

#[test]
fn build_small_sizes_fail() {
    assert_eq!(Dungeon::new(Pos::new(2, 40)).build().err(), Some(GenerationError::NoValidPlacement));
    assert_eq!(Dungeon::new(Pos::new(40, 1)).build().err(), Some(GenerationError::NoValidPlacement));
    assert_eq!(Dungeon::new(Pos::new(0, 0)).build().err(), Some(GenerationError::NoValidPlacement));
}

#[test]
fn build_keeps_non_square_size() {
    let d = Dungeon::new(Pos::new(60, 25)).build().expect("level");
    assert_eq!(d.grid.len(), 60);
    assert!(d.grid.iter().all(|c| c.len() == 25));
    let b = d.get_bounds_pos();
    assert_eq!((b.x, b.y), (60, 25));
    assert!(d.is_valid(59, 24));
    assert!(!d.is_valid(60, 0));
    assert!(!d.is_valid(0, 25));
}

#[test]
fn drunkards_walk_on_small_wall_grid() {
    let mut g = Dungeon::generate_grid(10, 10, generic_wall());
    DrunkardsWalk::new(100).apply(&mut g, None, generic_floor(), (5, 5), 800);
    assert_eq!(g.len(), 10);
    assert!(g.iter().all(|c| c.len() == 10));
    let floors = count(&g, |t| t.tiletype == Type::Floor(Floor::Normal));
    assert!(floors >= 1);
    assert_eq!(g[5][5].tiletype, Type::Floor(Floor::Normal));
    for c in &g {
        for t in c {
            assert!(t.tiletype == Type::Floor(Floor::Normal) || t.tiletype == Type::Wall(Wall::Normal));
        }
    }
    let seen = reachable_from(&g, (5, 5));
    for x in 0..10 {
        for y in 0..10 {
            assert_eq!(seen[x][y], walkable(&g[x][y]));
        }
    }
}

#[test]
fn drunkards_walk_skips_named_terrain() {
    let mut g = Dungeon::generate_grid(6, 6, generic_wall());
    DrunkardsWalk::new(100).apply(&mut g, Some(Type::Wall(Wall::Normal)), generic_floor(), (2, 2), 200);
    assert_eq!(count(&g, |t| t.tiletype == Type::Floor(Floor::Normal)), 0);
}

#[test]
fn walk_step_keeps_background_and_stops_at_edge() {
    let mut wall = generic_wall();
    wall.bg = RGB(7, 8, 9);
    let mut g = Dungeon::generate_grid(3, 3, wall);
    let c = walk_step(&mut g, (2, 1), 0, None, generic_floor());
    assert_eq!(c, (2, 1));
    assert_eq!(count(&g, |t| t.tiletype == Type::Floor(Floor::Normal)), 0);
    let c = walk_step(&mut g, (2, 1), 1, None, generic_floor());
    assert_eq!(c, (1, 1));
    assert_eq!(g[1][1].tiletype, Type::Floor(Floor::Normal));
    assert_eq!(g[1][1].bg, RGB(7, 8, 9));
    let c = walk_step(&mut g, (1, 1), 3, None, generic_floor());
    assert_eq!(c, (1, 0));
}

#[test]
fn rooms_and_corridors() {
    let mut g = Dungeon::generate_grid(12, 12, 0u8);
    let r = Rect::new(2, 3, 2, 4);
    assert_eq!(r.center(), (4, 4));
    build_rect(&mut g, &r, 1u8);
    for x in 0..12 {
        for y in 0..12 {
            let inside = (2..6).contains(&x) && (3..5).contains(&y);
            assert_eq!(g[x][y], if inside { 1 } else { 0 });
        }
    }
    let mut g = Dungeon::generate_grid(12, 12, 0u8);
    build_corr(&mut g, &Corr::new((1, 1), (4, 3)), 1u8);
    let open: Vec<(usize, usize)> =
        (0..12).flat_map(|x| (0..12).map(move |y| (x, y))).filter(|&(x, y)| g[x][y] == 1).collect();
    assert_eq!(open, vec![(2, 1), (3, 1), (4, 1), (4, 2), (4, 3)]);
}

#[test]
fn structural_builder_connects_rooms() {
    let mut g = Dungeon::generate_grid(60, 40, generic_wall());
    let rooms = Simple::new(30).apply(&mut g, generic_floor());
    for r in &rooms {
        assert!(r.x >= 1 && r.y >= 1 && r.x + r.w < 60 && r.y + r.l < 40);
        for x in r.x..r.x + r.w {
            for y in r.y..r.y + r.l {
                assert!(walkable(&g[x][y]));
            }
        }
    }
    if let Some(first) = rooms.first() {
        let seen = reachable_from(&g, first.center());
        for x in 0..60 {
            for y in 0..40 {
                assert_eq!(seen[x][y], walkable(&g[x][y]));
            }
        }
    }
}

#[test]
fn structure_filter_opens_only_thin_walls() {
    let mut g = Dungeon::generate_grid(5, 3, generic_floor());
    g[2][1] = generic_wall();
    for _ in 0..200 {
        Structure::new().apply(&mut g, generic_floor(), (1, 1));
    }
    assert!(walkable(&g[2][1]));
    let mut g = Dungeon::generate_grid(5, 5, generic_wall());
    Structure::new().apply(&mut g, generic_floor(), (1, 1));
    assert_eq!(count(&g, walkable), 0);
}

#[test]
fn noise_masks_are_binary_and_sized() {
    let a = Fussy::new(Dungeon::generate_grid(30, 20, 0u8), 600).build();
    let b = Fussy::new(Dungeon::generate_grid(30, 20, 0u8), 800).build();
    for m in [&a, &b] {
        assert_eq!(m.len(), 30);
        for c in m.iter() {
            assert_eq!(c.len(), 20);
            assert!(c.iter().all(|&v| v == 0 || v == 1));
        }
    }
}

#[test]
fn noise_interpolates_lattice() {
    let mut lat = Dungeon::generate_grid(3, 3, 0u32);
    lat[1][0] = 800;
    assert_eq!(noise_at(&lat, 0, 0), 0);
    assert_eq!(noise_at(&lat, 4, 0), 400);
    assert_eq!(noise_at(&lat, 8, 0), 800);
    assert_eq!(noise_at(&lat, 4, 4), 200);
    let flat = Dungeon::generate_grid(4, 4, 500u32);
    let on = threshold_mask(&flat, 10, 10, 500);
    let off = threshold_mask(&flat, 10, 10, 501);
    assert!(on.iter().all(|c| c.len() == 10 && c.iter().all(|&v| v == 1)));
    assert!(off.iter().all(|c| c.iter().all(|&v| v == 0)));
}

#[test]
fn valid_location_needs_spawnable_interior() {
    let g = Dungeon::generate_grid(5, 5, generic_wall());
    assert_eq!(Dungeon::get_valid_location(&g), Err(GenerationError::NoValidPlacement));
    let mut g = Dungeon::generate_grid(5, 5, generic_wall());
    g[0][0] = generic_floor();
    assert_eq!(Dungeon::get_valid_location(&g), Err(GenerationError::NoValidPlacement));
    g[3][2] = generic_floor();
    let p = Dungeon::get_valid_location(&g).expect("one spawnable cell");
    assert_eq!((p.x, p.y), (3, 2));
}

#[test]
fn noise_masks_vary_with_fresh_lattices() {
    let low = Fussy::new(Dungeon::generate_grid(30, 20, 0u8), 1).build();
    assert!(low.iter().any(|c| c.iter().any(|&v| v == 1)));
    let high = Fussy::new(Dungeon::generate_grid(30, 20, 0u8), 1000).build();
    assert!(high.iter().all(|c| c.iter().all(|&v| v == 0)));
}

#[test]
fn place_features_needs_six_spawnable_cells() {
    let mut g = Dungeon::generate_grid(6, 6, generic_wall());
    for (x, y) in [(1, 1), (1, 2), (2, 1), (2, 2), (3, 3)] {
        g[x][y] = generic_floor();
    }
    let mut short = g.clone();
    assert_eq!(place_features(&mut short), Err(GenerationError::NoValidPlacement));
    g[4][4] = generic_floor();
    g[0][0] = generic_floor();
    assert_eq!(place_features(&mut g), Ok(()));
    assert_eq!(count(&g, is_down), 1);
    assert_eq!(count(&g, is_up), 1);
    for trap in [Trap::MemoryLoss, Trap::Shaft, Trap::PaintBomb, Trap::Teleport] {
        let n: usize = g.iter().map(|c| c.iter().filter(|t| t.tiletype == Type::Trap(trap)).count()).sum();
        assert_eq!(n, 1);
    }
    assert_eq!(g[0][0].tiletype, Type::Floor(Floor::Normal));
}

#[test]
fn try_opening_follows_roll() {
    let mut g = Dungeon::generate_grid(5, 3, generic_floor());
    g[2][1] = generic_wall();
    let s = Structure::new();
    assert!(!s.try_opening(&mut g, 2, 1, 25, generic_floor()));
    assert_eq!(g[2][1].tiletype, Type::Wall(Wall::Normal));
    assert!(s.try_opening(&mut g, 2, 1, 24, generic_floor()));
    assert_eq!(g[2][1].tiletype, Type::Floor(Floor::Normal));
    assert!(!s.try_opening(&mut g, 1, 1, 0, generic_floor()));
}

#[test]
fn bitmap_walk_step_and_ring() {
    let mut g = Dungeon::generate_grid(3, 3, 0u8);
    assert_eq!(walk_open_step(&mut g, 2, 2, 0), (2, 2));
    assert_eq!(g[2][2], 1);
    assert_eq!(walk_open_step(&mut g, 2, 2, 3), (2, 1));
    assert_eq!(g[2][1], 1);
    let d = Bitmap::new(60, 40, 12);
    let n = d.rooms.len();
    if n >= 2 {
        for k in 0..n {
            let (sx, sy) = d.rooms[k].center();
            let (ex, ey) = d.rooms[(k + 1) % n].center();
            for x in sx.min(ex)..=sx.max(ex) {
                assert_eq!(d.grid[x][sy], 1);
            }
            for y in sy.min(ey)..=sy.max(ey) {
                assert_eq!(d.grid[ex][y], 1);
            }
        }
    }
    assert!(n <= 12);
}

use eq_dungeon::actor::{Actor, Fighter};
use eq_dungeon::ai::{wander_step, SimpleAI, TrackerAI};
use eq_dungeon::bitmap::Dungeon as Bitmap;
use eq_dungeon::color::RGB;
use eq_dungeon::config::{Config, ConfigError, FontLayout, FontType, Renderer};
use eq_dungeon::dungeon::Dungeon;
use eq_dungeon::game::{Actions, Game, State};
use eq_dungeon::object;
use eq_dungeon::paint::{decorate, harden, paint_cell, Pass};
use eq_dungeon::pos::Pos;
use eq_dungeon::tile::{generic_floor, generic_wall, walkable, Biome, Floor, Scent, Type, Wall};

fn open_level(w: usize, h: usize) -> Dungeon {
    Dungeon { width: w, height: h, grid: Dungeon::generate_grid(w, h, generic_floor()) }
}

fn game_at(x: isize, y: isize) -> Game {
    Game {
        dungeon: open_level(5, 5),
        player: Actor::new("Player", '@', Pos::new(x, y), RGB(255, 255, 255), RGB(0, 0, 0)),
        state: State::New,
    }
}

#[test]
fn keypress_moves_and_sets_state() {
    let mut g = game_at(2, 2);
    g.process_keypress('l');
    assert_eq!(g.player.pos, Pos::new(3, 2));
    assert_eq!(g.state, State::Act(Actions::Move));
    g.process_keypress('y');
    assert_eq!(g.player.pos, Pos::new(2, 1));
    g.process_keypress('.');
    assert_eq!(g.player.pos, Pos::new(2, 1));
    assert_eq!(g.state, State::Act(Actions::Wait));
    g.process_keypress('>');
    assert_eq!(g.state, State::Act(Actions::DownStair));
    g.process_keypress('<');
    assert_eq!(g.state, State::Act(Actions::UpStair));
    g.process_keypress('z');
    assert_eq!(g.state, State::Act(Actions::Unknown));
    let before = g.state;
    g.process_keypress(' ');
    assert_eq!(g.state, before);
}

#[test]
fn keypress_off_the_map_is_undone() {
    let mut g = game_at(0, 4);
    g.process_keypress('h');
    assert_eq!(g.player.pos, Pos::new(0, 4));
    assert_eq!(g.state, State::Act(Actions::Unknown));
    g.process_keypress('j');
    assert_eq!(g.player.pos, Pos::new(0, 4));
    assert_eq!(g.state, State::Act(Actions::Unknown));
    g.process_keypress('u');
    assert_eq!(g.player.pos, Pos::new(1, 3));
    assert_eq!(g.state, State::Act(Actions::Move));
}

#[test]
fn update_leaves_and_fades_scent() {
    let mut g = game_at(2, 2);
    g.state = State::Act(Actions::Wait);
    g.update();
    assert_eq!(g.dungeon.scent(Pos::new(2, 2), Scent::Player), 145);
    assert_eq!(g.dungeon.scent(Pos::new(1, 1), Scent::Player), 145);
    assert_eq!(g.dungeon.scent(Pos::new(0, 0), Scent::Player), 0);
    g.state = State::Act(Actions::UpStair);
    g.update();
    assert_eq!(g.dungeon.scent(Pos::new(2, 2), Scent::Player), 145);
}

#[test]
fn new_game_places_player() {
    let g = Game::new((40, 30)).expect("level");
    assert_eq!(g.state, State::New);
    assert_eq!((g.dungeon.width, g.dungeon.height), (40, 30));
    let t = g.dungeon.tile(g.player.pos);
    assert!(walkable(&t));
    assert!(Game::new((2, 2)).is_err());
}

#[test]
fn scent_field_on_level() {
    let mut d = open_level(4, 4);
    d.grid[3][3] = generic_wall();
    d.reinforce_player_scent(Pos::new(3, 3), 150);
    assert_eq!(d.scent(Pos::new(2, 2), Scent::Player), 150);
    assert_eq!(d.scent(Pos::new(3, 3), Scent::Player), 0);
    assert_eq!(d.scent(Pos::new(1, 1), Scent::Player), 0);
    d.increment_scent(Pos::new(2, 2), Scent::Player, 200);
    assert_eq!(d.scent(Pos::new(2, 2), Scent::Player), 255);
    d.decay_scents();
    assert_eq!(d.scent(Pos::new(2, 2), Scent::Player), 250);
    assert_eq!(d.scent(Pos::new(2, 3), Scent::Player), 145);
    d.set_tile(Pos::new(0, 0), generic_wall());
    assert_eq!(d.tile(Pos::new(0, 0)).tiletype, Type::Wall(Wall::Normal));
}

#[test]
fn tracker_closes_in() {
    let level = open_level(30, 30);
    let mut ai = TrackerAI::new();
    let player = Actor::new("Player", '@', Pos::new(5, 0), RGB(0, 0, 0), RGB(0, 0, 0));
    let mut me = Actor::new("Hound", 'd', Pos::new(0, 0), RGB(0, 0, 0), RGB(0, 0, 0));
    assert_eq!(ai.take_turn(&level.grid, &player, &mut me), Actions::Move);
    assert_eq!(me.pos, Pos::new(1, 0));
    let near = Actor::new("Player", '@', Pos::new(2, 1), RGB(0, 0, 0), RGB(0, 0, 0));
    assert_eq!(ai.take_turn(&level.grid, &near, &mut me), Actions::Wait);
    assert_eq!(me.pos, Pos::new(1, 0));
    let far = Actor::new("Player", '@', Pos::new(25, 25), RGB(0, 0, 0), RGB(0, 0, 0));
    assert_eq!(ai.take_turn(&level.grid, &far, &mut me), Actions::Wait);
    let mut blocked = open_level(30, 30);
    blocked.grid[2][0] = generic_wall();
    assert_eq!(ai.take_turn(&blocked.grid, &player, &mut me), Actions::Move);
    assert_eq!(me.pos, Pos::new(1, 0));
}

#[test]
fn wanderer_moves_to_free_cells_only() {
    let free = Dungeon::generate_grid(3, 3, object::Tile::new(Pos::new(0, 0), '.', RGB(0, 0, 0), RGB(0, 0, 0), false));
    let walls = Dungeon::generate_grid(3, 3, object::Tile::new(Pos::new(0, 0), '#', RGB(0, 0, 0), RGB(0, 0, 0), true));
    assert_eq!(wander_step(&free, 1, 1, 1), Some((2, 1)));
    assert_eq!(wander_step(&free, 1, 1, 4), Some((1, 0)));
    assert_eq!(wander_step(&free, 0, 0, 2), None);
    assert_eq!(wander_step(&walls, 1, 1, 3), None);
    let player = Fighter::new("Player".to_string(), '@', (0, 0), (0, 0, 0), (0, 0, 0));
    let mut me = Fighter::new("Rat".to_string(), 'r', (1, 1), (1, 1, 1), (0, 0, 0));
    SimpleAI::new().take_turn(&walls, &player, &mut me);
    assert_eq!(me.pos, Pos::new(1, 1));
    SimpleAI::new().take_turn(&free, &player, &mut me);
    let d = (me.pos.x - 1).abs() + (me.pos.y - 1).abs();
    assert_eq!(d, 1);
    assert_eq!(me.get_name(), "Rat");
}

#[test]
fn actors_and_fighters_move() {
    let mut a = Actor::new("Orc", 'o', Pos::new(3, 4), RGB(1, 1, 1), RGB(2, 2, 2));
    a.move_cart(-1, 2);
    assert_eq!(a.pos, Pos::new(2, 6));
    a.move_pos(Pos::new(5, -6));
    assert_eq!(a.pos, Pos::new(7, 0));
    a.set_pos(Pos::new(0, 0));
    a.set_glyph('O');
    a.set_name("Chief");
    assert_eq!((a.get_glyph(), a.get_name(), a.pos), ('O', "Chief", Pos::new(0, 0)));
    let mut f = Fighter::new("Bat".to_string(), 'b', (1, 1), (10, 20, 30), (0, 0, 0));
    assert_eq!(f.get_fg(), RGB(10, 20, 30));
    f.move_cart(2, 3);
    f.move_pos(Pos::new(-1, -1));
    assert_eq!(f.pos, Pos::new(2, 3));
    f.set_bg((5, 5, 5));
    assert_eq!(f.get_bg(), RGB(5, 5, 5));
    assert_eq!(Pos::new(0, 0).distance_squared(&Pos::new(3, 4)), 25);
    assert_eq!(Pos::new(1, 2).plus(Pos::new(3, 4)), Pos::new(4, 6));
}

#[test]
fn painting_passes() {
    let floor = generic_floor();
    let wall = generic_wall();
    let cave = paint_cell(wall, Pass::Cave);
    assert_eq!((cave.biome, cave.fg, cave.bg), (Biome::Cave, RGB(67, 57, 57), RGB(60, 50, 50)));
    let crypt = paint_cell(floor, Pass::Crypt);
    assert_eq!((crypt.biome, crypt.fg, crypt.bg), (Biome::Crypt, RGB(27, 27, 27), RGB(20, 20, 20)));
    let water = paint_cell(floor, Pass::Water);
    assert_eq!((water.tiletype, water.bg), (Type::Water, RGB(57, 144, 255)));
    assert_eq!(paint_cell(wall, Pass::Water).tiletype, wall.tiletype);
    assert_eq!(paint_cell(floor, Pass::Crystal).tiletype, Type::Floor(Floor::Crystal));
    assert_eq!(paint_cell(wall, Pass::Crystal).bg, RGB(216, 197, 244));
    let grass = paint_cell(floor, Pass::Grass);
    assert_eq!((grass.tiletype, grass.glyph, grass.bg), (Type::TallGrass, '"', floor.bg));
    assert!([RGB(76, 74, 75), RGB(76, 79, 75), RGB(80, 74, 75)].contains(&grass.fg));
    let vine = paint_cell(floor, Pass::Vines);
    assert_eq!(vine.tiletype, Type::Vine);
    assert!(['/', '|', '\\', '-', '~'].contains(&vine.glyph));
    assert_eq!(harden(wall, 71).tiletype, Type::Wall(Wall::Hard));
    assert_eq!(harden(wall, 71).glyph, '#');
    assert_eq!(harden(wall, 70).tiletype, Type::Wall(Wall::Normal));
    assert_eq!(decorate(floor, 91, 3, 50).glyph, '%');
    assert_eq!(decorate(floor, 90, 3, 50).glyph, floor.glyph);
    let mut cave_floor = floor;
    cave_floor.biome = Biome::Cave;
    assert_eq!(decorate(cave_floor, 95, 1, 7).fg, RGB(35, 30, 30));
    assert_eq!(decorate(cave_floor, 95, 1, 15).fg, RGB(76, 74, 45));
    assert_eq!(decorate(cave_floor, 95, 1, 50).fg, floor.fg);
}

#[test]
fn config_from_values() {
    let c = Config::from_values(80, 50, 100, 70, false, "fonts/a.png".to_string(), "Greyscale", "AsciiInRow", "GLSL")
        .expect("valid settings");
    assert_eq!((c.screen_width, c.map_height), (80, 70));
    assert_eq!(c.fonttype, FontType::Greyscale);
    assert_eq!(c.fontlayout, FontLayout::AsciiInRow);
    assert_eq!(c.renderer, Renderer::GLSL);
    let bad = Config::from_values(80, 50, 100, 70, false, String::new(), "Bold", "Tcod", "SDL");
    assert_eq!(bad.err(), Some(ConfigError::BadFontType));
    let bad = Config::from_values(80, 50, 100, 70, false, String::new(), "Default", "Grid", "SDL");
    assert_eq!(bad.err(), Some(ConfigError::BadFontLayout));
    let bad = Config::from_values(80, 50, 100, 70, false, String::new(), "Default", "Tcod", "Vulkan");
    assert_eq!(bad.err(), Some(ConfigError::BadRenderer));
    assert_eq!(FontType::from_name("Default"), Some(FontType::Default));
    assert_eq!(Renderer::from_name("OpenGL"), Some(Renderer::OpenGL));
    assert_eq!(FontLayout::from_name("tcod"), None);
}

#[test]
fn bitmap_dungeon() {
    let d = Bitmap::new(40, 30, 10);
    assert_eq!((d.w, d.h), (40, 30));
    assert_eq!(d.grid.len(), 40);
    assert!(d.grid.iter().all(|c| c.len() == 30 && c.iter().all(|&v| v <= 1)));
    for r in &d.rooms {
        for x in r.x..r.x + r.w {
            for y in r.y..r.y + r.l {
                assert_eq!(d.grid[x][y], 1);
            }
        }
    }
    match d.get_starting_location() {
        Some((x, y)) => assert_eq!(d.grid[x as usize][y as usize], 1),
        None => assert!(d.rooms.is_empty()),
    }
    let mut e = d.clone();
    e.regen();
    assert_eq!(e.grid.len(), 40);
    assert_eq!(e.rooms, d.rooms);
    let empty = Bitmap::new(-3, 5, 4);
    assert_eq!((empty.w, empty.grid.len()), (0, 0));
    assert_eq!(empty.get_starting_location(), None);
}

#[test]
fn grass_colours_are_drawn_from_the_palette() {
    let floor = generic_floor();
    let mut seen = Vec::new();
    for _ in 0..200 {
        let g = paint_cell(floor, Pass::Grass);
        if !seen.contains(&g.fg) {
            seen.push(g.fg);
        }
    }
    assert!(seen.len() > 1);
    let mut glyphs = Vec::new();
    for _ in 0..200 {
        let v = paint_cell(floor, Pass::Vines);
        if !glyphs.contains(&v.glyph) {
            glyphs.push(v.glyph);
        }
    }
    assert!(glyphs.len() > 1);
}

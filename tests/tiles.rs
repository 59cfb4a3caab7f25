use eq_dungeon::color::RGB;
use eq_dungeon::tile::{
    generic_floor, generic_wall, opaque, spawnable, walkable, Biome, DownStair, Floor, Scent, Stair, Tile, Trap,
    Type, UpStair, Wall, _Scent,
};

fn tile_of(t: Type) -> Tile {
    Tile::new("Test", ' ', RGB(0, 0, 0), RGB(0, 0, 0), t)
}

fn all_types() -> Vec<Type> {
    vec![
        Type::Wall(Wall::Normal),
        Type::Wall(Wall::Crystal),
        Type::Wall(Wall::Hard),
        Type::Floor(Floor::Normal),
        Type::Floor(Floor::Crystal),
        Type::Stair(Stair::DownStair(DownStair::Normal)),
        Type::Stair(Stair::UpStair(UpStair::Normal)),
        Type::TallGrass,
        Type::Vine,
        Type::Water,
        Type::Unseen,
        Type::Trap(Trap::MemoryLoss),
        Type::Trap(Trap::Shaft),
        Type::Trap(Trap::PaintBomb),
        Type::Trap(Trap::Teleport),
        Type::Debug,
    ]
}

#[test]
fn walkable_matches_terrain_list() {
    for t in all_types() {
        let expected = matches!(
            t,
            Type::Floor(_) | Type::Water | Type::Stair(_) | Type::Trap(_) | Type::TallGrass | Type::Vine
        );
        assert_eq!(walkable(&tile_of(t)), expected, "{:?}", t);
    }
    assert!(!walkable(&tile_of(Type::Wall(Wall::Hard))));
    assert!(!walkable(&tile_of(Type::Unseen)));
    assert!(!walkable(&tile_of(Type::Debug)));
}

#[test]
fn opaque_is_walls_and_tall_grass() {
    for t in all_types() {
        let expected = matches!(t, Type::Wall(_) | Type::TallGrass);
        assert_eq!(opaque(&tile_of(t)), expected, "{:?}", t);
    }
}

#[test]
fn spawnable_is_floor_water_grass_vine() {
    for t in all_types() {
        let expected = matches!(t, Type::Floor(_) | Type::Water | Type::TallGrass | Type::Vine);
        assert_eq!(spawnable(&tile_of(t)), expected, "{:?}", t);
    }
}

#[test]
fn new_tile_has_zero_scents_in_order() {
    let t = Tile::new("Floor", '.', RGB(1, 2, 3), RGB(4, 5, 6), Type::Floor(Floor::Normal));
    assert_eq!(t.get_id(), "Floor");
    assert_eq!(t.get_glyph(), '.');
    assert_eq!(t.get_fg(), RGB(1, 2, 3));
    assert_eq!(t.get_bg(), RGB(4, 5, 6));
    assert_eq!(t.biome, Biome::Dungeon);
    assert!(!t.seen);
    assert_eq!(t.sound, 0);
    let order = Scent::iterator();
    assert_eq!(order.len(), 9);
    for (k, s) in order.iter().enumerate() {
        assert_eq!(t.scents[k], _Scent::new(0, *s));
        assert_eq!(s.index(), k);
    }
    assert_eq!(order[0], Scent::Player);
    assert_eq!(order[8], Scent::Incense);
}

#[test]
fn scent_increment_saturates() {
    let mut t = generic_floor();
    t.increment_scent(Scent::Canine, 100);
    t.increment_scent(Scent::Canine, 50);
    assert_eq!(t.scent(Scent::Canine), 150);
    assert_eq!(t.scent(Scent::Player), 0);
    t.increment_scent(Scent::Canine, 200);
    assert_eq!(t.scent(Scent::Canine), 255);
    t.increment_scent(Scent::Canine, 1);
    assert_eq!(t.scent(Scent::Canine), 255);
    t.increment_scent(Scent::Canine, 255);
    assert_eq!(t.scent(Scent::Canine), 255);
}

#[test]
fn scent_decay_fades_to_zero() {
    let mut t = generic_floor();
    t.increment_scent(Scent::Smoke, 12);
    t.increment_scent(Scent::Player, 3);
    t.decay();
    assert_eq!(t.scent(Scent::Smoke), 7);
    assert_eq!(t.scent(Scent::Player), 0);
    t.decay();
    t.decay();
    assert_eq!(t.scent(Scent::Smoke), 0);
}

#[test]
fn tile_setters_change_one_field() {
    let mut t = generic_wall();
    t.set_bg(RGB(9, 9, 9));
    t.set_fg(RGB(8, 8, 8));
    t.set_glyph('#');
    t.set_id("Stone");
    assert_eq!(t.get_bg(), RGB(9, 9, 9));
    assert_eq!(t.get_fg(), RGB(8, 8, 8));
    assert_eq!(t.get_glyph(), '#');
    assert_eq!(t.get_id(), "Stone");
    assert_eq!(t.tiletype, Type::Wall(Wall::Normal));
}

#[test]
fn names_of_biomes_and_scents() {
    assert_eq!(Biome::Cave.name(), "Cave");
    assert_eq!(Biome::Sunken.name(), "Sunken");
    assert_eq!(Scent::Reptilian.name(), "Reptilian");
    assert_eq!(Scent::Incense.name(), "Incense");
}

#[test]
fn generic_tiles() {
    let f = generic_floor();
    let w = generic_wall();
    assert_eq!(f.tiletype, Type::Floor(Floor::Normal));
    assert_eq!(w.tiletype, Type::Wall(Wall::Normal));
    assert_eq!(f.get_id(), "Generic Floor");
    assert_eq!(w.get_id(), "Generic Wall");
    assert_eq!(f.bg, RGB(0, 0, 0));
}

#[test]
fn color_arithmetic_saturates() {
    assert_eq!(RGB(5, 5, 5).darken(RGB(10, 10, 10)), RGB(0, 0, 0));
    assert_eq!(RGB(30, 20, 10).darken(RGB(10, 10, 10)), RGB(20, 10, 0));
    assert_eq!(RGB(250, 10, 0).lighten(RGB(10, 10, 10)), RGB(255, 20, 10));
    assert_eq!(RGB::from_tup((1, 2, 3)), RGB(1, 2, 3));
}

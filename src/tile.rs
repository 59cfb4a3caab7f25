//! Tiles, the terrain taxonomy and the terrain predicates.
use vstd::prelude::*;
use crate::color::RGB;

verus! {

/// Terrain of a tile.
#[derive(Clone, Copy, PartialEq, Eq, Structural, Debug)]
pub enum Type {
    Wall(Wall),
    Floor(Floor),
    Stair(Stair),
    TallGrass,
    Vine,
    Water,
    Unseen,
    Trap(Trap),
    Debug,
}

#[derive(Clone, Copy, PartialEq, Eq, Structural, Debug)]
pub enum Floor {
    Normal,
    Crystal,
}

#[derive(Clone, Copy, PartialEq, Eq, Structural, Debug)]
pub enum Wall {
    Normal,
    Crystal,
    Hard,
}

#[derive(Clone, Copy, PartialEq, Eq, Structural, Debug)]
pub enum Trap {
    MemoryLoss,
    Shaft,
    PaintBomb,
    Teleport,
}

#[derive(Clone, Copy, PartialEq, Eq, Structural, Debug)]
pub enum Stair {
    DownStair(DownStair),
    UpStair(UpStair),
}

#[derive(Clone, Copy, PartialEq, Eq, Structural, Debug)]
pub enum DownStair {
    Normal,
}

#[derive(Clone, Copy, PartialEq, Eq, Structural, Debug)]
pub enum UpStair {
    Normal,
}

/// Properties a terrain can have.
#[derive(Clone, Copy, PartialEq, Eq, Structural, Debug)]
pub enum Props {
    Visibility(Visibility),
    Traversability(Traversability),
}

#[derive(Clone, Copy, PartialEq, Eq, Structural, Debug)]
pub enum Visibility {
    Opaque,
    Transparent,
}

#[derive(Clone, Copy, PartialEq, Eq, Structural, Debug)]
pub enum Traversability {
    Walkable,
    Blocking,
}

/// Terrain that blocks line of sight.
pub open spec fn is_opaque(t: Type) -> bool {
    t is Wall || t is TallGrass
}

/// Terrain that a feature may be placed on, replacing it.
pub open spec fn is_spawnable(t: Type) -> bool {
    t is Floor || t is Water || t is TallGrass || t is Vine
}

/// Terrain that an actor may stand on.
pub open spec fn is_walkable(t: Type) -> bool {
    t is Floor || t is Water || t is Stair || t is Trap || t is TallGrass || t is Vine
}

/// Does the tile block vision?
pub fn opaque(t: &Tile) -> (r: bool)
    ensures
        r == is_opaque(t.tiletype),
{
    match t.tiletype {
        Type::Wall(_) | Type::TallGrass => true,
        _ => false,
    }
}

/// May a feature be spawned on this tile, replacing it?
pub fn spawnable(t: &Tile) -> (r: bool)
    ensures
        r == is_spawnable(t.tiletype),
{
    match t.tiletype {
        Type::Floor(_) | Type::Water | Type::TallGrass | Type::Vine => true,
        _ => false,
    }
}

/// May an actor walk on this tile?
pub fn walkable(t: &Tile) -> (r: bool)
    ensures
        r == is_walkable(t.tiletype),
        r <==> !(t.tiletype is Wall || t.tiletype is Unseen || t.tiletype is Debug),
{
    match t.tiletype {
        Type::Floor(_) | Type::Water | Type::Stair(_) | Type::Trap(_) | Type::TallGrass
        | Type::Vine => true,
        _ => false,
    }
}

/// A plain floor tile.
pub fn generic_floor() -> (r: Tile)
    ensures
        r.wf(),
        r.name@ == "Generic Floor"@,
        r.tiletype == Type::Floor(Floor::Normal),
        r.fg == RGB(0, 0, 0) && r.bg == RGB(0, 0, 0),
        r.glyph == ' ',
        r.biome == Biome::Dungeon,
        r.sound == 0,
        !r.seen,
        forall|i: int| 0 <= i < SCENT_COUNT ==> #[trigger] r.scents@[i].val == 0,
{
    Tile::new("Generic Floor", ' ', RGB(0, 0, 0), RGB(0, 0, 0), Type::Floor(Floor::Normal))
}

/// A plain wall tile.
pub fn generic_wall() -> (r: Tile)
    ensures
        r.wf(),
        r.name@ == "Generic Wall"@,
        r.tiletype == Type::Wall(Wall::Normal),
        r.fg == RGB(0, 0, 0) && r.bg == RGB(0, 0, 0),
        r.glyph == ' ',
        r.biome == Biome::Dungeon,
        r.sound == 0,
        !r.seen,
        forall|i: int| 0 <= i < SCENT_COUNT ==> #[trigger] r.scents@[i].val == 0,
{
    Tile::new("Generic Wall", ' ', RGB(0, 0, 0), RGB(0, 0, 0), Type::Wall(Wall::Normal))
}

/// Cosmetic region of the map, independent of terrain.
#[derive(Clone, Copy, PartialEq, Eq, Structural, Debug)]
pub enum Biome {
    Dungeon,
    Crypt,
    Cave,
    Sunken,
    Crystal,
}

impl Biome {
    /// The biome's display name.
    pub fn name(&self) -> (r: &'static str)
        ensures
            r@ == biome_name(*self),
    {
        match self {
            Biome::Dungeon => "Dungeon",
            Biome::Crypt => "Crypt",
            Biome::Cave => "Cave",
            Biome::Sunken => "Sunken",
            Biome::Crystal => "Crystal",
        }
    }
}

pub open spec fn biome_name(b: Biome) -> Seq<char> {
    match b {
        Biome::Dungeon => "Dungeon"@,
        Biome::Crypt => "Crypt"@,
        Biome::Cave => "Cave"@,
        Biome::Sunken => "Sunken"@,
        Biome::Crystal => "Crystal"@,
    }
}

/// Kinds of scent that actors leave on tiles.
#[derive(Clone, Copy, PartialEq, Eq, Structural, Debug)]
pub enum Scent {
    Player,
    Insectoid,
    Canine,
    Feline,
    Reptilian,
    Decay,
    Avian,
    Smoke,
    Incense,
}

/// Number of scent kinds.
pub const SCENT_COUNT: usize = 9;

/// Position of a scent kind in declaration order.
pub open spec fn scent_index(s: Scent) -> int {
    match s {
        Scent::Player => 0,
        Scent::Insectoid => 1,
        Scent::Canine => 2,
        Scent::Feline => 3,
        Scent::Reptilian => 4,
        Scent::Decay => 5,
        Scent::Avian => 6,
        Scent::Smoke => 7,
        Scent::Incense => 8,
    }
}

/// The scent kinds in declaration order.
pub open spec fn scent_order() -> Seq<Scent> {
    seq![
        Scent::Player,
        Scent::Insectoid,
        Scent::Canine,
        Scent::Feline,
        Scent::Reptilian,
        Scent::Decay,
        Scent::Avian,
        Scent::Smoke,
        Scent::Incense,
    ]
}

pub open spec fn scent_name(s: Scent) -> Seq<char> {
    match s {
        Scent::Player => "Player"@,
        Scent::Insectoid => "Insectoid"@,
        Scent::Canine => "Canine"@,
        Scent::Feline => "Feline"@,
        Scent::Reptilian => "Reptilian"@,
        Scent::Decay => "Decay"@,
        Scent::Avian => "Avian"@,
        Scent::Smoke => "Smoke"@,
        Scent::Incense => "Incense"@,
    }
}

impl Scent {
    /// All scent kinds, in declaration order.
    pub fn iterator() -> (r: Vec<Scent>)
        ensures
            r@ == scent_order(),
            r@.len() == SCENT_COUNT,
    {
        let r = vec![
            Scent::Player,
            Scent::Insectoid,
            Scent::Canine,
            Scent::Feline,
            Scent::Reptilian,
            Scent::Decay,
            Scent::Avian,
            Scent::Smoke,
            Scent::Incense,
        ];
        assert(r@ =~= scent_order());
        r
    }

    /// Position of this kind in declaration order.
    pub fn index(&self) -> (r: usize)
        ensures
            r == scent_index(*self),
            r < SCENT_COUNT,
            scent_order()[r as int] == *self,
    {
        match self {
            Scent::Player => 0,
            Scent::Insectoid => 1,
            Scent::Canine => 2,
            Scent::Feline => 3,
            Scent::Reptilian => 4,
            Scent::Decay => 5,
            Scent::Avian => 6,
            Scent::Smoke => 7,
            Scent::Incense => 8,
        }
    }

    /// The scent's display name.
    pub fn name(&self) -> (r: &'static str)
        ensures
            r@ == scent_name(*self),
    {
        match self {
            Scent::Player => "Player",
            Scent::Insectoid => "Insectoid",
            Scent::Canine => "Canine",
            Scent::Feline => "Feline",
            Scent::Reptilian => "Reptilian",
            Scent::Decay => "Decay",
            Scent::Avian => "Avian",
            Scent::Smoke => "Smoke",
            Scent::Incense => "Incense",
        }
    }
}

/// Intensity of one kind of scent.
#[derive(Clone, Copy, PartialEq, Eq, Structural, Debug)]
pub struct _Scent {
    pub val: u8,
    pub scent_type: Scent,
}

impl _Scent {
    pub fn new(value: u8, scent_type: Scent) -> (r: _Scent)
        ensures
            r.val == value,
            r.scent_type == scent_type,
    {
        _Scent { val: value, scent_type }
    }
}

/// Amount by which every scent fades on each tick.
pub const SCENT_DECAY: u8 = 5;

/// An environmental cell of the map.
#[derive(Clone, Copy, Debug)]
pub struct Tile {
    pub name: &'static str,
    pub glyph: char,
    pub fg: RGB,
    pub bg: RGB,
    pub biome: Biome,
    pub scents: [_Scent; 9],
    pub sound: usize,
    pub tiletype: Type,
    pub seen: bool,
}

impl Tile {
    /// One scent entry per kind, in declaration order.
    pub open spec fn wf(&self) -> bool {
        forall|i: int| 0 <= i < SCENT_COUNT ==> #[trigger] self.scents@[i].scent_type == scent_order()[i]
    }

    /// Intensity of scent `s` on this tile.
    pub open spec fn scent_of(&self, s: Scent) -> u8 {
        self.scents@[scent_index(s)].val
    }

    /// A fresh tile: `Dungeon` biome, every scent at zero, not yet seen.
    pub fn new(name: &'static str, glyph: char, fg: RGB, bg: RGB, tiletype: Type) -> (r: Tile)
        ensures
            r.wf(),
            r.name@ == name@,
            r.glyph == glyph,
            r.fg == fg,
            r.bg == bg,
            r.tiletype == tiletype,
            r.biome == Biome::Dungeon,
            r.sound == 0,
            !r.seen,
            forall|i: int| 0 <= i < SCENT_COUNT ==> #[trigger] r.scents@[i].val == 0,
    {
        let scents = [
            _Scent::new(0, Scent::Player),
            _Scent::new(0, Scent::Insectoid),
            _Scent::new(0, Scent::Canine),
            _Scent::new(0, Scent::Feline),
            _Scent::new(0, Scent::Reptilian),
            _Scent::new(0, Scent::Decay),
            _Scent::new(0, Scent::Avian),
            _Scent::new(0, Scent::Smoke),
            _Scent::new(0, Scent::Incense),
        ];
        Tile {
            name,
            glyph,
            fg,
            bg,
            biome: Biome::Dungeon,
            scents,
            sound: 0,
            tiletype,
            seen: false,
        }
    }
}

/// `a + b`, stopping at 255.
pub open spec fn scent_add(a: u8, b: u8) -> u8 {
    if a + b > 255 { 255 } else { (a + b) as u8 }
}

/// `t1` is `t0` with its player scent strengthened by `amount`, stopping at 255.
pub open spec fn reinforced(t0: Tile, t1: Tile, amount: u8) -> bool {
    &&& t1 == (Tile { scents: t1.scents, ..t0 })
    &&& t1.scents@ == t0.scents@.update(
        0,
        _Scent { val: scent_add(t0.scents@[0].val, amount), ..t0.scents@[0] },
    )
}

/// `a` faded by one tick, stopping at 0.
pub open spec fn scent_faded(a: u8) -> u8 {
    if a < SCENT_DECAY { 0 } else { (a - SCENT_DECAY) as u8 }
}

/// `r` is `t` with every scent faded by one tick.
pub open spec fn faded(t: Tile, r: Tile) -> bool {
    &&& r == (Tile { scents: r.scents, ..t })
    &&& forall|k: int|
        0 <= k < SCENT_COUNT ==> (#[trigger] r.scents@[k]).val == scent_faded(t.scents@[k].val)
            && r.scents@[k].scent_type == t.scents@[k].scent_type
}

impl Tile {
    pub fn get_bg(&self) -> (r: RGB)
        ensures
            r == self.bg,
    {
        self.bg
    }

    pub fn get_fg(&self) -> (r: RGB)
        ensures
            r == self.fg,
    {
        self.fg
    }

    pub fn get_glyph(&self) -> (r: char)
        ensures
            r == self.glyph,
    {
        self.glyph
    }

    pub fn get_id(&self) -> (r: &'static str)
        ensures
            r == self.name,
    {
        self.name
    }

    pub fn set_bg(&mut self, bg: RGB)
        ensures
            *final(self) == (Tile { bg, ..*old(self) }),
    {
        self.bg = bg;
    }

    pub fn set_fg(&mut self, fg: RGB)
        ensures
            *final(self) == (Tile { fg, ..*old(self) }),
    {
        self.fg = fg;
    }

    pub fn set_glyph(&mut self, glyph: char)
        ensures
            *final(self) == (Tile { glyph, ..*old(self) }),
    {
        self.glyph = glyph;
    }

    pub fn set_id(&mut self, name: &'static str)
        ensures
            *final(self) == (Tile { name, ..*old(self) }),
    {
        self.name = name;
    }

    /// Intensity of scent `s`.
    pub fn scent(&self, s: Scent) -> (r: u8)
        ensures
            r == self.scent_of(s),
    {
        self.scents[s.index()].val
    }

    /// Strengthen scent `s` by `amount`, stopping at 255; nothing else changes.
    pub fn increment_scent(&mut self, s: Scent, amount: u8)
        ensures
            final(self).scent_of(s) == scent_add(old(self).scent_of(s), amount),
            old(self).scent_of(s) == 255 ==> final(self).scent_of(s) == 255,
            final(self).scents@ == old(self).scents@.update(
                scent_index(s),
                _Scent { val: scent_add(old(self).scent_of(s), amount), ..old(self).scents@[scent_index(s)] },
            ),
            *final(self) == (Tile { scents: final(self).scents, ..*old(self) }),
            old(self).wf() ==> final(self).wf(),
    {
        let i = s.index();
        let mut e = self.scents[i];
        e.val = e.val.saturating_add(amount);
        self.scents[i] = e;
    }

    /// Fade every scent by one tick.
    pub fn decay(&mut self)
        ensures
            faded(*old(self), *final(self)),
            old(self).wf() ==> final(self).wf(),
    {
        let ghost t0 = *self;
        let mut k: usize = 0;
        while k < SCENT_COUNT
            invariant
                k <= SCENT_COUNT,
                *self == (Tile { scents: self.scents, ..t0 }),
                forall|q: int|
                    0 <= q < SCENT_COUNT ==> (#[trigger] self.scents@[q]).scent_type == t0.scents@[q].scent_type
                        && self.scents@[q].val == if q < k { scent_faded(t0.scents@[q].val) } else { t0.scents@[q].val },
            decreases SCENT_COUNT - k,
        {
            let mut e = self.scents[k];
            e.val = if e.val < SCENT_DECAY { 0 } else { e.val - SCENT_DECAY };
            self.scents[k] = e;
            k = k + 1;
        }
    }
}

} // verus!

//! Map objects that are drawn as a glyph: entities, and tiles built on them.
use vstd::prelude::*;
use crate::color::RGB;
use crate::pos::Pos;

verus! {

/// Something drawn at a position.
#[derive(Clone, Copy, Debug)]
pub struct Entity {
    pub pos: Pos,
    pub glyph: char,
    pub fg: RGB,
    pub bg: RGB,
}

impl Entity {
    pub fn new(pos: Pos, glyph: char, fg: RGB, bg: RGB) -> (r: Entity)
        ensures
            r == (Entity { pos, glyph, fg, bg }),
    {
        Entity { pos, glyph, fg, bg }
    }
}

/// An environmental cell drawn as an entity, which may block movement.
#[derive(Clone, Copy, Debug)]
pub struct Tile {
    pub entity: Entity,
    pub blocks: bool,
}

impl Tile {
    pub fn new(pos: Pos, glyph: char, fg: RGB, bg: RGB, blocks: bool) -> (r: Tile)
        ensures
            r == (Tile { entity: Entity { pos, glyph, fg, bg }, blocks }),
    {
        Tile { entity: Entity::new(pos, glyph, fg, bg), blocks }
    }
}

} // verus!

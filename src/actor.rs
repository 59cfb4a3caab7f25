//! Actors and fighters: things that are drawn on the map and move themselves.
use vstd::prelude::*;
use crate::color::RGB;
use crate::pos::{Pos, add_fits};

verus! {

/// A creature's body on the map.
#[derive(Clone, Copy, Debug)]
pub struct Actor {
    pub name: &'static str,
    pub glyph: char,
    pub pos: Pos,
    pub fg: RGB,
    pub bg: RGB,
}

impl Actor {
    /// Move by `x` columns and `y` rows.
    pub fn move_cart(&mut self, x: isize, y: isize)
        requires
            add_fits(old(self).pos, Pos { x, y }),
        ensures
            final(self).pos.x == old(self).pos.x + x,
            final(self).pos.y == old(self).pos.y + y,
            *final(self) == (Actor { pos: final(self).pos, ..*old(self) }),
    {
        self.pos = Pos::new(self.pos.x + x, self.pos.y + y);
    }

    /// Move by the offset `pos`.
    pub fn move_pos(&mut self, pos: Pos)
        requires
            add_fits(old(self).pos, pos),
        ensures
            final(self).pos.x == old(self).pos.x + pos.x,
            final(self).pos.y == old(self).pos.y + pos.y,
            *final(self) == (Actor { pos: final(self).pos, ..*old(self) }),
    {
        self.pos = self.pos.plus(pos);
    }

    pub fn new(name: &'static str, glyph: char, pos: Pos, fg: RGB, bg: RGB) -> (r: Actor)
        ensures
            r == (Actor { name, glyph, pos, fg, bg }),
    {
        Actor { name, glyph, pos, fg, bg }
    }

    /// Put the actor at `pos`.
    pub fn set_pos(&mut self, pos: Pos)
        ensures
            *final(self) == (Actor { pos, ..*old(self) }),
    {
        self.pos = pos;
    }

    pub fn get_bg(&self) -> (r: RGB)
        ensures
            r == self.bg,
    {
        self.bg
    }

    pub fn get_fg(&self) -> (r: RGB)
        ensures
            r == self.fg,
    {
        self.fg
    }

    pub fn get_glyph(&self) -> (r: char)
        ensures
            r == self.glyph,
    {
        self.glyph
    }

    pub fn get_name(&self) -> (r: &'static str)
        ensures
            r == self.name,
    {
        self.name
    }

    pub fn set_bg(&mut self, bg: RGB)
        ensures
            *final(self) == (Actor { bg, ..*old(self) }),
    {
        self.bg = bg;
    }

    pub fn set_fg(&mut self, fg: RGB)
        ensures
            *final(self) == (Actor { fg, ..*old(self) }),
    {
        self.fg = fg;
    }

    pub fn set_glyph(&mut self, glyph: char)
        ensures
            *final(self) == (Actor { glyph, ..*old(self) }),
    {
        self.glyph = glyph;
    }

    pub fn set_name(&mut self, name: &'static str)
        ensures
            *final(self) == (Actor { name, ..*old(self) }),
    {
        self.name = name;
    }
}

/// A named fighter on the map.
#[derive(Clone, Debug, Default)]
pub struct Fighter {
    pub name: String,
    pub glyph: char,
    pub pos: Pos,
    pub fg: RGB,
    pub bg: RGB,
}

impl Fighter {
    /// Move by `x` columns and `y` rows.
    pub fn move_cart(&mut self, x: isize, y: isize)
        requires
            add_fits(old(self).pos, Pos { x, y }),
        ensures
            final(self).pos.x == old(self).pos.x + x,
            final(self).pos.y == old(self).pos.y + y,
            final(self).name == old(self).name && final(self).glyph == old(self).glyph,
            final(self).fg == old(self).fg && final(self).bg == old(self).bg,
    {
        self.pos = Pos::new(self.pos.x + x, self.pos.y + y);
    }

    /// Move by the offset `pos`.
    pub fn move_pos(&mut self, pos: Pos)
        requires
            add_fits(old(self).pos, pos),
        ensures
            final(self).pos.x == old(self).pos.x + pos.x,
            final(self).pos.y == old(self).pos.y + pos.y,
            final(self).name == old(self).name && final(self).glyph == old(self).glyph,
            final(self).fg == old(self).fg && final(self).bg == old(self).bg,
    {
        self.pos = self.pos.plus(pos);
    }

    /// A fighter at `pos` with colours given as channel triples.
    pub fn new(name: String, glyph: char, pos: (isize, isize), fg: (u8, u8, u8), bg: (u8, u8, u8)) -> (r: Fighter)
        ensures
            r.name == name,
            r.glyph == glyph,
            r.pos == (Pos { x: pos.0, y: pos.1 }),
            r.fg == RGB(fg.0, fg.1, fg.2),
            r.bg == RGB(bg.0, bg.1, bg.2),
    {
        Fighter { name, glyph, pos: Pos::from_tup(pos), fg: RGB::from_tup(fg), bg: RGB::from_tup(bg) }
    }

    /// Put the fighter at `pos`.
    pub fn set_pos(&mut self, pos: Pos)
        ensures
            final(self).pos == pos,
            final(self).name == old(self).name && final(self).glyph == old(self).glyph,
            final(self).fg == old(self).fg && final(self).bg == old(self).bg,
    {
        self.pos = pos;
    }

    pub fn get_bg(&self) -> (r: RGB)
        ensures
            r == self.bg,
    {
        self.bg
    }

    pub fn get_fg(&self) -> (r: RGB)
        ensures
            r == self.fg,
    {
        self.fg
    }

    pub fn get_glyph(&self) -> (r: char)
        ensures
            r == self.glyph,
    {
        self.glyph
    }

    pub fn get_name(&self) -> (r: String)
        ensures
            r == self.name,
    {
        self.name.clone()
    }

    pub fn set_bg(&mut self, bg: (u8, u8, u8))
        ensures
            final(self).bg == RGB(bg.0, bg.1, bg.2),
            final(self).name == old(self).name && final(self).glyph == old(self).glyph,
            final(self).pos == old(self).pos && final(self).fg == old(self).fg,
    {
        self.bg = RGB::from_tup(bg);
    }

    pub fn set_fg(&mut self, fg: (u8, u8, u8))
        ensures
            final(self).fg == RGB(fg.0, fg.1, fg.2),
            final(self).name == old(self).name && final(self).glyph == old(self).glyph,
            final(self).pos == old(self).pos && final(self).bg == old(self).bg,
    {
        self.fg = RGB::from_tup(fg);
    }

    pub fn set_glyph(&mut self, glyph: char)
        ensures
            final(self).glyph == glyph,
            final(self).name == old(self).name && final(self).pos == old(self).pos,
            final(self).fg == old(self).fg && final(self).bg == old(self).bg,
    {
        self.glyph = glyph;
    }

    pub fn set_name(&mut self, name: String)
        ensures
            final(self).name == name,
            final(self).glyph == old(self).glyph && final(self).pos == old(self).pos,
            final(self).fg == old(self).fg && final(self).bg == old(self).bg,
    {
        self.name = name;
    }
}

} // verus!

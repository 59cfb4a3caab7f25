//! The turn state machine: what a key press does, and what a turn then updates.
use vstd::prelude::*;
use crate::actor::Actor;
use crate::color::RGB;
use crate::dungeon::{Dungeon, GenerationError, interior, is_down, pos_in};
use crate::grid::{cell, in_bounds};
use crate::pos::Pos;
use crate::tile::{SCENT_COUNT, Scent, Stair, Tile, Type, faded, is_spawnable, is_walkable, scent_add, scent_faded, scent_index};

verus! {

/// What the player did.
#[derive(Clone, Copy, PartialEq, Eq, Structural, Debug)]
pub enum Actions {
    Move,
    Wait,
    DownStair,
    UpStair,
    Unknown,
}

/// Where the game stands.
#[derive(Clone, Copy, PartialEq, Eq, Structural, Debug)]
pub enum State {
    New,
    Act(Actions),
}

/// Scent the player leaves around itself each turn.
pub const PLAYER_SCENT: u8 = 150;

/// The game: the current level, the player and the turn state.
#[derive(Clone, Debug)]
pub struct Game {
    pub dungeon: Dungeon,
    pub player: Actor,
    pub state: State,
}

/// The step a key moves the player by, for the movement keys.
pub open spec fn key_step(c: char) -> Option<(int, int)> {
    if c == 'h' {
        Some((-1, 0))
    } else if c == 'j' {
        Some((0, 1))
    } else if c == 'k' {
        Some((0, -1))
    } else if c == 'l' {
        Some((1, 0))
    } else if c == 'y' {
        Some((-1, -1))
    } else if c == 'u' {
        Some((1, -1))
    } else if c == 'b' {
        Some((-1, 1))
    } else if c == 'n' {
        Some((1, 1))
    } else {
        None
    }
}

/// The action a key stands for.
pub open spec fn key_action(c: char) -> Actions {
    if key_step(c) is Some {
        Actions::Move
    } else if c == '.' {
        Actions::Wait
    } else if c == '>' {
        Actions::DownStair
    } else if c == '<' {
        Actions::UpStair
    } else {
        Actions::Unknown
    }
}

/// A move or wait turn took tile `t0` to `t1`: only its scents changed, and
/// each faded by one tick after the player scent of a walkable cell `near` the
/// player was strengthened.
pub open spec fn turn_scents(t0: Tile, t1: Tile, near: bool) -> bool {
    &&& t1 == (Tile { scents: t1.scents, ..t0 })
    &&& forall|k: int|
        0 <= k < SCENT_COUNT ==> (#[trigger] t1.scents@[k]).scent_type == t0.scents@[k].scent_type
            && t1.scents@[k].val == scent_faded(
            if k == 0 && near && is_walkable(t0.tiletype) {
                scent_add(t0.scents@[0].val, PLAYER_SCENT)
            } else {
                t0.scents@[k].val
            },
        )
}

impl Game {
    /// The level is generated and small enough for positions, and the player stands on it.
    pub open spec fn wf(&self) -> bool {
        &&& self.dungeon.wf()
        &&& self.dungeon.width <= isize::MAX && self.dungeon.height <= isize::MAX
        &&& pos_in(self.player.pos, self.dungeon.width as int, self.dungeon.height as int)
    }

    /// Handle the printable character of a key press. A space does nothing. A
    /// movement key (h j k l y u b n) moves the player one step; `.` waits, `>`
    /// and `<` take a stair, any other key is unknown. A step off the level is
    /// undone and counts as unknown.
    pub fn process_keypress(&mut self, printable: char)
        requires
            old(self).wf(),
        ensures
            final(self).wf(),
            final(self).dungeon == old(self).dungeon,
            printable == ' ' ==> *final(self) == *old(self),
            printable != ' ' ==> ({
                let p = old(self).player.pos;
                let step = if key_step(printable) is Some { key_step(printable)->0 } else { (0, 0) };
                let tx = p.x + step.0;
                let ty = p.y + step.1;
                if 0 <= tx < old(self).dungeon.width && 0 <= ty < old(self).dungeon.height {
                    &&& final(self).player.pos.x == tx && final(self).player.pos.y == ty
                    &&& final(self).state == State::Act(key_action(printable))
                } else {
                    &&& final(self).player.pos == p
                    &&& final(self).state == State::Act(Actions::Unknown)
                }
            }),
            final(self).player == (Actor { pos: final(self).player.pos, ..old(self).player }),
    {
        if printable == ' ' {
            return;
        }
        let oldpos = self.player.pos;
        let (dx, dy, action): (isize, isize, Actions) = match printable {
            'h' => (-1, 0, Actions::Move),
            'j' => (0, 1, Actions::Move),
            'k' => (0, -1, Actions::Move),
            'l' => (1, 0, Actions::Move),
            'y' => (-1, -1, Actions::Move),
            'u' => (1, -1, Actions::Move),
            'b' => (-1, 1, Actions::Move),
            'n' => (1, 1, Actions::Move),
            '.' => (0, 0, Actions::Wait),
            '>' => (0, 0, Actions::DownStair),
            '<' => (0, 0, Actions::UpStair),
            _ => (0, 0, Actions::Unknown),
        };
        self.player.move_cart(dx, dy);
        self.state = State::Act(action);
        let p = self.player.pos;
        if !(p.x >= 0 && p.y >= 0 && self.dungeon.is_valid(p.x as usize, p.y as usize)) {
            self.player.set_pos(oldpos);
            self.state = State::Act(Actions::Unknown);
        }
    }

    /// A game on a freshly generated `map_dim.0` by `map_dim.1` level, with the
    /// player on a spawnable interior cell.
    pub fn new(map_dim: (isize, isize)) -> (r: Result<Game, GenerationError>)
        requires
            map_dim.0 >= 0,
            map_dim.1 >= 0,
        ensures
            r is Ok ==> ({
                let g = r->Ok_0;
                &&& g.wf()
                &&& g.dungeon.width == map_dim.0 && g.dungeon.height == map_dim.1
                &&& g.state == State::New
                &&& is_spawnable(cell(g.dungeon.grid@, g.player.pos.x as int, g.player.pos.y as int).tiletype)
            }),
            (map_dim.0 < 3 || map_dim.1 < 3) ==> r is Err,
    {
        let dungeon = match Dungeon::new(Pos::from_tup(map_dim)).build() {
            Ok(d) => d,
            Err(e) => return Err(e),
        };
        proof {
            assert(dungeon.grid@[0]@.len() == dungeon.height);
        }
        let loc = match Dungeon::get_valid_location(&dungeon.grid) {
            Ok(p) => p,
            Err(e) => return Err(e),
        };
        let player = Actor::new("Player", '@', loc, RGB(255, 255, 255), RGB(0, 0, 0));
        Ok(Game { dungeon, player, state: State::New })
    }

    /// Whether the player stands on the down stair.
    pub fn can_go_down(&self) -> (r: bool)
        requires
            self.wf(),
        ensures
            r == is_down(cell(self.dungeon.grid@, self.player.pos.x as int, self.player.pos.y as int).tiletype),
    {
        let t = self.dungeon.tile(self.player.pos);
        match t.tiletype {
            Type::Stair(Stair::DownStair(_)) => true,
            _ => false,
        }
    }

    /// Replace the level by a freshly generated one of the same size and put
    /// the player on a spawnable interior cell of it; on failure nothing changes.
    pub fn go_down(&mut self) -> (r: Result<(), GenerationError>)
        requires
            old(self).wf(),
        ensures
            final(self).wf(),
            final(self).state == old(self).state,
            final(self).player == (Actor { pos: final(self).player.pos, ..old(self).player }),
            r is Err ==> *final(self) == *old(self),
            r is Ok ==> final(self).dungeon.width == old(self).dungeon.width && final(self).dungeon.height == old(
                self,
            ).dungeon.height && is_spawnable(
                cell(final(self).dungeon.grid@, final(self).player.pos.x as int, final(self).player.pos.y as int).tiletype,
            ),
    {
        let bounds = self.dungeon.get_bounds_pos();
        let d = match Dungeon::new(bounds).build() {
            Ok(d) => d,
            Err(e) => return Err(e),
        };
        proof {
            assert(d.grid@[0]@.len() == d.height);
        }
        let loc = match Dungeon::get_valid_location(&d.grid) {
            Ok(p) => p,
            Err(e) => return Err(e),
        };
        self.dungeon = d;
        self.player.set_pos(loc);
        Ok(())
    }

    /// Advance the world after the player's action: moving or waiting leaves
    /// the player's scent around them and fades every scent; taking the down
    /// stair while on it generates the next level.
    pub fn update(&mut self)
        requires
            old(self).wf(),
        ensures
            final(self).wf(),
            final(self).state == old(self).state,
            final(self).player == (Actor { pos: final(self).player.pos, ..old(self).player }),
            !(old(self).state == State::Act(Actions::Move) || old(self).state == State::Act(Actions::Wait)
                || old(self).state == State::Act(Actions::DownStair)) ==> *final(self) == *old(self),
            old(self).state == State::Act(Actions::Move) || old(self).state == State::Act(Actions::Wait) ==> {
                &&& final(self).player == old(self).player
                &&& final(self).dungeon.width == old(self).dungeon.width
                &&& final(self).dungeon.height == old(self).dungeon.height
                &&& forall|i: int, j: int|
                    in_bounds(i, j, old(self).dungeon.width as int, old(self).dungeon.height as int) ==> {
                        let t0 = cell(old(self).dungeon.grid@, i, j);
                        let t1 = #[trigger] cell(final(self).dungeon.grid@, i, j);
                        let p = old(self).player.pos;
                        turn_scents(t0, t1, p.x - 1 <= i <= p.x + 1 && p.y - 1 <= j <= p.y + 1)
                    }
            },
            old(self).state == State::Act(Actions::DownStair) && is_down(
                cell(old(self).dungeon.grid@, old(self).player.pos.x as int, old(self).player.pos.y as int).tiletype,
            ) ==> final(self).dungeon.width == old(self).dungeon.width && final(self).dungeon.height == old(
                self,
            ).dungeon.height && (*final(self) == *old(self) || is_spawnable(
                cell(final(self).dungeon.grid@, final(self).player.pos.x as int, final(self).player.pos.y as int).tiletype,
            )),
            old(self).state == State::Act(Actions::DownStair) && !is_down(
                cell(old(self).dungeon.grid@, old(self).player.pos.x as int, old(self).player.pos.y as int).tiletype,
            ) ==> *final(self) == *old(self),
    {
        match self.state {
            State::Act(Actions::Move) | State::Act(Actions::Wait) => {
                let ghost d0 = self.dungeon;
                self.dungeon.reinforce_player_scent(self.player.pos, PLAYER_SCENT);
                let ghost d1 = self.dungeon;
                self.dungeon.decay_scents();
                proof {
                    assert forall|i: int, j: int| in_bounds(i, j, d0.width as int, d0.height as int) implies {
                        let t0 = cell(d0.grid@, i, j);
                        let t1 = #[trigger] cell(self.dungeon.grid@, i, j);
                        let p = self.player.pos;
                        turn_scents(t0, t1, p.x - 1 <= i <= p.x + 1 && p.y - 1 <= j <= p.y + 1)
                    } by {
                        let tm = cell(d1.grid@, i, j);
                        let t1 = cell(self.dungeon.grid@, i, j);
                        assert(faded(tm, t1));
                        assert(scent_index(Scent::Player) == 0);
                        assert forall|k: int| 0 <= k < SCENT_COUNT implies (#[trigger] t1.scents@[k]).scent_type
                            == cell(d0.grid@, i, j).scents@[k].scent_type by {
                            assert(tm.scents@[k].scent_type == cell(d0.grid@, i, j).scents@[k].scent_type);
                        }
                    }
                }
            },
            State::Act(Actions::DownStair) => {
                if self.can_go_down() {
                    let _ = self.go_down();
                }
            },
            _ => {},
        }
    }
}

} // verus!

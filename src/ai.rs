//! Monster behaviour: a tracker that closes in on the player, and a wanderer.
use vstd::prelude::*;
use crate::actor::{Actor, Fighter};
use crate::builder::{height_of, is_grid, width_of};
use crate::dungeon::pos_in;
use crate::game::Actions;
use crate::grid::{Grid, cell, in_bounds};
use crate::object;
use crate::pos::{Pos, dist_sq};
use crate::rng::random_range;
use crate::tile::{Tile, is_walkable, walkable};

verus! {

/// One step from `a` towards `b` along one axis.
pub open spec fn toward(a: int, b: int) -> int {
    if a < b { a + 1 } else if a > b { a - 1 } else { a }
}

/// `b` is close enough to track and far enough to need approaching: its
/// distance from `a` lies strictly between 2 and 20.
pub open spec fn in_range(a: Pos, b: Pos) -> bool {
    4 < dist_sq(a, b) < 400
}

/// Where the tracker at `me` moves when it tracks `target`: a step along x
/// unless that cell is not walkable, then a step along y unless that cell is not walkable.
pub open spec fn chase_target(map: Seq<Vec<Tile>>, me: Pos, target: Pos) -> (int, int) {
    let x1 = toward(me.x as int, target.x as int);
    let x = if is_walkable(cell(map, x1, me.y as int).tiletype) { x1 } else { me.x as int };
    let y1 = toward(me.y as int, target.y as int);
    let y = if is_walkable(cell(map, x, y1).tiletype) { y1 } else { me.y as int };
    (x, y)
}

/// A monster that follows the player when it is near.
#[derive(Clone, Copy, PartialEq, Eq, Structural, Debug)]
pub struct TrackerAI;

impl TrackerAI {
    pub fn new() -> (r: TrackerAI)
        ensures
            r == TrackerAI,
    {
        TrackerAI
    }

    /// Take a turn: when the player is in range, step towards them, axis by
    /// axis, onto walkable cells only, and report a move; otherwise wait.
    pub fn take_turn(&mut self, map: &Grid<Tile>, player: &Actor, me: &mut Actor) -> (r: Actions)
        requires
            is_grid(map@),
            in_range(old(me).pos, player.pos) ==> pos_in(old(me).pos, width_of(map@), height_of(map@))
                && pos_in(player.pos, width_of(map@), height_of(map@)),
        ensures
            r == if in_range(old(me).pos, player.pos) { Actions::Move } else { Actions::Wait },
            in_range(old(me).pos, player.pos) ==> final(me).pos.x == chase_target(map@, old(me).pos, player.pos).0
                && final(me).pos.y == chase_target(map@, old(me).pos, player.pos).1,
            !in_range(old(me).pos, player.pos) ==> final(me).pos == old(me).pos,
            *final(me) == (Actor { pos: final(me).pos, ..*old(me) }),
    {
        let d = me.pos.distance_squared(&player.pos);
        if !(d < 400 && d > 4) {
            return Actions::Wait;
        }
        let me_x = me.pos.x as usize;
        let me_y = me.pos.y as usize;
        let px = player.pos.x as usize;
        let py = player.pos.y as usize;
        let mut x = me_x;
        if x < px {
            x = x + 1;
        } else if x > px {
            x = x - 1;
        }
        proof {
            assert(map@[x as int]@.len() == height_of(map@));
            assert(map@[me_x as int]@.len() == height_of(map@));
        }
        if !walkable(&map[x][me_y]) {
            x = me_x;
        }
        let mut y = me_y;
        if y < py {
            y = y + 1;
        } else if y > py {
            y = y - 1;
        }
        proof {
            assert(map@[x as int]@.len() == height_of(map@));
        }
        if !walkable(&map[x][y]) {
            y = me_y;
        }
        me.pos = Pos::new(x as isize, y as isize);
        Actions::Move
    }
}

/// Where a wanderer at `(x, y)` tries to go for a die roll of 1 to 4.
pub open spec fn roll_target(x: int, y: int, dice: int) -> (int, int) {
    if dice == 1 {
        (x + 1, y)
    } else if dice == 2 {
        (x - 1, y)
    } else if dice == 3 {
        (x, y + 1)
    } else {
        (x, y - 1)
    }
}

/// `p` is a cell of `map` that does not block.
pub open spec fn free(map: Seq<Vec<object::Tile>>, p: (int, int)) -> bool {
    in_bounds(p.0, p.1, width_of(map), height_of(map)) && !cell(map, p.0, p.1).blocks
}

/// Tries a wanderer makes before it stays put.
pub const WANDER_TRIES: usize = 101;

/// A monster that wanders at random.
#[derive(Clone, Copy, PartialEq, Eq, Structural, Debug)]
pub struct SimpleAI;

/// The cell a wanderer at `(x, y)` moves to for die roll `dice`, if it is free.
pub fn wander_step(map: &Grid<object::Tile>, x: usize, y: usize, dice: usize) -> (r: Option<(usize, usize)>)
    requires
        is_grid(map@),
        in_bounds(x as int, y as int, width_of(map@), height_of(map@)),
        1 <= dice <= 4,
    ensures
        ({
            let t = roll_target(x as int, y as int, dice as int);
            r == if free(map@, t) { Some((t.0 as usize, t.1 as usize)) } else { None::<(usize, usize)> }
        }),
{
    let w = map.len();
    let h = map[0].len();
    let target: Option<(usize, usize)> = if dice == 1 {
        if x + 1 < w { Some((x + 1, y)) } else { None }
    } else if dice == 2 {
        if x > 0 { Some((x - 1, y)) } else { None }
    } else if dice == 3 {
        if y + 1 < h { Some((x, y + 1)) } else { None }
    } else {
        if y > 0 { Some((x, y - 1)) } else { None }
    };
    match target {
        Some(t) => {
            assert(map@[t.0 as int]@.len() == h);
            if map[t.0][t.1].blocks {
                None
            } else {
                Some(t)
            }
        },
        None => None,
    }
}

impl SimpleAI {
    pub fn new() -> (r: SimpleAI)
        ensures
            r == SimpleAI,
    {
        SimpleAI
    }

    /// Take a turn: roll a direction until one leads to a free cell and step
    /// there; after `WANDER_TRIES` failed rolls, stay put.
    pub fn take_turn(&mut self, map: &Grid<object::Tile>, _player: &Fighter, me: &mut Fighter)
        requires
            is_grid(map@),
            width_of(map@) <= isize::MAX,
            height_of(map@) <= isize::MAX,
            pos_in(old(me).pos, width_of(map@), height_of(map@)),
        ensures
            final(me).pos == old(me).pos || exists|d: int|
                1 <= d <= 4 && roll_target(old(me).pos.x as int, old(me).pos.y as int, d) == (
                final(me).pos.x as int,
                final(me).pos.y as int,
            ) && free(map@, (final(me).pos.x as int, final(me).pos.y as int)),
            final(me).name == old(me).name && final(me).glyph == old(me).glyph,
            final(me).fg == old(me).fg && final(me).bg == old(me).bg,
    {
        let x = me.pos.x as usize;
        let y = me.pos.y as usize;
        let mut count: usize = 0;
        while count < WANDER_TRIES
            invariant
                is_grid(map@),
                in_bounds(x as int, y as int, width_of(map@), height_of(map@)),
                width_of(map@) <= isize::MAX && height_of(map@) <= isize::MAX,
                x == old(me).pos.x && y == old(me).pos.y,
                *me == *old(me),
            decreases WANDER_TRIES - count,
        {
            let dice = random_range(1, 5);
            match wander_step(map, x, y, dice) {
                Some(t) => {
                    me.set_pos(Pos::from_usize(t.0, t.1));
                    assert(roll_target(x as int, y as int, dice as int) == (t.0 as int, t.1 as int));
                    return;
                },
                None => {},
            }
            count = count + 1;
        }
    }
}

} // verus!

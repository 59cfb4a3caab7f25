//! Two-dimensional integer coordinates.
use vstd::prelude::*;

verus! {

/// A point on the map, or an offset between two points.
#[derive(Clone, Copy, PartialEq, Eq, Structural, Debug, Default)]
pub struct Pos {
    pub x: isize,
    pub y: isize,
}

/// Squared Euclidean distance between two points, as an unbounded integer.
pub open spec fn dist_sq(a: Pos, b: Pos) -> int {
    (a.x - b.x) * (a.x - b.x) + (a.y - b.y) * (a.y - b.y)
}

/// Whether the component-wise sum of two points fits in `isize`.
pub open spec fn add_fits(a: Pos, b: Pos) -> bool {
    isize::MIN <= a.x + b.x <= isize::MAX && isize::MIN <= a.y + b.y <= isize::MAX
}

impl Pos {
    pub fn new(x: isize, y: isize) -> (r: Pos)
        ensures
            r.x == x,
            r.y == y,
    {
        Pos { x, y }
    }

    /// A point from unsigned grid coordinates.
    pub fn from_usize(x: usize, y: usize) -> (r: Pos)
        requires
            x <= isize::MAX,
            y <= isize::MAX,
        ensures
            r.x == x,
            r.y == y,
    {
        Pos { x: x as isize, y: y as isize }
    }

    pub fn from_tup(t: (isize, isize)) -> (r: Pos)
        ensures
            r.x == t.0,
            r.y == t.1,
    {
        Pos { x: t.0, y: t.1 }
    }

    /// Component-wise sum.
    pub fn plus(self, o: Pos) -> (r: Pos)
        requires
            add_fits(self, o),
        ensures
            r.x == self.x + o.x,
            r.y == self.y + o.y,
    {
        Pos { x: self.x + o.x, y: self.y + o.y }
    }

    /// Squared Euclidean distance to `o`; the Euclidean distance is below `d`
    /// exactly when this is below `d * d`. Saturates at `u128::MAX`.
    pub fn distance_squared(&self, o: &Pos) -> (r: u128)
        ensures
            r == if dist_sq(*self, *o) <= u128::MAX { dist_sq(*self, *o) } else { u128::MAX as int },
    {
        let dx: u128 = if self.x >= o.x {
            (self.x as i128 - o.x as i128) as u128
        } else {
            (o.x as i128 - self.x as i128) as u128
        };
        let dy: u128 = if self.y >= o.y {
            (self.y as i128 - o.y as i128) as u128
        } else {
            (o.y as i128 - self.y as i128) as u128
        };
        assert(dx * dx <= u128::MAX && dy * dy <= u128::MAX) by (nonlinear_arith)
            requires
                dx <= u64::MAX,
                dy <= u64::MAX,
        ;
        let sx: u128 = dx * dx;
        let sy: u128 = dy * dy;
        assert(sx == (self.x - o.x) * (self.x - o.x)) by (nonlinear_arith)
            requires
                dx == self.x - o.x || dx == o.x - self.x,
                sx == dx * dx,
        ;
        assert(sy == (self.y - o.y) * (self.y - o.y)) by (nonlinear_arith)
            requires
                dy == self.y - o.y || dy == o.y - self.y,
                sy == dy * dy,
        ;
        sx.saturating_add(sy)
    }
}

} // verus!

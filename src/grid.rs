//! Rectangular grids addressed by column, then row.
use vstd::prelude::*;

verus! {

/// A grid: a sequence of `width` columns, each of `height` cells, indexed `[x][y]`.
pub type Grid<T> = Vec<Vec<T>>;

/// `g` has exactly `w` columns of exactly `h` cells each.
pub open spec fn grid_wf<T>(g: Seq<Vec<T>>, w: int, h: int) -> bool {
    &&& g.len() == w
    &&& forall|i: int| 0 <= i < w ==> (#[trigger] g[i])@.len() == h
}

/// The cell at column `x`, row `y`.
pub open spec fn cell<T>(g: Seq<Vec<T>>, x: int, y: int) -> T {
    g[x]@[y]
}

/// Whether `(x, y)` lies in a grid of `w` columns and `h` rows.
pub open spec fn in_bounds(x: int, y: int, w: int, h: int) -> bool {
    0 <= x < w && 0 <= y < h
}

} // verus!

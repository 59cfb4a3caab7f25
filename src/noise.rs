//! Threshold noise masks: coherent value noise cut at a threshold into 0/1 cells.
use vstd::prelude::*;
use crate::builder::{height_of, is_grid, width_of};
use crate::grid::{Grid, cell, grid_wf, in_bounds};
use crate::rng::random_range;

verus! {

/// Cells between two lattice points of the noise.
pub const LATTICE_STEP: usize = 8;
/// Lattice values lie in `[0, NOISE_SCALE)`.
pub const NOISE_SCALE: u32 = 1000;

/// A lattice fit to interpolate a `w` by `h` field: enough points, all in range.
pub open spec fn lattice_fits(lat: Seq<Vec<u32>>, w: int, h: int) -> bool {
    &&& is_grid(lat)
    &&& width_of(lat) >= w / (LATTICE_STEP as int) + 2
    &&& height_of(lat) >= h / (LATTICE_STEP as int) + 2
    &&& forall|i: int, j: int|
        in_bounds(i, j, width_of(lat), height_of(lat)) ==> #[trigger] cell(lat, i, j) < NOISE_SCALE
}

/// The noise at `(x, y)`: the lattice values around the cell, blended bilinearly
/// by the cell's offset from its lattice point, rounded down.
pub open spec fn noise_value(lat: Seq<Vec<u32>>, x: int, y: int) -> int {
    let s = LATTICE_STEP as int;
    let gx = x / s;
    let gy = y / s;
    let fx = x % s;
    let fy = y % s;
    (cell(lat, gx, gy) * (s - fx) * (s - fy) + cell(lat, gx + 1, gy) * fx * (s - fy) + cell(lat, gx, gy + 1)
        * (s - fx) * fy + cell(lat, gx + 1, gy + 1) * fx * fy) / (s * s)
}

/// The mask value of a cell: 1 where the noise reaches `cutoff`.
pub open spec fn mask_bit(lat: Seq<Vec<u32>>, x: int, y: int, cutoff: u32) -> u8 {
    if noise_value(lat, x, y) >= cutoff { 1 } else { 0 }
}

proof fn lemma_weight_bound(v: int, a: int, b: int)
    requires
        0 <= v < 1000,
        0 <= a <= 8,
        0 <= b <= 8,
    ensures
        0 <= v * a <= 8000,
        0 <= v * a * b <= 64000,
{
    assert(0 <= v * a <= 8000) by (nonlinear_arith)
        requires
            0 <= v < 1000,
            0 <= a <= 8,
    ;
    assert(0 <= a * b <= 64) by (nonlinear_arith)
        requires
            0 <= a <= 8,
            0 <= b <= 8,
    ;
    assert(v * a * b == v * (a * b)) by (nonlinear_arith);
    assert(0 <= v * (a * b) <= 64000) by (nonlinear_arith)
        requires
            0 <= v < 1000,
            0 <= a * b <= 64,
    ;
}

/// The noise at `(x, y)`.
pub fn noise_at(lat: &Grid<u32>, x: usize, y: usize) -> (r: u32)
    requires
        lattice_fits(lat@, x as int + 1, y as int + 1),
    ensures
        r == noise_value(lat@, x as int, y as int),
{
    let s: usize = LATTICE_STEP;
    let gx = x / s;
    let gy = y / s;
    let fx = x % s;
    let fy = y % s;
    proof {
        assert(gx + 1 < width_of(lat@)) by (nonlinear_arith)
            requires
                gx == x / 8,
                width_of(lat@) >= (x + 1) / 8 + 2,
        ;
        assert(gy + 1 < height_of(lat@)) by (nonlinear_arith)
            requires
                gy == y / 8,
                height_of(lat@) >= (y + 1) / 8 + 2,
        ;
        assert(lat@[gx as int]@.len() == height_of(lat@));
        assert(lat@[gx + 1]@.len() == height_of(lat@));
    }
    let v00 = lat[gx][gy] as u64;
    let v10 = lat[gx + 1][gy] as u64;
    let v01 = lat[gx][gy + 1] as u64;
    let v11 = lat[gx + 1][gy + 1] as u64;
    let sx = (s - fx) as u64;
    let sy = (s - fy) as u64;
    let fx = fx as u64;
    let fy = fy as u64;
    proof {
        assert(v00 < 1000 && v10 < 1000 && v01 < 1000 && v11 < 1000) by {
            assert(cell(lat@, gx as int, gy as int) < NOISE_SCALE);
            assert(cell(lat@, gx + 1, gy as int) < NOISE_SCALE);
            assert(cell(lat@, gx as int, gy + 1) < NOISE_SCALE);
            assert(cell(lat@, gx + 1, gy + 1) < NOISE_SCALE);
        }
        lemma_weight_bound(v00 as int, sx as int, sy as int);
        lemma_weight_bound(v10 as int, fx as int, sy as int);
        lemma_weight_bound(v01 as int, sx as int, fy as int);
        lemma_weight_bound(v11 as int, fx as int, fy as int);
    }
    let sum = v00 * sx * sy + v10 * fx * sy + v01 * sx * fy + v11 * fx * fy;
    (sum / 64) as u32
}

/// The 0/1 mask of a `w` by `h` grid: 1 exactly where the noise reaches `cutoff`.
pub fn threshold_mask(lat: &Grid<u32>, w: usize, h: usize, cutoff: u32) -> (r: Grid<u8>)
    requires
        lattice_fits(lat@, w as int, h as int),
    ensures
        grid_wf(r@, w as int, h as int),
        forall|i: int, j: int|
            in_bounds(i, j, w as int, h as int) ==> #[trigger] cell(r@, i, j) == mask_bit(lat@, i, j, cutoff),
{
    let mut grid: Grid<u8> = Vec::new();
    let mut x: usize = 0;
    while x < w
        invariant
            x <= w,
            lattice_fits(lat@, w as int, h as int),
            grid_wf(grid@, x as int, h as int),
            forall|i: int, j: int|
                in_bounds(i, j, x as int, h as int) ==> #[trigger] cell(grid@, i, j) == mask_bit(lat@, i, j, cutoff),
        decreases w - x,
    {
        let mut column: Vec<u8> = Vec::new();
        let mut y: usize = 0;
        while y < h
            invariant
                x < w,
                y <= h,
                lattice_fits(lat@, w as int, h as int),
                column@.len() == y,
                forall|j: int| 0 <= j < y ==> #[trigger] column@[j] == mask_bit(lat@, x as int, j, cutoff),
            decreases h - y,
        {
            proof {
                assert((x as int + 1) / 8 <= (w as int) / 8 && (y as int + 1) / 8 <= (h as int) / 8) by (nonlinear_arith)
                    requires
                        x < w,
                        y < h,
                ;
            }
            let n = noise_at(lat, x, y);
            column.push(if n >= cutoff { 1u8 } else { 0u8 });
            y = y + 1;
        }
        let ghost col = column@;
        let ghost before = grid@;
        grid.push(column);
        proof {
            assert forall|i: int, j: int| in_bounds(i, j, x + 1, h as int) implies #[trigger] cell(grid@, i, j)
                == mask_bit(lat@, i, j, cutoff) by {
                if i == x as int {
                    assert(grid@[i]@ == col);
                } else {
                    assert(grid@[i] == before[i]);
                    assert(cell(before, i, j) == mask_bit(lat@, i, j, cutoff));
                }
            }
        }
        x = x + 1;
    }
    grid
}

/// A lattice of `cols` by `rows` values drawn at random from `[0, NOISE_SCALE)`.
fn random_lattice(cols: usize, rows: usize) -> (r: Grid<u32>)
    ensures
        grid_wf(r@, cols as int, rows as int),
        forall|i: int, j: int| in_bounds(i, j, cols as int, rows as int) ==> #[trigger] cell(r@, i, j) < NOISE_SCALE,
{
    let mut grid: Grid<u32> = Vec::new();
    let mut x: usize = 0;
    while x < cols
        invariant
            x <= cols,
            grid_wf(grid@, x as int, rows as int),
            forall|i: int, j: int| in_bounds(i, j, x as int, rows as int) ==> #[trigger] cell(grid@, i, j) < NOISE_SCALE,
        decreases cols - x,
    {
        let mut column: Vec<u32> = Vec::new();
        let mut y: usize = 0;
        while y < rows
            invariant
                y <= rows,
                column@.len() == y,
                forall|j: int| 0 <= j < y ==> #[trigger] column@[j] < NOISE_SCALE,
            decreases rows - y,
        {
            let v = random_range(0, NOISE_SCALE as usize);
            column.push(v as u32);
            y = y + 1;
        }
        let ghost col = column@;
        let ghost before = grid@;
        grid.push(column);
        proof {
            assert forall|i: int, j: int| in_bounds(i, j, x + 1, rows as int) implies #[trigger] cell(grid@, i, j)
                < NOISE_SCALE by {
                if i == x as int {
                    assert(grid@[i]@ == col);
                } else {
                    assert(grid@[i] == before[i]);
                    assert(cell(before, i, j) < NOISE_SCALE);
                }
            }
        }
        x = x + 1;
    }
    grid
}

/// A noise-mask builder over the shape of `grid`, cutting at `cutoff`: each
/// build draws a fresh lattice, so two builds are independent.
pub struct Fussy {
    pub grid: Grid<u8>,
    pub cutoff: u32,
}

impl Fussy {
    pub fn new(grid: Grid<u8>, cutoff: u32) -> (r: Fussy)
        ensures
            r.grid == grid,
            r.cutoff == cutoff,
    {
        Fussy { grid, cutoff }
    }

    /// A mask of the builder's grid's shape, each cell 0 or 1: 1 exactly where
    /// the noise of a freshly drawn lattice reaches the cutoff.
    pub fn build(self) -> (r: Grid<u8>)
        requires
            is_grid(self.grid@),
        ensures
            grid_wf(r@, width_of(self.grid@), height_of(self.grid@)),
            forall|i: int, j: int|
                in_bounds(i, j, width_of(self.grid@), height_of(self.grid@)) ==> #[trigger] cell(r@, i, j) == 0
                    || cell(r@, i, j) == 1,
    {
        let w = self.grid.len();
        let h: usize = if w > 0 { self.grid[0].len() } else { 0 };
        let lat = random_lattice(w / LATTICE_STEP + 2, h / LATTICE_STEP + 2);
        let r = threshold_mask(&lat, w, h, self.cutoff);
        proof {
            assert forall|i: int, j: int|
                in_bounds(i, j, w as int, h as int) implies #[trigger] cell(r@, i, j) == 0 || cell(r@, i, j) == 1 by {
                assert(cell(r@, i, j) == mask_bit(lat@, i, j, self.cutoff));
            }
        }
        r
    }
}

} // verus!

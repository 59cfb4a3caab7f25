//! Counting the spawnable interior cells of a tile grid.
use vstd::prelude::*;
use crate::builder::{height_of, width_of};
use crate::grid::cell;
use crate::tile::{Tile, is_spawnable};

verus! {

/// Spawnable cells of column `x` among rows `1 .. y`.
pub open spec fn col_spawn(g: Seq<Vec<Tile>>, x: int, y: int) -> nat
    decreases y,
{
    if y <= 1 {
        0
    } else {
        col_spawn(g, x, y - 1) + if is_spawnable(cell(g, x, y - 1).tiletype) { 1nat } else { 0nat }
    }
}

/// Spawnable cells of columns `1 .. x` among rows `1 .. h - 1`.
pub open spec fn spawn_upto(g: Seq<Vec<Tile>>, x: int, h: int) -> nat
    decreases x,
{
    if x <= 1 {
        0
    } else {
        spawn_upto(g, x - 1, h) + col_spawn(g, x - 1, h - 1)
    }
}

/// Number of spawnable cells of `g` off its border.
pub open spec fn spawn_count(g: Seq<Vec<Tile>>) -> nat {
    spawn_upto(g, width_of(g) - 1, height_of(g))
}

proof fn lemma_col_zero(g: Seq<Vec<Tile>>, x: int, y: int)
    requires
        forall|j: int| 1 <= j < y ==> !is_spawnable(#[trigger] cell(g, x, j).tiletype),
    ensures
        col_spawn(g, x, y) == 0,
    decreases y,
{
    if y > 1 {
        lemma_col_zero(g, x, y - 1);
    }
}

proof fn lemma_upto_zero(g: Seq<Vec<Tile>>, x: int, h: int)
    requires
        forall|i: int, j: int| 1 <= i < x && 1 <= j < h - 1 ==> !is_spawnable(#[trigger] cell(g, i, j).tiletype),
    ensures
        spawn_upto(g, x, h) == 0,
    decreases x,
{
    if x > 1 {
        lemma_upto_zero(g, x - 1, h);
        assert forall|j: int| 1 <= j < h - 1 implies !is_spawnable(#[trigger] cell(g, x - 1, j).tiletype) by {}
        lemma_col_zero(g, x - 1, h - 1);
    }
}

/// With no spawnable interior cell, the count is zero.
pub proof fn lemma_count_zero(g: Seq<Vec<Tile>>)
    requires
        forall|i: int, j: int|
            1 <= i < width_of(g) - 1 && 1 <= j < height_of(g) - 1 ==> !is_spawnable(#[trigger] cell(g, i, j).tiletype),
    ensures
        spawn_count(g) == 0,
{
    lemma_upto_zero(g, width_of(g) - 1, height_of(g));
}

proof fn lemma_col_diff(g1: Seq<Vec<Tile>>, g2: Seq<Vec<Tile>>, x: int, y: int, p: (int, int))
    requires
        forall|j: int|
            1 <= j < y && (x, j) != p ==> is_spawnable(#[trigger] cell(g1, x, j).tiletype) == is_spawnable(
                cell(g2, x, j).tiletype,
            ),
        p.0 == x ==> is_spawnable(cell(g1, p.0, p.1).tiletype) && !is_spawnable(cell(g2, p.0, p.1).tiletype),
    ensures
        col_spawn(g1, x, y) == col_spawn(g2, x, y) + if p.0 == x && 1 <= p.1 < y { 1nat } else { 0nat },
    decreases y,
{
    if y > 1 {
        lemma_col_diff(g1, g2, x, y - 1, p);
        if (x, y - 1) != p {
            assert(is_spawnable(cell(g1, x, y - 1).tiletype) == is_spawnable(cell(g2, x, y - 1).tiletype));
        }
    }
}

proof fn lemma_upto_diff(g1: Seq<Vec<Tile>>, g2: Seq<Vec<Tile>>, x: int, h: int, p: (int, int))
    requires
        forall|i: int, j: int|
            1 <= i < x && 1 <= j < h - 1 && (i, j) != p ==> is_spawnable(#[trigger] cell(g1, i, j).tiletype)
                == is_spawnable(cell(g2, i, j).tiletype),
        is_spawnable(cell(g1, p.0, p.1).tiletype) && !is_spawnable(cell(g2, p.0, p.1).tiletype),
        1 <= p.1 < h - 1,
    ensures
        spawn_upto(g1, x, h) == spawn_upto(g2, x, h) + if 1 <= p.0 < x { 1nat } else { 0nat },
    decreases x,
{
    if x > 1 {
        lemma_upto_diff(g1, g2, x - 1, h, p);
        assert forall|j: int|
            1 <= j < h - 1 && (x - 1, j) != p implies is_spawnable(#[trigger] cell(g1, x - 1, j).tiletype)
                == is_spawnable(cell(g2, x - 1, j).tiletype) by {}
        lemma_col_diff(g1, g2, x - 1, h - 1, p);
    }
}

/// Turning one spawnable interior cell into a cell that is not spawnable,
/// leaving the others' spawnability alone, lowers the count by one.
pub proof fn lemma_count_less_one(g1: Seq<Vec<Tile>>, g2: Seq<Vec<Tile>>, p: (int, int))
    requires
        width_of(g1) == width_of(g2) && height_of(g1) == height_of(g2),
        1 <= p.0 < width_of(g1) - 1 && 1 <= p.1 < height_of(g1) - 1,
        forall|i: int, j: int|
            1 <= i < width_of(g1) - 1 && 1 <= j < height_of(g1) - 1 && (i, j) != p ==> is_spawnable(
                #[trigger] cell(g1, i, j).tiletype,
            ) == is_spawnable(cell(g2, i, j).tiletype),
        is_spawnable(cell(g1, p.0, p.1).tiletype),
        !is_spawnable(cell(g2, p.0, p.1).tiletype),
    ensures
        spawn_count(g1) == spawn_count(g2) + 1,
{
    lemma_upto_diff(g1, g2, width_of(g1) - 1, height_of(g1), p);
}

} // verus!

//! Walkable paths through a tile grid, and the lemmas that keep a map connected.
use vstd::prelude::*;
use crate::tile::{Tile, is_walkable};

verus! {

/// The cell `p` lies in `g` and is walkable.
pub open spec fn open_at(g: Seq<Vec<Tile>>, p: (int, int)) -> bool {
    &&& 0 <= p.0 < g.len()
    &&& 0 <= p.1 < g[p.0]@.len()
    &&& is_walkable(g[p.0]@[p.1].tiletype)
}

/// `a` and `b` share a side.
pub open spec fn adjacent(a: (int, int), b: (int, int)) -> bool {
    ||| (a.0 == b.0 && (a.1 - b.1 == 1 || b.1 - a.1 == 1))
    ||| (a.1 == b.1 && (a.0 - b.0 == 1 || b.0 - a.0 == 1))
}

/// A non-empty walk over walkable cells, each step to a side neighbour.
pub open spec fn is_path(g: Seq<Vec<Tile>>, p: Seq<(int, int)>) -> bool {
    &&& p.len() > 0
    &&& forall|i: int| 0 <= i < p.len() ==> open_at(g, #[trigger] p[i])
    &&& forall|i: int| 0 <= i < p.len() - 1 ==> adjacent(#[trigger] p[i], p[i + 1])
}

/// There is a walk from `a` to `b`.
pub open spec fn reach(g: Seq<Vec<Tile>>, a: (int, int), b: (int, int)) -> bool {
    exists|p: Seq<(int, int)>| is_path(g, p) && p[0] == a && p.last() == b
}

/// Every walkable cell can be reached from every other walkable cell.
pub open spec fn connected(g: Seq<Vec<Tile>>) -> bool {
    forall|a: (int, int), b: (int, int)| open_at(g, a) && open_at(g, b) ==> #[trigger] reach(g, a, b)
}

/// Every walkable cell can walk to `hub`.
pub open spec fn all_reach(g: Seq<Vec<Tile>>, hub: (int, int)) -> bool {
    forall|a: (int, int)| open_at(g, a) ==> #[trigger] reach(g, a, hub)
}

/// No cell of `g` is walkable.
pub open spec fn none_open(g: Seq<Vec<Tile>>) -> bool {
    forall|a: (int, int)| !#[trigger] open_at(g, a)
}

/// Every cell walkable in `g1` is walkable in `g2`.
pub open spec fn opens_kept(g1: Seq<Vec<Tile>>, g2: Seq<Vec<Tile>>) -> bool {
    forall|a: (int, int)| open_at(g1, a) ==> #[trigger] open_at(g2, a)
}

/// `g1` and `g2` have the same walkable cells.
pub open spec fn same_opens(g1: Seq<Vec<Tile>>, g2: Seq<Vec<Tile>>) -> bool {
    forall|a: (int, int)| #[trigger] open_at(g1, a) == open_at(g2, a)
}

pub proof fn lemma_reach_refl(g: Seq<Vec<Tile>>, a: (int, int))
    requires
        open_at(g, a),
    ensures
        reach(g, a, a),
{
    let p = seq![a];
    assert(is_path(g, p));
    assert(p[0] == a && p.last() == a);
}

/// A walk can be extended by one step.
pub proof fn lemma_reach_step(g: Seq<Vec<Tile>>, a: (int, int), b: (int, int), c: (int, int))
    requires
        reach(g, a, b),
        adjacent(b, c),
        open_at(g, c),
    ensures
        reach(g, a, c),
{
    let p = choose|p: Seq<(int, int)>| is_path(g, p) && p[0] == a && p.last() == b;
    let q = p.push(c);
    assert forall|i: int| 0 <= i < q.len() - 1 implies adjacent(#[trigger] q[i], q[i + 1]) by {
        if i < p.len() - 1 {
            assert(q[i] == p[i] && q[i + 1] == p[i + 1]);
        }
    }
    assert forall|i: int| 0 <= i < q.len() implies open_at(g, #[trigger] q[i]) by {
        if i < p.len() {
            assert(q[i] == p[i]);
        }
    }
    assert(is_path(g, q));
    assert(q[0] == a && q.last() == c);
}

pub proof fn lemma_reach_sym(g: Seq<Vec<Tile>>, a: (int, int), b: (int, int))
    requires
        reach(g, a, b),
    ensures
        reach(g, b, a),
{
    let p = choose|p: Seq<(int, int)>| is_path(g, p) && p[0] == a && p.last() == b;
    let n = p.len();
    let q = Seq::new(n, |i: int| p[n - 1 - i]);
    assert forall|i: int| 0 <= i < q.len() - 1 implies adjacent(#[trigger] q[i], q[i + 1]) by {
        assert(adjacent(p[n - 2 - i], p[n - 2 - i + 1]));
    }
    assert forall|i: int| 0 <= i < q.len() implies open_at(g, #[trigger] q[i]) by {
        assert(open_at(g, p[n - 1 - i]));
    }
    assert(is_path(g, q));
    assert(q[0] == b && q.last() == a);
}

pub proof fn lemma_reach_trans(g: Seq<Vec<Tile>>, a: (int, int), b: (int, int), c: (int, int))
    requires
        reach(g, a, b),
        reach(g, b, c),
    ensures
        reach(g, a, c),
{
    let p = choose|p: Seq<(int, int)>| is_path(g, p) && p[0] == a && p.last() == b;
    let r = choose|r: Seq<(int, int)>| is_path(g, r) && r[0] == b && r.last() == c;
    let q = p + r.subrange(1, r.len() as int);
    let n = p.len();
    assert forall|i: int| 0 <= i < q.len() implies open_at(g, #[trigger] q[i]) by {
        if i < n {
            assert(q[i] == p[i]);
        } else {
            assert(q[i] == r[i - n + 1]);
        }
    }
    assert forall|i: int| 0 <= i < q.len() - 1 implies adjacent(#[trigger] q[i], q[i + 1]) by {
        if i < n - 1 {
            assert(q[i] == p[i] && q[i + 1] == p[i + 1]);
        } else if i == n - 1 {
            assert(q[i] == r[0] && q[i + 1] == r[1]);
        } else {
            assert(q[i] == r[i - n + 1] && q[i + 1] == r[i - n + 2]);
        }
    }
    assert(is_path(g, q));
    if r.len() == 1 {
        assert(q.last() == p.last());
    } else {
        assert(q.last() == r.last());
    }
}

/// Walks survive in a grid where every walkable cell stays walkable.
pub proof fn lemma_reach_mono(g1: Seq<Vec<Tile>>, g2: Seq<Vec<Tile>>, a: (int, int), b: (int, int))
    requires
        reach(g1, a, b),
        opens_kept(g1, g2),
    ensures
        reach(g2, a, b),
{
    let p = choose|p: Seq<(int, int)>| is_path(g1, p) && p[0] == a && p.last() == b;
    assert forall|i: int| 0 <= i < p.len() implies open_at(g2, #[trigger] p[i]) by {
        assert(open_at(g1, p[i]));
    }
    assert(is_path(g2, p));
}

/// A hub that every walkable cell reaches makes the grid connected.
pub proof fn lemma_hub_connected(g: Seq<Vec<Tile>>, hub: (int, int))
    requires
        all_reach(g, hub),
    ensures
        connected(g),
{
    assert forall|a: (int, int), b: (int, int)| open_at(g, a) && open_at(g, b) implies #[trigger] reach(g, a, b) by {
        assert(reach(g, b, hub));
        lemma_reach_sym(g, b, hub);
        lemma_reach_trans(g, a, hub, b);
    }
}

/// Hub reachability survives in a grid with the same walkable cells.
pub proof fn lemma_all_reach_same(g1: Seq<Vec<Tile>>, g2: Seq<Vec<Tile>>, hub: (int, int))
    requires
        all_reach(g1, hub),
        same_opens(g1, g2),
    ensures
        all_reach(g2, hub),
{
    assert forall|a: (int, int)| open_at(g2, a) implies #[trigger] reach(g2, a, hub) by {
        assert(open_at(g1, a));
        lemma_reach_mono(g1, g2, a, hub);
    }
}

/// Opening one cell beside a cell that reaches the hub keeps every cell reaching it.
pub proof fn lemma_open_beside(
    g1: Seq<Vec<Tile>>,
    g2: Seq<Vec<Tile>>,
    hub: (int, int),
    n: (int, int),
    c: (int, int),
)
    requires
        all_reach(g1, hub),
        opens_kept(g1, g2),
        forall|a: (int, int)| open_at(g2, a) ==> open_at(g1, a) || a == c,
        open_at(g1, n),
        adjacent(n, c),
        open_at(g2, c),
    ensures
        all_reach(g2, hub),
{
    assert(reach(g1, n, hub));
    lemma_reach_mono(g1, g2, n, hub);
    lemma_reach_sym(g2, n, hub);
    lemma_reach_step(g2, hub, n, c);
    lemma_reach_sym(g2, hub, c);
    assert forall|a: (int, int)| open_at(g2, a) implies #[trigger] reach(g2, a, hub) by {
        if open_at(g1, a) {
            lemma_reach_mono(g1, g2, a, hub);
        }
    }
}

/// A horizontal run of walkable cells can be walked end to end.
pub proof fn lemma_line_x(g: Seq<Vec<Tile>>, x0: int, x1: int, y: int)
    requires
        forall|x: int| (x0 <= x <= x1 || x1 <= x <= x0) ==> #[trigger] open_at(g, (x, y)),
    ensures
        reach(g, (x0, y), (x1, y)),
    decreases if x0 <= x1 { x1 - x0 } else { x0 - x1 },
{
    if x0 == x1 {
        lemma_reach_refl(g, (x0, y));
    } else if x0 < x1 {
        lemma_line_x(g, x0, x1 - 1, y);
        assert(open_at(g, (x1, y)));
        lemma_reach_step(g, (x0, y), (x1 - 1, y), (x1, y));
    } else {
        lemma_line_x(g, x0, x1 + 1, y);
        assert(open_at(g, (x1, y)));
        lemma_reach_step(g, (x0, y), (x1 + 1, y), (x1, y));
    }
}

/// A vertical run of walkable cells can be walked end to end.
pub proof fn lemma_line_y(g: Seq<Vec<Tile>>, x: int, y0: int, y1: int)
    requires
        forall|y: int| (y0 <= y <= y1 || y1 <= y <= y0) ==> #[trigger] open_at(g, (x, y)),
    ensures
        reach(g, (x, y0), (x, y1)),
    decreases if y0 <= y1 { y1 - y0 } else { y0 - y1 },
{
    if y0 == y1 {
        lemma_reach_refl(g, (x, y0));
    } else if y0 < y1 {
        lemma_line_y(g, x, y0, y1 - 1);
        assert(open_at(g, (x, y1)));
        lemma_reach_step(g, (x, y0), (x, y1 - 1), (x, y1));
    } else {
        lemma_line_y(g, x, y0, y1 + 1);
        assert(open_at(g, (x, y1)));
        lemma_reach_step(g, (x, y0), (x, y1 + 1), (x, y1));
    }
}

} // verus!

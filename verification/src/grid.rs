//! Mathematical model of a pixel grid.
//!
//! A grid is a sequence of rows, each a sequence of pixels; a cell is
//! addressed by a pair `(x, y)` where `x` is the column and `y` the row.
//! This module defines the well-formedness of a grid, what painting a single
//! cell means, 4-connectivity of same-colored cells, and the meaning of a
//! flood fill: repainting exactly the 4-connected component of cells that
//! share the seed cell's color.

use vstd::prelude::*;
use crate::pixel::Pixel;

verus! {

/// The number of columns of a grid (all rows of a well-formed grid agree).
pub open spec fn grid_width(g: Seq<Seq<Pixel>>) -> nat {
    if g.len() == 0 {
        0
    } else {
        g[0].len()
    }
}

/// A grid is well-formed when it is rectangular: every row has the width.
pub open spec fn grid_wf(g: Seq<Seq<Pixel>>) -> bool {
    forall|j: int| 0 <= j < g.len() ==> (#[trigger] g[j]).len() == grid_width(g)
}

/// Whether the cell `(p.0, p.1)` = (column, row) lies on the grid.
pub open spec fn in_grid(g: Seq<Seq<Pixel>>, p: (int, int)) -> bool {
    &&& 0 <= p.1 < g.len()
    &&& 0 <= p.0 < g[p.1].len()
}

/// The color of the cell at `(p.0, p.1)`.
pub open spec fn cell_at(g: Seq<Seq<Pixel>>, p: (int, int)) -> Pixel {
    g[p.1][p.0]
}

/// The grid after setting the cell at `(x, y)` to `c`; a coordinate off the
/// grid leaves it unchanged.
pub open spec fn paint_cell(g: Seq<Seq<Pixel>>, x: int, y: int, c: Pixel) -> Seq<Seq<Pixel>> {
    if in_grid(g, (x, y)) {
        g.update(y, g[y].update(x, c))
    } else {
        g
    }
}

/// Two cells are 4-adjacent: they differ by one in exactly one coordinate.
pub open spec fn adjacent(a: (int, int), b: (int, int)) -> bool {
    ||| a.0 == b.0 && (b.1 == a.1 + 1 || b.1 == a.1 - 1)
    ||| a.1 == b.1 && (b.0 == a.0 + 1 || b.0 == a.0 - 1)
}

/// A sequence of cells is a path of color `c`: every cell lies on the grid
/// and has color `c`, and consecutive cells are 4-adjacent.
pub open spec fn path_ok(g: Seq<Seq<Pixel>>, c: Pixel, p: Seq<(int, int)>) -> bool {
    &&& forall|k: int| 0 <= k < p.len() ==> in_grid(g, #[trigger] p[k]) && cell_at(g, p[k]) == c
    &&& forall|k: int| 0 < k < p.len() ==> adjacent(p[k - 1], #[trigger] p[k])
}

/// Cells `a` and `b` lie in the same 4-connected component of color `c`.
pub open spec fn connected(g: Seq<Seq<Pixel>>, c: Pixel, a: (int, int), b: (int, int)) -> bool {
    exists|p: Seq<(int, int)>| #[trigger] path_ok(g, c, p) && p.len() > 0 && p[0] == a && p.last() == b
}

/// The grid after a flood fill seeded at `(x, y)` with color `c`: every cell
/// 4-connected to the seed through cells of the seed's color is repainted to
/// `c`, every other cell keeps its color. A seed off the grid, or a seed
/// whose cell already has color `c`, leaves the grid unchanged.
pub open spec fn flood_fill(g: Seq<Seq<Pixel>>, x: int, y: int, c: Pixel) -> Seq<Seq<Pixel>> {
    if in_grid(g, (x, y)) && cell_at(g, (x, y)) != c {
        Seq::new(
            g.len(),
            |j: int|
                Seq::new(
                    g[j].len(),
                    |i: int|
                        if connected(g, cell_at(g, (x, y)), (x, y), (i, j)) {
                            c
                        } else {
                            g[j][i]
                        },
                ),
        )
    } else {
        g
    }
}

/// How many cells of a row have color `c`.
pub open spec fn row_count(r: Seq<Pixel>, c: Pixel) -> nat
    decreases r.len(),
{
    if r.len() == 0 {
        0
    } else {
        row_count(r.drop_last(), c) + if r.last() == c {
            1nat
        } else {
            0nat
        }
    }
}

/// How many cells of a grid have color `c`.
pub open spec fn grid_count(g: Seq<Seq<Pixel>>, c: Pixel) -> nat
    decreases g.len(),
{
    if g.len() == 0 {
        0
    } else {
        grid_count(g.drop_last(), c) + row_count(g.last(), c)
    }
}

/// Updating one cell of a row trades its contribution to the count for the
/// new value's contribution.
pub proof fn lemma_row_count_update(r: Seq<Pixel>, i: int, v: Pixel, c: Pixel)
    requires
        0 <= i < r.len(),
    ensures
        row_count(r.update(i, v), c) + (if r[i] == c { 1nat } else { 0nat }) == row_count(r, c) + (
        if v == c {
            1nat
        } else {
            0nat
        }),
    decreases r.len(),
{
    let r2 = r.update(i, v);
    assert(r2.len() == r.len());
    if i == r.len() - 1 {
        assert(r2.drop_last() =~= r.drop_last());
        assert(r2.last() == v);
    } else {
        assert(r2.drop_last() =~= r.drop_last().update(i, v));
        lemma_row_count_update(r.drop_last(), i, v, c);
        assert(r2.last() == r.last());
    }
}

/// Replacing one row of a grid trades the old row's count for the new one's.
pub proof fn lemma_grid_count_update_row(g: Seq<Seq<Pixel>>, j: int, r2: Seq<Pixel>, c: Pixel)
    requires
        0 <= j < g.len(),
    ensures
        grid_count(g.update(j, r2), c) + row_count(g[j], c) == grid_count(g, c) + row_count(r2, c),
    decreases g.len(),
{
    let g2 = g.update(j, r2);
    assert(g2.len() == g.len());
    if j == g.len() - 1 {
        assert(g2.drop_last() =~= g.drop_last());
        assert(g2.last() == r2);
    } else {
        assert(g2.drop_last() =~= g.drop_last().update(j, r2));
        lemma_grid_count_update_row(g.drop_last(), j, r2, c);
        assert(g2.last() == g.last());
    }
}

/// Painting a cell that has color `c` with a different color lowers the
/// number of `c`-colored cells by one.
pub proof fn lemma_count_after_paint(g: Seq<Seq<Pixel>>, x: int, y: int, v: Pixel, c: Pixel)
    requires
        in_grid(g, (x, y)),
        cell_at(g, (x, y)) == c,
        v != c,
    ensures
        grid_count(g.update(y, g[y].update(x, v)), c) + 1 == grid_count(g, c),
{
    lemma_row_count_update(g[y], x, v, c);
    lemma_grid_count_update_row(g, y, g[y].update(x, v), c);
}

/// A cell of color `c` is connected to itself.
pub proof fn lemma_connected_self(g: Seq<Seq<Pixel>>, c: Pixel, a: (int, int))
    requires
        in_grid(g, a),
        cell_at(g, a) == c,
    ensures
        connected(g, c, a, a),
{
    let p = seq![a];
    assert(p[0] == a && p.last() == a);
    assert(path_ok(g, c, p));
}

/// A component of color `c` extends across an adjacency to another cell of
/// color `c`.
pub proof fn lemma_connected_step(
    g: Seq<Seq<Pixel>>,
    c: Pixel,
    a: (int, int),
    b: (int, int),
    d: (int, int),
)
    requires
        connected(g, c, a, b),
        adjacent(b, d),
        in_grid(g, d),
        cell_at(g, d) == c,
    ensures
        connected(g, c, a, d),
{
    let p = choose|p: Seq<(int, int)>|
        #[trigger] path_ok(g, c, p) && p.len() > 0 && p[0] == a && p.last() == b;
    let q = p.push(d);
    assert forall|k: int| 0 <= k < q.len() implies in_grid(g, #[trigger] q[k]) && cell_at(g, q[k])
        == c by {
        if k < p.len() {
            assert(q[k] == p[k]);
        } else {
            assert(q[k] == d);
        }
    }
    assert forall|k: int| 0 < k < q.len() implies adjacent(q[k - 1], #[trigger] q[k]) by {
        if k < p.len() {
            assert(q[k] == p[k] && q[k - 1] == p[k - 1]);
        } else {
            assert(q[k - 1] == p.last() && q[k] == d);
        }
    }
    assert(path_ok(g, c, q));
    assert(q[0] == a && q.last() == d);
}

/// A path of color `c` that starts inside a set closed under `c`-colored
/// adjacency ends inside that set.
pub proof fn lemma_path_stays_in_closed(
    g: Seq<Seq<Pixel>>,
    c: Pixel,
    m: Set<(int, int)>,
    p: Seq<(int, int)>,
)
    requires
        path_ok(g, c, p),
        p.len() > 0,
        m.contains(p[0]),
        forall|u: (int, int), w: (int, int)|
            m.contains(u) && #[trigger] adjacent(u, w) && in_grid(g, w) && cell_at(g, w) == c
                ==> #[trigger] m.contains(w),
    ensures
        m.contains(p.last()),
    decreases p.len(),
{
    if p.len() > 1 {
        let q = p.drop_last();
        assert forall|k: int| 0 <= k < q.len() implies in_grid(g, #[trigger] q[k]) && cell_at(
            g,
            q[k],
        ) == c by {
            assert(q[k] == p[k]);
        }
        assert forall|k: int| 0 < k < q.len() implies adjacent(q[k - 1], #[trigger] q[k]) by {
            assert(q[k] == p[k] && q[k - 1] == p[k - 1]);
        }
        assert(path_ok(g, c, q));
        assert(q[0] == p[0]);
        lemma_path_stays_in_closed(g, c, m, q);
        assert(adjacent(p[p.len() - 2], p[p.len() - 1]));
        assert(q.last() == p[p.len() - 2]);
        assert(in_grid(g, p.last()) && cell_at(g, p.last()) == c);
    }
}

/// Every cell of the component of `seed` lies in any set that holds `seed`
/// and is closed under `c`-colored adjacency.
pub proof fn lemma_component_in_closed(
    g: Seq<Seq<Pixel>>,
    c: Pixel,
    seed: (int, int),
    b: (int, int),
    m: Set<(int, int)>,
)
    requires
        connected(g, c, seed, b),
        m.contains(seed),
        forall|u: (int, int), w: (int, int)|
            m.contains(u) && #[trigger] adjacent(u, w) && in_grid(g, w) && cell_at(g, w) == c
                ==> #[trigger] m.contains(w),
    ensures
        m.contains(b),
{
    let p = choose|p: Seq<(int, int)>|
        #[trigger] path_ok(g, c, p) && p.len() > 0 && p[0] == seed && p.last() == b;
    lemma_path_stays_in_closed(g, c, m, p);
}

} // verus!

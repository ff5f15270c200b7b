//! The laws of the painting engine, stated once for all inputs and proved.

use vstd::prelude::*;
use crate::canvas::{spec_interact, PaintTool};
use crate::dialog::{Bound, DialogState};
use crate::grid::{
    cell_at, connected, flood_fill, in_grid, lemma_connected_self, paint_cell,
};
use crate::pixel::Pixel;

verus! {

/// With the paintbrush, an in-bounds interaction sets exactly the target
/// cell to the drawing color and leaves every other cell, and the grid's
/// shape, unchanged.
pub proof fn lemma_paintbrush_exact(g: Seq<Seq<Pixel>>, x: int, y: int, c: Pixel)
    requires
        in_grid(g, (x, y)),
    ensures
        spec_interact(g, x, y, c, PaintTool::Paintbrush).len() == g.len(),
        forall|j: int|
            0 <= j < g.len() ==> (#[trigger] spec_interact(
                g,
                x,
                y,
                c,
                PaintTool::Paintbrush,
            )[j]).len() == g[j].len(),
        cell_at(spec_interact(g, x, y, c, PaintTool::Paintbrush), (x, y)) == c,
        forall|p: (int, int)|
            in_grid(g, p) && p != (x, y) ==> #[trigger] cell_at(
                spec_interact(g, x, y, c, PaintTool::Paintbrush),
                p,
            ) == cell_at(g, p),
{
    let r = paint_cell(g, x, y, c);
    assert(r == g.update(y, g[y].update(x, c)));
    assert forall|p: (int, int)| in_grid(g, p) && p != (x, y) implies #[trigger] cell_at(r, p)
        == cell_at(g, p) by {
        if p.1 == y {
            assert(r[p.1] == g[y].update(x, c));
        } else {
            assert(r[p.1] == g[p.1]);
        }
    }
}

/// An interaction at a coordinate off the grid is a no-op, whatever the tool.
pub proof fn lemma_out_of_bounds_noop(g: Seq<Seq<Pixel>>, x: int, y: int, c: Pixel, tool: PaintTool)
    requires
        !in_grid(g, (x, y)),
    ensures
        spec_interact(g, x, y, c, tool) == g,
{
}

/// A bucket interaction at a seed that already has the drawing color leaves
/// the grid unchanged: filling a region with its own color is a no-op.
pub proof fn lemma_fill_same_color_noop(g: Seq<Seq<Pixel>>, x: int, y: int, c: Pixel)
    requires
        in_grid(g, (x, y)) ==> cell_at(g, (x, y)) == c,
    ensures
        spec_interact(g, x, y, c, PaintTool::Bucket) == g,
{
}

/// Flood fill is idempotent: a second bucket interaction at the same seed
/// with the same color changes nothing.
pub proof fn lemma_fill_idempotent(g: Seq<Seq<Pixel>>, x: int, y: int, c: Pixel)
    ensures
        spec_interact(
            spec_interact(g, x, y, c, PaintTool::Bucket),
            x,
            y,
            c,
            PaintTool::Bucket,
        ) == spec_interact(g, x, y, c, PaintTool::Bucket),
{
    let g1 = flood_fill(g, x, y, c);
    if in_grid(g, (x, y)) && cell_at(g, (x, y)) != c {
        lemma_connected_self(g, cell_at(g, (x, y)), (x, y));
        assert(g1.len() == g.len() && g1[y].len() == g[y].len());
        assert(cell_at(g1, (x, y)) == c);
        assert(in_grid(g1, (x, y)));
    }
}

/// A bucket interaction repaints exactly the 4-connected component of cells
/// reachable from the seed that share the seed's pre-fill color, and no cell
/// outside that component changes; the grid's shape is kept.
pub proof fn lemma_fill_component(g: Seq<Seq<Pixel>>, x: int, y: int, c: Pixel)
    requires
        in_grid(g, (x, y)),
        cell_at(g, (x, y)) != c,
    ensures
        spec_interact(g, x, y, c, PaintTool::Bucket).len() == g.len(),
        forall|j: int|
            0 <= j < g.len() ==> (#[trigger] spec_interact(g, x, y, c, PaintTool::Bucket)[j]).len()
                == g[j].len(),
        forall|p: (int, int)|
            in_grid(g, p) && connected(g, cell_at(g, (x, y)), (x, y), p) ==> #[trigger] cell_at(
                spec_interact(g, x, y, c, PaintTool::Bucket),
                p,
            ) == c,
        forall|p: (int, int)|
            in_grid(g, p) && !connected(g, cell_at(g, (x, y)), (x, y), p) ==> #[trigger] cell_at(
                spec_interact(g, x, y, c, PaintTool::Bucket),
                p,
            ) == cell_at(g, p),
{
}

/// Rectangle containment is half-open: a coordinate exactly on the right or
/// bottom edge is outside; the top-left corner of a nonempty rectangle is
/// inside.
pub proof fn lemma_contains_half_open(b: Bound, pos: (u16, u16))
    ensures
        pos.0 == b.right ==> !b.spec_contains(pos),
        pos.1 == b.bottom ==> !b.spec_contains(pos),
        pos == (b.left, b.top) && b.left < b.right && b.top < b.bottom ==> b.spec_contains(pos),
{
}

/// The toolbar and palette rectangles of a well-formed dialog never overlap:
/// the toolbar's exclusive right edge is the palette's left edge.
pub proof fn lemma_overlay_rects_disjoint(d: DialogState, pos: (u16, u16))
    requires
        d.wf(),
    ensures
        !(d.toolbar_bound().spec_contains(pos) && d.palette_bound().spec_contains(pos)),
{
}

} // verus!

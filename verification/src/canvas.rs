//! The canvas: a rectangular pixel grid with an active drawing color and an
//! active tool, mutated through pointer interaction.
//!
//! `interact_with_pixel` is the single entry point for pointer-driven
//! mutation: with the paintbrush it repaints one cell, with the bucket it
//! flood-fills the 4-connected component of the seed cell's color. An
//! out-of-bounds coordinate is a silent no-op, never a panic.

use vstd::prelude::*;
use crate::pixel::Pixel;
use crate::grid::{
    grid_width, grid_wf, in_grid, cell_at, paint_cell, adjacent, connected, flood_fill,
    grid_count, lemma_count_after_paint, lemma_connected_self, lemma_connected_step,
    lemma_component_in_closed,
};

verus! {

/// The two drawing tools: a closed choice, so no validation is ever needed.
#[derive(Clone, Copy, PartialEq, Eq, Structural, Debug)]
pub enum PaintTool {
    Paintbrush,
    Bucket,
}

/// What one pointer interaction does to the grid, by tool.
pub open spec fn spec_interact(
    g: Seq<Seq<Pixel>>,
    x: int,
    y: int,
    c: Pixel,
    tool: PaintTool,
) -> Seq<Seq<Pixel>> {
    match tool {
        PaintTool::Paintbrush => paint_cell(g, x, y, c),
        PaintTool::Bucket => flood_fill(g, x, y, c),
    }
}

/// The coordinates of a worklist entry, as a mathematical cell.
spec fn cell_of(e: (usize, usize)) -> (int, int) {
    (e.0 as int, e.1 as int)
}

/// The worklist holds an entry for the cell `q`.
spec fn stack_has(s: Seq<(usize, usize)>, q: (int, int)) -> bool {
    exists|k: int| 0 <= k < s.len() && cell_of(#[trigger] s[k]) == q
}

/// Pushing a worklist entry keeps every cell the worklist already held.
proof fn lemma_stack_has_push_mono(s: Seq<(usize, usize)>, e: (usize, usize))
    ensures
        forall|q: (int, int)| #[trigger] stack_has(s, q) ==> stack_has(s.push(e), q),
{
    assert forall|q: (int, int)| #[trigger] stack_has(s, q) implies stack_has(s.push(e), q) by {
        let k = choose|k: int| 0 <= k < s.len() && cell_of(#[trigger] s[k]) == q;
        assert(cell_of(s.push(e)[k]) == q);
    }
}

/// The mutable pixel grid being painted, with the active drawing color and
/// the active tool. The grid's size is fixed at construction.
pub struct Canvas {
    pixels: Vec<Vec<Pixel>>,
    current_color: Pixel,
    current_tool: PaintTool,
}

impl Canvas {
    /// The grid of pixels, row-major: `self.grid()[y][x]` is the cell at
    /// column `x` of row `y`.
    pub closed spec fn grid(self) -> Seq<Seq<Pixel>> {
        self.pixels@.map_values(|r: Vec<Pixel>| r@)
    }

    /// The active drawing color.
    pub closed spec fn color(self) -> Pixel {
        self.current_color
    }

    /// The active tool.
    pub closed spec fn tool(self) -> PaintTool {
        self.current_tool
    }

    pub open spec fn height(self) -> nat {
        self.grid().len()
    }

    pub open spec fn width(self) -> nat {
        grid_width(self.grid())
    }

    /// The grid is rectangular: every row has the same width.
    pub open spec fn wf(self) -> bool {
        grid_wf(self.grid())
    }

    /// A fresh canvas: `width` x `height` cells of opaque white, drawing
    /// color opaque black, tool paintbrush.
    #[verifier::loop_isolation(false)]
    pub fn new(width: usize, height: usize) -> (canvas: Canvas)
        requires
            1 <= width,
            1 <= height,
        ensures
            canvas.wf(),
            canvas.width() == width,
            canvas.height() == height,
            canvas.color() == Pixel::spec_black(),
            canvas.tool() == PaintTool::Paintbrush,
            forall|p: (int, int)|
                in_grid(canvas.grid(), p) ==> #[trigger] cell_at(canvas.grid(), p)
                    == Pixel::spec_white(),
    {
        let mut pixels: Vec<Vec<Pixel>> = Vec::new();
        let mut j: usize = 0;
        while j < height
            invariant
                j <= height,
                pixels@.len() == j,
                forall|jj: int| 0 <= jj < j ==> (#[trigger] pixels@[jj])@.len() == width,
                forall|jj: int, ii: int|
                    #![trigger pixels@[jj]@[ii]]
                    0 <= jj < j && 0 <= ii < width ==> pixels@[jj]@[ii] == Pixel::spec_white(),
            decreases height - j,
        {
            let mut row: Vec<Pixel> = Vec::new();
            let mut i: usize = 0;
            while i < width
                invariant
                    i <= width,
                    row@.len() == i,
                    forall|ii: int| 0 <= ii < i ==> #[trigger] row@[ii] == Pixel::spec_white(),
                decreases width - i,
            {
                row.push(Pixel::white());
                i = i + 1;
            }
            pixels.push(row);
            j = j + 1;
        }
        let canvas = Canvas {
            pixels,
            current_color: Pixel::black(),
            current_tool: PaintTool::Paintbrush,
        };
        proof {
            assert(canvas.grid().len() == height);
            assert(forall|jj: int|
                0 <= jj < height ==> (#[trigger] canvas.grid()[jj]).len() == width);
            assert(canvas.wf());
            assert forall|p: (int, int)|
                in_grid(canvas.grid(), p) implies #[trigger] cell_at(canvas.grid(), p)
                == Pixel::spec_white() by {
                assert(canvas.grid()[p.1][p.0] == pixels@[p.1]@[p.0]);
            }
        }
        canvas
    }

    /// Read-only view of the grid, for an external renderer.
    pub fn pixels(&self) -> (rows: &Vec<Vec<Pixel>>)
        ensures
            rows@.map_values(|r: Vec<Pixel>| r@) == self.grid(),
    {
        &self.pixels
    }

    pub fn current_tool(&self) -> (tool: &PaintTool)
        ensures
            *tool == self.tool(),
    {
        &self.current_tool
    }

    pub fn set_tool(&mut self, tool: PaintTool)
        ensures
            final(self).tool() == tool,
            final(self).color() == old(self).color(),
            final(self).grid() == old(self).grid(),
    {
        self.current_tool = tool;
    }

    pub fn current_color(&self) -> (color: Pixel)
        ensures
            color == self.color(),
    {
        self.current_color
    }

    /// Replace the drawing color; any pixel value is accepted, opaque or not.
    pub fn set_color(&mut self, color: Pixel)
        ensures
            final(self).color() == color,
            final(self).tool() == old(self).tool(),
            final(self).grid() == old(self).grid(),
    {
        self.current_color = color;
    }

    /// Set the cell at `(x, y)` to the drawing color; out of bounds is a
    /// no-op.
    fn paint_pixel(&mut self, x: usize, y: usize)
        requires
            old(self).wf(),
        ensures
            final(self).wf(),
            final(self).color() == old(self).color(),
            final(self).tool() == old(self).tool(),
            final(self).grid() == paint_cell(
                old(self).grid(),
                x as int,
                y as int,
                old(self).color(),
            ),
    {
        proof {
            assert(self.grid().len() == self.pixels@.len());
        }
        if y < self.pixels.len() {
            let row_len = self.pixels[y].len();
            proof {
                assert(self.grid()[y as int].len() == row_len);
            }
            if x < row_len {
                let c = self.current_color;
                let cell = &mut self.pixels[y][x];
                *cell = c;
                proof {
                    assert(in_grid(old(self).grid(), (x as int, y as int)));
                    assert(self.grid() =~~= paint_cell(
                        old(self).grid(),
                        x as int,
                        y as int,
                        old(self).color(),
                    ));
                }
            } else {
                proof {
                    assert(!in_grid(old(self).grid(), (x as int, y as int)));
                }
            }
        } else {
            proof {
                assert(!in_grid(old(self).grid(), (x as int, y as int)));
            }
        }
    }

    /// Flood-fill seeded at `(x, y)` with the drawing color, over an explicit
    /// worklist; repainted cells, having the fill color, re-trigger the
    /// color check and act as the visited marker, which bounds the work by
    /// the number of seed-colored cells. Out of bounds, or a seed that
    /// already has the drawing color, is a no-op.
    #[verifier::loop_isolation(false)]
    fn flood_fill_pixel(&mut self, x: usize, y: usize)
        requires
            old(self).wf(),
        ensures
            final(self).wf(),
            final(self).color() == old(self).color(),
            final(self).tool() == old(self).tool(),
            final(self).grid() == flood_fill(
                old(self).grid(),
                x as int,
                y as int,
                old(self).color(),
            ),
    {
        let ghost g0 = self.grid();
        let ghost fc = self.color();
        let ghost seed = (x as int, y as int);

        if y >= self.pixels.len() {
            return ;
        }
        let seed_row_len = self.pixels[y].len();
        proof {
            assert(self.grid()[y as int].len() == seed_row_len);
        }
        if x >= seed_row_len {
            return ;
        }
        let seed_color = self.pixels[y][x];
        proof {
            assert(cell_at(g0, seed) == seed_color);
        }
        let fill = self.current_color;
        if seed_color == fill {
            return ;
        }
        let ghost sc = cell_at(g0, seed);

        let mut stack: Vec<(usize, usize)> = Vec::new();
        stack.push((x, y));
        proof {
            assert(cell_of(stack@[0]) == seed);
            assert(stack_has(stack@, seed));
            lemma_connected_self(g0, sc, seed);
        }

        while stack.len() != 0
            invariant
                self.wf(),
                self.color() == fc,
                self.tool() == old(self).tool(),
                self.grid().len() == g0.len(),
                forall|j: int|
                    0 <= j < g0.len() ==> (#[trigger] self.grid()[j]).len() == g0[j].len(),
                // a changed cell had the seed color, now has the fill color,
                // and is connected to the seed
                forall|p: (int, int)|
                    in_grid(g0, p) ==> (#[trigger] cell_at(self.grid(), p) == cell_at(g0, p) || (
                    cell_at(g0, p) == sc && cell_at(self.grid(), p) == fc && connected(
                        g0,
                        sc,
                        seed,
                        p,
                    ))),
                // every worklist entry lies on the grid and, when it has the
                // seed color, is connected to the seed
                forall|k: int|
                    0 <= k < stack@.len() ==> in_grid(g0, cell_of(#[trigger] stack@[k])) && (
                    cell_at(g0, cell_of(stack@[k])) == sc ==> connected(
                        g0,
                        sc,
                        seed,
                        cell_of(stack@[k]),
                    )),
                // the seed is repainted or still pending
                cell_at(self.grid(), seed) == fc || stack_has(stack@, seed),
                // a seed-colored neighbor of a repainted cell is repainted or
                // pending: the frontier is never dropped
                forall|p: (int, int), q: (int, int)|
                    in_grid(g0, p) && cell_at(g0, p) == sc && cell_at(self.grid(), p) == fc
                        && #[trigger] adjacent(p, q) && in_grid(g0, q) && cell_at(g0, q) == sc
                        ==> #[trigger] cell_at(self.grid(), q) == fc || stack_has(stack@, q),
            decreases grid_count(self.grid(), sc), stack@.len(),
        {
            let ghost gb = self.grid();
            let ghost stack0 = stack@;
            let top = stack.pop().unwrap();
            let cx = top.0;
            let cy = top.1;
            let ghost tc = cell_of(top);
            let ghost rest = stack@;
            proof {
                assert(stack0[stack0.len() - 1] == top);
                assert(in_grid(g0, tc));
                assert(forall|q: (int, int)|
                    #[trigger] stack_has(stack0, q) ==> stack_has(rest, q) || q == tc) by {
                    assert forall|q: (int, int)| #[trigger] stack_has(stack0, q) && q != tc
                        implies stack_has(rest, q) by {
                        let k = choose|k: int|
                            0 <= k < stack0.len() && cell_of(#[trigger] stack0[k]) == q;
                        assert(cell_of(rest[k]) == q);
                    }
                }
                assert(self.grid()[tc.1].len() == g0[tc.1].len());
            }
            let cur = self.pixels[cy][cx];
            proof {
                assert(cur == cell_at(gb, tc));
            }
            if cur == seed_color {
                proof {
                    // the cell is unchanged (a repainted cell has the fill
                    // color, not the seed color), so its original color is sc
                    assert(cell_at(g0, tc) == sc);
                    assert(connected(g0, sc, seed, tc));
                    lemma_count_after_paint(gb, tc.0, tc.1, fc, sc);
                }
                let h = self.pixels.len();
                let w = self.pixels[cy].len();
                proof {
                    assert(w == g0[tc.1].len());
                    assert(h == g0.len());
                }
                self.paint_pixel(cx, cy);
                proof {
                    assert(self.grid() == gb.update(tc.1, gb[tc.1].update(tc.0, fc)));
                    assert(cell_at(self.grid(), tc) == fc);
                    assert forall|p: (int, int)| in_grid(g0, p) && p != tc implies cell_at(
                        self.grid(),
                        p,
                    ) == cell_at(gb, p) by {
                        assert(self.grid()[p.1] == if p.1 == tc.1 {
                            gb[tc.1].update(tc.0, fc)
                        } else {
                            gb[p.1]
                        });
                    }
                }
                if cx + 1 < w {
                    let ghost s_pre = stack@;
                    let nb = (cx + 1, cy);
                    stack.push(nb);
                    proof {
                        lemma_stack_has_push_mono(s_pre, nb);
                        assert(cell_of(stack@[s_pre.len() as int]) == (tc.0 + 1, tc.1));
                        assert(stack_has(stack@, (tc.0 + 1, tc.1)));
                        assert(in_grid(g0, (tc.0 + 1, tc.1)));
                        if cell_at(g0, (tc.0 + 1, tc.1)) == sc {
                            lemma_connected_step(g0, sc, seed, tc, (tc.0 + 1, tc.1));
                        }
                    }
                }
                if cx > 0 {
                    let ghost s_pre = stack@;
                    let nb = (cx - 1, cy);
                    stack.push(nb);
                    proof {
                        lemma_stack_has_push_mono(s_pre, nb);
                        assert(cell_of(stack@[s_pre.len() as int]) == (tc.0 - 1, tc.1));
                        assert(stack_has(stack@, (tc.0 - 1, tc.1)));
                        assert(in_grid(g0, (tc.0 - 1, tc.1)));
                        if cell_at(g0, (tc.0 - 1, tc.1)) == sc {
                            lemma_connected_step(g0, sc, seed, tc, (tc.0 - 1, tc.1));
                        }
                    }
                }
                if cy + 1 < h {
                    let ghost s_pre = stack@;
                    let nb = (cx, cy + 1);
                    stack.push(nb);
                    proof {
                        lemma_stack_has_push_mono(s_pre, nb);
                        assert(cell_of(stack@[s_pre.len() as int]) == (tc.0, tc.1 + 1));
                        assert(stack_has(stack@, (tc.0, tc.1 + 1)));
                        assert(in_grid(g0, (tc.0, tc.1 + 1)));
                        if cell_at(g0, (tc.0, tc.1 + 1)) == sc {
                            lemma_connected_step(g0, sc, seed, tc, (tc.0, tc.1 + 1));
                        }
                    }
                }
                if cy > 0 {
                    let ghost s_pre = stack@;
                    let nb = (cx, cy - 1);
                    stack.push(nb);
                    proof {
                        lemma_stack_has_push_mono(s_pre, nb);
                        assert(cell_of(stack@[s_pre.len() as int]) == (tc.0, tc.1 - 1));
                        assert(stack_has(stack@, (tc.0, tc.1 - 1)));
                        assert(in_grid(g0, (tc.0, tc.1 - 1)));
                        if cell_at(g0, (tc.0, tc.1 - 1)) == sc {
                            lemma_connected_step(g0, sc, seed, tc, (tc.0, tc.1 - 1));
                        }
                    }
                }
                proof {
                    // entries of the shrunk worklist are still present
                    assert(forall|q: (int, int)|
                        #[trigger] stack_has(rest, q) ==> stack_has(stack@, q));
                    // the frontier invariant, for the freshly repainted cell
                    // and for every previously repainted cell
                    assert forall|p: (int, int), q: (int, int)|
                        in_grid(g0, p) && cell_at(g0, p) == sc && cell_at(self.grid(), p) == fc
                            && #[trigger] adjacent(p, q) && in_grid(g0, q) && cell_at(g0, q) == sc
                        implies #[trigger] cell_at(self.grid(), q) == fc || stack_has(
                        stack@,
                        q,
                    ) by {
                        if cell_at(self.grid(), q) != fc {
                            if p == tc {
                                // q is one of the four neighbors, each pushed
                                // when it lies on the grid
                                assert(q == (tc.0 + 1, tc.1) || q == (tc.0 - 1, tc.1) || q == (
                                tc.0,
                                tc.1 + 1,
                                ) || q == (tc.0, tc.1 - 1));
                                assert(stack_has(stack@, q));
                            } else {
                                assert(cell_at(gb, p) == fc);
                                assert(cell_at(gb, q) != fc);
                                assert(stack_has(stack0, q));
                                assert(q != tc);
                                assert(stack_has(rest, q));
                            }
                        }
                    }
                }
            } else {
                proof {
                    // the popped cell is dropped: if it had the seed color it
                    // is already repainted, so nothing pending is lost
                    if cell_at(g0, tc) == sc {
                        assert(cell_at(self.grid(), tc) == fc);
                    }
                }
            }
        }
        proof {
            let gf = self.grid();
            assert(!stack_has(stack@, seed));
            assert(cell_at(gf, seed) == fc);
            let m = Set::new(
                |p: (int, int)| in_grid(g0, p) && cell_at(g0, p) == sc && cell_at(gf, p) == fc,
            );
            assert(m.contains(seed));
            assert forall|u: (int, int), w: (int, int)|
                m.contains(u) && #[trigger] adjacent(u, w) && in_grid(g0, w) && cell_at(g0, w)
                    == sc implies #[trigger] m.contains(w) by {
                assert(!stack_has(stack@, w));
                assert(cell_at(gf, w) == fc);
            }
            let ff = flood_fill(g0, x as int, y as int, fc);
            assert(in_grid(g0, seed) && cell_at(g0, seed) != fc);
            assert forall|j: int| 0 <= j < gf.len() implies gf[j] == ff[j] by {
                assert(ff[j].len() == g0[j].len());
                assert forall|i: int| 0 <= i < gf[j].len() implies gf[j][i] == ff[j][i] by {
                    let p = (i, j);
                    assert(in_grid(g0, p));
                    if connected(g0, sc, seed, p) {
                        lemma_component_in_closed(g0, sc, seed, p, m);
                        assert(cell_at(gf, p) == fc);
                    } else {
                        assert(cell_at(gf, p) == cell_at(g0, p));
                    }
                    assert(gf[j][i] == cell_at(gf, p));
                }
                assert(gf[j] =~= ff[j]);
            }
            assert(gf =~= ff);
        }
    }

    /// The single entry point for pointer-driven mutation: paint or fill at
    /// `(x, y)` according to the active tool; out of bounds is a no-op.
    pub fn interact_with_pixel(&mut self, x: usize, y: usize)
        requires
            old(self).wf(),
        ensures
            final(self).wf(),
            final(self).color() == old(self).color(),
            final(self).tool() == old(self).tool(),
            final(self).grid() == spec_interact(
                old(self).grid(),
                x as int,
                y as int,
                old(self).color(),
                old(self).tool(),
            ),
    {
        match self.current_tool {
            PaintTool::Paintbrush => self.paint_pixel(x, y),
            PaintTool::Bucket => self.flood_fill_pixel(x, y),
        }
    }
}

} // verus!

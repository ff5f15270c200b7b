//! The overlay dialog: the toolbar and palette rectangles, hit-testing, and
//! the translation of a pointer hit into a canvas mutation.
//!
//! The dialog owns an ordered list of half-open rectangles, rebuilt from the
//! layout on every render pass; the dispatcher consults it before the canvas.
//! A hit in the toolbar selects a tool, a hit on a palette swatch selects a
//! color, and any coordinate outside those logical regions is a no-op.

use vstd::prelude::*;
use crate::canvas::{Canvas, PaintTool};
use crate::pixel::Pixel;

verus! {

/// Width of the toolbar rectangle, in terminal columns.
pub const TOOLBAR_WIDTH: u16 = 4;

/// Height of the toolbar rectangle, in terminal rows.
pub const TOOLBAR_HEIGHT: u16 = 4;

/// Width of the palette rectangle: ten swatches of two columns each, plus a
/// two-column margin on either side.
pub const PALETTE_WIDTH: u16 = 24;

/// Height of the palette rectangle: two swatch rows plus a margin row above
/// and below.
pub const PALETTE_HEIGHT: u16 = 4;

/// A half-open rectangle used for overlay hit-testing: a coordinate is
/// inside iff its column lies in `[left, right)` and its row in
/// `[top, bottom)`, so adjacent rectangles sharing an edge never both claim
/// the boundary coordinate.
#[derive(Clone, Copy, PartialEq, Eq, Structural, Debug)]
pub struct Bound {
    pub top: u16,
    pub left: u16,
    pub bottom: u16,
    pub right: u16,
}

impl Bound {
    /// Containment, half-open on both axes.
    pub open spec fn spec_contains(self, pos: (u16, u16)) -> bool {
        self.left <= pos.0 < self.right && self.top <= pos.1 < self.bottom
    }

    pub fn from_pos_size(pos: (u16, u16), size: (u16, u16)) -> (b: Bound)
        requires
            pos.0 + size.0 <= u16::MAX,
            pos.1 + size.1 <= u16::MAX,
        ensures
            b == (Bound {
                top: pos.1,
                left: pos.0,
                bottom: (pos.1 + size.1) as u16,
                right: (pos.0 + size.0) as u16,
            }),
    {
        Bound { top: pos.1, left: pos.0, bottom: pos.1 + size.1, right: pos.0 + size.0 }
    }

    pub fn contains(&self, pos: (u16, u16)) -> (r: bool)
        ensures
            r == self.spec_contains(pos),
    {
        self.left <= pos.0 && pos.0 < self.right && self.top <= pos.1 && pos.1 < self.bottom
    }
}

/// The fixed palette: twenty swatch colors in source order; a swatch's
/// identity is its index in this sequence.
pub open spec fn spec_palette() -> Seq<Pixel> {
    seq![
        Pixel { r: 0, g: 0, b: 0, a: 255 },
        Pixel { r: 120, g: 120, b: 120, a: 255 },
        Pixel { r: 153, g: 0, b: 48, a: 255 },
        Pixel { r: 237, g: 28, b: 36, a: 255 },
        Pixel { r: 255, g: 126, b: 0, a: 255 },
        Pixel { r: 255, g: 242, b: 0, a: 255 },
        Pixel { r: 34, g: 177, b: 76, a: 255 },
        Pixel { r: 0, g: 183, b: 239, a: 255 },
        Pixel { r: 47, g: 54, b: 153, a: 255 },
        Pixel { r: 111, g: 49, b: 152, a: 255 },
        Pixel { r: 255, g: 255, b: 255, a: 255 },
        Pixel { r: 180, g: 180, b: 180, a: 255 },
        Pixel { r: 156, g: 90, b: 60, a: 255 },
        Pixel { r: 255, g: 163, b: 177, a: 255 },
        Pixel { r: 255, g: 194, b: 14, a: 255 },
        Pixel { r: 245, g: 228, b: 156, a: 255 },
        Pixel { r: 168, g: 230, b: 29, a: 255 },
        Pixel { r: 153, g: 217, b: 234, a: 255 },
        Pixel { r: 112, g: 154, b: 209, a: 255 },
        Pixel { r: 181, g: 165, b: 213, a: 255 },
    ]
}

/// The swatch color at `index` in the fixed palette.
pub fn swatch_color(index: usize) -> (c: Pixel)
    requires
        index < 20,
    ensures
        c == spec_palette()[index as int],
{
    let c = if index == 0 {
        Pixel::from_rgb(0, 0, 0)
    } else if index == 1 {
        Pixel::from_rgb(120, 120, 120)
    } else if index == 2 {
        Pixel::from_rgb(153, 0, 48)
    } else if index == 3 {
        Pixel::from_rgb(237, 28, 36)
    } else if index == 4 {
        Pixel::from_rgb(255, 126, 0)
    } else if index == 5 {
        Pixel::from_rgb(255, 242, 0)
    } else if index == 6 {
        Pixel::from_rgb(34, 177, 76)
    } else if index == 7 {
        Pixel::from_rgb(0, 183, 239)
    } else if index == 8 {
        Pixel::from_rgb(47, 54, 153)
    } else if index == 9 {
        Pixel::from_rgb(111, 49, 152)
    } else if index == 10 {
        Pixel::from_rgb(255, 255, 255)
    } else if index == 11 {
        Pixel::from_rgb(180, 180, 180)
    } else if index == 12 {
        Pixel::from_rgb(156, 90, 60)
    } else if index == 13 {
        Pixel::from_rgb(255, 163, 177)
    } else if index == 14 {
        Pixel::from_rgb(255, 194, 14)
    } else if index == 15 {
        Pixel::from_rgb(245, 228, 156)
    } else if index == 16 {
        Pixel::from_rgb(168, 230, 29)
    } else if index == 17 {
        Pixel::from_rgb(153, 217, 234)
    } else if index == 18 {
        Pixel::from_rgb(112, 154, 209)
    } else {
        Pixel::from_rgb(181, 165, 213)
    };
    c
}

/// The overlay dialog: visibility flag, the layout anchors of the toolbar
/// and palette, and the rectangle list rebuilt on every render pass.
pub struct DialogState {
    /// Whether the dialog is hidden; it starts hidden, and toggling is an
    /// external trigger (a keybinding).
    pub hidden: bool,
    toolbar_pos: (u16, u16),
    palette_pos: (u16, u16),
    bounds: Vec<Bound>,
}

impl DialogState {
    /// Whether the dialog is currently hidden.
    pub closed spec fn spec_hidden(self) -> bool {
        self.hidden
    }

    /// Read the visibility flag.
    pub fn is_hidden(&self) -> (h: bool)
        ensures
            h == self.spec_hidden(),
    {
        self.hidden
    }

    /// The external trigger (a keybinding) that shows or hides the dialog;
    /// the bounds list keeps its last-rendered value until the next render
    /// pass.
    pub fn set_hidden(&mut self, hidden: bool)
        ensures
            final(self).spec_hidden() == hidden,
            final(self).toolbar_origin() == old(self).toolbar_origin(),
            final(self).palette_origin() == old(self).palette_origin(),
            final(self).spec_bounds() == old(self).spec_bounds(),
    {
        self.hidden = hidden;
    }

    /// Top-left corner of the toolbar rectangle.
    pub closed spec fn toolbar_origin(self) -> (u16, u16) {
        self.toolbar_pos
    }

    /// Top-left corner of the palette rectangle.
    pub closed spec fn palette_origin(self) -> (u16, u16) {
        self.palette_pos
    }

    /// The rectangles computed by the last render pass, in insertion order.
    pub closed spec fn spec_bounds(self) -> Seq<Bound> {
        self.bounds@
    }

    /// Layout well-formedness: the palette abuts the toolbar's right edge on
    /// the same row, and the layout arithmetic stays within `u16`.
    pub open spec fn wf(self) -> bool {
        &&& self.palette_origin().0 == self.toolbar_origin().0 + TOOLBAR_WIDTH
        &&& self.palette_origin().1 == self.toolbar_origin().1
        &&& self.toolbar_origin().0 + TOOLBAR_WIDTH + PALETTE_WIDTH <= u16::MAX
        &&& self.toolbar_origin().1 + TOOLBAR_HEIGHT <= u16::MAX
    }

    /// The toolbar's overlay rectangle.
    pub open spec fn toolbar_bound(self) -> Bound {
        Bound {
            top: self.toolbar_origin().1,
            left: self.toolbar_origin().0,
            bottom: (self.toolbar_origin().1 + TOOLBAR_HEIGHT) as u16,
            right: (self.toolbar_origin().0 + TOOLBAR_WIDTH) as u16,
        }
    }

    /// The palette's overlay rectangle.
    pub open spec fn palette_bound(self) -> Bound {
        Bound {
            top: self.palette_origin().1,
            left: self.palette_origin().0,
            bottom: (self.palette_origin().1 + PALETTE_HEIGHT) as u16,
            right: (self.palette_origin().0 + PALETTE_WIDTH) as u16,
        }
    }

    /// A fresh dialog for a terminal of the given size: hidden, no bounds,
    /// toolbar anchored near the bottom-left, palette immediately to its
    /// right. The layout needs at least five terminal rows.
    pub fn new(rows: u16, _columns: u16) -> (d: DialogState)
        requires
            5 <= rows,
        ensures
            d.wf(),
            d.spec_hidden() == true,
            d.spec_bounds() == Seq::<Bound>::empty(),
            d.toolbar_origin() == (2u16, (rows - 5) as u16),
            d.palette_origin() == (6u16, (rows - 5) as u16),
    {
        let anchor_row = rows - 5;
        DialogState {
            hidden: true,
            toolbar_pos: (2, anchor_row),
            palette_pos: (2 + TOOLBAR_WIDTH, anchor_row),
            bounds: Vec::new(),
        }
    }

    /// The rectangle list of the last render pass, consulted by the
    /// dispatcher before the canvas.
    pub fn bounds(&self) -> (bs: &Vec<Bound>)
        ensures
            bs@ == self.spec_bounds(),
    {
        &self.bounds
    }

    /// Record the palette's rectangle; drawing its swatches is the external
    /// renderer's job.
    pub fn render_palette(&mut self)
        requires
            old(self).wf(),
        ensures
            final(self).wf(),
            final(self).spec_hidden() == old(self).spec_hidden(),
            final(self).toolbar_origin() == old(self).toolbar_origin(),
            final(self).palette_origin() == old(self).palette_origin(),
            final(self).spec_bounds() == old(self).spec_bounds().push(old(self).palette_bound()),
    {
        let b = Bound::from_pos_size(self.palette_pos, (PALETTE_WIDTH, PALETTE_HEIGHT));
        self.bounds.push(b);
    }

    /// Recompute the overlay rectangles for this render pass: none when
    /// hidden, else the toolbar's and the palette's, in that order. Drawing
    /// is the external renderer's job; this list must never be stale
    /// relative to the last-rendered layout.
    pub fn render(&mut self)
        requires
            old(self).wf(),
        ensures
            final(self).wf(),
            final(self).spec_hidden() == old(self).spec_hidden(),
            final(self).toolbar_origin() == old(self).toolbar_origin(),
            final(self).palette_origin() == old(self).palette_origin(),
            old(self).spec_hidden() ==> final(self).spec_bounds() == Seq::<Bound>::empty(),
            !old(self).spec_hidden() ==> final(self).spec_bounds() == seq![
                old(self).toolbar_bound(),
                old(self).palette_bound(),
            ],
    {
        self.bounds.clear();
        if self.hidden {
            return ;
        }
        let b = Bound::from_pos_size(self.toolbar_pos, (TOOLBAR_WIDTH, TOOLBAR_HEIGHT));
        self.bounds.push(b);
        self.render_palette();
        proof {
            assert(self.spec_bounds() =~= seq![
                old(self).toolbar_bound(),
                old(self).palette_bound(),
            ]);
        }
    }

    /// Which tool a pointer row selects inside the toolbar rectangle:
    /// the first logical row the paintbrush, the second the bucket, any
    /// other row none.
    pub open spec fn toolbar_choice(self, pos: (u16, u16)) -> Option<PaintTool> {
        if pos.1 == self.toolbar_origin().1 + 1 {
            Some(PaintTool::Paintbrush)
        } else if pos.1 == self.toolbar_origin().1 + 2 {
            Some(PaintTool::Bucket)
        } else {
            None
        }
    }

    /// Which swatch index a pointer coordinate selects: the swatch grid is
    /// two rows of ten, each swatch two columns wide, offset by the
    /// palette's margin; a coordinate outside the grid selects none.
    pub open spec fn palette_choice(self, pos: (u16, u16)) -> Option<int> {
        let dx = pos.0 - (self.palette_origin().0 + 2);
        let dy = pos.1 - (self.palette_origin().1 + 1);
        if 0 <= dx && dx / 2 < 10 && 0 <= dy && dy < 2 {
            Some(dy * 10 + dx / 2)
        } else {
            None
        }
    }

    /// The tool after one dialog interaction at `pos`: inside the toolbar
    /// rectangle the row alone decides.
    pub open spec fn tool_after(self, pos: (u16, u16), tool: PaintTool) -> PaintTool {
        if self.toolbar_bound().spec_contains(pos) {
            match self.toolbar_choice(pos) {
                Some(t) => t,
                None => tool,
            }
        } else {
            tool
        }
    }

    /// The drawing color after one dialog interaction at `pos`.
    pub open spec fn color_after(self, pos: (u16, u16), color: Pixel) -> Pixel {
        if !self.toolbar_bound().spec_contains(pos) {
            match self.palette_choice(pos) {
                Some(i) => spec_palette()[i],
                None => color,
            }
        } else {
            color
        }
    }

    /// Translate a pointer coordinate into a canvas mutation: a toolbar row
    /// selects a tool, a palette swatch selects a color, anything else is a
    /// no-op. The grid itself is never touched.
    pub fn interact(&mut self, pos: (u16, u16), canvas: &mut Canvas)
        requires
            old(self).wf(),
        ensures
            *final(self) == *old(self),
            final(canvas).grid() == old(canvas).grid(),
            final(canvas).tool() == old(self).tool_after(pos, old(canvas).tool()),
            final(canvas).color() == old(self).color_after(pos, old(canvas).color()),
    {
        let toolbar = Bound::from_pos_size(self.toolbar_pos, (TOOLBAR_WIDTH, TOOLBAR_HEIGHT));
        if toolbar.contains(pos) {
            if pos.1 == self.toolbar_pos.1 + 1 {
                canvas.set_tool(PaintTool::Paintbrush);
            } else if pos.1 == self.toolbar_pos.1 + 2 {
                canvas.set_tool(PaintTool::Bucket);
            }
        } else {
            let swatch_left = self.palette_pos.0 + 2;
            let swatch_top = self.palette_pos.1 + 1;
            if pos.0 >= swatch_left && pos.1 >= swatch_top {
                let column = (pos.0 - swatch_left) / 2;
                let row = pos.1 - swatch_top;
                if column < 10 && row < 2 {
                    let index = row * 10 + column;
                    canvas.set_color(swatch_color(index as usize));
                }
            }
        }
    }
}

} // verus!

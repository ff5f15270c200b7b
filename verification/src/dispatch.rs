//! Pointer dispatch: overlay first, canvas second.
//!
//! Every pointer coordinate arrives in terminal-cell units. It is tested
//! against the rendered overlay rectangles in insertion order; the first hit
//! routes the event to the dialog and the canvas is never touched. Only when
//! no rectangle holds the coordinate is it converted to canvas coordinates
//! (column halved, because each pixel renders two terminal cells wide; row
//! unchanged) and forwarded to the canvas.

use vstd::prelude::*;
use crate::canvas::{spec_interact, Canvas};
use crate::dialog::{Bound, DialogState};

verus! {

/// Some overlay rectangle holds the pointer coordinate.
pub open spec fn overlay_hit(bounds: Seq<Bound>, pos: (u16, u16)) -> bool {
    exists|k: int| 0 <= k < bounds.len() && (#[trigger] bounds[k]).spec_contains(pos)
}

/// Test the coordinate against every rectangle, in order.
fn hits_any(bounds: &Vec<Bound>, pos: (u16, u16)) -> (hit: bool)
    ensures
        hit == overlay_hit(bounds@, pos),
{
    let mut k: usize = 0;
    while k < bounds.len()
        invariant
            k <= bounds@.len(),
            forall|i: int| 0 <= i < k ==> !(#[trigger] bounds@[i]).spec_contains(pos),
        decreases bounds@.len() - k,
    {
        if bounds[k].contains(pos) {
            proof {
                assert((bounds@[k as int]).spec_contains(pos));
            }
            return true;
        }
        k = k + 1;
    }
    false
}

/// Route one primary-button pointer event. A coordinate inside a rendered
/// overlay rectangle only triggers the dialog and never mutates the grid; any
/// other coordinate paints or fills the canvas cell under the pointer.
pub fn dispatch_pointer(dialog: &mut DialogState, canvas: &mut Canvas, column: u16, row: u16)
    requires
        old(dialog).wf(),
        old(canvas).wf(),
    ensures
        *final(dialog) == *old(dialog),
        final(canvas).wf(),
        overlay_hit(old(dialog).spec_bounds(), (column, row)) ==> {
            &&& final(canvas).grid() == old(canvas).grid()
            &&& final(canvas).tool() == old(dialog).tool_after((column, row), old(canvas).tool())
            &&& final(canvas).color() == old(dialog).color_after(
                (column, row),
                old(canvas).color(),
            )
        },
        !overlay_hit(old(dialog).spec_bounds(), (column, row)) ==> {
            &&& final(canvas).tool() == old(canvas).tool()
            &&& final(canvas).color() == old(canvas).color()
            &&& final(canvas).grid() == spec_interact(
                old(canvas).grid(),
                (column / 2) as int,
                row as int,
                old(canvas).color(),
                old(canvas).tool(),
            )
        },
{
    let pos = (column, row);
    let hit = hits_any(dialog.bounds(), pos);
    if hit {
        dialog.interact(pos, canvas);
    } else {
        canvas.interact_with_pixel((column / 2) as usize, row as usize);
    }
}

} // verus!

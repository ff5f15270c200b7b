use pixel_paint::canvas::{Canvas, PaintTool};
use pixel_paint::dialog::{swatch_color, Bound, DialogState};
use pixel_paint::dispatch::dispatch_pointer;
use pixel_paint::pixel::Pixel;

// With a 20-row terminal the dialog anchors at row 15: the toolbar rectangle
// spans columns [2, 6) and rows [15, 19), the palette columns [6, 30) and the
// same rows; the swatch grid starts at column 8, row 16.

#[test]
fn bound_contains_is_half_open() {
    let b = Bound::from_pos_size((2, 3), (4, 5));
    // left/top edges are inside
    assert!(b.contains((2, 3)));
    // the last interior coordinate
    assert!(b.contains((5, 7)));
    // right/bottom edges are outside
    assert!(!b.contains((6, 3)));
    assert!(!b.contains((2, 8)));
    // just below the rectangle's start
    assert!(!b.contains((1, 3)));
    assert!(!b.contains((2, 2)));
}

#[test]
fn new_dialog_starts_hidden_with_no_bounds() {
    let dialog = DialogState::new(20, 80);
    assert!(dialog.is_hidden());
    assert!(dialog.hidden);
    assert!(dialog.bounds().is_empty());
}

#[test]
fn render_hidden_gives_empty_bounds() {
    let mut dialog = DialogState::new(20, 80);
    dialog.render();
    assert!(dialog.bounds().is_empty());
}

#[test]
fn render_visible_gives_two_disjoint_rects() {
    let mut dialog = DialogState::new(20, 80);
    dialog.set_hidden(false);
    assert!(!dialog.is_hidden());
    dialog.render();
    let bounds = dialog.bounds();
    assert_eq!(bounds.len(), 2);
    let toolbar = bounds[0];
    let palette = bounds[1];
    assert_eq!(toolbar, Bound { top: 15, left: 2, bottom: 19, right: 6 });
    assert_eq!(palette, Bound { top: 15, left: 6, bottom: 19, right: 30 });
    // half-open: the shared edge column belongs to the palette alone
    for row in 15..19 {
        assert!(!toolbar.contains((6, row)));
        assert!(palette.contains((6, row)));
    }
}

#[test]
fn render_palette_appends_palette_rect() {
    let mut dialog = DialogState::new(20, 80);
    dialog.render_palette();
    let bounds = dialog.bounds();
    assert_eq!(bounds.len(), 1);
    assert_eq!(bounds[0], Bound { top: 15, left: 6, bottom: 19, right: 30 });
}

#[test]
fn toolbar_rows_select_tools() {
    let mut dialog = DialogState::new(20, 80);
    let mut canvas = Canvas::new(40, 20);
    dialog.interact((4, 16), &mut canvas);
    assert_eq!(*canvas.current_tool(), PaintTool::Paintbrush);
    dialog.interact((4, 17), &mut canvas);
    assert_eq!(*canvas.current_tool(), PaintTool::Bucket);
    dialog.interact((5, 16), &mut canvas);
    assert_eq!(*canvas.current_tool(), PaintTool::Paintbrush);
}

#[test]
fn toolbar_rows_select_by_row_alone() {
    let mut dialog = DialogState::new(20, 80);
    let mut canvas = Canvas::new(40, 20);
    // the row decides anywhere inside the toolbar rectangle, its left
    // edge included
    dialog.interact((2, 17), &mut canvas);
    assert_eq!(*canvas.current_tool(), PaintTool::Bucket);
    dialog.interact((3, 16), &mut canvas);
    assert_eq!(*canvas.current_tool(), PaintTool::Paintbrush);
    // the toolbar's exclusive right edge belongs to the palette instead
    dialog.interact((6, 17), &mut canvas);
    assert_eq!(*canvas.current_tool(), PaintTool::Paintbrush);
}

#[test]
fn toolbar_other_rows_are_noop() {
    let mut dialog = DialogState::new(20, 80);
    let mut canvas = Canvas::new(40, 20);
    canvas.set_tool(PaintTool::Bucket);
    dialog.interact((4, 15), &mut canvas);
    assert_eq!(*canvas.current_tool(), PaintTool::Bucket);
    dialog.interact((4, 18), &mut canvas);
    assert_eq!(*canvas.current_tool(), PaintTool::Bucket);
    assert_eq!(canvas.current_color(), Pixel::black());
}

#[test]
fn palette_corner_swatches() {
    let mut dialog = DialogState::new(20, 80);
    let mut canvas = Canvas::new(40, 20);

    // column 0 of swatch row 0 selects swatch 0
    canvas.set_color(Pixel::white());
    dialog.interact((8, 16), &mut canvas);
    assert_eq!(canvas.current_color(), Pixel::from_rgb(0, 0, 0));

    // column 9 of swatch row 1 selects swatch 19
    dialog.interact((27, 17), &mut canvas);
    assert_eq!(canvas.current_color(), Pixel::from_rgb(181, 165, 213));
}

#[test]
fn palette_past_last_column_is_noop() {
    let mut dialog = DialogState::new(20, 80);
    let mut canvas = Canvas::new(40, 20);
    let sentinel = Pixel::from_rgb(1, 2, 3);
    canvas.set_color(sentinel);
    // one column past the last swatch column
    dialog.interact((28, 16), &mut canvas);
    assert_eq!(canvas.current_color(), sentinel);
    // one row past the last swatch row
    dialog.interact((8, 18), &mut canvas);
    assert_eq!(canvas.current_color(), sentinel);
}

#[test]
fn palette_margin_is_noop() {
    let mut dialog = DialogState::new(20, 80);
    let mut canvas = Canvas::new(40, 20);
    let sentinel = Pixel::from_rgb(4, 5, 6);
    canvas.set_color(sentinel);
    dialog.interact((6, 16), &mut canvas); // palette border, left of the swatches
    dialog.interact((8, 15), &mut canvas); // palette border, above the swatches
    assert_eq!(canvas.current_color(), sentinel);
    assert_eq!(*canvas.current_tool(), PaintTool::Paintbrush);
}

#[test]
fn swatch_colors_match_palette_order() {
    assert_eq!(swatch_color(0), Pixel::from_rgb(0, 0, 0));
    assert_eq!(swatch_color(1), Pixel::from_rgb(120, 120, 120));
    assert_eq!(swatch_color(9), Pixel::from_rgb(111, 49, 152));
    assert_eq!(swatch_color(10), Pixel::from_rgb(255, 255, 255));
    assert_eq!(swatch_color(19), Pixel::from_rgb(181, 165, 213));
}

#[test]
fn dispatch_overlay_beats_canvas() {
    let mut dialog = DialogState::new(20, 80);
    let mut canvas = Canvas::new(40, 20);
    dialog.set_hidden(false);
    dialog.render();

    // (3, 16) lies in the toolbar rectangle and over canvas cell (1, 16)
    dispatch_pointer(&mut dialog, &mut canvas, 3, 16);
    assert_eq!(canvas.pixels()[16][1], Pixel::white());
    assert_eq!(*canvas.current_tool(), PaintTool::Paintbrush);

    // (10, 16) lies in the palette rectangle: swatch 1, grid untouched
    dispatch_pointer(&mut dialog, &mut canvas, 10, 16);
    assert_eq!(canvas.current_color(), Pixel::from_rgb(120, 120, 120));
    for row in canvas.pixels().iter() {
        for cell in row.iter() {
            assert_eq!(*cell, Pixel::white());
        }
    }
}

#[test]
fn dispatch_falls_through_to_canvas() {
    let mut dialog = DialogState::new(20, 80);
    let mut canvas = Canvas::new(40, 20);
    // hidden dialog: no bounds, so the same coordinate paints the canvas
    dialog.render();
    dispatch_pointer(&mut dialog, &mut canvas, 3, 16);
    assert_eq!(canvas.pixels()[16][1], Pixel::black());
}

#[test]
fn dispatch_maps_columns_double_wide() {
    let mut dialog = DialogState::new(20, 80);
    let mut canvas = Canvas::new(40, 20);
    dispatch_pointer(&mut dialog, &mut canvas, 11, 2);
    dispatch_pointer(&mut dialog, &mut canvas, 10, 2);
    // both terminal columns 10 and 11 land on canvas column 5
    assert_eq!(canvas.pixels()[2][5], Pixel::black());
    assert_eq!(canvas.pixels()[2][4], Pixel::white());
    assert_eq!(canvas.pixels()[2][6], Pixel::white());
}

use pixel_paint::canvas::{Canvas, PaintTool};
use pixel_paint::pixel::Pixel;

fn white() -> Pixel {
    Pixel::from_rgb(255, 255, 255)
}

fn black() -> Pixel {
    Pixel::from_rgb(0, 0, 0)
}

#[test]
fn new_canvas_dimensions_and_defaults() {
    let canvas = Canvas::new(4, 3);
    let rows = canvas.pixels();
    assert_eq!(rows.len(), 3);
    for row in rows.iter() {
        assert_eq!(row.len(), 4);
        for cell in row.iter() {
            assert_eq!(*cell, white());
        }
    }
    assert_eq!(*canvas.current_tool(), PaintTool::Paintbrush);
    assert_eq!(canvas.current_color(), black());
}

#[test]
fn paintbrush_sets_exactly_one_cell() {
    let mut canvas = Canvas::new(3, 3);
    canvas.interact_with_pixel(1, 1);
    for y in 0..3 {
        for x in 0..3 {
            let expected = if (x, y) == (1, 1) { black() } else { white() };
            assert_eq!(canvas.pixels()[y][x], expected);
        }
    }
}

#[test]
fn out_of_bounds_paint_is_noop() {
    let mut canvas = Canvas::new(3, 3);
    canvas.interact_with_pixel(3, 0);
    canvas.interact_with_pixel(0, 3);
    canvas.interact_with_pixel(usize::MAX, usize::MAX);
    for row in canvas.pixels().iter() {
        for cell in row.iter() {
            assert_eq!(*cell, white());
        }
    }
}

#[test]
fn out_of_bounds_fill_is_noop() {
    let mut canvas = Canvas::new(3, 3);
    canvas.set_tool(PaintTool::Bucket);
    canvas.interact_with_pixel(3, 1);
    canvas.interact_with_pixel(1, 7);
    for row in canvas.pixels().iter() {
        for cell in row.iter() {
            assert_eq!(*cell, white());
        }
    }
}

#[test]
fn fill_spreads_to_whole_component() {
    let mut canvas = Canvas::new(5, 5);
    canvas.set_tool(PaintTool::Bucket);
    canvas.interact_with_pixel(2, 2);
    for row in canvas.pixels().iter() {
        for cell in row.iter() {
            assert_eq!(*cell, black());
        }
    }
}

#[test]
fn fill_stops_at_wall() {
    let mut canvas = Canvas::new(5, 5);
    let gray = Pixel::from_rgb(120, 120, 120);
    let red = Pixel::from_rgb(237, 28, 36);

    // a 1-cell-wide gray wall down column 2
    canvas.set_color(gray);
    for y in 0..5 {
        canvas.interact_with_pixel(2, y);
    }

    // fill the left region with red
    canvas.set_color(red);
    canvas.set_tool(PaintTool::Bucket);
    canvas.interact_with_pixel(0, 0);

    for y in 0..5 {
        assert_eq!(canvas.pixels()[y][0], red);
        assert_eq!(canvas.pixels()[y][1], red);
        assert_eq!(canvas.pixels()[y][2], gray);
        assert_eq!(canvas.pixels()[y][3], white());
        assert_eq!(canvas.pixels()[y][4], white());
    }
}

#[test]
fn fill_same_color_is_noop() {
    let mut canvas = Canvas::new(4, 4);
    canvas.set_color(white());
    canvas.set_tool(PaintTool::Bucket);
    canvas.interact_with_pixel(1, 1);
    for row in canvas.pixels().iter() {
        for cell in row.iter() {
            assert_eq!(*cell, white());
        }
    }
}

#[test]
fn fill_twice_is_same_as_once() {
    let mut canvas = Canvas::new(4, 4);
    let green = Pixel::from_rgb(34, 177, 76);
    canvas.set_color(green);
    canvas.set_tool(PaintTool::Bucket);
    canvas.interact_with_pixel(3, 0);
    let once: Vec<Vec<Pixel>> = canvas.pixels().clone();
    canvas.interact_with_pixel(3, 0);
    assert_eq!(*canvas.pixels(), once);
}

#[test]
fn set_tool_and_color_roundtrip() {
    let mut canvas = Canvas::new(2, 2);
    canvas.set_tool(PaintTool::Bucket);
    assert_eq!(*canvas.current_tool(), PaintTool::Bucket);
    canvas.set_tool(PaintTool::Paintbrush);
    assert_eq!(*canvas.current_tool(), PaintTool::Paintbrush);

    let translucent = Pixel::from_rgba(10, 20, 30, 40);
    canvas.set_color(translucent);
    assert_eq!(canvas.current_color(), translucent);
}

#[test]
fn pixel_constructors() {
    assert_eq!(Pixel::default(), white());
    assert_eq!(Pixel::white(), white());
    assert_eq!(Pixel::black(), black());
    assert_eq!(Pixel::from_rgb(1, 2, 3), Pixel::from_rgba(1, 2, 3, 255));
    assert_ne!(Pixel::from_rgba(1, 2, 3, 4), Pixel::from_rgb(1, 2, 3));
    assert!(Pixel::from_rgb(9, 9, 9).is_opaque());
    assert!(!Pixel::from_rgba(9, 9, 9, 254).is_opaque());
}

use std::collections::HashMap;

use embedded_canvas::{
    center_offset, index_to_point, point_to_index, CCanvas, CCanvasAt, Canvas, CanvasAt, Pixel,
    Point, Rectangle, Size,
};
use embedded_graphics::pixelcolor::{Rgb565, RgbColor};
use embedded_graphics::primitives::{Circle, Primitive, PrimitiveStyle};
use embedded_graphics_core::pixelcolor::BinaryColor;

fn size(width: u32, height: u32) -> Size {
    Size { width, height }
}

fn rect(x: i32, y: i32, width: u32, height: u32) -> Rectangle {
    Rectangle::new(Point::new(x, y), size(width, height))
}

#[test]
fn test_index_to_point() {
    let canvas = Canvas::<BinaryColor>::new(Size {
        width: 320,
        height: 240,
    });

    {
        let center = Point::new(160, 120);
        let center_index = canvas.point_to_index(center).expect("Inside the canvas");

        assert_eq!(
            center,
            canvas
                .index_to_point(center_index)
                .expect("Should fetch the index")
        );
    }
    {
        let bottom_right = Point::new(320 - 1, 240 - 1);
        let br_index = canvas
            .point_to_index(bottom_right)
            .expect("Inside the canvas");

        assert_eq!(
            bottom_right,
            canvas
                .index_to_point(br_index)
                .expect("Should fetch the index")
        );
    }
    {
        let top_left = Point::new(0, 0);
        let tl_index = canvas.point_to_index(top_left).expect("Inside the canvas");

        assert_eq!(
            top_left,
            canvas
                .index_to_point(tl_index)
                .expect("Should fetch the index")
        );
    }

    {
        let bottom_left = Point::new(0, 240 - 1);
        let bl_index = canvas
            .point_to_index(bottom_left)
            .expect("Inside the canvas");

        assert_eq!(
            bottom_left,
            canvas
                .index_to_point(bl_index)
                .expect("Should fetch the index")
        );
    }
    {
        let top_right = Point::new(320 - 1, 0);
        let tr_index = canvas.point_to_index(top_right).expect("Inside the canvas");

        assert_eq!(
            top_right,
            canvas
                .index_to_point(tr_index)
                .expect("Should fetch the index")
        );
    }
}

#[test]
fn index_round_trip_with_offset() {
    let s = size(320, 240);
    let offset = Point::new(-7, 13);
    for p in [
        Point::new(153, 133),
        Point::new(-7, 13),
        Point::new(312, 13),
        Point::new(-7, 252),
        Point::new(312, 252),
    ] {
        let index = point_to_index(s, offset, p).expect("inside");
        let local = index_to_point(s, index).expect("fits");
        assert_eq!(Point::new(local.x + offset.x, local.y + offset.y), p);
    }
    assert_eq!(point_to_index(s, offset, Point::new(-5, 14)), Some(2 + 320));
}

#[test]
fn point_to_index_rejects_points_outside() {
    let s = size(4, 3);
    let offset = Point::new(10, 20);
    assert_eq!(point_to_index(s, offset, Point::new(9, 20)), None);
    assert_eq!(point_to_index(s, offset, Point::new(10, 19)), None);
    assert_eq!(point_to_index(s, offset, Point::new(14, 20)), None);
    assert_eq!(point_to_index(s, offset, Point::new(10, 23)), None);
    assert_eq!(point_to_index(s, offset, Point::new(i32::MIN, i32::MAX)), None);
    assert_eq!(point_to_index(s, offset, Point::new(10, 20)), Some(0));
    assert_eq!(point_to_index(s, offset, Point::new(13, 22)), Some(11));
    assert_eq!(point_to_index(size(0, 5), Point::zero(), Point::zero()), None);
}

#[test]
fn index_to_point_edge_cases() {
    assert_eq!(index_to_point(size(0, 4), 3), None);
    assert_eq!(index_to_point(size(5, 4), 13), Some(Point::new(3, 2)));
    assert_eq!(index_to_point(size(5, 4), 0), Some(Point::new(0, 0)));
}

#[test]
fn center_offset_rounds_toward_top_left() {
    assert_eq!(center_offset(size(100, 100)), size(49, 49));
    assert_eq!(center_offset(size(101, 101)), size(50, 50));
    assert_eq!(center_offset(size(0, 1)), size(0, 0));
    assert_eq!(center_offset(size(2, 7)), size(0, 3));
    assert_eq!(center_offset(size(u32::MAX, 1)), size(i32::MAX as u32, 0));
}

#[test]
fn centers_of_canvases() {
    assert_eq!(Canvas::<BinaryColor>::new(size(100, 101)).center(), Point::new(49, 50));
    assert_eq!(
        CanvasAt::<BinaryColor>::new(Point::new(10, -10), size(5, 4)).center(),
        Point::new(12, -9)
    );
    let at = CanvasAt::<BinaryColor>::with_center(Point::new(20, 30), size(10, 11));
    assert_eq!(at.top_left(), Point::new(16, 25));
    assert_eq!(at.center(), Point::new(20, 30));
    assert_eq!(CCanvas::<BinaryColor, 7, 4>::new().center(), Point::new(3, 1));
    let fixed = CCanvasAt::<BinaryColor, 7, 4>::with_center(Point::new(0, 0));
    assert_eq!(fixed.top_left(), Point::new(-3, -1));
    assert_eq!(fixed.center(), Point::new(0, 0));
}

#[test]
fn write_then_read() {
    let mut canvas = Canvas::new(size(5, 3));
    canvas.draw_iter(&[Pixel(Point::new(4, 2), BinaryColor::On)]);
    assert_eq!(canvas.get_pixel(Point::new(4, 2)), Some(BinaryColor::On));
    assert_eq!(canvas.get_pixel(Point::new(3, 2)), None);
    canvas.draw_iter(&[
        Pixel(Point::new(4, 2), BinaryColor::Off),
        Pixel(Point::new(0, 0), BinaryColor::On),
    ]);
    assert_eq!(canvas.get_pixel(Point::new(4, 2)), Some(BinaryColor::Off));
    assert_eq!(canvas.get_pixel(Point::new(0, 0)), Some(BinaryColor::On));
    assert_eq!(canvas.get_pixel(Point::new(5, 0)), None);
}

fn all_pixels(canvas: &Canvas<BinaryColor>) -> Vec<Option<BinaryColor>> {
    let mut out = Vec::new();
    for y in -2..6 {
        for x in -2..8 {
            out.push(canvas.get_pixel(Point::new(x, y)));
        }
    }
    out
}

#[test]
fn write_outside_changes_nothing() {
    let mut canvas = Canvas::with_default_color(size(5, 3), BinaryColor::Off);
    canvas.draw_iter(&[Pixel(Point::new(1, 1), BinaryColor::On)]);
    let before = all_pixels(&canvas);
    canvas.draw_iter(&[
        Pixel(Point::new(-1, 0), BinaryColor::On),
        Pixel(Point::new(5, 0), BinaryColor::On),
        Pixel(Point::new(0, 3), BinaryColor::On),
        Pixel(Point::new(i32::MAX, i32::MIN), BinaryColor::On),
    ]);
    assert_eq!(all_pixels(&canvas), before);
}

#[test]
fn anchored_write_then_read() {
    let mut canvas = CanvasAt::new(Point::new(-3, 5), size(4, 4));
    canvas.draw_iter(&[
        Pixel(Point::new(-3, 5), BinaryColor::On),
        Pixel(Point::new(0, 8), BinaryColor::Off),
        Pixel(Point::new(1, 8), BinaryColor::On),
    ]);
    assert_eq!(canvas.get_pixel(Point::new(-3, 5)), Some(BinaryColor::On));
    assert_eq!(canvas.get_pixel(Point::new(0, 8)), Some(BinaryColor::Off));
    assert_eq!(canvas.get_pixel(Point::new(1, 8)), None);
    assert_eq!(canvas.get_pixel(Point::new(0, 0)), None);
    assert_eq!(canvas.point_to_index(Point::new(-2, 6)), Some(5));
    assert_eq!(canvas.index_to_point(5), Some(Point::new(-2, 6)));
    assert_eq!(canvas.bounding_box(), rect(-3, 5, 4, 4));
}

#[test]
fn fixed_write_then_read() {
    let mut canvas = CCanvas::<BinaryColor, 4, 2>::new();
    canvas.draw_iter(&[
        Pixel(Point::new(3, 1), BinaryColor::On),
        Pixel(Point::new(1, 3), BinaryColor::On),
        Pixel(Point::new(-1, 0), BinaryColor::On),
    ]);
    assert_eq!(canvas.get_pixel(Point::new(3, 1)), Some(BinaryColor::On));
    assert_eq!(canvas.get_pixel(Point::new(1, 3)), None);
    assert_eq!(canvas.get_pixel(Point::new(1, 1)), None);
    assert_eq!(canvas.size(), size(4, 2));

    let mut at = CCanvasAt::<BinaryColor, 4, 2>::with_default_color(Point::new(10, 10), BinaryColor::Off);
    at.draw_iter(&[Pixel(Point::new(13, 11), BinaryColor::On), Pixel(Point::new(14, 11), BinaryColor::On)]);
    assert_eq!(at.get_pixel(Point::new(13, 11)), Some(BinaryColor::On));
    assert_eq!(at.get_pixel(Point::new(10, 10)), Some(BinaryColor::Off));
    assert_eq!(at.get_pixel(Point::new(14, 11)), None);
    assert_eq!(at.bounding_box(), rect(10, 10, 4, 2));
}

#[test]
fn crop_keeps_only_the_set_pixel() {
    let mut canvas = Canvas::new(size(10, 8));
    canvas.draw_iter(&[Pixel(Point::new(6, 5), BinaryColor::On)]);
    let cropped = canvas.crop(&rect(4, 3, 5, 4)).expect("non-empty area");
    assert_eq!(cropped.size(), size(5, 4));
    for y in 0..4 {
        for x in 0..5 {
            let expected = if (x, y) == (2, 2) { Some(BinaryColor::On) } else { None };
            assert_eq!(cropped.get_pixel(Point::new(x, y)), expected);
        }
    }
}

#[test]
fn crop_past_the_edges() {
    let mut canvas = Canvas::with_default_color(size(3, 3), BinaryColor::Off);
    canvas.draw_iter(&[Pixel(Point::new(0, 0), BinaryColor::On)]);
    let cropped = canvas.crop(&rect(-1, -1, 3, 5)).expect("non-empty area");
    assert_eq!(cropped.get_pixel(Point::new(0, 0)), None);
    assert_eq!(cropped.get_pixel(Point::new(1, 1)), Some(BinaryColor::On));
    assert_eq!(cropped.get_pixel(Point::new(2, 1)), Some(BinaryColor::Off));
    assert_eq!(cropped.get_pixel(Point::new(1, 3)), Some(BinaryColor::Off));
    assert_eq!(cropped.get_pixel(Point::new(1, 4)), None);
}

#[test]
fn anchored_crop_keeps_display_coordinates() {
    let mut canvas = CanvasAt::new(Point::new(100, 50), size(10, 10));
    canvas.draw_iter(&[
        Pixel(Point::new(103, 52), BinaryColor::On),
        Pixel(Point::new(109, 59), BinaryColor::On),
    ]);
    let cropped = canvas.crop(&rect(102, 51, 3, 3)).expect("non-empty area");
    assert_eq!(cropped.top_left(), Point::new(102, 51));
    assert_eq!(cropped.size(), size(3, 3));
    assert_eq!(cropped.get_pixel(Point::new(103, 52)), Some(BinaryColor::On));
    assert_eq!(cropped.get_pixel(Point::new(109, 59)), None);
    assert_eq!(
        cropped.drawn_pixels(),
        vec![Pixel(Point::new(103, 52), BinaryColor::On)]
    );
}

#[test]
fn fixed_crop_keeps_only_the_set_pixel() {
    let mut canvas = CCanvas::<BinaryColor, 6, 4>::new();
    canvas.draw_iter(&[
        Pixel(Point::new(5, 1), BinaryColor::On),
        Pixel(Point::new(0, 3), BinaryColor::Off),
    ]);
    let cropped = canvas
        .crop::<3, 2>(&rect(3, 0, 3, 2))
        .expect("non-empty area");
    assert_eq!(cropped.get_pixel(Point::new(2, 1)), Some(BinaryColor::On));
    assert_eq!(cropped.get_pixel(Point::new(0, 0)), None);
    assert_eq!(cropped.get_pixel(Point::new(1, 1)), None);
}

#[test]
fn crop_of_empty_area_is_none() {
    let canvas = Canvas::with_default_color(size(4, 4), BinaryColor::On);
    assert!(canvas.crop(&rect(1, 1, 0, 2)).is_none());
    assert!(canvas.crop(&rect(1, 1, 2, 0)).is_none());
    let at = CanvasAt::with_default_color(Point::new(3, 3), size(4, 4), BinaryColor::On);
    assert!(at.crop(&rect(3, 3, 0, 0)).is_none());
    let fixed = CCanvas::<BinaryColor, 4, 4>::with_default_color(BinaryColor::On);
    assert!(fixed.crop::<2, 2>(&rect(0, 0, 0, 2)).is_none());
}

#[test]
fn drawing_leaves_transparent_pixels_alone() {
    let mut display = Canvas::with_default_color(size(4, 4), Rgb565::BLACK);
    let mut canvas = Canvas::new(size(2, 2));
    canvas.draw_iter(&[Pixel(Point::new(0, 0), Rgb565::WHITE)]);
    let placed = canvas.place_at(Point::new(1, 1));
    display.draw_iter(&placed.drawn_pixels());
    for y in 0..4 {
        for x in 0..4 {
            let expected = if (x, y) == (1, 1) { Rgb565::WHITE } else { Rgb565::BLACK };
            assert_eq!(display.get_pixel(Point::new(x, y)), Some(expected));
        }
    }
}

#[test]
fn drawn_pixels_come_in_row_major_order() {
    let mut canvas = CanvasAt::new(Point::new(-1, -1), size(3, 3));
    canvas.draw_iter(&[
        Pixel(Point::new(1, 1), BinaryColor::On),
        Pixel(Point::new(-1, 1), BinaryColor::Off),
        Pixel(Point::new(0, -1), BinaryColor::On),
    ]);
    assert_eq!(
        canvas.drawn_pixels(),
        vec![
            Pixel(Point::new(0, -1), BinaryColor::On),
            Pixel(Point::new(-1, 1), BinaryColor::Off),
            Pixel(Point::new(1, 1), BinaryColor::On),
        ]
    );
    let fixed = CCanvas::<BinaryColor, 3, 2>::with_default_color(BinaryColor::On).place_at(Point::new(5, 6));
    assert_eq!(
        fixed.drawn_pixels(),
        vec![
            Pixel(Point::new(5, 6), BinaryColor::On),
            Pixel(Point::new(6, 6), BinaryColor::On),
            Pixel(Point::new(7, 6), BinaryColor::On),
            Pixel(Point::new(5, 7), BinaryColor::On),
            Pixel(Point::new(6, 7), BinaryColor::On),
            Pixel(Point::new(7, 7), BinaryColor::On),
        ]
    );
}

#[test]
fn placing_copies_the_pixels() {
    let mut canvas = Canvas::new(size(3, 2));
    canvas.draw_iter(&[Pixel(Point::new(2, 1), BinaryColor::On)]);
    let placed = canvas.place_center(Point::new(10, 10));
    assert_eq!(placed.top_left(), Point::new(9, 10));
    assert_eq!(placed.get_pixel(Point::new(11, 11)), Some(BinaryColor::On));
    canvas.draw_iter(&[Pixel(Point::new(0, 0), BinaryColor::On)]);
    assert_eq!(placed.get_pixel(Point::new(9, 10)), None);

    let mut fixed = CCanvas::<BinaryColor, 3, 2>::new();
    fixed.draw_iter(&[Pixel(Point::new(2, 1), BinaryColor::On)]);
    let fixed_placed = fixed.place_center(Point::new(10, 10));
    assert_eq!(fixed_placed.top_left(), Point::new(9, 10));
    assert_eq!(fixed_placed.get_pixel(Point::new(11, 11)), Some(BinaryColor::On));
}

#[test]
fn translating_moves_the_pixels() {
    let mut canvas = CanvasAt::new(Point::new(0, 0), size(2, 2));
    canvas.draw_iter(&[Pixel(Point::new(1, 0), BinaryColor::On)]);
    let moved = canvas.translate(Point::new(5, -3));
    assert_eq!(moved.top_left(), Point::new(5, -3));
    assert_eq!(moved.get_pixel(Point::new(6, -3)), Some(BinaryColor::On));
    assert_eq!(canvas.get_pixel(Point::new(1, 0)), Some(BinaryColor::On));
    canvas.translate_mut(Point::new(-1, 1));
    assert_eq!(canvas.get_pixel(Point::new(0, 1)), Some(BinaryColor::On));
    assert_eq!(canvas.get_pixel(Point::new(1, 0)), None);

    let mut fixed = CCanvasAt::<BinaryColor, 2, 2>::new(Point::new(0, 0));
    fixed.draw_iter(&[Pixel(Point::new(1, 0), BinaryColor::On)]);
    let fixed_moved = fixed.translate(Point::new(5, -3));
    assert_eq!(fixed_moved.get_pixel(Point::new(6, -3)), Some(BinaryColor::On));
    fixed.translate_mut(Point::new(-1, 1));
    assert_eq!(fixed.get_pixel(Point::new(0, 1)), Some(BinaryColor::On));
    assert_eq!(fixed.top_left(), Point::new(-1, 1));
}

/// The outline pixels of a 100x100 rectangle and a circle of diameter 98,
/// both centered on `(99, 99)`.
fn outlines() -> Vec<Pixel<Rgb565>> {
    let center = embedded_graphics_core::geometry::Point::new(99, 99);
    let square = embedded_graphics::primitives::Rectangle::with_center(
        center,
        embedded_graphics_core::geometry::Size::new(100, 100),
    )
    .into_styled(PrimitiveStyle::with_stroke(Rgb565::RED, 1));
    let circle =
        Circle::with_center(center, 98).into_styled(PrimitiveStyle::with_stroke(Rgb565::GREEN, 1));
    square
        .pixels()
        .chain(circle.pixels())
        .map(|p| Pixel(Point::new(p.0.x, p.0.y), p.1))
        .collect()
}

#[test]
fn place_crop_draw_end_to_end() {
    let mut canvas = Canvas::new(size(200, 200));
    assert_eq!(canvas.center(), Point::new(99, 99));
    let shapes = outlines();
    canvas.draw_iter(&shapes);

    let area = Rectangle::with_center(canvas.center(), size(100, 100));
    assert_eq!(area, rect(50, 50, 100, 100));
    let cropped = canvas.crop(&area).expect("non-empty area");
    let drawn = cropped.place_at(Point::new(280, 0)).drawn_pixels();

    let mut last: HashMap<(i32, i32), Rgb565> = HashMap::new();
    for Pixel(p, c) in &shapes {
        if (50..150).contains(&p.x) && (50..150).contains(&p.y) {
            last.insert((p.x - 50 + 280, p.y - 50), *c);
        }
    }
    let mut expected: Vec<Pixel<Rgb565>> = last
        .into_iter()
        .map(|((x, y), c)| Pixel(Point::new(x, y), c))
        .collect();
    expected.sort_by_key(|Pixel(p, _)| (p.y, p.x));

    assert!(!expected.is_empty());
    assert_eq!(drawn, expected);
    assert_eq!(drawn[0], Pixel(Point::new(280, 0), Rgb565::RED));

    let mut display = Canvas::new(size(480, 360));
    display.draw_iter(&drawn);
    let mut set = 0;
    for y in 0..360 {
        for x in 0..480 {
            if display.get_pixel(Point::new(x, y)).is_some() {
                set += 1;
                assert!((280..380).contains(&x) && (0..100).contains(&y));
            }
        }
    }
    assert_eq!(set, expected.len());
}

#[test]
fn clones_are_independent() {
    let mut canvas = CanvasAt::new(Point::new(0, 0), size(2, 2));
    let copy = canvas.clone();
    canvas.draw_iter(&[Pixel(Point::new(0, 0), BinaryColor::On)]);
    assert_eq!(copy.get_pixel(Point::new(0, 0)), None);
    assert_eq!(canvas.get_pixel(Point::new(0, 0)), Some(BinaryColor::On));
}

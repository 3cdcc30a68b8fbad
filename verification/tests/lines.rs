use geometrical_shapes::Buffer;
use geometrical_shapes::Color;
use geometrical_shapes::Displayable;
use geometrical_shapes::Drawable;
use geometrical_shapes::Line;
use geometrical_shapes::Point;
use geometrical_shapes::draw_line;
use geometrical_shapes::line_points;

fn check_line_shape(ax: i32, ay: i32, bx: i32, by: i32) {
    let a = Point::new(ax, ay);
    let b = Point::new(bx, by);
    let pts = line_points(a, b);
    let dx = (bx as i64 - ax as i64).abs();
    let dy = (by as i64 - ay as i64).abs();
    let expected_len = dx.max(dy) + 1;
    assert_eq!(pts.len() as i64, expected_len);
    assert_eq!(pts[0], a);
    assert_eq!(pts[pts.len() - 1], b);
    for w in pts.windows(2) {
        let step_x = (w[1].x - w[0].x).abs();
        let step_y = (w[1].y - w[0].y).abs();
        assert!(step_x <= 1 && step_y <= 1);
        assert!(step_x + step_y >= 1, "no duplicate pixel per step");
    }
}

#[test]
fn line_emits_endpoints_and_exact_count() {
    check_line_shape(0, 0, 5, 2);
    check_line_shape(5, 2, 0, 0);
    check_line_shape(0, 0, 2, 5);
    check_line_shape(-3, 4, 7, -9);
    check_line_shape(10, 10, 10, -10);
    check_line_shape(-7, 3, 12, 3);
    check_line_shape(0, 0, 8, 8);
    check_line_shape(1, 1, -6, -2);
}

#[test]
fn line_exact_pixels_shallow() {
    let pts = line_points(Point::new(0, 0), Point::new(5, 2));
    let expected = [(0, 0), (1, 0), (2, 1), (3, 1), (4, 2), (5, 2)];
    assert_eq!(pts.len(), expected.len());
    for (p, e) in pts.iter().zip(expected.iter()) {
        assert_eq!((p.x, p.y), *e);
    }
}

#[test]
fn line_degenerate_single_pixel() {
    let pts = line_points(Point::new(3, 7), Point::new(3, 7));
    assert_eq!(pts.len(), 1);
    assert_eq!(pts[0], Point::new(3, 7));
}

#[test]
fn draw_line_writes_every_pixel_in_color() {
    let a = Point::new(2, -1);
    let b = Point::new(-4, 3);
    let color = Color::rgb(10, 20, 30);
    let mut canvas = Buffer::new();
    draw_line(&mut canvas, &a, &b, color);
    let pts = line_points(a, b);
    assert_eq!(canvas.written.len(), pts.len());
    for (w, p) in canvas.written.iter().zip(pts.iter()) {
        assert_eq!((w.x, w.y), (p.x, p.y));
        assert_eq!(w.color, color);
    }
}

#[test]
fn line_shape_draws_with_stored_color() {
    let color = Color::rgb(1, 2, 3);
    let line = Line::new(Point::new(0, 0), Point::new(3, 3), color);
    let mut canvas = Buffer::new();
    line.draw(&mut canvas);
    assert_eq!(canvas.written.len(), 4);
    for w in &canvas.written {
        assert_eq!(w.color, color);
    }
    assert_eq!((canvas.written[0].x, canvas.written[0].y), (0, 0));
    assert_eq!((canvas.written[3].x, canvas.written[3].y), (3, 3));
}

#[test]
fn point_draw_sets_single_opaque_pixel() {
    let p = Point::new(-5, 9);
    let mut canvas = Buffer::new();
    p.draw(&mut canvas);
    assert_eq!(canvas.written.len(), 1);
    assert_eq!((canvas.written[0].x, canvas.written[0].y), (-5, 9));
    assert_eq!(canvas.written[0].color.a, 255);
}

#[test]
fn buffer_records_displays_in_order() {
    let mut canvas = Buffer::new();
    assert!(canvas.written.is_empty());
    canvas.display(1, 2, Color::white());
    canvas.display(3, 4, Color::rgb(0, 0, 0));
    assert_eq!(canvas.written.len(), 2);
    assert_eq!((canvas.written[0].x, canvas.written[0].y), (1, 2));
    assert_eq!((canvas.written[1].x, canvas.written[1].y), (3, 4));
}

use std::collections::HashSet;

use geometrical_shapes::Buffer;
use geometrical_shapes::Circle;
use geometrical_shapes::Drawable;
use geometrical_shapes::Point;
use geometrical_shapes::ShapeError;

fn drawn_offsets(center: Point, radius: i32) -> (HashSet<(i32, i32)>, usize) {
    let circle = Circle::new(center, radius).unwrap();
    let mut canvas = Buffer::new();
    circle.draw(&mut canvas);
    let mut offsets = HashSet::new();
    for w in &canvas.written {
        offsets.insert((w.x - center.x, w.y - center.y));
    }
    (offsets, canvas.written.len())
}

#[test]
fn circle_radius_zero_emits_center_only() {
    let center = Point::new(17, -4);
    let circle = Circle::new(center, 0).unwrap();
    let mut canvas = Buffer::new();
    circle.draw(&mut canvas);
    assert_eq!(canvas.written.len(), 1);
    assert_eq!((canvas.written[0].x, canvas.written[0].y), (17, -4));
}

#[test]
fn circle_offsets_symmetric_under_eight_reflections() {
    for radius in [1, 2, 3, 5, 10, 31] {
        let (offsets, _) = drawn_offsets(Point::new(100, 200), radius);
        for &(dx, dy) in &offsets {
            assert!(offsets.contains(&(-dx, dy)), "radius {radius}: missing ({},{})", -dx, dy);
            assert!(offsets.contains(&(dx, -dy)), "radius {radius}: missing ({},{})", dx, -dy);
            assert!(offsets.contains(&(dy, dx)), "radius {radius}: missing ({},{})", dy, dx);
        }
    }
}

#[test]
fn circle_radius_three_exact_pixels() {
    let (offsets, count) = drawn_offsets(Point::new(10, 10), 3);
    // Three octant columns, eight reflections each.
    assert_eq!(count, 24);
    for off in [(0, -3), (1, -3), (2, -2), (3, 0), (3, 1), (-3, 0), (0, 3), (2, 2)] {
        assert!(offsets.contains(&off), "missing offset {off:?}");
    }
    for &(dx, dy) in &offsets {
        let rr = dx * dx + dy * dy;
        assert!((4..=13).contains(&rr), "offset ({dx},{dy}) too far off the ring");
    }
}

#[test]
fn circle_draw_uses_one_opaque_color() {
    let circle = Circle::new(Point::new(0, 0), 7).unwrap();
    let mut canvas = Buffer::new();
    circle.draw(&mut canvas);
    assert!(!canvas.written.is_empty());
    let first = canvas.written[0].color;
    assert_eq!(first.a, 255);
    for w in &canvas.written {
        assert_eq!(w.color, first);
    }
}

#[test]
fn circle_draws_same_geometry_each_time() {
    let (first, first_count) = drawn_offsets(Point::new(40, 40), 9);
    let (second, second_count) = drawn_offsets(Point::new(40, 40), 9);
    assert_eq!(first_count, second_count);
    assert_eq!(first, second, "geometry must not depend on the color drawn");
}

#[test]
fn circle_negative_radius_reports_invalid_radius() {
    let res = Circle::new(Point::new(0, 0), -1);
    assert_eq!(res.unwrap_err(), ShapeError::InvalidRadius);
    let res = Circle::new(Point::new(5, 5), i32::MIN);
    assert_eq!(res.unwrap_err(), ShapeError::InvalidRadius);
}

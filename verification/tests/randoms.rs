use geometrical_shapes::Circle;
use geometrical_shapes::Color;
use geometrical_shapes::Drawable;
use geometrical_shapes::Line;
use geometrical_shapes::Point;
use geometrical_shapes::ShapeError;
use geometrical_shapes::random_color;

#[test]
fn random_point_respects_bounds_across_trials() {
    for _ in 0..500 {
        let p = Point::random(640, 480).unwrap();
        assert!((1..640).contains(&p.x), "x out of range: {}", p.x);
        assert!((1..480).contains(&p.y), "y out of range: {}", p.y);
    }
}

#[test]
fn random_point_minimal_range_is_pinned() {
    for _ in 0..20 {
        let p = Point::random(2, 2).unwrap();
        assert_eq!((p.x, p.y), (1, 1));
    }
}

#[test]
fn random_point_varies() {
    let mut seen = std::collections::HashSet::new();
    for _ in 0..100 {
        let p = Point::random(1000, 1000).unwrap();
        seen.insert((p.x, p.y));
    }
    assert!(seen.len() > 1, "random points never varied");
}

#[test]
fn random_point_degenerate_bounds_rejected() {
    assert_eq!(Point::random(1, 5).unwrap_err(), ShapeError::InvalidBounds);
    assert_eq!(Point::random(5, 1).unwrap_err(), ShapeError::InvalidBounds);
    assert_eq!(Point::random(0, 0).unwrap_err(), ShapeError::InvalidBounds);
    assert_eq!(Point::random(-3, 100).unwrap_err(), ShapeError::InvalidBounds);
}

#[test]
fn random_circle_respects_bounds_across_trials() {
    for _ in 0..200 {
        let c = Circle::random(100, 60).unwrap();
        assert!((1..100).contains(&c.center.x));
        assert!((1..60).contains(&c.center.y));
        assert!(c.radius >= 0);
        assert!(c.radius < 30, "radius {} too large", c.radius);
    }
}

#[test]
fn random_circle_degenerate_bounds_rejected() {
    assert_eq!(Circle::random(1, 50).unwrap_err(), ShapeError::InvalidBounds);
    assert_eq!(Circle::random(50, 0).unwrap_err(), ShapeError::InvalidBounds);
}

#[test]
fn random_line_respects_bounds_across_trials() {
    for _ in 0..200 {
        let l = Line::random(320, 200).unwrap();
        for p in [l.a, l.b] {
            assert!((1..320).contains(&p.x));
            assert!((1..200).contains(&p.y));
        }
        assert_eq!(l.color.a, 255);
    }
}

#[test]
fn random_line_degenerate_bounds_rejected() {
    assert_eq!(Line::random(1, 1).unwrap_err(), ShapeError::InvalidBounds);
}

#[test]
fn random_color_is_opaque_and_varies() {
    let mut seen = std::collections::HashSet::new();
    for _ in 0..100 {
        let c = random_color();
        assert_eq!(c.a, 255);
        seen.insert((c.r, c.g, c.b));
    }
    assert!(seen.len() > 1, "random colors never varied");
}

#[test]
fn drawable_default_color_is_opaque() {
    let p = Point::new(0, 0);
    for _ in 0..50 {
        assert_eq!(p.color().a, 255);
    }
}

#[test]
fn color_constructors() {
    let c = Color::rgb(9, 8, 7);
    assert_eq!((c.r, c.g, c.b, c.a), (9, 8, 7, 255));
    let w = Color::white();
    assert_eq!((w.r, w.g, w.b, w.a), (255, 255, 255, 255));
}

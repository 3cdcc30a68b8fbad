use geometrical_shapes::Buffer;
use geometrical_shapes::Cube;
use geometrical_shapes::Drawable;
use geometrical_shapes::Pentagon;
use geometrical_shapes::Point;
use geometrical_shapes::Rectangle;
use geometrical_shapes::Triangle;

#[test]
fn rectangle_draws_all_four_edges_and_corners() {
    let rect = Rectangle::new(&Point::new(0, 0), &Point::new(4, 4));
    let mut canvas = Buffer::new();
    rect.draw(&mut canvas);
    // Four edges of five pixels each; corners are emitted twice.
    assert_eq!(canvas.written.len(), 20);
    let pixels: Vec<(i32, i32)> = canvas.written.iter().map(|w| (w.x, w.y)).collect();
    for corner in [(0, 0), (4, 0), (0, 4), (4, 4)] {
        assert!(pixels.contains(&corner), "missing corner {corner:?}");
    }
    for &(x, y) in &pixels {
        assert!(x == 0 || x == 4 || y == 0 || y == 4, "pixel ({x},{y}) off the border");
        assert!((0..=4).contains(&x) && (0..=4).contains(&y));
    }
    for edge in 0..=4 {
        assert!(pixels.contains(&(edge, 0)));
        assert!(pixels.contains(&(edge, 4)));
        assert!(pixels.contains(&(0, edge)));
        assert!(pixels.contains(&(4, edge)));
    }
    for w in &canvas.written {
        assert_eq!((w.color.r, w.color.g, w.color.b, w.color.a), (255, 255, 255, 255));
    }
}

#[test]
fn triangle_draws_three_white_edges() {
    let tri = Triangle::new(&Point::new(0, 0), &Point::new(4, 0), &Point::new(0, 4));
    let mut canvas = Buffer::new();
    tri.draw(&mut canvas);
    assert_eq!(canvas.written.len(), 15);
    let pixels: Vec<(i32, i32)> = canvas.written.iter().map(|w| (w.x, w.y)).collect();
    for vertex in [(0, 0), (4, 0), (0, 4)] {
        assert!(pixels.contains(&vertex), "missing vertex {vertex:?}");
    }
    for w in &canvas.written {
        assert_eq!((w.color.r, w.color.g, w.color.b, w.color.a), (255, 255, 255, 255));
    }
}

#[test]
fn pentagon_vertices_return_to_origin() {
    let shape = Pentagon::new(&Point::new(0, 0), 10);
    let mut canvas = Buffer::new();
    shape.draw(&mut canvas);
    assert!(!canvas.written.is_empty());
    let first = canvas.written[0].color;
    for w in &canvas.written {
        assert_eq!(w.color, first);
    }
}

#[test]
fn pentagon_edge_chain_closes_within_tolerance() {
    let origin = Point::new(0, 0);
    let shape = Pentagon::new(&origin, 10);
    assert_eq!(shape.edge_lines.len(), 5);
    assert_eq!(shape.edge_lines[0].a, origin);
    for k in 0..4 {
        assert_eq!(shape.edge_lines[k].b, shape.edge_lines[k + 1].a, "edge chain broken at {k}");
    }
    let last = shape.edge_lines[4].b;
    // After five 72-degree turns the accumulated truncation error stays
    // within one unit per axis of the origin.
    assert!(last.x.abs() <= 1 && last.y.abs() <= 1, "pentagon does not close: {last:?}");
    let first_color = shape.edge_lines[0].color;
    assert_eq!(first_color.a, 255);
    for edge in &shape.edge_lines {
        assert_eq!(edge.color, first_color);
    }
}

#[test]
fn pentagon_exact_walk_for_edge_ten() {
    let shape = Pentagon::new(&Point::new(0, 0), 10);
    let vertices: Vec<(i32, i32)> = shape.edge_lines.iter().map(|e| (e.a.x, e.a.y)).collect();
    assert_eq!(vertices, vec![(0, 0), (10, 0), (13, 9), (5, 14), (-3, 9)]);
    assert_eq!((shape.edge_lines[4].b.x, shape.edge_lines[4].b.y), (0, 0));
}

#[test]
fn cube_draws_two_rectangles_and_four_edges_in_one_color() {
    let cube = Cube::new(&Point::new(0, 0), &Point::new(10, 10));
    let mut canvas = Buffer::new();
    cube.draw(&mut canvas);
    // Two 11x11 rectangle wireframes (44 pixels each) plus four
    // connecting edges of 6 pixels each.
    assert_eq!(canvas.written.len(), 112);
    let first = canvas.written[0].color;
    assert_eq!(first.a, 255);
    for w in &canvas.written {
        assert_eq!(w.color, first, "cuboid pixels must share one color");
    }
    let pixels: Vec<(i32, i32)> = canvas.written.iter().map(|w| (w.x, w.y)).collect();
    // Front face corners.
    for corner in [(0, 0), (10, 0), (0, 10), (10, 10)] {
        assert!(pixels.contains(&corner), "missing front corner {corner:?}");
    }
    // Back face corners, offset by the half-diagonal depth (-5, 5).
    for corner in [(-5, 5), (5, 5), (-5, 15), (5, 15)] {
        assert!(pixels.contains(&corner), "missing back corner {corner:?}");
    }
}

#[test]
fn cube_draws_same_geometry_each_time() {
    let cube = Cube::new(&Point::new(-3, 2), &Point::new(9, 8));
    let mut first = Buffer::new();
    let mut second = Buffer::new();
    cube.draw(&mut first);
    cube.draw(&mut second);
    let geom = |canvas: &Buffer| -> Vec<(i32, i32)> {
        canvas.written.iter().map(|w| (w.x, w.y)).collect()
    };
    assert_eq!(geom(&first), geom(&second), "geometry must not depend on the color draw");
}

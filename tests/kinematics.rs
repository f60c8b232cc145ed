use deft_engine::engine::game::{shift, DrawMode, GameObject, Point, Points, Polygon, Rect, SUBPIXELS};

#[test]
fn update_moves_before_accelerating() {
    let mut r = Rect::new2d(0, 0, 1, 1, 1, DrawMode::Override, true);
    r.set_velocity(2 * SUBPIXELS, 0, 0);
    r.set_acceleration(SUBPIXELS, 0, 0);
    r.update();
    assert_eq!(r.coord(), (2, 0, 0));
    assert_eq!(r.velocity(), (3 * SUBPIXELS, 0, 0));
    r.update();
    assert_eq!(r.coord(), (5, 0, 0));
    assert_eq!(r.velocity(), (4 * SUBPIXELS, 0, 0));
}

#[test]
fn point_update_matches_rect_update() {
    let mut p = Point::new(0, 0, 0);
    p.velocity = (2 * SUBPIXELS, 0, 0);
    p.acceleration = (SUBPIXELS, 0, 0);
    p.update();
    p.update();
    assert_eq!(p.coord, (5, 0, 0));
    assert_eq!(p.velocity, (4 * SUBPIXELS, 0, 0));
}

#[test]
fn fractional_moves_truncate_toward_zero() {
    assert_eq!(shift(0, 2500), 2);
    assert_eq!(shift(0, -2500), -2);
    assert_eq!(shift(5, -500), 4);
    assert_eq!(shift(-5, 500), -4);
    assert_eq!(shift(i32::MAX, SUBPIXELS), i32::MAX);
    assert_eq!(shift(i32::MIN, -SUBPIXELS), i32::MIN);
}

#[test]
fn velocity_saturates() {
    let mut r = Rect::new2d(0, 0, 1, 1, 1, DrawMode::Override, true);
    r.set_velocity(i64::MAX, 0, 0);
    r.add_velocity(1, -1, 0);
    assert_eq!(r.velocity(), (i64::MAX, -1, 0));
}

#[test]
fn polygon_vertices_move_independently() {
    let mut p = Polygon::new2d(1, DrawMode::Override, true);
    p.add_point(Point::new(0, 0, 0));
    p.add_point(Point::new(10, 0, 0));
    p.set_velocity_point(1, 0, 3 * SUBPIXELS, 0);
    p.set_acceleration_point(0, SUBPIXELS, 0, 0);
    p.update();
    assert_eq!(p.points.points[0].coord, (0, 0, 0));
    assert_eq!(p.points.points[1].coord, (10, 3, 0));
    p.update();
    assert_eq!(p.points.points[0].coord, (1, 0, 0));
    assert_eq!(p.coord(), (1, 0, 0));
    assert_eq!(p.size(), (9, 6, 0));
}

#[test]
fn polygon_reports_mean_motion() {
    let mut p = Polygon::new2d(1, DrawMode::Override, true);
    assert_eq!(p.velocity(), None);
    assert_eq!(p.acceleration(), None);
    p.add_point(Point::new(0, 0, 0));
    p.add_point(Point::new(1, 1, 1));
    p.set_velocity_point(0, 1000, -1, 7);
    p.set_velocity_point(1, 2000, -2, 8);
    p.set_acceleration_point(1, 5, 0, 0);
    assert_eq!(p.velocity(), Some((1500, -1, 7)));
    assert_eq!(p.acceleration(), Some((2, 0, 0)));
}

#[test]
fn polygon_move_to_places_bounding_box() {
    let mut p = Polygon::new2d(1, DrawMode::Override, true);
    p.add_point(Point::new(3, 4, 1));
    p.add_point(Point::new(6, 9, 2));
    p.move_to(10, 20, 0);
    assert_eq!(p.points.points[0].coord, (10, 20, 0));
    assert_eq!(p.points.points[1].coord, (13, 25, 1));
    p.translate(1500, -1500, 0);
    assert_eq!(p.points.points[0].coord, (11, 18, 0));
}

#[test]
fn points_bounding_box() {
    let mut pts = Points::new();
    assert_eq!(pts.min_x(), None);
    assert_eq!(pts.center(), None);
    assert_eq!(pts.size(), None);
    pts.add_point(Point::new(-3, 5, 2));
    pts.add_point(Point::new(0, -1, 2));
    pts.add_point(Point::new(-2, 2, 9));
    assert_eq!((pts.min_x(), pts.max_x()), (Some(-3), Some(0)));
    assert_eq!((pts.min_y(), pts.max_y()), (Some(-1), Some(5)));
    assert_eq!((pts.min_z(), pts.max_z()), (Some(2), Some(9)));
    assert_eq!(pts.center(), Some((-1, 2, 5)));
    assert_eq!((pts.width(), pts.height(), pts.depth()), (Some(3), Some(6), Some(7)));
    assert_eq!(pts.coord(), Some((-3, -1, 2)));
    assert_eq!(pts.size(), Some((3, 6, 7)));
}

#[test]
fn game_object_dispatches_motion() {
    let mut o = GameObject::Rect(Rect::new2d(4, 4, 2, 2, 1, DrawMode::Override, true));
    o.set_velocity(SUBPIXELS, 0, 0);
    o.update();
    assert_eq!(o.coord(), (5, 4, 0));
    o.move_to(0, 1, 2);
    assert_eq!(o.coord(), (0, 1, 2));
    assert_eq!(o.velocity(), Some((SUBPIXELS, 0, 0)));
    assert_eq!(o.size(), (2, 2, 0));
}

use deft_engine::engine::game::{DrawMode, GameObject, Point, Points, Polygon, Rect};
use deft_engine::engine::physics::{check_collision, CollisionObjectCommon, PolygonCollision, RectCollision};

#[test]
fn overlapping_boxes_collide() {
    let a = RectCollision::new(0, 0, 0, 10, 10, 10);
    let b = RectCollision::new(5, 5, 0, 10, 10, 10);
    assert!(check_collision(&a, &b));
    assert!(check_collision(&b, &a));
}

#[test]
fn touching_boxes_do_not_collide() {
    let a = RectCollision::new(0, 0, 0, 10, 10, 10);
    let b = RectCollision::new(10, 10, 0, 10, 10, 10);
    assert!(!check_collision(&a, &b));
    assert!(!check_collision(&b, &a));
    let c = RectCollision::new(0, 0, 10, 10, 10, 10);
    assert!(!check_collision(&a, &c));
}

#[test]
fn polygon_body_uses_bounding_box() {
    let mut pts = Points::new();
    pts.add_point(Point::new(2, 8, 0));
    pts.add_point(Point::new(6, 3, 4));
    let body = PolygonCollision { points: pts };
    assert_eq!(body.coord(), (2, 3, 0));
    assert_eq!(body.size(), (4, 5, 4));
    assert!(check_collision(&body, &RectCollision::new(5, 7, 3, 1, 1, 1)));
    assert!(!check_collision(&body, &RectCollision::new(6, 7, 3, 1, 1, 1)));
}

#[test]
fn game_objects_collide_through_their_bodies() {
    let a = GameObject::Rect(Rect::new2d(0, 0, 10, 10, 1, DrawMode::Override, true));
    let mut p = Polygon::new2d(2, DrawMode::Overlay, true);
    p.add_point(Point::new(9, 9, 0));
    p.add_point(Point::new(12, 12, 1));
    let b = GameObject::Polygon(p);
    // the box is flat (depth 0), so nothing overlaps it along z
    assert!(!a.check_collision(&b));
    let mut c = Rect::new2d(5, 5, 10, 10, 1, DrawMode::Override, true);
    c.depth = 2;
    let mut d = Rect::new2d(0, 0, 10, 10, 1, DrawMode::Override, true);
    d.depth = 2;
    assert!(GameObject::Rect(c).check_collision(&GameObject::Rect(d)));
}

#[test]
fn out_of_bounds_keeps_a_margin() {
    let inside = RectCollision::new(5, 5, 0, 10, 10, 0);
    assert!(!inside.out_of_bounds(20, 20, 0));
    assert!(inside.out_of_bounds(19, 20, 0));
    assert!(RectCollision::new(4, 5, 0, 1, 1, 0).out_of_bounds(100, 100, 0));
    assert!(RectCollision::new(5, 4, 0, 1, 1, 0).out_of_bounds(100, 100, 0));
}

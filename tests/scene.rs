use deft_engine::engine::game::{DrawMode, GameObject, Point, Polygon, Rect, SUBPIXELS};
use deft_engine::engine::image::Image;
use deft_engine::engine::scene::Scene;

#[test]
fn velocity_request_is_checked_per_axis() {
    let mut scene = Scene::new(100, 100);
    scene.add_object(GameObject::Rect(Rect::new2d(95, 10, 10, 10, 1, DrawMode::Override, true)));
    scene.set_velocity(0, SUBPIXELS, 5 * SUBPIXELS, 0);
    assert_eq!(scene.objects[0].coord(), (95, 15, 0));
    // the z request (zero, inside the depth) is accepted last and leaves the object at rest
    assert_eq!(scene.objects[0].velocity(), Some((0, 0, 0)));
}

#[test]
fn rejected_axis_keeps_position_and_velocity() {
    let mut scene = Scene::new(100, 100);
    scene.depth = 0;
    scene.add_object(GameObject::Rect(Rect::new2d(95, 10, 10, 10, 1, DrawMode::Override, true)));
    scene.set_velocity(0, SUBPIXELS, 5 * SUBPIXELS, 0);
    assert_eq!(scene.objects[0].coord(), (95, 15, 0));
    assert_eq!(scene.objects[0].velocity(), Some((0, 5 * SUBPIXELS, 0)));
}

#[test]
fn scene_reports_what_it_can_render() {
    let mut scene = Scene::new(10, 10);
    scene.add_object(GameObject::Rect(Rect::new2d(5, 5, 5, 5, 1, DrawMode::Override, true)));
    assert!(scene.renderable_now());
    scene.add_object(GameObject::Rect(Rect::new2d(6, 5, 5, 5, 1, DrawMode::Override, true)));
    assert!(!scene.renderable_now());
    let mut p = Polygon::new2d(1, DrawMode::Override, true);
    assert!(!GameObject::Polygon(Polygon::new2d(1, DrawMode::Override, true)).well_formed());
    p.add_point(Point::new(-1, 0, 0));
    let obj = GameObject::Polygon(p);
    assert!(obj.well_formed());
    assert!(!obj.drawable_in(10, 10));
}

#[test]
fn velocity_request_applies_accepted_axes_in_turn() {
    let mut scene = Scene::new(100, 50);
    scene.add_object(GameObject::Rect(Rect::new2d(10, 10, 10, 10, 1, DrawMode::Override, true)));
    scene.set_velocity(0, 3 * SUBPIXELS, -4 * SUBPIXELS, 0);
    assert_eq!(scene.objects[0].coord(), (13, 6, 0));
    // moving below row 0 is refused
    scene.set_velocity(0, 0, -7 * SUBPIXELS, 0);
    assert_eq!(scene.objects[0].coord(), (13, 6, 0));
}

#[test]
fn render_composites_in_order() {
    let mut scene = Scene::new(4, 3);
    scene.set_color(1);
    scene.add_object(GameObject::Rect(Rect::new2d(0, 0, 2, 2, 0x10, DrawMode::Override, true)));
    scene.add_object(GameObject::Rect(Rect::new2d(1, 1, 2, 2, 0x100, DrawMode::Addition, true)));
    scene.add_object(GameObject::Rect(Rect::new2d(2, 0, 2, 3, 0, DrawMode::Overlay, true)));
    scene.render();
    assert_eq!(
        scene.buffer(),
        vec![0x10, 0x10, 1, 1, 0x10, 0x110, 0x101, 1, 1, 0x101, 0x101, 1]
    );
    scene.clear();
    assert_eq!(scene.buffer(), vec![0; 12]);
}

#[test]
fn hollow_objects_draw_outlines() {
    let mut scene = Scene::new(4, 4);
    scene.add_object(GameObject::Rect(Rect::new2d(0, 0, 4, 4, 2, DrawMode::Override, false)));
    scene.render();
    assert_eq!(scene.buffer(), vec![2, 2, 2, 2, 2, 0, 0, 2, 2, 0, 0, 2, 2, 2, 2, 2]);
}

#[test]
fn polygon_image_is_regenerated_at_its_origin() {
    let mut p = Polygon::new2d(3, DrawMode::Override, true);
    p.add_point(Point::new(1, 1, 0));
    p.add_point(Point::new(3, 1, 0));
    p.add_point(Point::new(3, 2, 0));
    p.add_point(Point::new(1, 2, 0));
    let mut obj = GameObject::Polygon(p);
    let mut frame = Image::new(5, 4);
    frame.draw_object_2d_filled(&mut obj);
    assert_eq!(obj.image().width, 3);
    assert_eq!(obj.image().height, 2);
    assert_eq!(
        frame.flatten(),
        vec![0, 0, 0, 0, 0, 0, 3, 3, 3, 0, 0, 3, 3, 3, 0, 0, 0, 0, 0, 0]
    );
}

#[test]
fn hollow_polygon_draws_closed_outline() {
    let mut p = Polygon::new2d(1, DrawMode::Overlay, false);
    p.add_point(Point::new(0, 0, 0));
    p.add_point(Point::new(2, 0, 0));
    p.add_point(Point::new(2, 2, 0));
    p.add_point(Point::new(0, 2, 0));
    let mut obj = GameObject::Polygon(p);
    let mut frame = Image::new_filled(9, 3, 3);
    frame.draw_object_2d_hollow(&mut obj);
    assert_eq!(frame.flatten(), vec![1, 1, 1, 1, 9, 1, 1, 1, 1]);
}

#[test]
fn pixels_and_lines_in_the_frame() {
    let mut scene = Scene::new(3, 2);
    assert!(scene.set_pixel(2, 1, 5).is_ok());
    assert!(scene.set_pixel(3, 0, 5).is_err());
    assert_eq!(scene.get_pixel(2, 1), Ok(5));
    assert!(scene.get_pixel(0, 2).is_err());
    scene.draw_line(&Point::new(0, 0, 0), &Point::new(2, 0, 0), 4);
    assert_eq!(scene.buffer(), vec![4, 4, 4, 0, 0, 5]);
}

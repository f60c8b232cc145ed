use deft_engine::engine::game::{Point, Polygon, DrawMode};
use deft_engine::engine::image::Image;
use deft_engine::linalg::MatrixError;

fn lit(img: &Image, color: u32) -> Vec<(usize, usize)> {
    let mut out = Vec::new();
    for y in 0..img.height {
        for x in 0..img.width {
            if img.get(y, x) == Ok(color) {
                out.push((x, y));
            }
        }
    }
    out
}

#[test]
fn horizontal_line_plots_both_endpoints() {
    let mut img = Image::new(6, 3);
    img.draw_line(&Point::new(0, 0, 0), &Point::new(4, 0, 0), 7);
    assert_eq!(lit(&img, 7), vec![(0, 0), (1, 0), (2, 0), (3, 0), (4, 0)]);
}

#[test]
fn shallow_line_is_a_staircase() {
    let mut img = Image::new(6, 4);
    img.draw_line(&Point::new(0, 0, 0), &Point::new(4, 2, 0), 9);
    let pixels = lit(&img, 9);
    assert_eq!(pixels, vec![(0, 0), (1, 1), (2, 1), (3, 2), (4, 2)]);
    let xs: Vec<usize> = pixels.iter().map(|p| p.0).collect();
    assert_eq!(xs, vec![0, 1, 2, 3, 4]);
}

#[test]
fn line_pixels_do_not_depend_on_endpoint_order() {
    let ends = [((0, 0), (2, 1)), ((5, 1), (0, 3)), ((1, 6), (3, 0)), ((4, 4), (4, 4))];
    for ((x1, y1), (x2, y2)) in ends {
        let mut a = Image::new(7, 7);
        let mut b = Image::new(7, 7);
        a.draw_line(&Point::new(x1, y1, 0), &Point::new(x2, y2, 0), 3);
        b.draw_line(&Point::new(x2, y2, 0), &Point::new(x1, y1, 0), 3);
        assert_eq!(a.flatten(), b.flatten());
    }
}

#[test]
fn steep_line_walks_rows() {
    let mut img = Image::new(3, 5);
    img.draw_line(&Point::new(2, 4, 0), &Point::new(0, 0, 0), 1);
    assert_eq!(lit(&img, 1), vec![(0, 0), (1, 1), (1, 2), (2, 3), (2, 4)]);
}

#[test]
fn unit_square_fills_completely() {
    let mut poly = Polygon::new2d(5, DrawMode::Override, true);
    poly.add_point(Point::new(0, 0, 0));
    poly.add_point(Point::new(1, 0, 0));
    poly.add_point(Point::new(1, 1, 0));
    poly.add_point(Point::new(0, 1, 0));
    let mut img = Image::new(2, 2);
    img.fill_convex_polygon(&poly, 5);
    assert_eq!(img.flatten(), vec![5, 5, 5, 5]);
}

#[test]
fn square_fill_matches_outline_and_interior() {
    let corners = [(1, 1), (5, 1), (5, 4), (1, 4)];
    let mut poly = Polygon::new2d(2, DrawMode::Override, true);
    for (x, y) in corners {
        poly.add_point(Point::new(x, y, 0));
    }
    let mut filled = Image::new(7, 6);
    filled.fill_convex_polygon(&poly, 2);
    let mut expected = Image::new(7, 6);
    for i in 0..4 {
        let (x1, y1) = corners[i];
        let (x2, y2) = corners[(i + 1) % 4];
        expected.draw_line(&Point::new(x1, y1, 0), &Point::new(x2, y2, 0), 2);
    }
    for y in 2..4 {
        for x in 2..5 {
            expected.set(y, x, 2).unwrap();
        }
    }
    assert_eq!(filled.flatten(), expected.flatten());
    assert_eq!(lit(&filled, 2).len(), 20);
}

#[test]
fn triangle_with_split_row() {
    let mut img = Image::new(5, 5);
    let (a, b, c) = (Point::new(0, 0, 0), Point::new(4, 2, 0), Point::new(0, 4, 0));
    img.fill_triangle(vec![&a, &b, &c], 1);
    let rows: Vec<Vec<u32>> = (0..5).map(|y| (0..5).map(|x| img.get(y, x).unwrap()).collect()).collect();
    assert_eq!(rows[0], vec![1, 0, 0, 0, 0]);
    assert_eq!(rows[1], vec![1, 1, 1, 0, 0]);
    assert_eq!(rows[2], vec![1, 1, 1, 1, 1]);
    assert_eq!(rows[3], vec![1, 1, 1, 0, 0]);
    assert_eq!(rows[4], vec![1, 0, 0, 0, 0]);
}

#[test]
fn triangle_needs_three_points() {
    let mut img = Image::new(3, 3);
    let (a, b) = (Point::new(0, 0, 0), Point::new(2, 2, 0));
    img.fill_triangle(vec![&a, &b], 4);
    img.fill_triangle(vec![], 4);
    assert_eq!(img.flatten(), vec![0; 9]);
}

#[test]
fn flat_triangle_is_its_first_vertex() {
    let mut img = Image::new(4, 2);
    let (a, b, c) = (Point::new(3, 1, 0), Point::new(0, 1, 0), Point::new(1, 1, 0));
    img.fill_triangle(vec![&a, &b, &c], 6);
    assert_eq!(lit(&img, 6), vec![(3, 1)]);
}

#[test]
fn rgb_packs_channels() {
    assert_eq!(Image::rgb(0x12, 0x34, 0x56), 0x123456);
    assert_eq!(Image::rgb(0xff, 0, 0), 0xff0000);
}

#[test]
fn image_blocks_and_access() {
    let mut img = Image::new_filled(1, 3, 2);
    assert_eq!(img.get(2, 0), Err(MatrixError::IndexOutOfRange));
    assert_eq!(img.set(0, 3, 5), Err(MatrixError::IndexOutOfRange));
    let block = Image::from_data(2, 1, vec![0, 8]);
    img.overlay_block(1, 1, &block);
    assert_eq!(img.flatten(), vec![1, 1, 1, 1, 1, 8]);
    img.add_block(0, 0, &block);
    assert_eq!(img.flatten(), vec![1, 9, 1, 1, 1, 8]);
    img.set_block(1, 0, &block);
    assert_eq!(img.flatten(), vec![1, 9, 1, 0, 8, 8]);
    let part = img.get_block(0, 1, 2, 3).unwrap();
    assert_eq!((part.width, part.height), (2, 2));
    assert_eq!(part.flatten(), vec![9, 1, 8, 8]);
    assert!(img.get_block(0, 0, 3, 1).is_err());
}

use softrast::color::Color;
use softrast::fixed::{Point2, Point3, Point4, Vector2, Vector3, ONE};
use softrast::geometry::{
    edge_cross, perpendicular_vector, point_in_triangle, signed_area, triangle_barycentric, Bounds,
    Model, Vertex, Weights,
};

fn at(x: i32, y: i32) -> Vertex {
    Vertex::new(&Point3::new(x * ONE, y * ONE, ONE))
}

fn front_facing() -> Vec<Vertex> {
    vec![at(0, 8), at(8, 8), at(8, 0)]
}

#[test]
fn edge_cross_of_unit_vectors_is_one() {
    let a = Point2::new(0, 0);
    let b = Point2::new(1, 0);
    let p = Point2::new(0, 1);
    assert_eq!(edge_cross(&a, &b, &p), 1);
    assert_eq!(edge_cross(&a, &p, &b), -1);
}

#[test]
fn signed_area_is_the_doubled_area_with_sign() {
    let a = Point2::new(0, 8);
    let b = Point2::new(8, 8);
    let c = Point2::new(8, 0);
    assert_eq!(signed_area(&a, &b, &c), 64);
    assert_eq!(signed_area(&a, &c, &b), -64);
    assert_eq!(signed_area(&a, &b, &b), 0);
    assert_eq!(signed_area(&a, &b, &c), -edge_cross(&a, &b, &c));
}

#[test]
fn signed_area_of_extreme_points_does_not_overflow() {
    let a = Point2::new(i32::MIN, i32::MIN);
    let b = Point2::new(i32::MAX, i32::MIN);
    let c = Point2::new(i32::MAX, i32::MAX);
    let side = (i32::MAX as i128) - (i32::MIN as i128);
    assert_eq!(signed_area(&a, &b, &c), -side * side);
}

#[test]
fn perpendicular_vector_turns_by_a_quarter() {
    let v = perpendicular_vector(&Vector2::new(3, 5));
    assert_eq!(v, Vector2::new(5, -3));
}

#[test]
fn weights_at_the_vertices_are_unit_vectors() {
    let triangle = front_facing();
    let total = 64 * (ONE as i128) * (ONE as i128);
    let at_a = triangle_barycentric(&triangle, &Point2::new(0, 8 * ONE));
    assert_eq!((at_a.x, at_a.y, at_a.z), (total, 0, 0));
    let at_b = triangle_barycentric(&triangle, &Point2::new(8 * ONE, 8 * ONE));
    assert_eq!((at_b.x, at_b.y, at_b.z), (0, total, 0));
    let at_c = triangle_barycentric(&triangle, &Point2::new(8 * ONE, 0));
    assert_eq!((at_c.x, at_c.y, at_c.z), (0, 0, total));
    assert_eq!(at_a.total(), total);
}

#[test]
fn a_point_strictly_inside_has_proper_weights() {
    let triangle = front_facing();
    let (inside, weights) = point_in_triangle(&triangle, &Point2::new(6 * ONE, 5 * ONE));
    assert!(inside);
    let total = weights.total();
    assert_eq!(total, 64 * (ONE as i128) * (ONE as i128));
    assert!(weights.x > 0 && weights.x < total);
    assert!(weights.y > 0 && weights.y < total);
    assert!(weights.z > 0 && weights.z < total);
    assert_eq!(weights.x + weights.y + weights.z, total);
    let unit = (ONE as i128) * (ONE as i128);
    assert_eq!((weights.x, weights.y, weights.z), (16 * unit, 24 * unit, 24 * unit));
}

#[test]
fn a_point_on_an_edge_counts_as_inside() {
    let triangle = front_facing();
    let (inside, weights) = point_in_triangle(&triangle, &Point2::new(4 * ONE, 4 * ONE));
    assert!(inside);
    assert_eq!(weights.y, 0);
}

#[test]
fn a_point_outside_fails_the_test() {
    let triangle = front_facing();
    let (inside, weights) = point_in_triangle(&triangle, &Point2::new(ONE, ONE));
    assert!(!inside);
    assert!(weights.y < 0);
    assert_eq!(weights.total(), 64 * (ONE as i128) * (ONE as i128));
}

#[test]
fn reversed_winding_makes_the_triangle_invisible() {
    let triangle = vec![at(0, 8), at(8, 0), at(8, 8)];
    let (inside, _) = point_in_triangle(&triangle, &Point2::new(6 * ONE, 5 * ONE));
    assert!(!inside);
}

#[test]
fn weights_from_numerators() {
    let weights = Weights::new(1, 2, 3);
    assert_eq!((weights.x, weights.y, weights.z), (1, 2, 3));
    assert_eq!(weights.total(), 6);
}

#[test]
fn a_new_vertex_is_homogeneous_and_bare() {
    let v = Vertex::new(&Point3::new(1, 2, 3));
    assert_eq!(v.position, Point4::new(1, 2, 3, ONE));
    assert!(v.normal.is_none() && v.color.is_none() && v.uv.is_none());
    let v = v
        .with_normal(Vector3::new(0, 0, ONE))
        .with_uv(Point2::new(ONE / 2, ONE))
        .with_color(Color::new(1, 2, 3, 4));
    assert_eq!(v.normal, Some(Vector3::new(0, 0, ONE)));
    assert_eq!(v.uv, Some(Point2::new(ONE / 2, ONE)));
    assert_eq!(v.color, Some(Color::new(1, 2, 3, 4)));
    assert_eq!(v.position, Point4::new(1, 2, 3, ONE));
}

#[test]
fn the_default_vertex_is_all_zero() {
    let v = Vertex::default();
    assert_eq!(v.position, Point4::new(0, 0, 0, 0));
    assert!(v.normal.is_none() && v.color.is_none() && v.uv.is_none());
}

#[test]
fn clip_to_ndc_divides_every_component() {
    let mut v = Vertex::new(&Point3::new(2 * ONE, -3 * ONE, 5 * ONE));
    v.position.w = 4 * ONE;
    let ndc = v.clip_to_ndc();
    assert_eq!(ndc.position, Point4::new(ONE / 2, -3 * ONE / 4, 5 * ONE / 4, ONE));
    v.clip_to_ndc_mut();
    assert_eq!(v.position, ndc.position);
}

#[test]
fn clip_to_ndc_skips_a_zero_divisor() {
    let mut v = Vertex::new(&Point3::new(2 * ONE, -3 * ONE, 5 * ONE));
    v.position.w = 0;
    assert_eq!(v.clip_to_ndc().position, Point4::new(2 * ONE, -3 * ONE, 5 * ONE, 0));
}

#[test]
fn clip_to_ndc_saturates_a_huge_quotient() {
    let mut v = Vertex::new(&Point3::new(i32::MAX, i32::MIN, 0));
    v.position.w = 1;
    let ndc = v.clip_to_ndc();
    assert_eq!(ndc.position, Point4::new(i32::MAX, i32::MIN, 0, ONE));
}

#[test]
fn ndc_to_screen_flips_the_vertical_axis() {
    let corner = Vertex::new(&Point3::new(-ONE, ONE, 7));
    assert_eq!(corner.ndc_to_screen((640, 480)).position, Point4::new(0, 0, 7, ONE));
    let opposite = Vertex::new(&Point3::new(ONE, -ONE, 7));
    assert_eq!(
        opposite.ndc_to_screen((640, 480)).position,
        Point4::new(640 * ONE, 480 * ONE, 7, ONE)
    );
    let mut centre = Vertex::new(&Point3::new(0, 0, 7));
    centre.ndc_to_screen_mut((640, 480));
    assert_eq!(centre.position, Point4::new(320 * ONE, 240 * ONE, 7, ONE));
    let quarter = Vertex::new(&Point3::new(ONE / 2, ONE / 2, 0));
    assert_eq!(
        quarter.ndc_to_screen((100, 100)).position,
        Point4::new(75 * ONE, 25 * ONE, 0, ONE)
    );
}

#[test]
fn bounds_of_no_points_are_empty() {
    let b = Bounds::new(&[], (10, 10));
    assert_eq!((b.min_x, b.min_y, b.max_x, b.max_y), (0, 0, 0, 0));
}

#[test]
fn bounds_enclose_the_points() {
    let points = vec![at(2, 7), at(5, 3), at(4, 9)];
    let b = Bounds::new(&points, (100, 100));
    assert_eq!((b.min_x, b.min_y, b.max_x, b.max_y), (2 * ONE, 3 * ONE, 5 * ONE, 9 * ONE));
    assert_eq!(b.x_range(), 2..=5);
    assert_eq!(b.y_range(), 3..=9);
}

#[test]
fn bounds_are_cut_to_the_screen() {
    let points = vec![at(-4, -2), at(50, 3), at(4, 90)];
    let b = Bounds::new(&points, (20, 10));
    assert_eq!((b.min_x, b.min_y, b.max_x, b.max_y), (0, 0, 20 * ONE, 10 * ONE));
    assert_eq!(b.x_range(), 0..=20);
    assert_eq!(b.y_range(), 0..=10);
}

#[test]
fn bounds_ranges_round_down_to_pixels() {
    let mut low = at(1, 1);
    low.position.x += ONE / 2;
    let mut high = at(3, 3);
    high.position.y += ONE - 1;
    let b = Bounds::new(&[low, high], (10, 10));
    assert_eq!(b.x_range(), 1..=3);
    assert_eq!(b.y_range(), 1..=3);
}

#[test]
fn a_model_copies_its_vertices() {
    let vertices = front_facing();
    let model = Model::from_vertices(&vertices);
    assert_eq!(model.vertices.len(), 3);
    for i in 0..3 {
        assert_eq!(model.vertices[i].position, vertices[i].position);
    }
}

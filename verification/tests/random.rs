use rand::SeedableRng;
use rand_xorshift::XorShiftRng;
use softrast::color::Color;
use softrast::fixed::{Point2, Point3, Vector3, ONE};
use softrast::geometry::{Model, Vertex};
use softrast::random::{random_color, randomize_model_colors, recolor};

fn model() -> Model {
    let vertices = vec![
        Vertex::new(&Point3::new(1, 2, 3)).with_normal(Vector3::new(0, 0, ONE)),
        Vertex::new(&Point3::new(4, 5, 6)).with_uv(Point2::new(7, 8)),
        Vertex::new(&Point3::new(9, 10, 11)).with_color(Color::new(1, 2, 3, 4)),
    ];
    Model::from_vertices(&vertices)
}

#[test]
fn random_colors_are_opaque_and_vary() {
    let mut rng = XorShiftRng::seed_from_u64(7);
    let colors: Vec<Color> = (0..64).map(|_| random_color(&mut rng)).collect();
    assert!(colors.iter().all(|c| c.a == 255));
    assert!(colors.iter().any(|c| *c != colors[0]));
}

#[test]
fn random_colors_follow_the_generator() {
    let mut first = XorShiftRng::seed_from_u64(42);
    let mut second = XorShiftRng::seed_from_u64(42);
    for _ in 0..16 {
        assert_eq!(random_color(&mut first), random_color(&mut second));
    }
}

#[test]
fn recolor_changes_nothing_but_the_colors() {
    let original = model();
    let mut rng = XorShiftRng::seed_from_u64(1);
    let colored = recolor(&original, &mut rng);
    assert_eq!(colored.vertices.len(), 3);
    for (before, after) in original.vertices.iter().zip(colored.vertices.iter()) {
        assert_eq!(after.position, before.position);
        assert_eq!(after.normal, before.normal);
        assert_eq!(after.uv, before.uv);
        assert_eq!(after.color.unwrap().a, 255);
    }
}

#[test]
fn randomize_model_colors_keeps_the_geometry() {
    let original = model();
    let colored = randomize_model_colors(&original);
    assert_eq!(colored.vertices.len(), 3);
    for (before, after) in original.vertices.iter().zip(colored.vertices.iter()) {
        assert_eq!(after.position, before.position);
        assert_eq!(after.normal, before.normal);
        assert_eq!(after.uv, before.uv);
        assert!(after.color.is_some());
    }
}

use image::{DynamicImage, Rgba, RgbaImage};
use softrast::color::Color;
use softrast::fixed::{Point2, Point3, Vector3, ONE};
use softrast::geometry::{Vertex, Weights, REDUCED_LIMIT};
use softrast::shading::{
    calculate_depths, calculate_normals, calculate_uvs, intensity, Material, Shader, AMBIENT,
};
use softrast::texture::Texture;

const A: [u8; 4] = [10, 20, 30, 40];
const B: [u8; 4] = [50, 60, 70, 80];
const C: [u8; 4] = [90, 100, 110, 120];
const D: [u8; 4] = [130, 140, 150, 160];

fn checkerboard() -> Texture {
    let mut image = RgbaImage::new(2, 2);
    image.put_pixel(0, 0, Rgba(A));
    image.put_pixel(1, 0, Rgba(B));
    image.put_pixel(0, 1, Rgba(C));
    image.put_pixel(1, 1, Rgba(D));
    Texture::from_image(DynamicImage::ImageRgba8(image))
}

fn color_of(bytes: [u8; 4]) -> Color {
    Color::new(bytes[0], bytes[1], bytes[2], bytes[3])
}

fn triangle_at_depth(z: i32) -> Vec<Vertex> {
    vec![
        Vertex::new(&Point3::new(0, 0, z)),
        Vertex::new(&Point3::new(ONE, 0, z)),
        Vertex::new(&Point3::new(0, ONE, z)),
    ]
}

fn middle() -> Weights {
    Weights::new(1, 1, 1)
}

#[test]
fn sample_takes_the_nearest_texel_with_v_from_the_bottom() {
    let texture = checkerboard();
    assert_eq!(texture.sample(&Point2::new(0, 0)), Some(color_of(C)));
    assert_eq!(texture.sample(&Point2::new(ONE, 0)), Some(color_of(D)));
    assert_eq!(texture.sample(&Point2::new(0, ONE)), Some(color_of(A)));
    assert_eq!(texture.sample(&Point2::new(ONE, ONE)), Some(color_of(B)));
    assert_eq!(texture.sample(&Point2::new(ONE / 2, ONE / 2)), Some(color_of(D)));
    assert_eq!(texture.sample(&Point2::new(ONE / 2 - 1, ONE / 2 + 1)), Some(color_of(A)));
}

#[test]
fn sample_clamps_coordinates_outside_the_unit_square() {
    let texture = checkerboard();
    assert_eq!(texture.sample(&Point2::new(-3 * ONE, 9 * ONE)), Some(color_of(A)));
    assert_eq!(texture.sample(&Point2::new(i32::MAX, i32::MIN)), Some(color_of(D)));
    assert_eq!(texture.sample(&Point2::new(i32::MIN, i32::MAX)), Some(color_of(A)));
}

#[test]
fn sample_of_an_image_without_texels_is_nothing() {
    let empty = Texture::from_image(DynamicImage::new_rgba8(0, 0));
    assert_eq!(empty.sample(&Point2::new(0, 0)), None);
    let flat = Texture::from_image(DynamicImage::new_rgba8(3, 0));
    assert_eq!(flat.sample(&Point2::new(ONE / 2, ONE / 2)), None);
}

#[test]
fn sample_converts_other_pixel_formats() {
    let mut image = image::RgbImage::new(1, 1);
    image.put_pixel(0, 0, image::Rgb([7, 8, 9]));
    let texture = Texture::from_image(DynamicImage::ImageRgb8(image));
    assert_eq!(texture.sample(&Point2::new(0, 0)), Some(Color::new(7, 8, 9, 255)));
}

#[test]
fn depth_of_a_flat_triangle_is_its_depth() {
    let triangle = triangle_at_depth(5 * ONE);
    assert_eq!(calculate_depths(&triangle, &middle()), 5 * ONE);
    assert_eq!(calculate_depths(&triangle_at_depth(ONE), &middle()), ONE);
    assert_eq!(calculate_depths(&triangle_at_depth(1000 * ONE), &middle()), 1000 * ONE);
    assert_eq!(calculate_depths(&triangle_at_depth(1000 * ONE), &Weights::new(7, 2, 5)), 1000 * ONE);
    assert_eq!(calculate_depths(&triangle_at_depth(-3 * ONE), &Weights::new(7, 2, 5)), -3 * ONE);
    assert_eq!(calculate_depths(&triangle_at_depth(1), &middle()), 1);
}

#[test]
fn depth_is_perspective_correct() {
    let mut triangle = triangle_at_depth(ONE);
    triangle[1].position.z = 3 * ONE;
    // Halfway between depth 1 and depth 3 on the screen lies depth 1.5.
    assert_eq!(calculate_depths(&triangle, &Weights::new(1, 1, 0)), 3 * ONE / 2);
    assert_eq!(calculate_depths(&triangle, &Weights::new(1, 0, 0)), ONE);
    assert_eq!(calculate_depths(&triangle, &Weights::new(0, 1, 0)), 3 * ONE);
    // A quarter of the way to depth 1 from depth 3 on the screen lies depth 2.
    assert_eq!(calculate_depths(&triangle, &Weights::new(1, 3, 0)), 2 * ONE);
    assert_eq!(calculate_depths(&triangle, &Weights::new(1 << 60, 3 << 60, 0)), 2 * ONE);
}

#[test]
fn depth_falls_back_to_zero() {
    let mut triangle = triangle_at_depth(ONE);
    assert_eq!(calculate_depths(&triangle, &Weights::new(0, 0, 0)), 0);
    assert_eq!(calculate_depths(&triangle, &Weights::new(1, -1, 0)), 0);
    triangle[2].position.z = 0;
    assert_eq!(calculate_depths(&triangle, &middle()), 0);
    // A reciprocal depth of less than a millionth counts as zero.
    let far = triangle_at_depth(i32::MAX);
    assert_eq!(calculate_depths(&far, &middle()), i32::MAX);
    let mut opposite = triangle_at_depth(4 * ONE);
    opposite[1].position.z = -4 * ONE;
    assert_eq!(calculate_depths(&opposite, &Weights::new(500003, 499997, 0)), i32::MAX);
    assert_eq!(calculate_depths(&opposite, &Weights::new(500002, 499998, 0)), 0);
    assert_eq!(calculate_depths(&opposite, &Weights::new(499998, 500002, 0)), 0);
    assert_eq!(calculate_depths(&opposite, &Weights::new(499997, 500003, 0)), i32::MIN);
}

#[test]
fn uvs_need_all_three_vertices() {
    let mut triangle = triangle_at_depth(ONE);
    assert_eq!(calculate_uvs(&triangle, &middle()), None);
    triangle[0].uv = Some(Point2::new(0, 0));
    triangle[1].uv = Some(Point2::new(ONE, 0));
    assert_eq!(calculate_uvs(&triangle, &middle()), None);
    triangle[2].uv = Some(Point2::new(0, ONE));
    assert_eq!(calculate_uvs(&triangle, &middle()), Some(Point2::new(21845, 21845)));
    assert_eq!(calculate_uvs(&triangle, &Weights::new(0, 4, 0)), Some(Point2::new(ONE, 0)));
    assert_eq!(calculate_uvs(&triangle, &Weights::new(0, 0, 0)), Some(Point2::new(0, 0)));
}

#[test]
fn normals_are_blended_and_normalised() {
    let mut triangle = triangle_at_depth(ONE);
    assert_eq!(calculate_normals(&triangle, &middle()), None);
    triangle[0].normal = Some(Vector3::new(ONE, 0, 0));
    triangle[1].normal = Some(Vector3::new(ONE, 0, 0));
    triangle[2].normal = Some(Vector3::new(0, ONE, 0));
    assert_eq!(
        calculate_normals(&triangle, &Weights::new(1, 0, 0)),
        Some(Vector3::new(ONE, 0, 0))
    );
    assert_eq!(
        calculate_normals(&triangle, &Weights::new(1, 0, 1)),
        Some(Vector3::new(46341, 46341, 0))
    );
    assert_eq!(
        calculate_normals(&triangle, &Weights::new(0, 0, 0)),
        Some(Vector3::new(0, 0, 0))
    );
}

#[test]
fn intensity_has_an_ambient_floor() {
    let up = Vector3::new(0, 0, ONE);
    assert_eq!(intensity(&up, &Vector3::new(0, 0, ONE)), ONE);
    assert_eq!(intensity(&up, &Vector3::new(0, 0, ONE / 2)), ONE / 2);
    assert_eq!(intensity(&up, &Vector3::new(0, 0, -ONE)), AMBIENT);
    assert_eq!(intensity(&up, &Vector3::new(ONE, 0, 0)), AMBIENT);
    assert_eq!(AMBIENT, 655);
}

#[test]
fn solid_color_ignores_the_geometry() {
    let material = Material::SolidColor(Color::new(1, 2, 3, 4));
    assert_eq!(material.shade(&triangle_at_depth(ONE), &middle()), Color::new(1, 2, 3, 4));
    assert_eq!(
        material.shade(&triangle_at_depth(0), &Weights::new(0, 0, 0)),
        Color::new(1, 2, 3, 4)
    );
}

#[test]
fn vertex_colors_are_interpolated_or_white() {
    let mut triangle = triangle_at_depth(ONE);
    assert_eq!(Material::VertexColors.shade(&triangle, &middle()), Color::white());
    triangle[0].color = Some(Color::new(255, 0, 0, 0));
    triangle[1].color = Some(Color::new(0, 255, 0, 0));
    assert_eq!(Material::VertexColors.shade(&triangle, &middle()), Color::white());
    triangle[2].color = Some(Color::new(0, 0, 255, 0));
    assert_eq!(Material::VertexColors.shade(&triangle, &middle()), Color::new(85, 85, 85, 255));
    assert_eq!(
        Material::VertexColors.shade(&triangle, &Weights::new(0, 0, 9)),
        Color::new(0, 0, 255, 255)
    );
}

fn textured_triangle() -> Vec<Vertex> {
    let mut triangle = triangle_at_depth(ONE);
    triangle[0].uv = Some(Point2::new(0, 0));
    triangle[1].uv = Some(Point2::new(ONE, 0));
    triangle[2].uv = Some(Point2::new(0, ONE));
    triangle
}

#[test]
fn textured_samples_at_the_blended_coordinate() {
    let material = Material::Textured { texture: checkerboard() };
    let triangle = textured_triangle();
    assert_eq!(material.shade(&triangle, &Weights::new(1, 0, 0)), color_of(C));
    assert_eq!(material.shade(&triangle, &Weights::new(0, 1, 0)), color_of(D));
    assert_eq!(material.shade(&triangle, &Weights::new(0, 0, 1)), color_of(A));
    assert_eq!(material.shade(&triangle_at_depth(ONE), &middle()), Color::white());
    let blank = Material::Textured { texture: Texture::from_image(DynamicImage::new_rgba8(0, 0)) };
    assert_eq!(blank.shade(&triangle, &middle()), Color::white());
}

#[test]
fn lit_texture_scales_the_texel() {
    let mut triangle = textured_triangle();
    let towards = Material::LitTexture { texture: checkerboard(), light_dir: Vector3::new(0, 0, ONE / 2) };
    // Without normals the texel is not lit at all.
    assert_eq!(towards.shade(&triangle, &Weights::new(0, 1, 0)), color_of(D));
    for vertex in triangle.iter_mut() {
        vertex.normal = Some(Vector3::new(0, 0, 3 * ONE));
    }
    assert_eq!(towards.shade(&triangle, &Weights::new(0, 1, 0)), Color::new(65, 70, 75, 160));
    // Without texture coordinates the surface is white under the same light.
    for vertex in triangle.iter_mut() {
        vertex.uv = None;
    }
    assert_eq!(towards.shade(&triangle, &Weights::new(0, 1, 0)), Color::new(127, 127, 127, 255));
    // Without coordinates and without normals it is plain white.
    for vertex in triangle.iter_mut() {
        vertex.normal = None;
    }
    assert_eq!(towards.shade(&triangle, &Weights::new(0, 1, 0)), Color::white());
    for vertex in triangle.iter_mut() {
        vertex.normal = Some(Vector3::new(0, 0, 3 * ONE));
    }
    let blank = Material::LitTexture {
        texture: Texture::from_image(DynamicImage::new_rgba8(0, 0)),
        light_dir: Vector3::new(0, 0, ONE / 2),
    };
    assert_eq!(blank.shade(&triangle, &middle()), Color::new(127, 127, 127, 255));
}

#[test]
fn lit_solid_has_an_ambient_floor() {
    let mut triangle = triangle_at_depth(ONE);
    let material =
        Material::LitSolid { color: Color::new(200, 100, 50, 9), light_dir: Vector3::new(0, ONE, 0) };
    assert_eq!(material.shade(&triangle, &middle()), Color::new(200, 100, 50, 9));
    for vertex in triangle.iter_mut() {
        vertex.normal = Some(Vector3::new(0, ONE, 0));
    }
    assert_eq!(material.shade(&triangle, &middle()), Color::new(200, 100, 50, 9));
    for vertex in triangle.iter_mut() {
        vertex.normal = Some(Vector3::new(0, -ONE, 0));
    }
    assert_eq!(material.shade(&triangle, &middle()), Color::new(1, 0, 0, 9));
}

#[test]
fn depth_lies_between_the_depths_of_the_vertices() {
    let depths = [1, 7, ONE, 3 * ONE, 1000 * ONE, 1005 * ONE, i32::MAX];
    let shares = [(1, 0, 0), (0, 1, 0), (0, 0, 1), (1, 1, 1), (5, 1, 2), (1, 1000, 3), (1 << 40, 1, 1 << 62)];
    for &z0 in depths.iter() {
        for &z1 in depths.iter() {
            for &z2 in depths.iter() {
                let mut triangle = triangle_at_depth(z0);
                triangle[1].position.z = z1;
                triangle[2].position.z = z2;
                let low = z0.min(z1).min(z2);
                let high = z0.max(z1).max(z2);
                for &(x, y, z) in shares.iter() {
                    let depth = calculate_depths(&triangle, &Weights::new(x, y, z));
                    assert!(low <= depth && depth <= high);
                }
                assert_eq!(calculate_depths(&triangle, &Weights::new(9, 0, 0)), z0);
                assert_eq!(calculate_depths(&triangle, &Weights::new(0, 9, 0)), z1);
                assert_eq!(calculate_depths(&triangle, &Weights::new(0, 0, 9)), z2);
            }
        }
    }
}

#[test]
fn near_depths_far_away_stay_apart() {
    let near = calculate_depths(&triangle_at_depth(1000 * ONE), &middle());
    let far = calculate_depths(&triangle_at_depth(1005 * ONE), &middle());
    assert!(near < far);
    assert_eq!(far - near, 5 * ONE);
}

#[test]
fn large_weights_are_taken_at_thirty_bits() {
    let small = Weights::new(1, 2, 3);
    assert_eq!(small.reduced(), small);
    let large = Weights::new(1 << 30, -(1 << 29), 5);
    assert_eq!(large.reduced(), Weights::new(1 << 29, -(1 << 28), 2));
    let huge = Weights::new(i64::MAX, i64::MIN, 1 << 40).reduced();
    assert!(huge.x < REDUCED_LIMIT && -huge.y < REDUCED_LIMIT);
    assert_eq!((huge.x, huge.y, huge.z), ((1 << 29) - 1, -(1 << 29), 1 << 6));
}

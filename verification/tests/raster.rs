use softrast::color::Color;
use softrast::fixed::{Point3, ONE};
use softrast::geometry::{Model, Vertex};
use softrast::line::{draw_line, whole};
use softrast::raster::{draw_point, draw_triangle};
use softrast::renderer::{
    clip_triangle, draw_buffer, draw_slice, project_to_screen, visible_triangles, DrawMode,
    OVERLAY_COLOR,
};
use softrast::shading::Material;
use softrast::target::{RenderTarget, FAR};

const SIDE: u32 = 16;
const NEAR: i32 = 655;

/// A clip-space vertex that lands on the pixel (`x`, `y`) of a 16 by 16 target.
fn clip_vertex(x: i32, y: i32, depth: i32) -> Vertex {
    Vertex::new(&Point3::new(x * 8192 - ONE, ONE - y * 8192, depth))
}

/// A screen-space vertex at the pixel (`x`, `y`).
fn screen_vertex(x: i32, y: i32, depth: i32) -> Vertex {
    Vertex::new(&Point3::new(x * ONE, y * ONE, depth))
}

fn shaded() -> DrawMode {
    DrawMode { wireframe: false, shaded: true, points: false }
}

fn wireframe() -> DrawMode {
    DrawMode { wireframe: true, shaded: false, points: false }
}

fn painted(target: &RenderTarget) -> Vec<(u32, u32)> {
    let mut pixels = Vec::new();
    for y in 0..target.height() {
        for x in 0..target.width() {
            if target.color()[(y * target.width() + x) as usize] != 0 {
                pixels.push((x, y));
            }
        }
    }
    pixels
}

/// The pixels of a line by the textbook error-stepping algorithm.
fn reference_line(x0: i32, y0: i32, x1: i32, y1: i32) -> Vec<(i32, i32)> {
    let dx = (x1 - x0).abs();
    let dy = -(y1 - y0).abs();
    let sx = if x0 < x1 { 1 } else { -1 };
    let sy = if y0 < y1 { 1 } else { -1 };
    let mut err = dx + dy;
    let (mut x, mut y) = (x0, y0);
    let mut pixels = Vec::new();
    loop {
        pixels.push((x, y));
        if x == x1 && y == y1 {
            break;
        }
        let e2 = 2 * err;
        if e2 >= dy {
            err += dy;
            x += sx;
        }
        if e2 <= dx {
            err += dx;
            y += sy;
        }
    }
    pixels
}

fn in_frame(pixels: &[(i32, i32)], width: u32, height: u32) -> Vec<(u32, u32)> {
    let mut kept: Vec<(u32, u32)> = pixels
        .iter()
        .filter(|(x, y)| *x >= 0 && *y >= 0 && (*x as u32) < width && (*y as u32) < height)
        .map(|(x, y)| (*x as u32, *y as u32))
        .collect();
    kept.sort_by_key(|(x, y)| (*y, *x));
    kept.dedup();
    kept
}

#[test]
fn whole_rounds_toward_zero() {
    assert_eq!(whole(3 * ONE + 1), 3);
    assert_eq!(whole(3 * ONE - 1), 2);
    assert_eq!(whole(-3 * ONE + 1), -2);
    assert_eq!(whole(-1), 0);
    assert_eq!(whole(i32::MIN), -32768);
    assert_eq!(whole(i32::MAX), 32767);
}

#[test]
fn lines_match_the_reference_in_every_direction() {
    let ends = [-3, 0, 2, 5, 9, 13, 19];
    for &x0 in ends.iter() {
        for &y0 in ends.iter() {
            for &x1 in ends.iter() {
                for &y1 in ends.iter() {
                    let mut target = RenderTarget::new(SIDE, SIDE);
                    {
                        let mut slices = target.create_slices_with(1);
                        draw_line(
                            &mut slices[0],
                            &screen_vertex(x0, y0, ONE),
                            &screen_vertex(x1, y1, ONE),
                            0xabcdef,
                        );
                    }
                    let expected = in_frame(&reference_line(x0, y0, x1, y1), SIDE, SIDE);
                    assert_eq!(painted(&target), expected);
                    assert!(target.depth().iter().all(|d| *d == FAR));
                    assert!(target.color().iter().all(|c| *c == 0 || *c == 0xabcdef));
                }
            }
        }
    }
}

#[test]
fn a_line_is_cut_to_its_slice() {
    let mut target = RenderTarget::new(8, 8);
    {
        let mut slices = target.create_slices_with(4);
        draw_line(&mut slices[1], &screen_vertex(0, 0, ONE), &screen_vertex(7, 7, ONE), 5);
    }
    assert_eq!(painted(&target), vec![(2, 2), (3, 3)]);
}

#[test]
fn a_steep_line_takes_one_pixel_in_each_row() {
    let mut target = RenderTarget::new(8, 8);
    {
        let mut slices = target.create_slices_with(1);
        draw_line(&mut slices[0], &screen_vertex(1, 7, ONE), &screen_vertex(3, 0, ONE), 5);
    }
    let pixels = painted(&target);
    assert_eq!(pixels.len(), 8);
    assert_eq!(pixels, vec![(3, 0), (3, 1), (2, 2), (2, 3), (2, 4), (2, 5), (1, 6), (1, 7)]);
}

#[test]
fn a_marker_is_a_disk() {
    let mut target = RenderTarget::new(SIDE, SIDE);
    {
        let mut slices = target.create_slices_with(1);
        draw_point(&mut slices[0], &screen_vertex(5, 5, ONE), 2 * ONE, 9);
    }
    assert_eq!(
        painted(&target),
        vec![(4, 4), (5, 4), (6, 4), (4, 5), (5, 5), (6, 5), (4, 6), (5, 6), (6, 6)]
    );
    assert!(target.depth().iter().all(|d| *d == FAR));
}

#[test]
fn a_marker_between_pixels_stops_before_its_upper_bound() {
    let mut target = RenderTarget::new(SIDE, SIDE);
    {
        let mut slices = target.create_slices_with(1);
        let centre = Vertex::new(&Point3::new(5 * ONE + ONE / 2, 5 * ONE + ONE / 2, ONE));
        draw_point(&mut slices[0], &centre, 2 * ONE, 9);
    }
    assert_eq!(
        painted(&target),
        vec![(5, 4), (6, 4), (4, 5), (5, 5), (6, 5), (4, 6), (5, 6), (6, 6)]
    );
}

#[test]
fn a_marker_at_the_corner_is_cut_to_the_frame() {
    let mut target = RenderTarget::new(4, 4);
    {
        let mut slices = target.create_slices_with(2);
        for slice in slices.iter_mut() {
            draw_point(slice, &screen_vertex(0, 3, ONE), 2 * ONE, 9);
            draw_point(slice, &screen_vertex(2, 2, ONE), 0, 9);
            draw_point(slice, &screen_vertex(2, 2, ONE), -ONE, 9);
        }
    }
    assert_eq!(painted(&target), vec![(0, 2), (1, 2), (0, 3), (1, 3)]);
}

#[test]
fn a_triangle_fills_the_pixels_inside_it() {
    let triangle = vec![screen_vertex(0, 4, ONE), screen_vertex(4, 4, ONE), screen_vertex(4, 0, ONE)];
    let mut target = RenderTarget::new(6, 6);
    {
        let mut slices = target.create_slices_with(1);
        draw_triangle(&mut slices[0], &triangle, &Material::SolidColor(Color::new(1, 2, 3, 255)));
    }
    let mut expected = Vec::new();
    for y in 0..=4u32 {
        for x in 0..=4u32 {
            if x + y >= 4 {
                expected.push((x, y));
            }
        }
    }
    assert_eq!(painted(&target), expected);
    for (x, y) in expected {
        let i = (y * 6 + x) as usize;
        assert_eq!(target.color()[i], 0x0001_0203);
        assert_eq!(target.depth()[i], ONE);
    }
    assert_eq!(target.depth()[0], FAR);
}

#[test]
fn a_triangle_wound_the_other_way_is_not_drawn() {
    let triangle = vec![screen_vertex(0, 4, ONE), screen_vertex(4, 0, ONE), screen_vertex(4, 4, ONE)];
    let mut target = RenderTarget::new(6, 6);
    {
        let mut slices = target.create_slices_with(1);
        draw_triangle(&mut slices[0], &triangle, &Material::SolidColor(Color::white()));
    }
    // Only the pixels on the shared edge pass the test, where every area is zero or more.
    assert!(painted(&target).iter().all(|(x, y)| x + y == 4 || *x == 4 || *y == 4));
    assert!(!painted(&target).contains(&(3, 3)));
}

#[test]
fn a_triangle_beyond_the_frame_is_cut() {
    let triangle =
        vec![screen_vertex(-8, 12, ONE), screen_vertex(12, 12, ONE), screen_vertex(12, -8, ONE)];
    let mut target = RenderTarget::new(4, 4);
    {
        let mut slices = target.create_slices_with(3);
        for slice in slices.iter_mut() {
            draw_triangle(slice, &triangle, &Material::SolidColor(Color::white()));
        }
    }
    let mut expected = Vec::new();
    for y in 0..4u32 {
        for x in 0..4u32 {
            if x + y >= 4 {
                expected.push((x, y));
            }
        }
    }
    assert_eq!(painted(&target), expected);
}

fn cover(depth: i32) -> Model {
    Model::from_vertices(&[
        clip_vertex(0, 16, depth),
        clip_vertex(16, 16, depth),
        clip_vertex(16, 0, depth),
        clip_vertex(0, 16, depth),
        clip_vertex(16, 0, depth),
        clip_vertex(0, 0, depth),
    ])
}

#[test]
fn the_nearer_triangle_wins_whatever_the_order() {
    let near = cover(3 * ONE);
    let far = cover(7 * ONE);
    let red = Material::SolidColor(Color::new(255, 0, 0, 255));
    let blue = Material::SolidColor(Color::new(0, 0, 255, 255));

    let mut first = RenderTarget::new(SIDE, SIDE);
    draw_buffer(&mut first, &near, NEAR, &red, &shaded());
    draw_buffer(&mut first, &far, NEAR, &blue, &shaded());

    let mut second = RenderTarget::new(SIDE, SIDE);
    draw_buffer(&mut second, &far, NEAR, &blue, &shaded());
    assert!(second.color().iter().all(|c| *c == 0x0000_00ff));
    draw_buffer(&mut second, &near, NEAR, &red, &shaded());

    assert!(first.color().iter().all(|c| *c == 0x00ff_0000));
    assert_eq!(first.color(), second.color());
    assert_eq!(first.depth(), second.depth());
    assert!(first.depth().iter().all(|d| *d == 3 * ONE));
}

#[test]
fn equal_depths_go_to_the_later_triangle() {
    let plane = cover(3 * ONE);
    let red = Material::SolidColor(Color::new(255, 0, 0, 255));
    let blue = Material::SolidColor(Color::new(0, 0, 255, 255));
    let mut target = RenderTarget::new(SIDE, SIDE);
    draw_buffer(&mut target, &plane, NEAR, &red, &shaded());
    draw_buffer(&mut target, &plane, NEAR, &blue, &shaded());
    assert!(target.color().iter().all(|c| *c == 0x0000_00ff));
}

#[test]
fn clip_triangle_keeps_or_drops_the_whole_triangle() {
    let mut triangle = vec![clip_vertex(0, 0, ONE), clip_vertex(4, 0, ONE), clip_vertex(0, 4, NEAR)];
    let kept = clip_triangle(&triangle, NEAR);
    assert_eq!(kept.len(), 3);
    for i in 0..3 {
        assert_eq!(kept[i].position, triangle[i].position);
    }
    for i in 0..3 {
        let depth = triangle[i].position.z;
        triangle[i].position.z = NEAR - 1;
        assert!(clip_triangle(&triangle, NEAR).is_empty());
        triangle[i].position.z = depth;
    }
}

#[test]
fn a_triangle_in_front_of_the_near_plane_draws_nothing() {
    let mut model = cover(3 * ONE);
    model.vertices[1].position.z = NEAR - 1;
    model.vertices[4].position.z = -5 * ONE;
    let all = DrawMode { wireframe: true, shaded: true, points: true };
    let mut target = RenderTarget::new(SIDE, SIDE);
    target.set_clear_color(0x0012_3456);
    target.clear();
    draw_buffer(&mut target, &model, NEAR, &Material::SolidColor(Color::white()), &all);
    assert!(target.color().iter().all(|c| *c == 0x0012_3456));
    assert!(target.depth().iter().all(|d| *d == FAR));
}

#[test]
fn only_the_rejected_triangle_is_missing() {
    let mut model = cover(3 * ONE);
    model.vertices[4].position.z = 0;
    assert_eq!(visible_triangles(&model.vertices, NEAR).len(), 3);
    let mut target = RenderTarget::new(SIDE, SIDE);
    draw_buffer(&mut target, &model, NEAR, &Material::SolidColor(Color::white()), &shaded());
    for y in 0..SIDE {
        for x in 0..SIDE {
            let drawn = target.color()[(y * SIDE + x) as usize] != 0;
            assert_eq!(drawn, x + y >= SIDE);
        }
    }
}

#[test]
fn trailing_vertices_are_ignored() {
    let mut model = cover(3 * ONE);
    model.vertices.truncate(5);
    assert_eq!(visible_triangles(&model.vertices, NEAR).len(), 3);
    model.vertices.truncate(2);
    assert!(visible_triangles(&model.vertices, NEAR).is_empty());
}

#[test]
fn projection_lands_on_the_pixels() {
    let mut vertices = vec![clip_vertex(3, 5, 9), clip_vertex(16, 0, 9)];
    vertices[1].position.x *= 2;
    vertices[1].position.y *= 2;
    vertices[1].position.w = 2 * ONE;
    project_to_screen(&mut vertices, (SIDE, SIDE));
    assert_eq!((vertices[0].position.x, vertices[0].position.y), (3 * ONE, 5 * ONE));
    assert_eq!((vertices[0].position.z, vertices[0].position.w), (9, ONE));
    assert_eq!((vertices[1].position.x, vertices[1].position.y), (16 * ONE, 0));
    assert_eq!((vertices[1].position.z, vertices[1].position.w), (4, ONE));
}

/// A quad of two by two units at five units in front of a camera whose view spans
/// two units at that distance; the camera looks along the depth axis from `eye`.
/// The camera hands over divided coordinates, with the view-space depth in `z`.
fn quad_seen_from(eye: i32) -> Model {
    let corners = [(-1.0f32, -1.0f32), (1.0, -1.0), (1.0, 1.0), (-1.0, 1.0)];
    let focal = 5.0f32;
    let vertex = |i: usize| {
        let (x, y) = corners[i];
        let depth = (5 - eye) as f32;
        let fixed = |value: f32| (value * ONE as f32) as i32;
        Vertex::new(&Point3::new(fixed(focal * x / depth), fixed(focal * y / depth), fixed(depth)))
    };
    Model::from_vertices(&[vertex(0), vertex(1), vertex(2), vertex(0), vertex(2), vertex(3)])
}

#[test]
fn a_quad_that_fills_the_view_covers_a_small_target() {
    let mut target = RenderTarget::new(2, 2);
    target.clear();
    draw_buffer(&mut target, &quad_seen_from(0), NEAR, &Material::SolidColor(Color::white()), &shaded());
    assert_eq!(target.color(), &[0x00ff_ffff; 4]);
    assert!(target.depth().iter().all(|d| *d == 5 * ONE));
}

#[test]
fn a_quad_behind_the_camera_draws_nothing() {
    let mut target = RenderTarget::new(2, 2);
    target.clear();
    draw_buffer(
        &mut target,
        &quad_seen_from(200),
        NEAR,
        &Material::SolidColor(Color::white()),
        &shaded(),
    );
    assert_eq!(target.color(), &[0; 4]);
    assert_eq!(target.depth(), &[FAR; 4]);
}

#[test]
fn wireframe_draws_the_three_edges_and_nothing_else() {
    let corners = [(1, 2), (13, 5), (6, 14)];
    let model = Model::from_vertices(&[
        clip_vertex(corners[0].0, corners[0].1, ONE),
        clip_vertex(corners[1].0, corners[1].1, ONE),
        clip_vertex(corners[2].0, corners[2].1, ONE),
    ]);
    let mut target = RenderTarget::new(SIDE, SIDE);
    draw_buffer(&mut target, &model, NEAR, &Material::SolidColor(Color::new(9, 9, 9, 9)), &wireframe());
    let mut edges = Vec::new();
    for i in 0..3 {
        let (x0, y0) = corners[i];
        let (x1, y1) = corners[(i + 1) % 3];
        edges.extend(reference_line(x0, y0, x1, y1));
    }
    assert_eq!(painted(&target), in_frame(&edges, SIDE, SIDE));
    assert!(target.color().iter().all(|c| *c == 0 || *c == OVERLAY_COLOR));
    assert!(target.depth().iter().all(|d| *d == FAR));
}

#[test]
fn points_mark_the_vertices() {
    let model = Model::from_vertices(&[
        clip_vertex(3, 3, ONE),
        clip_vertex(12, 4, ONE),
        clip_vertex(8, 12, ONE),
    ]);
    let mode = DrawMode { wireframe: false, shaded: false, points: true };
    let mut target = RenderTarget::new(SIDE, SIDE);
    draw_buffer(&mut target, &model, NEAR, &Material::VertexColors, &mode);
    let pixels = painted(&target);
    assert_eq!(pixels.len(), 27);
    for (cx, cy) in [(3u32, 3u32), (12, 4), (8, 12)] {
        for y in cy - 1..=cy + 1 {
            for x in cx - 1..=cx + 1 {
                assert!(pixels.contains(&(x, y)));
            }
        }
    }
}

#[test]
fn the_picture_does_not_depend_on_the_slices() {
    let mut vertices = Vec::new();
    for (i, depth) in [4, 2, 6].iter().enumerate() {
        let shift = 3 * i as i32;
        vertices.push(
            clip_vertex(shift, 12, depth * ONE).with_color(Color::new(255, 0, 0, 255)),
        );
        vertices.push(
            clip_vertex(10 + shift, 14, depth * ONE).with_color(Color::new(0, 255, 0, 255)),
        );
        vertices.push(
            clip_vertex(6 + shift, 1, depth * ONE).with_color(Color::new(0, 0, 255, 255)),
        );
    }
    let model = Model::from_vertices(&vertices);
    let mode = DrawMode { wireframe: true, shaded: true, points: true };
    let mut whole = RenderTarget::new(SIDE, SIDE);
    draw_buffer(&mut whole, &model, NEAR, &Material::VertexColors, &mode);
    assert!(painted(&whole).len() > 40);

    let mut screen = visible_triangles(&model.vertices, NEAR);
    project_to_screen(&mut screen, (SIDE, SIDE));
    for workers in 1..20usize {
        let mut target = RenderTarget::new(SIDE, SIDE);
        {
            let mut slices = target.create_slices_with(workers);
            for slice in slices.iter_mut().rev() {
                draw_slice(slice, &screen, &Material::VertexColors, &mode);
            }
        }
        assert_eq!(target.color(), whole.color());
        assert_eq!(target.depth(), whole.depth());
    }
}

#[test]
fn a_quad_that_spans_the_view_fills_frames_of_any_size() {
    let corner = |x: i32, y: i32| Vertex::new(&Point3::new(x * ONE, y * ONE, 7 * ONE));
    let quad = Model::from_vertices(&[
        corner(-1, -1),
        corner(1, -1),
        corner(1, 1),
        corner(-1, -1),
        corner(1, 1),
        corner(-1, 1),
    ]);
    for (width, height) in [(1u32, 1u32), (2, 2), (3, 5), (16, 9), (31, 17)] {
        let mut target = RenderTarget::new(width, height);
        target.set_clear_color(0x0000_0001);
        target.clear();
        draw_buffer(
            &mut target,
            &quad,
            NEAR,
            &Material::SolidColor(Color::new(0x12, 0x34, 0x56, 0xff)),
            &shaded(),
        );
        assert!(target.color().iter().all(|c| *c == 0x0012_3456));
        assert!(target.depth().iter().all(|d| *d == 7 * ONE));
    }
}

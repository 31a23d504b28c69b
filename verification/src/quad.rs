//! A quad that fills the view: the two triangles whose corners are the corners of
//! the view cover every pixel of the frame.

use vstd::prelude::*;
use crate::color::Color;
use crate::fixed::{div_toward_zero, magnitude, saturated, Point2, Point4, ONE};
use crate::geometry::{
    spec_divided, spec_perspective_divide, spec_point_in_triangle, spec_signed_area, spec_viewport,
    Vertex,
};
use crate::raster::{
    depth_tested, fragment_covers, lemma_box_keeps_inside, sample_point, shaded_pixel,
};
use crate::renderer::{
    drawn_pixel, rendered_pixel, spec_clip_triangle, spec_projected, spec_screen_vertices,
    spec_visible, triangle_at, triangle_pixel, DrawMode,
};
use crate::shading::Material;
use crate::target::FAR;

verus! {

/// A vertex without attributes.
pub open spec fn bare_vertex(x: int, y: int, z: int, w: int) -> Vertex {
    Vertex {
        position: Point4 { x: x as i32, y: y as i32, z: z as i32, w: w as i32 },
        normal: None,
        color: None,
        uv: None,
    }
}

/// The quad that spans the view, in normalized device coordinates, at one depth: two
/// triangles that share the diagonal from the lower left to the upper right corner.
pub open spec fn view_quad(depth: i32) -> Seq<Vertex> {
    seq![
        bare_vertex(-65536, -65536, depth as int, 65536),
        bare_vertex(65536, -65536, depth as int, 65536),
        bare_vertex(65536, 65536, depth as int, 65536),
        bare_vertex(-65536, -65536, depth as int, 65536),
        bare_vertex(65536, 65536, depth as int, 65536),
        bare_vertex(-65536, 65536, depth as int, 65536),
    ]
}

/// The same quad on a screen of `screen` (width, height) pixels: its corners are the
/// corners of the frame.
pub open spec fn frame_quad(screen: (u32, u32), depth: i32) -> Seq<Vertex> {
    seq![
        bare_vertex(0, screen.1 * 65536, depth as int, 65536),
        bare_vertex(screen.0 * 65536, screen.1 * 65536, depth as int, 65536),
        bare_vertex(screen.0 * 65536, 0, depth as int, 65536),
        bare_vertex(0, screen.1 * 65536, depth as int, 65536),
        bare_vertex(screen.0 * 65536, 0, depth as int, 65536),
        bare_vertex(0, 0, depth as int, 65536),
    ]
}

/// One of the two triangles of the quad on the screen covers each pixel of the
/// frame.
pub proof fn lemma_frame_quad_covers(screen: (u32, u32), depth: i32, u: int, v: int)
    requires
        screen.0 < 0x8000,
        screen.1 < 0x8000,
        0 <= u < screen.0,
        0 <= v < screen.1,
    ensures
        fragment_covers(triangle_at(frame_quad(screen, depth), 0), screen, u, v) || fragment_covers(
            triangle_at(frame_quad(screen, depth), 1),
            screen,
            u,
            v,
        ),
{
    let quad = frame_quad(screen, depth);
    let first = triangle_at(quad, 0);
    let second = triangle_at(quad, 1);
    let wide = screen.0 * 65536;
    let high = screen.1 * 65536;
    let p = sample_point(u, v);
    assert(first.len() == 3 && second.len() == 3);
    assert(first[0] == quad[0] && first[1] == quad[1] && first[2] == quad[2]);
    assert(second[0] == quad[3] && second[1] == quad[4] && second[2] == quad[5]);
    let a = Point2 { x: 0, y: high as i32 };
    let b = Point2 { x: wide as i32, y: high as i32 };
    let c = Point2 { x: wide as i32, y: 0 };
    let d = Point2 { x: 0, y: 0 };
    assert(first[0].spec_point() == a && first[1].spec_point() == b && first[2].spec_point() == c);
    assert(second[0].spec_point() == a && second[1].spec_point() == c && second[2].spec_point()
        == d);
    assert(p.x == u * 65536 && p.y == v * 65536);
    let across = high * p.x + wide * p.y - high * wide;
    assert(spec_signed_area(a, b, c) == wide * high) by (nonlinear_arith)
        requires
            a.x == 0,
            a.y == high,
            b.x == wide,
            b.y == high,
            c.x == wide,
            c.y == 0,
    ;
    assert(spec_signed_area(a, c, d) == wide * high) by (nonlinear_arith)
        requires
            a.x == 0,
            a.y == high,
            c.x == wide,
            c.y == 0,
            d.x == 0,
            d.y == 0,
    ;
    assert(wide * high > 0) by (nonlinear_arith)
        requires
            wide >= 65536,
            high >= 65536,
    ;
    assert(spec_signed_area(a, b, p) == wide * (high - p.y)) by (nonlinear_arith)
        requires
            a.x == 0,
            a.y == high,
            b.x == wide,
            b.y == high,
    ;
    assert(wide * (high - p.y) >= 0) by (nonlinear_arith)
        requires
            wide >= 0,
            high - p.y >= 0,
    ;
    assert(spec_signed_area(b, c, p) == high * (wide - p.x)) by (nonlinear_arith)
        requires
            b.x == wide,
            b.y == high,
            c.x == wide,
            c.y == 0,
    ;
    assert(high * (wide - p.x) >= 0) by (nonlinear_arith)
        requires
            high >= 0,
            wide - p.x >= 0,
    ;
    assert(spec_signed_area(c, a, p) == across) by (nonlinear_arith)
        requires
            a.x == 0,
            a.y == high,
            c.x == wide,
            c.y == 0,
            across == high * p.x + wide * p.y - high * wide,
    ;
    assert(spec_signed_area(a, c, p) == -across) by (nonlinear_arith)
        requires
            a.x == 0,
            a.y == high,
            c.x == wide,
            c.y == 0,
            across == high * p.x + wide * p.y - high * wide,
    ;
    assert(spec_signed_area(c, d, p) == wide * p.y) by (nonlinear_arith)
        requires
            c.x == wide,
            c.y == 0,
            d.x == 0,
            d.y == 0,
    ;
    assert(wide * p.y >= 0) by (nonlinear_arith)
        requires
            wide >= 0,
            p.y >= 0,
    ;
    assert(spec_signed_area(d, a, p) == high * p.x) by (nonlinear_arith)
        requires
            a.x == 0,
            a.y == high,
            d.x == 0,
            d.y == 0,
    ;
    assert(high * p.x >= 0) by (nonlinear_arith)
        requires
            high >= 0,
            p.x >= 0,
    ;
    if across >= 0 {
        assert(spec_point_in_triangle(first, p));
        lemma_box_keeps_inside(first, screen, u, v);
    } else {
        assert(spec_point_in_triangle(second, p));
        lemma_box_keeps_inside(second, screen, u, v);
    }
}

/// The quad on the screen, filled in one colour, gives every pixel of the frame that
/// colour, whatever the pixel held and at whatever depth the quad lies: a cleared
/// pixel is as far as a pixel can be, and a triangle that covers it is taken.
pub proof fn lemma_frame_quad_fills(
    color: Color,
    screen: (u32, u32),
    depth: i32,
    before: u32,
    u: int,
    v: int,
)
    requires
        screen.0 < 0x8000,
        screen.1 < 0x8000,
        0 <= u < screen.0,
        0 <= v < screen.1,
    ensures
        drawn_pixel(
            &Material::SolidColor(color),
            DrawMode { wireframe: false, shaded: true, points: false },
            frame_quad(screen, depth),
            screen,
            2,
            (before, FAR),
            u,
            v,
        ).0 == color.spec_as_u32(),
{
    let shader = Material::SolidColor(color);
    let mode = DrawMode { wireframe: false, shaded: true, points: false };
    let quad = frame_quad(screen, depth);
    let first = triangle_at(quad, 0);
    let second = triangle_at(quad, 1);
    lemma_frame_quad_covers(screen, depth, u, v);
    let start = (before, FAR);
    let none = drawn_pixel(&shader, mode, quad, screen, 0, start, u, v);
    let one = drawn_pixel(&shader, mode, quad, screen, 1, start, u, v);
    let two = drawn_pixel(&shader, mode, quad, screen, 2, start, u, v);
    assert(none == start);
    assert(one == triangle_pixel(&shader, mode, first, screen, none, u, v));
    assert(two == triangle_pixel(&shader, mode, second, screen, one, u, v));
    assert(one == shaded_pixel(&shader, first, screen, start, u, v));
    assert(two == shaded_pixel(&shader, second, screen, one, u, v));
    if fragment_covers(first, screen, u, v) {
        assert(one.0 == color.spec_as_u32());
    }
}

/// A number in fixed point, divided by one.
proof fn lemma_divided_by_one(value: i32)
    ensures
        spec_divided(value, ONE) == value,
{
    let m = magnitude(value as int);
    assert(value as int * ONE as int == value * 65536);
    assert(magnitude(value * 65536) == m * 65536);
    assert((m * 65536) / 65536 == m);
}

/// The quad that spans the view lands on the corners of the frame, as long as it
/// does not lie before the near plane.
pub proof fn lemma_view_quad_on_screen(screen: (u32, u32), depth: i32, near: i32)
    requires
        screen.0 < 0x8000,
        screen.1 < 0x8000,
        depth >= near,
    ensures
        spec_screen_vertices(view_quad(depth), near, screen) == frame_quad(screen, depth),
{
    let quad = view_quad(depth);
    let first = triangle_at(quad, 0);
    let second = triangle_at(quad, 1);
    assert(first =~= seq![quad[0], quad[1], quad[2]]);
    assert(second =~= seq![quad[3], quad[4], quad[5]]);
    assert(spec_clip_triangle(first, near) == first);
    assert(spec_clip_triangle(second, near) == second);
    assert(spec_visible(quad, near, 0) == Seq::<Vertex>::empty());
    assert(spec_visible(quad, near, 1) =~= first);
    assert(spec_visible(quad, near, 2) =~= quad) by {
        assert(spec_visible(quad, near, 2) == spec_visible(quad, near, 1) + spec_clip_triangle(
            second,
            near,
        ));
    }
    assert(quad.len() / 3 == 2);
    lemma_divided_by_one(-65536i32);
    lemma_divided_by_one(65536i32);
    lemma_divided_by_one(depth);
    let wide = screen.0 * 65536;
    let high = screen.1 * 65536;
    assert(ONE == 65536);
    assert((65536int + 65536int) * (screen.0 as int) == 2 * wide);
    assert((65536int + 65536int) * (screen.1 as int) == 2 * high);
    assert((-65536int + 65536int) * (screen.0 as int) == 0);
    assert((65536int - 65536int) * (screen.1 as int) == 0);
    let landed = quad.map_values(|vertex: Vertex| spec_projected(vertex, screen));
    let target = frame_quad(screen, depth);
    assert forall|i: int| 0 <= i < 6 implies landed[i] == target[i] by {
        let vertex = quad[i];
        let divided = spec_perspective_divide(vertex.position);
        assert(divided == vertex.position);
        let mapped = spec_viewport(divided, screen);
        assert(landed[i].position == mapped);
    }
    assert(landed =~= target);
}

/// The quad that spans the view, drawn filled in one colour onto a cleared frame,
/// gives every pixel that colour, as long as the quad does not lie before the near
/// plane.
pub proof fn lemma_view_quad_fills(
    color: Color,
    screen: (u32, u32),
    depth: i32,
    near: i32,
    before: u32,
    u: int,
    v: int,
)
    requires
        screen.0 < 0x8000,
        screen.1 < 0x8000,
        0 <= u < screen.0,
        0 <= v < screen.1,
        depth >= near,
    ensures
        rendered_pixel(
            &Material::SolidColor(color),
            DrawMode { wireframe: false, shaded: true, points: false },
            view_quad(depth),
            near,
            screen,
            (before, FAR),
            u,
            v,
        ).0 == color.spec_as_u32(),
{
    lemma_view_quad_on_screen(screen, depth, near);
    lemma_frame_quad_fills(color, screen, depth, before, u, v);
    assert(frame_quad(screen, depth).len() / 3 == 2);
}

} // verus!

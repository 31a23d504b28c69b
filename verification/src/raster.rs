//! Filling triangles and point markers.

use vstd::prelude::*;
use crate::fixed::{
    lemma_cancel_factor, lemma_common_factor, lemma_product_bound, lemma_share_is_between,
    lemma_times_difference, mul_wide, Point2, ONE,
};
use crate::geometry::{
    extreme, lemma_area_bounds, lemma_areas_sum, lemma_extreme_bounds, lemma_extreme_is_reached,
    pixel,
    point_in_triangle, spec_bounds, spec_pixel, spec_point_in_triangle, spec_signed_area,
    spec_triangle_barycentric, Bounds, Vertex, Weights,
};
use crate::shading::{calculate_depths, spec_calculate_depths, Shader};
use crate::target::RenderSlice;

verus! {

/// The point at which the pixel in column `u` of row `v` is tested: its corner.
pub open spec fn sample_point(u: int, v: int) -> Point2 {
    Point2 { x: (u * 65536) as i32, y: (v * 65536) as i32 }
}

/// Whether a triangle covers a pixel of a frame of `screen` (width, height) pixels:
/// the pixel lies in the triangle's bounding box and its sample point passes the
/// inside test.
pub open spec fn fragment_covers(triangle: Seq<Vertex>, screen: (u32, u32), u: int, v: int) -> bool {
    spec_bounds(triangle, screen).covers(u, v) && spec_point_in_triangle(
        triangle,
        sample_point(u, v),
    )
}

/// The barycentric weights of a pixel's sample point.
pub open spec fn fragment_weights(triangle: Seq<Vertex>, u: int, v: int) -> Weights {
    spec_triangle_barycentric(triangle, sample_point(u, v))
}

/// The depth of a triangle at a pixel.
pub open spec fn fragment_depth(triangle: Seq<Vertex>, u: int, v: int) -> i32 {
    spec_calculate_depths(triangle, fragment_weights(triangle, u, v)) as i32
}

/// A pixel (colour, depth) after a fragment has been offered to it: the fragment
/// replaces the pixel unless it lies deeper. Of two fragments the nearer one wins,
/// and of two at the same depth the later one.
pub open spec fn depth_tested(pixel: (u32, i32), fragment: (u32, i32)) -> (u32, i32) {
    if fragment.1 > pixel.1 {
        pixel
    } else {
        fragment
    }
}

/// A pixel after a triangle has been filled: where the triangle covers the pixel,
/// its fragment is offered to the pixel; elsewhere the pixel stays.
pub open spec fn shaded_pixel<S: Shader>(
    shader: &S,
    triangle: Seq<Vertex>,
    screen: (u32, u32),
    pixel: (u32, i32),
    u: int,
    v: int,
) -> (u32, i32) {
    if fragment_covers(triangle, screen, u, v) {
        depth_tested(
            pixel,
            (
                shader.spec_shade(triangle, fragment_weights(triangle, u, v)).spec_as_u32(),
                fragment_depth(triangle, u, v),
            ),
        )
    } else {
        pixel
    }
}

/// Of two fragments at different depths that are offered to one pixel, the nearer
/// one stays, whichever is offered first; a pixel that is nearer than both keeps
/// its own colour either way.
pub proof fn lemma_depth_order_independent(pixel: (u32, i32), first: (u32, i32), second: (u32, i32))
    requires
        first.1 != second.1,
    ensures
        depth_tested(depth_tested(pixel, first), second) == depth_tested(
            depth_tested(pixel, second),
            first,
        ),
        first.1 <= pixel.1 && first.1 < second.1 ==> depth_tested(
            depth_tested(pixel, first),
            second,
        ) == first,
        second.1 <= pixel.1 && second.1 < first.1 ==> depth_tested(
            depth_tested(pixel, first),
            second,
        ) == second,
        first.1 > pixel.1 && second.1 > pixel.1 ==> depth_tested(
            depth_tested(pixel, first),
            second,
        ) == pixel,
{
}

/// Two triangles that cover one pixel at different depths leave the pixel to the
/// nearer of them, whichever is filled first.
pub proof fn lemma_fill_order_independent<S: Shader>(
    shader: &S,
    first: Seq<Vertex>,
    second: Seq<Vertex>,
    screen: (u32, u32),
    pixel: (u32, i32),
    u: int,
    v: int,
)
    requires
        fragment_covers(first, screen, u, v),
        fragment_covers(second, screen, u, v),
        fragment_depth(first, u, v) != fragment_depth(second, u, v),
    ensures
        shaded_pixel(shader, second, screen, shaded_pixel(shader, first, screen, pixel, u, v), u, v)
            == shaded_pixel(
            shader,
            first,
            screen,
            shaded_pixel(shader, second, screen, pixel, u, v),
            u,
            v,
        ),
        fragment_depth(first, u, v) < fragment_depth(second, u, v) && fragment_depth(first, u, v)
            <= pixel.1 ==> shaded_pixel(
            shader,
            second,
            screen,
            shaded_pixel(shader, first, screen, pixel, u, v),
            u,
            v,
        ) == (
            shader.spec_shade(first, fragment_weights(first, u, v)).spec_as_u32(),
            fragment_depth(first, u, v),
        ),
{
}

/// A value that grows in proportion to a position and is negative at one place after
/// having been non-negative before stays negative from there on.
proof fn lemma_falling(slope: int, offset: int, d0: int, d1: int, d2: int)
    by (nonlinear_arith)
    requires
        d0 < d1 <= d2,
        d0 * slope - offset >= 0,
        d1 * slope - offset < 0,
    ensures
        d2 * slope - offset < 0,
{
}

/// Along a row, the area that a point spans with one edge cannot turn negative and
/// then come back.
proof fn lemma_edge_falls(s: Point2, t: Point2, left: Point2, middle: Point2, right: Point2)
    requires
        left.y == middle.y,
        middle.y == right.y,
        left.x < middle.x <= right.x,
        spec_signed_area(s, t, left) >= 0,
        spec_signed_area(s, t, middle) < 0,
    ensures
        spec_signed_area(s, t, right) < 0,
{
    lemma_falling(
        t.y - s.y,
        (t.x - s.x) * (left.y - s.y),
        left.x - s.x,
        middle.x - s.x,
        right.x - s.x,
    );
}

/// A triangle is convex: on one row, once the scan has been inside the triangle and
/// has left it, it does not enter it again.
pub proof fn lemma_row_is_one_span(triangle: Seq<Vertex>, left: Point2, middle: Point2, right: Point2)
    requires
        triangle.len() >= 3,
        left.y == middle.y,
        middle.y == right.y,
        left.x < middle.x <= right.x,
        spec_point_in_triangle(triangle, left),
        !spec_point_in_triangle(triangle, middle),
    ensures
        !spec_point_in_triangle(triangle, right),
{
    let a = triangle[0].spec_point();
    let b = triangle[1].spec_point();
    let c = triangle[2].spec_point();
    if spec_signed_area(a, b, middle) < 0 {
        lemma_edge_falls(a, b, left, middle, right);
    } else if spec_signed_area(b, c, middle) < 0 {
        lemma_edge_falls(b, c, left, middle, right);
    } else {
        lemma_edge_falls(c, a, left, middle, right);
    }
}

/// The weights of a point combine the vertices to the point: for three vertices
/// given by their offsets from the first (`b`, `c`) and a point given by its offset
/// (`p`), along one axis and along the other (`_y`).
proof fn lemma_weights_combine(b: int, c: int, p: int, b_y: int, c_y: int, p_y: int)
    by (nonlinear_arith)
    ensures
        (c * p_y - p * c_y) * b + (p * b_y - b * p_y) * c == (c * b_y - b * c_y) * p,
{
}

/// Weights that combine the offsets of two vertices from the first to the offset of
/// a point combine the vertices to the point.
proof fn lemma_combination_from_offsets(
    total: int,
    w0: int,
    w1: int,
    w2: int,
    a: int,
    b: int,
    c: int,
    p: int,
)
    requires
        w0 + w1 + w2 == total,
        w1 * (b - a) + w2 * (c - a) == total * (p - a),
    ensures
        total * p == w0 * a + w1 * b + w2 * c,
{
    lemma_times_difference(total, p, a);
    lemma_times_difference(w1, b, a);
    lemma_times_difference(w2, c, a);
    lemma_common_factor(w0, w1, w2, a);
}

/// The same along the other axis.
proof fn lemma_weights_combine_across(b: int, c: int, p: int, b_y: int, c_y: int, p_y: int)
    by (nonlinear_arith)
    ensures
        (c * p_y - p * c_y) * b_y + (p * b_y - b * p_y) * c_y == (c * b_y - b * c_y) * p_y,
{
}

/// A value that convex weights combine from three values lies between the least and
/// the greatest of them.
proof fn lemma_combination_is_between(
    total: int,
    w0: int,
    w1: int,
    w2: int,
    x0: int,
    x1: int,
    x2: int,
    x: int,
    low: int,
    high: int,
)
    requires
        total > 0,
        w0 >= 0,
        w1 >= 0,
        w2 >= 0,
        w0 + w1 + w2 == total,
        total * x == w0 * x0 + w1 * x1 + w2 * x2,
        low <= x0 <= high,
        low <= x1 <= high,
        low <= x2 <= high,
    ensures
        low <= x <= high,
{
    lemma_share_is_between(w0, x0, low, high);
    lemma_share_is_between(w1, x1, low, high);
    lemma_share_is_between(w2, x2, low, high);
    lemma_common_factor(w0, w1, w2, low);
    lemma_common_factor(w0, w1, w2, high);
    assert(low * w0 + low * w1 + low * w2 == low * total);
    assert(high * w0 + high * w1 + high * w2 == high * total);
    lemma_cancel_factor(total, x, low, high);
}

/// A point that passes the inside test of a front-facing triangle lies between the
/// extremes of the triangle's vertices, along `x` and along `y`.
pub proof fn lemma_inside_is_between_extremes(triangle: Seq<Vertex>, point: Point2)
    requires
        triangle.len() == 3,
        spec_signed_area(
            triangle[0].spec_point(),
            triangle[1].spec_point(),
            triangle[2].spec_point(),
        ) > 0,
        spec_point_in_triangle(triangle, point),
    ensures
        extreme(triangle, false, false) <= point.x <= extreme(triangle, false, true),
        extreme(triangle, true, false) <= point.y <= extreme(triangle, true, true),
{
    let a = triangle[0].spec_point();
    let b = triangle[1].spec_point();
    let c = triangle[2].spec_point();
    let total = spec_signed_area(a, b, c);
    let w0 = spec_signed_area(b, c, point);
    let w1 = spec_signed_area(c, a, point);
    let w2 = spec_signed_area(a, b, point);
    lemma_areas_sum(a, b, c, point);
    let bx = b.x - a.x;
    let cx = c.x - a.x;
    let px = point.x - a.x;
    let by = b.y - a.y;
    let cy = c.y - a.y;
    let py = point.y - a.y;
    assert(w2 == px * by - bx * py);
    assert(w1 == cx * py - px * cy) by (nonlinear_arith)
        requires
            w1 == (point.x - c.x) * (a.y - c.y) - (a.x - c.x) * (point.y - c.y),
            cx == c.x - a.x,
            px == point.x - a.x,
            cy == c.y - a.y,
            py == point.y - a.y,
    ;
    assert(total == cx * by - bx * cy);
    lemma_weights_combine(bx, cx, px, by, cy, py);
    lemma_combination_from_offsets(
        total,
        w0,
        w1,
        w2,
        a.x as int,
        b.x as int,
        c.x as int,
        point.x as int,
    );
    lemma_weights_combine_across(bx, cx, px, by, cy, py);
    lemma_combination_from_offsets(
        total,
        w0,
        w1,
        w2,
        a.y as int,
        b.y as int,
        c.y as int,
        point.y as int,
    );
    lemma_extreme_bounds(triangle, false, 0);
    lemma_extreme_bounds(triangle, false, 1);
    lemma_extreme_bounds(triangle, false, 2);
    lemma_extreme_bounds(triangle, true, 0);
    lemma_extreme_bounds(triangle, true, 1);
    lemma_extreme_bounds(triangle, true, 2);
    lemma_combination_is_between(
        total,
        w0,
        w1,
        w2,
        a.x as int,
        b.x as int,
        c.x as int,
        point.x as int,
        extreme(triangle, false, false),
        extreme(triangle, false, true),
    );
    lemma_combination_is_between(
        total,
        w0,
        w1,
        w2,
        a.y as int,
        b.y as int,
        c.y as int,
        point.y as int,
        extreme(triangle, true, false),
        extreme(triangle, true, true),
    );
}

/// The bounding box costs no pixel: a front-facing triangle covers every pixel of
/// the frame whose sample point passes the inside test.
pub proof fn lemma_box_keeps_inside(triangle: Seq<Vertex>, screen: (u32, u32), u: int, v: int)
    requires
        triangle.len() == 3,
        spec_signed_area(
            triangle[0].spec_point(),
            triangle[1].spec_point(),
            triangle[2].spec_point(),
        ) > 0,
        0 <= u < screen.0,
        0 <= v < screen.1,
        u < 0x8000,
        v < 0x8000,
        spec_point_in_triangle(triangle, sample_point(u, v)),
    ensures
        fragment_covers(triangle, screen, u, v),
{
    lemma_inside_is_between_extremes(triangle, sample_point(u, v));
    let bounds = spec_bounds(triangle, screen);
    assert(ONE == 65536);
    assert(screen.0 as int * ONE as int >= (u + 1) * 65536) by (nonlinear_arith)
        requires
            ONE == 65536,
            u < screen.0,
    ;
    assert(screen.1 as int * ONE as int >= (v + 1) * 65536) by (nonlinear_arith)
        requires
            ONE == 65536,
            v < screen.1,
    ;
    let point = sample_point(u, v);
    assert(point.x == u * 65536 && point.y == v * 65536);
    assert(extreme(triangle, false, false) <= u * 65536 <= extreme(triangle, false, true));
    let _ = lemma_extreme_is_reached(triangle, false, false);
    let _ = lemma_extreme_is_reached(triangle, false, true);
    let _ = lemma_extreme_is_reached(triangle, true, false);
    let _ = lemma_extreme_is_reached(triangle, true, true);
    assert(bounds.min_x <= u * 65536 <= bounds.max_x);
    assert(bounds.min_y <= v * 65536 <= bounds.max_y);
}

/// Fills the part of a triangle that lies in a slice. Each pixel of the triangle's
/// bounding box whose sample point is inside the triangle gets the triangle's
/// perspective-correct depth and the shader's colour, unless the pixel already
/// holds something nearer. A row is left as soon as the scan has passed through the
/// triangle.
pub fn draw_triangle<S: Shader>(slice: &mut RenderSlice, triangle: &[Vertex], shader: &S)
    requires
        old(slice).wf(),
        triangle@.len() == 3,
    ensures
        final(slice).wf(),
        final(slice).same_window(old(slice)),
        final(final(slice).color_slice)@ == final(old(slice).color_slice)@,
        final(final(slice).depth_slice)@ == final(old(slice).depth_slice)@,
        forall|u: int, v: int|
            old(slice).contains(u, v) ==> (
            #[trigger] final(slice).pixel_color(u, v),
            final(slice).pixel_depth(u, v),
        ) == shaded_pixel(
            shader,
            triangle@,
            (old(slice).width, old(slice).height),
            (old(slice).pixel_color(u, v), old(slice).pixel_depth(u, v)),
            u,
            v,
        ),
{
    let width: u32 = slice.width;
    let start: u32 = slice.start;
    let end: u32 = slice.end;
    let ghost screen = (slice.width, slice.height);
    let bounds: Bounds = Bounds::new(triangle, (slice.width, slice.height));
    let x_first: u32 = pixel(bounds.min_x);
    let x_last: u32 = pixel(bounds.max_x);
    let y_low: u32 = pixel(bounds.min_y);
    let y_high: u32 = pixel(bounds.max_y);
    if start >= end || y_high < start || y_low >= end || y_low > y_high || x_first > x_last {
        return ;
    }
    let y_first: u32 = if y_low < start {
        start
    } else {
        y_low
    };
    let y_last: u32 = if y_high >= end {
        end - 1
    } else {
        y_high
    };
    let mut y: u32 = y_first;
    while y <= y_last
        invariant
            slice.wf(),
            slice.same_window(old(slice)),
            final(slice.color_slice)@ == final(old(slice).color_slice)@,
            final(slice.depth_slice)@ == final(old(slice).depth_slice)@,
            triangle@.len() == 3,
            width == slice.width,
            start == slice.start,
            end == slice.end,
            screen == (slice.width, slice.height),
            bounds == spec_bounds(triangle@, screen),
            x_first == spec_pixel(bounds.min_x),
            x_last == spec_pixel(bounds.max_x),
            y_low == spec_pixel(bounds.min_y),
            y_high == spec_pixel(bounds.max_y),
            start <= y_first <= y_last < end,
            y_low <= y_first,
            y_last <= y_high,
            y_first > y_low ==> y_first == start,
            y_last < y_high ==> y_last == end - 1,
            y_first <= y <= y_last + 1,
            x_first <= x_last,
            y_last < 0x8000,
            x_last < 0x8000,
            forall|u: int, v: int|
                old(slice).contains(u, v) ==> (
                #[trigger] slice.pixel_color(u, v),
                slice.pixel_depth(u, v),
            ) == (if v < y {
                shaded_pixel(
                    shader,
                    triangle@,
                    screen,
                    (old(slice).pixel_color(u, v), old(slice).pixel_depth(u, v)),
                    u,
                    v,
                )
            } else {
                (old(slice).pixel_color(u, v), old(slice).pixel_depth(u, v))
            }),
        decreases y_last + 1 - y,
    {
        let mut x: u32 = x_first;
        let mut entered: bool = false;
        let ghost mut entry: int = 0;
        while x <= x_last
            invariant
                slice.wf(),
                slice.same_window(old(slice)),
                final(slice.color_slice)@ == final(old(slice).color_slice)@,
                final(slice.depth_slice)@ == final(old(slice).depth_slice)@,
                triangle@.len() == 3,
                width == slice.width,
                start == slice.start,
                end == slice.end,
                screen == (slice.width, slice.height),
                bounds == spec_bounds(triangle@, screen),
                x_first == spec_pixel(bounds.min_x),
                x_last == spec_pixel(bounds.max_x),
                y_low == spec_pixel(bounds.min_y),
                y_high == spec_pixel(bounds.max_y),
                start <= y < end,
                y_low <= y <= y_high,
                y < 0x8000,
                x_last < 0x8000,
                x_first <= x <= x_last + 1,
                entered ==> x_first <= entry < x && spec_point_in_triangle(
                    triangle@,
                    sample_point(entry, y as int),
                ),
                forall|u: int, v: int|
                    old(slice).contains(u, v) ==> (
                    #[trigger] slice.pixel_color(u, v),
                    slice.pixel_depth(u, v),
                ) == (if v < y || (v == y && u < x) {
                    shaded_pixel(
                        shader,
                        triangle@,
                        screen,
                        (old(slice).pixel_color(u, v), old(slice).pixel_depth(u, v)),
                        u,
                        v,
                    )
                } else {
                    (old(slice).pixel_color(u, v), old(slice).pixel_depth(u, v))
                }),
            ensures
                forall|u: int, v: int|
                    old(slice).contains(u, v) ==> (
                    #[trigger] slice.pixel_color(u, v),
                    slice.pixel_depth(u, v),
                ) == (if v <= y {
                    shaded_pixel(
                        shader,
                        triangle@,
                        screen,
                        (old(slice).pixel_color(u, v), old(slice).pixel_depth(u, v)),
                        u,
                        v,
                    )
                } else {
                    (old(slice).pixel_color(u, v), old(slice).pixel_depth(u, v))
                }),
            decreases x_last + 1 - x,
        {
            let sample: Point2 = Point2::new((x * 65536) as i32, (y * 65536) as i32);
            assert(sample == sample_point(x as int, y as int));
            let (inside, weights) = point_in_triangle(triangle, &sample);
            let ghost before_color = slice.colors();
            let ghost before_depth = slice.depths();
            if inside {
                entered = true;
                proof {
                    entry = x as int;
                }
                if x < width {
                    let depth: i32 = calculate_depths(triangle, &weights);
                    assert(depth == fragment_depth(triangle@, x as int, y as int));
                    assert(fragment_covers(triangle@, screen, x as int, y as int));
                    let ghost u = x as int;
                    let ghost v = y as int;
                    let ghost stored = (slice.pixel_color(u, v), slice.pixel_depth(u, v));
                    assert(stored == (old(slice).pixel_color(u, v), old(slice).pixel_depth(u, v)));
                    if !(depth > slice.depth_at(x, y)) {
                        let color: u32 = shader.shade(triangle, &weights).as_u32();
                        slice.set_pixel(x, y, color, depth);
                        assert((slice.pixel_color(u, v), slice.pixel_depth(u, v)) == shaded_pixel(
                            shader,
                            triangle@,
                            screen,
                            stored,
                            u,
                            v,
                        ));
                    } else {
                        assert(stored == shaded_pixel(shader, triangle@, screen, stored, u, v));
                    }
                }
            } else if entered {
                proof {
                    assert forall|u: int| x <= u <= x_last implies !spec_point_in_triangle(
                        triangle@,
                        sample_point(u, y as int),
                    ) by {
                        lemma_row_is_one_span(
                            triangle@,
                            sample_point(entry, y as int),
                            sample_point(x as int, y as int),
                            sample_point(u, y as int),
                        );
                    }
                }
                break ;
            }
            x = x + 1;
        }
        y = y + 1;
    }
}

/// The reach of a marker of the given size: the size rounded up to whole pixels.
pub open spec fn spec_reach(size: i32) -> int {
    ((size as int + 65535) / 65536) * 65536
}

/// The pixel that a coordinate of a marker's bounding square falls into: a negative
/// coordinate counts as 0.
pub open spec fn spec_marker_pixel(coordinate: int) -> int {
    if coordinate < 0 {
        0
    } else {
        coordinate / 65536
    }
}

/// Whether a marker of radius `size` at `center` covers the pixel (`u`, `v`): the
/// pixel lies in the bounding square of the marker (the upper bounds excluded) and
/// closer to the centre than `size`.
pub open spec fn marker_covers(center: Point2, size: i32, u: int, v: int) -> bool {
    &&& size > 0
    &&& spec_marker_pixel(center.x - spec_reach(size)) <= u < spec_marker_pixel(
        center.x + spec_reach(size),
    )
    &&& spec_marker_pixel(center.y - spec_reach(size)) <= v < spec_marker_pixel(
        center.y + spec_reach(size),
    )
    &&& (u * 65536 - center.x) * (u * 65536 - center.x) + (v * 65536 - center.y) * (v * 65536
        - center.y) < size * size
}

fn marker_pixel(coordinate: i64) -> (r: u32)
    requires
        -0x2_0000_0000 <= coordinate <= 0x2_0000_0000,
    ensures
        r == spec_marker_pixel(coordinate as int),
        r <= 0x2_0000,
{
    if coordinate < 0 {
        0
    } else {
        (coordinate / 65536) as u32
    }
}

/// Marks the screen position of a vertex on a slice: a disk of radius `size` in one
/// colour. The depths stay as they are.
pub fn draw_point(slice: &mut RenderSlice, point: &Vertex, size: i32, color: u32)
    requires
        old(slice).wf(),
    ensures
        final(slice).wf(),
        final(slice).same_window(old(slice)),
        final(final(slice).color_slice)@ == final(old(slice).color_slice)@,
        final(final(slice).depth_slice)@ == final(old(slice).depth_slice)@,
        final(slice).depths() == old(slice).depths(),
        forall|u: int, v: int|
            old(slice).contains(u, v) ==> #[trigger] final(slice).pixel_color(u, v) == (
            if marker_covers(point.spec_point(), size, u, v) {
                color
            } else {
                old(slice).pixel_color(u, v)
            }),
{
    if size <= 0 {
        return ;
    }
    let center: Point2 = point.position.xy();
    let reach: i64 = ((size as i64 + 65535) / 65536) * 65536;
    let x_first: u32 = marker_pixel(center.x as i64 - reach);
    let x_end: u32 = marker_pixel(center.x as i64 + reach);
    let y_first: u32 = marker_pixel(center.y as i64 - reach);
    let y_end: u32 = marker_pixel(center.y as i64 + reach);
    let radius_squared: i128 = mul_wide(size as i64, size as i64);
    let mut x: u32 = x_first;
    while x < x_end
        invariant
            slice.wf(),
            slice.same_window(old(slice)),
            final(slice.color_slice)@ == final(old(slice).color_slice)@,
            final(slice.depth_slice)@ == final(old(slice).depth_slice)@,
            slice.depths() == old(slice).depths(),
            size > 0,
            center == point.spec_point(),
            reach == spec_reach(size),
            x_first == spec_marker_pixel(center.x - reach),
            x_end == spec_marker_pixel(center.x + reach),
            y_first == spec_marker_pixel(center.y - reach),
            y_end == spec_marker_pixel(center.y + reach),
            x_end <= 0x2_0000,
            y_end <= 0x2_0000,
            radius_squared == size * size,
            x_first <= x,
            forall|u: int, v: int|
                old(slice).contains(u, v) ==> #[trigger] slice.pixel_color(u, v) == (if u < x
                    && marker_covers(center, size, u, v) {
                    color
                } else {
                    old(slice).pixel_color(u, v)
                }),
        decreases x_end - x,
    {
        let mut y: u32 = y_first;
        while y < y_end
            invariant
                slice.wf(),
                slice.same_window(old(slice)),
                final(slice.color_slice)@ == final(old(slice).color_slice)@,
                final(slice.depth_slice)@ == final(old(slice).depth_slice)@,
                slice.depths() == old(slice).depths(),
                size > 0,
                center == point.spec_point(),
                reach == spec_reach(size),
                x_first == spec_marker_pixel(center.x - reach),
                x_end == spec_marker_pixel(center.x + reach),
                y_first == spec_marker_pixel(center.y - reach),
                y_end == spec_marker_pixel(center.y + reach),
                x_end <= 0x2_0000,
                y_end <= 0x2_0000,
                radius_squared == size * size,
                x_first <= x < x_end,
                y_first <= y,
                forall|u: int, v: int|
                    old(slice).contains(u, v) ==> #[trigger] slice.pixel_color(u, v) == (if (u < x
                        || (u == x && v < y)) && marker_covers(center, size, u, v) {
                        color
                    } else {
                        old(slice).pixel_color(u, v)
                    }),
            decreases y_end - y,
        {
            if y >= slice.start && y < slice.end && x < slice.width {
                let across: i64 = x as i64 * 65536 - center.x as i64;
                let down: i64 = y as i64 * 65536 - center.y as i64;
                proof {
                    lemma_product_bound(across as int, across as int, 0x3_0000_0000, 0x3_0000_0000);
                    lemma_product_bound(down as int, down as int, 0x3_0000_0000, 0x3_0000_0000);
                }
                if mul_wide(across, across) + mul_wide(down, down) < radius_squared {
                    slice.set_color(x, y, color);
                }
            }
            y = y + 1;
        }
        x = x + 1;
    }
}

} // verus!

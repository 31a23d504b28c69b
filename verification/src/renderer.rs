//! The draw loop: culling, projection to the screen, and drawing slice by slice.

use vstd::prelude::*;
use crate::geometry::{Model, Vertex};
use crate::line::{draw_line, on_line, spec_whole};
use crate::raster::{draw_point, draw_triangle, marker_covers, shaded_pixel};
use crate::shading::Shader;
use crate::target::{is_row_tiling, lemma_index_bound, lemma_product_splits, RenderSlice, RenderTarget};

verus! {

/// The colour of the wireframe and of the point markers: white.
pub const OVERLAY_COLOR: u32 = 0x00ff_ffff;

/// The radius of a point marker: two pixels.
pub const POINT_SIZE: i32 = 131072;

/// What is drawn of each triangle.
#[derive(Clone, Copy, Debug, PartialEq, Eq, Structural)]
pub struct DrawMode {
    pub wireframe: bool,
    pub shaded: bool,
    pub points: bool,
}

/// The mode that a digit selects: 4 stands for filled triangles, 2 for the
/// wireframe, 1 for the point markers, and their sums for combinations.
pub open spec fn spec_mode_for_digit(digit: u8) -> Option<DrawMode> {
    if 1 <= digit <= 7 {
        Some(
            DrawMode {
                wireframe: digit == 2 || digit == 3 || digit == 6 || digit == 7,
                shaded: digit >= 4,
                points: digit % 2 == 1,
            },
        )
    } else {
        None
    }
}

impl DrawMode {
    /// The mode that one of the digits 1 to 7 selects; other digits select none.
    pub fn for_digit(digit: u8) -> (mode: Option<DrawMode>)
        ensures
            mode == spec_mode_for_digit(digit),
            mode is Some <==> 1 <= digit <= 7,
    {
        if digit < 1 || digit > 7 {
            return None;
        }
        Some(
            DrawMode {
                wireframe: digit == 2 || digit == 3 || digit == 6 || digit == 7,
                shaded: digit >= 4,
                points: digit % 2 == 1,
            },
        )
    }
}

impl Default for DrawMode {
    /// Filled triangles, without wireframe and without markers.
    fn default() -> (mode: Self)
        ensures
            mode == (DrawMode { wireframe: false, shaded: true, points: false }),
    {
        DrawMode { wireframe: false, shaded: true, points: false }
    }
}

/// The triangle if all three vertices lie at the near distance or behind it, nothing
/// otherwise: a triangle that reaches in front of the near plane is dropped whole.
pub open spec fn spec_clip_triangle(triangle: Seq<Vertex>, near: i32) -> Seq<Vertex> {
    if triangle[0].position.z >= near && triangle[1].position.z >= near && triangle[2].position.z
        >= near {
        triangle
    } else {
        Seq::empty()
    }
}

/// The near-plane test. `z` is the view-space depth of a vertex; a triangle is kept
/// only if none of its vertices is nearer than `near`.
pub fn clip_triangle(triangle: &[Vertex], near: i32) -> (kept: Vec<Vertex>)
    requires
        triangle@.len() >= 3,
    ensures
        kept@ == spec_clip_triangle(triangle@, near),
        kept@.len() == 0 <==> (triangle@[0].position.z < near || triangle@[1].position.z < near
            || triangle@[2].position.z < near),
{
    let mut kept: Vec<Vertex> = Vec::new();
    if triangle[0].position.z >= near && triangle[1].position.z >= near && triangle[2].position.z
        >= near {
        let mut i: usize = 0;
        while i < triangle.len()
            invariant
                i <= triangle.len(),
                kept@ == triangle@.take(i as int),
            decreases triangle.len() - i,
        {
            kept.push(triangle[i]);
            i = i + 1;
        }
        assert(triangle@.take(triangle.len() as int) == triangle@);
    }
    kept
}

/// Whether the pixel lies on the line between the screen positions of two vertices.
pub open spec fn on_edge(from: Vertex, to: Vertex, u: int, v: int) -> bool {
    on_line(
        spec_whole(from.position.x),
        spec_whole(from.position.y),
        spec_whole(to.position.x),
        spec_whole(to.position.y),
        u,
        v,
    )
}

/// A pixel after the outline of a triangle has been drawn over it.
pub open spec fn wire_pixel(triangle: Seq<Vertex>, pixel: (u32, i32), u: int, v: int) -> (u32, i32) {
    if on_edge(triangle[0], triangle[1], u, v) || on_edge(triangle[1], triangle[2], u, v)
        || on_edge(triangle[2], triangle[0], u, v) {
        (OVERLAY_COLOR, pixel.1)
    } else {
        pixel
    }
}

/// A pixel after the vertices of a triangle have been marked over it.
pub open spec fn marked_pixel(triangle: Seq<Vertex>, pixel: (u32, i32), u: int, v: int) -> (
    u32,
    i32,
) {
    if marker_covers(triangle[0].spec_point(), POINT_SIZE, u, v) || marker_covers(
        triangle[1].spec_point(),
        POINT_SIZE,
        u,
        v,
    ) || marker_covers(triangle[2].spec_point(), POINT_SIZE, u, v) {
        (OVERLAY_COLOR, pixel.1)
    } else {
        pixel
    }
}

/// A pixel after one triangle has been drawn in the given mode: filled first, then
/// outlined, then marked.
pub open spec fn triangle_pixel<S: Shader>(
    shader: &S,
    mode: DrawMode,
    triangle: Seq<Vertex>,
    screen: (u32, u32),
    pixel: (u32, i32),
    u: int,
    v: int,
) -> (u32, i32) {
    let filled = if mode.shaded {
        shaded_pixel(shader, triangle, screen, pixel, u, v)
    } else {
        pixel
    };
    let outlined = if mode.wireframe {
        wire_pixel(triangle, filled, u, v)
    } else {
        filled
    };
    if mode.points {
        marked_pixel(triangle, outlined, u, v)
    } else {
        outlined
    }
}

/// Triangle number `i` of a list of vertices.
pub open spec fn triangle_at(vertices: Seq<Vertex>, i: int) -> Seq<Vertex> {
    vertices.subrange(3 * i, 3 * i + 3)
}

/// A pixel after the first `count` triangles of a list of screen-space vertices have
/// been drawn, one after the other.
pub open spec fn drawn_pixel<S: Shader>(
    shader: &S,
    mode: DrawMode,
    vertices: Seq<Vertex>,
    screen: (u32, u32),
    count: nat,
    pixel: (u32, i32),
    u: int,
    v: int,
) -> (u32, i32)
    decreases count,
{
    if count == 0 {
        pixel
    } else {
        triangle_pixel(
            shader,
            mode,
            triangle_at(vertices, count - 1),
            screen,
            drawn_pixel(shader, mode, vertices, screen, (count - 1) as nat, pixel, u, v),
            u,
            v,
        )
    }
}

/// `after` is `before` with the triangles of a list of screen-space vertices drawn
/// onto it: the same rows of the same frame, every pixel as `drawn_pixel` says.
pub open spec fn is_drawn<S: Shader>(
    before: RenderSlice,
    after: RenderSlice,
    vertices: Seq<Vertex>,
    shader: &S,
    mode: DrawMode,
) -> bool {
    &&& after.wf()
    &&& after.same_window(&before)
    &&& forall|u: int, v: int|
        before.contains(u, v) ==> (#[trigger] after.pixel_color(u, v), after.pixel_depth(u, v))
            == drawn_pixel(
            shader,
            mode,
            vertices,
            (before.width, before.height),
            (vertices.len() / 3) as nat,
            (before.pixel_color(u, v), before.pixel_depth(u, v)),
            u,
            v,
        )
}

/// Draws the triangles of a list of screen-space vertices onto one slice, in the
/// order of the list. Vertices beyond the last whole triangle are ignored.
pub fn draw_slice<S: Shader>(slice: &mut RenderSlice, vertices: &[Vertex], shader: &S, mode: &DrawMode)
    requires
        old(slice).wf(),
    ensures
        final(slice).wf(),
        final(slice).same_window(old(slice)),
        final(final(slice).color_slice)@ == final(old(slice).color_slice)@,
        final(final(slice).depth_slice)@ == final(old(slice).depth_slice)@,
        is_drawn(*old(slice), *final(slice), vertices@, shader, *mode),
{
    let total: usize = vertices.len();
    let count: usize = total / 3;
    let ghost screen = (slice.width, slice.height);
    let mut i: usize = 0;
    while i < count
        invariant
            total == vertices@.len(),
            count == total / 3,
            slice.wf(),
            slice.same_window(old(slice)),
            final(slice.color_slice)@ == final(old(slice).color_slice)@,
            final(slice.depth_slice)@ == final(old(slice).depth_slice)@,
            screen == (old(slice).width, old(slice).height),
            count == vertices@.len() / 3,
            i <= count,
            forall|u: int, v: int|
                old(slice).contains(u, v) ==> (
                #[trigger] slice.pixel_color(u, v),
                slice.pixel_depth(u, v),
            ) == drawn_pixel(
                shader,
                *mode,
                vertices@,
                screen,
                i as nat,
                (old(slice).pixel_color(u, v), old(slice).pixel_depth(u, v)),
                u,
                v,
            ),
        decreases count - i,
    {
        let triangle: &[Vertex] = &vertices[3 * i..3 * i + 3];
        assert(triangle@ == triangle_at(vertices@, i as int));
        let ghost before = *slice;
        if mode.shaded {
            draw_triangle(slice, triangle, shader);
        }
        let ghost filled = *slice;
        assert forall|u: int, v: int| before.contains(u, v) implies (
            #[trigger] filled.pixel_color(u, v),
            filled.pixel_depth(u, v),
        ) == (if mode.shaded {
            shaded_pixel(
                shader,
                triangle@,
                screen,
                (before.pixel_color(u, v), before.pixel_depth(u, v)),
                u,
                v,
            )
        } else {
            (before.pixel_color(u, v), before.pixel_depth(u, v))
        }) by {}
        if mode.wireframe {
            draw_line(slice, &triangle[0], &triangle[1], OVERLAY_COLOR);
            draw_line(slice, &triangle[1], &triangle[2], OVERLAY_COLOR);
            draw_line(slice, &triangle[2], &triangle[0], OVERLAY_COLOR);
        }
        let ghost outlined = *slice;
        assert forall|u: int, v: int| before.contains(u, v) implies (
            #[trigger] outlined.pixel_color(u, v),
            outlined.pixel_depth(u, v),
        ) == (if mode.wireframe {
            wire_pixel(triangle@, (filled.pixel_color(u, v), filled.pixel_depth(u, v)), u, v)
        } else {
            (filled.pixel_color(u, v), filled.pixel_depth(u, v))
        }) by {}
        if mode.points {
            draw_point(slice, &triangle[0], POINT_SIZE, OVERLAY_COLOR);
            draw_point(slice, &triangle[1], POINT_SIZE, OVERLAY_COLOR);
            draw_point(slice, &triangle[2], POINT_SIZE, OVERLAY_COLOR);
        }
        assert forall|u: int, v: int| before.contains(u, v) implies (
            #[trigger] slice.pixel_color(u, v),
            slice.pixel_depth(u, v),
        ) == (if mode.points {
            marked_pixel(triangle@, (outlined.pixel_color(u, v), outlined.pixel_depth(u, v)), u, v)
        } else {
            (outlined.pixel_color(u, v), outlined.pixel_depth(u, v))
        }) by {}
        assert forall|u: int, v: int| old(slice).contains(u, v) implies (
            #[trigger] slice.pixel_color(u, v),
            slice.pixel_depth(u, v),
        ) == drawn_pixel(
            shader,
            *mode,
            vertices@,
            screen,
            (i + 1) as nat,
            (old(slice).pixel_color(u, v), old(slice).pixel_depth(u, v)),
            u,
            v,
        ) by {
            assert(before.contains(u, v));
            let p = (before.pixel_color(u, v), before.pixel_depth(u, v));
            let f = (filled.pixel_color(u, v), filled.pixel_depth(u, v));
            let o = (outlined.pixel_color(u, v), outlined.pixel_depth(u, v));
            assert(triangle_pixel(shader, *mode, triangle@, screen, p, u, v) == (
                slice.pixel_color(u, v),
                slice.pixel_depth(u, v),
            ));
        }
        i = i + 1;
    }
}

/// The vertices of the first `count` triangles of a list that pass the near-plane
/// test, in the order of the list.
pub open spec fn spec_visible(vertices: Seq<Vertex>, near: i32, count: nat) -> Seq<Vertex>
    decreases count,
{
    if count == 0 {
        Seq::empty()
    } else {
        spec_visible(vertices, near, (count - 1) as nat) + spec_clip_triangle(
            triangle_at(vertices, count - 1),
            near,
        )
    }
}

/// A vertex taken from clip space to the screen.
pub open spec fn spec_projected(vertex: Vertex, screen: (u32, u32)) -> Vertex {
    vertex.spec_clip_to_ndc().spec_ndc_to_screen(screen)
}

/// The screen-space vertices of the triangles of a list that are drawn: those that
/// pass the near-plane test, each taken to the screen.
pub open spec fn spec_screen_vertices(vertices: Seq<Vertex>, near: i32, screen: (u32, u32)) -> Seq<
    Vertex,
> {
    spec_visible(vertices, near, (vertices.len() / 3) as nat).map_values(
        |vertex: Vertex| spec_projected(vertex, screen),
    )
}

/// A pixel of a frame of `screen` (width, height) pixels after a model has been
/// drawn whose vertices arrive in clip space: after the triangles that pass the
/// near-plane test have been taken to the screen and drawn one after the other.
pub open spec fn rendered_pixel<S: Shader>(
    shader: &S,
    mode: DrawMode,
    vertices: Seq<Vertex>,
    near: i32,
    screen: (u32, u32),
    pixel: (u32, i32),
    u: int,
    v: int,
) -> (u32, i32) {
    drawn_pixel(
        shader,
        mode,
        spec_screen_vertices(vertices, near, screen),
        screen,
        (spec_screen_vertices(vertices, near, screen).len() / 3) as nat,
        pixel,
        u,
        v,
    )
}

/// Whether a vertex of the triangle is nearer than `near`.
pub open spec fn crosses_near_plane(triangle: Seq<Vertex>, near: i32) -> bool {
    triangle[0].position.z < near || triangle[1].position.z < near || triangle[2].position.z < near
}

/// A triangle with a vertex nearer than `near` adds nothing to what is visible, and
/// a list of nothing but such triangles has no visible triangle at all.
pub proof fn lemma_rejected_are_invisible(vertices: Seq<Vertex>, near: i32, count: nat)
    requires
        forall|i: int| 0 <= i < count ==> crosses_near_plane(#[trigger] triangle_at(vertices, i), near),
    ensures
        spec_visible(vertices, near, count) == Seq::<Vertex>::empty(),
    decreases count,
{
    if count > 0 {
        lemma_rejected_are_invisible(vertices, near, (count - 1) as nat);
        assert(crosses_near_plane(triangle_at(vertices, count - 1), near));
    }
}

/// Triangles with a vertex nearer than `near` contribute no pixel: a list of nothing
/// but such triangles leaves every pixel as it was.
pub proof fn lemma_near_plane_rejection<S: Shader>(
    shader: &S,
    mode: DrawMode,
    vertices: Seq<Vertex>,
    near: i32,
    screen: (u32, u32),
    pixel: (u32, i32),
    u: int,
    v: int,
)
    requires
        forall|i: int|
            0 <= i < vertices.len() / 3 ==> crosses_near_plane(
                #[trigger] triangle_at(vertices, i),
                near,
            ),
    ensures
        spec_screen_vertices(vertices, near, screen).len() == 0,
        rendered_pixel(shader, mode, vertices, near, screen, pixel, u, v) == pixel,
{
    lemma_rejected_are_invisible(vertices, near, (vertices.len() / 3) as nat);
}

/// The triangles of a list that pass the near-plane test.
pub fn visible_triangles(vertices: &[Vertex], near: i32) -> (visible: Vec<Vertex>)
    ensures
        visible@ == spec_visible(vertices@, near, (vertices@.len() / 3) as nat),
{
    let total: usize = vertices.len();
    let count: usize = total / 3;
    let mut visible: Vec<Vertex> = Vec::new();
    let mut i: usize = 0;
    while i < count
        invariant
            total == vertices@.len(),
            count == total / 3,
            i <= count,
            visible@ == spec_visible(vertices@, near, i as nat),
        decreases count - i,
    {
        let triangle: &[Vertex] = &vertices[3 * i..3 * i + 3];
        assert(triangle@ == triangle_at(vertices@, i as int));
        let kept: Vec<Vertex> = clip_triangle(triangle, near);
        let ghost before = visible@;
        let mut j: usize = 0;
        while j < kept.len()
            invariant
                j <= kept@.len(),
                visible@ == before + kept@.take(j as int),
            decreases kept@.len() - j,
        {
            visible.push(kept[j]);
            j = j + 1;
        }
        assert(kept@.take(kept@.len() as int) == kept@);
        i = i + 1;
    }
    visible
}

/// Takes every vertex of a list from clip space to the screen.
pub fn project_to_screen(vertices: &mut Vec<Vertex>, screen: (u32, u32))
    ensures
        final(vertices)@ == old(vertices)@.map_values(
            |vertex: Vertex| spec_projected(vertex, screen),
        ),
{
    let mut i: usize = 0;
    while i < vertices.len()
        invariant
            i <= vertices@.len(),
            vertices@.len() == old(vertices)@.len(),
            forall|j: int| 0 <= j < i ==> vertices@[j] == spec_projected(old(vertices)@[j], screen),
            forall|j: int| i <= j < vertices@.len() ==> vertices@[j] == old(vertices)@[j],
        decreases vertices@.len() - i,
    {
        let projected: Vertex = vertices[i].clip_to_ndc().ndc_to_screen(screen);
        vertices[i] = projected;
        i = i + 1;
    }
    assert(vertices@ =~= old(vertices)@.map_values(
        |vertex: Vertex| spec_projected(vertex, screen),
    ));
}

/// In a tiling every row of the frame from the start of a slice on lies in that
/// slice or in a later one.
proof fn lemma_row_has_owner(slices: Seq<RenderSlice>, height: int, v: int, k: int) -> (owner: int)
    requires
        is_row_tiling(slices, height),
        0 <= k < slices.len(),
        slices[k].start <= v < height,
    ensures
        k <= owner < slices.len(),
        slices[owner].start <= v < slices[owner].end,
    decreases slices.len() - k,
{
    if v < slices[k].end {
        k
    } else {
        if k == slices.len() - 1 {
            assert(slices.last().end == height);
            k
        } else {
            assert(slices[k].end == slices[k + 1].start);
            lemma_row_has_owner(slices, height, v, k + 1)
        }
    }
}

/// Draws a model onto the whole frame. The vertices arrive projected: `x` and `y` in
/// clip space, `z` the view-space depth, `w` the divisor, which is [`ONE`] where the
/// projection has divided already. Triangles that reach in front of the near plane
/// are dropped; the others are divided by `w` in every component, mapped to the
/// screen, and drawn in the order of the model, slice by slice. The depth that is
/// tested and stored is `z` after the divide. Every pixel ends as `drawn_pixel`
/// says, so the result does not depend on how the frame was cut into slices, nor
/// on the order in which they are drawn: this function draws them one after the
/// other, and a caller that hands each slice of `create_slices` to a worker of its
/// own and lets it run `draw_slice` gets the same picture.
///
/// [`ONE`]: crate::fixed::ONE
pub fn draw_buffer<S: Shader>(
    target: &mut RenderTarget,
    model: &Model,
    near: i32,
    shader: &S,
    mode: &DrawMode,
)
    requires
        old(target).wf(),
    ensures
        final(target).wf(),
        final(target).width == old(target).width,
        final(target).height == old(target).height,
        final(target).clear_color == old(target).clear_color,
        forall|u: int, v: int|
            0 <= u < old(target).width && 0 <= v < old(target).height ==> (
            #[trigger] final(target).pixel_color(u, v),
            final(target).pixel_depth(u, v),
        ) == rendered_pixel(
            shader,
            *mode,
            model.vertices@,
            near,
            (old(target).width, old(target).height),
            (old(target).pixel_color(u, v), old(target).pixel_depth(u, v)),
            u,
            v,
        ),
{
    let screen: (u32, u32) = (target.width, target.height);
    let mut vertices: Vec<Vertex> = visible_triangles(model.vertices.as_slice(), near);
    project_to_screen(&mut vertices, screen);
    let ghost drawn_vertices = vertices@;
    let ghost count = (vertices@.len() / 3) as nat;
    let ghost w = target.width as int;
    let ghost h = target.height as int;
    let ghost old_color = target.color@;
    let ghost old_depth = target.depth@;
    let mut slices: Vec<RenderSlice<'_>> = target.create_slices();
    let ghost initial = slices@;
    let mut k: usize = 0;
    while k < slices.len()
        invariant
            k <= slices@.len(),
            slices@.len() == initial.len(),
            vertices@ == drawn_vertices,
            forall|j: int|
                0 <= j < initial.len() ==> {
                    &&& (#[trigger] slices@[j]).wf()
                    &&& final(slices@[j].color_slice)@ == final(initial[j].color_slice)@
                    &&& final(slices@[j].depth_slice)@ == final(initial[j].depth_slice)@
                },
            forall|j: int| k <= j < initial.len() ==> #[trigger] slices@[j] == initial[j],
            forall|j: int|
                0 <= j < k ==> is_drawn(
                    initial[j],
                    #[trigger] slices@[j],
                    drawn_vertices,
                    shader,
                    *mode,
                ),
        decreases slices@.len() - k,
    {
        let ghost before = slices@;
        draw_slice(&mut slices[k], vertices.as_slice(), shader, mode);
        proof {
            assert(forall|j: int| 0 <= j < initial.len() && j != k ==> slices@[j] == before[j]);
        }
        k = k + 1;
    }
    proof {
        assert forall|j: int| 0 <= j < initial.len() implies final(
            (#[trigger] initial[j]).color_slice
        )@ == slices@[j].colors() && final(initial[j].depth_slice)@ == slices@[j].depths() by {
            assert(has_resolved(slices));
            assert(has_resolved(slices@[j]));
            assert(has_resolved(slices@[j].color_slice));
            assert(has_resolved(slices@[j].depth_slice));
        }
        assert forall|j: int| 0 <= j < initial.len() implies final(
            (#[trigger] initial[j]).color_slice
        )@.len() == initial[j].colors().len() && final(initial[j].depth_slice)@.len()
            == initial[j].depths().len() by {
            assert(is_drawn(initial[j], slices@[j], drawn_vertices, shader, *mode));
        }
        assert(target.color@.len() == old_color.len());
        assert(target.depth@.len() == old_depth.len());
        assert forall|u: int, v: int| 0 <= u < w && 0 <= v < h implies (
            #[trigger] target.pixel_color(u, v),
            target.pixel_depth(u, v),
        ) == drawn_pixel(
            shader,
            *mode,
            drawn_vertices,
            screen,
            count,
            (old_color[v * w + u], old_depth[v * w + u]),
            u,
            v,
        ) by {
            let j = lemma_row_has_owner(initial, h, v, 0);
            let slice = initial[j];
            let i = slice.index_of(u, v);
            lemma_index_bound(w, slice.end - slice.start, v - slice.start, u);
            lemma_product_splits(v, slice.start as int, w);
            assert(slice.start * w + i == v * w + u);
            assert(slice.contains(u, v));
            assert(is_drawn(initial[j], slices@[j], drawn_vertices, shader, *mode));
            assert(target.color@[slice.start * w + i] == final(initial[j].color_slice)@[i]);
            assert(target.depth@[slice.start * w + i] == final(initial[j].depth_slice)@[i]);
            assert(slices@[j].pixel_color(u, v) == slices@[j].colors()[i]);
            crate::target::lemma_product_grows(slice.end as int, h, w);
            crate::target::lemma_product_grows(slice.start as int, slice.end as int, w);
            crate::target::lemma_product_grows(0, slice.start as int, w);
            assert(w * h == h * w) by (nonlinear_arith);
            assert(old_color.len() == w * h);
            assert(old_depth.len() == w * h);
            assert(slice.colors() == old_color.subrange(slice.start * w, slice.end * w));
            assert(slice.depths() == old_depth.subrange(slice.start * w, slice.end * w));
            assert(slice.colors()[i] == old_color[slice.start * w + i]);
            assert(slice.depths()[i] == old_depth[slice.start * w + i]);
        }
    }
}

} // verus!

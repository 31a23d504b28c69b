//! Vertices, bounding boxes and the exact triangle test.

use vstd::prelude::*;
use crate::color::Color;
use crate::fixed::{mul_wide, saturate_i32, div_i128, Point2, Point3, Point4, Vector2, Vector3, ONE};
use crate::fixed::{div_toward_zero, saturated, lemma_product_bound, magnitude, abs_i128};
use crate::fixed::{lemma_common_factor, lemma_times_difference};
use std::ops::RangeInclusive;

verus! {

/// Largest magnitude of a barycentric numerator: what an area of points with
/// 32-bit coordinates can reach.
pub const WEIGHT_LIMIT: i128 = 0x2_0000_0000_0000_0000;

/// Twice the signed area of the triangle `a`, `b`, `c`: the cross product of `c - a`
/// with `b - a`. It is kept doubled so that it stays an exact integer; the sign is
/// positive for the winding that the inside test takes as front-facing.
pub open spec fn spec_signed_area(a: Point2, b: Point2, c: Point2) -> int {
    (c.x - a.x) * (b.y - a.y) - (b.x - a.x) * (c.y - a.y)
}

/// Cross product of `b - a` with `p - a`.
pub open spec fn spec_edge_cross(a: Point2, b: Point2, p: Point2) -> int {
    (b.x - a.x) * (p.y - a.y) - (p.x - a.x) * (b.y - a.y)
}

/// `p` lies on the inner side of all three edges, or on an edge.
pub open spec fn spec_inside(a: Point2, b: Point2, c: Point2, p: Point2) -> bool {
    &&& spec_signed_area(a, b, p) >= 0
    &&& spec_signed_area(b, c, p) >= 0
    &&& spec_signed_area(c, a, p) >= 0
}

/// Barycentric weights as exact fractions: the weight of the first vertex is
/// `x / total()`, of the second `y / total()`, of the third `z / total()`.
#[derive(Clone, Copy, Debug, PartialEq, Eq, Structural)]
pub struct Weights {
    pub x: i128,
    pub y: i128,
    pub z: i128,
}

impl Weights {
    /// The numerators are small enough to be added and multiplied by attributes.
    pub open spec fn wf(&self) -> bool {
        &&& -WEIGHT_LIMIT <= self.x <= WEIGHT_LIMIT
        &&& -WEIGHT_LIMIT <= self.y <= WEIGHT_LIMIT
        &&& -WEIGHT_LIMIT <= self.z <= WEIGHT_LIMIT
    }

    /// The common denominator.
    pub open spec fn spec_total(&self) -> int {
        self.x + self.y + self.z
    }

    /// Each weight lies between 0 and 1.
    pub open spec fn is_convex(&self) -> bool {
        &&& 0 <= self.x <= self.spec_total()
        &&& 0 <= self.y <= self.spec_total()
        &&& 0 <= self.z <= self.spec_total()
    }

    /// Weights from three numerators.
    pub fn new(x: i64, y: i64, z: i64) -> (w: Self)
        ensures
            w.wf(),
            w.x == x,
            w.y == y,
            w.z == z,
    {
        Weights { x: x as i128, y: y as i128, z: z as i128 }
    }

    /// The common denominator.
    pub fn total(&self) -> (t: i128)
        requires
            self.wf(),
        ensures
            t == self.spec_total(),
    {
        self.x + self.y + self.z
    }
}

/// The bound below which reduced weights lie: 30 bits, more than the precision of
/// single-precision floating point.
pub const REDUCED_LIMIT: i128 = 0x4000_0000;

impl Weights {
    /// The greatest magnitude among the numerators.
    pub open spec fn largest(&self) -> int {
        let x = magnitude(self.x as int);
        let y = magnitude(self.y as int);
        let z = magnitude(self.z as int);
        if x >= y && x >= z {
            x
        } else if y >= z {
            y
        } else {
            z
        }
    }

    /// The numerators halved, rounded toward zero.
    pub open spec fn halved(&self) -> Weights {
        Weights {
            x: div_toward_zero(self.x as int, 2) as i128,
            y: div_toward_zero(self.y as int, 2) as i128,
            z: div_toward_zero(self.z as int, 2) as i128,
        }
    }

    /// The weights at a precision of 30 bits: the numerators halved until all lie
    /// below [`REDUCED_LIMIT`]. Weights that are small already stay as they are.
    /// Halving all numerators keeps the point that the weights describe, up to the
    /// rounding of the last bit.
    pub open spec fn spec_reduced(&self) -> Weights
        decreases self.largest(),
    {
        if self.largest() < REDUCED_LIMIT {
            *self
        } else {
            self.halved().spec_reduced()
        }
    }

    /// The greatest magnitude among the numerators.
    fn largest_numerator(&self) -> (m: u128)
        ensures
            m == self.largest(),
    {
        let x: u128 = abs_i128(self.x);
        let y: u128 = abs_i128(self.y);
        let z: u128 = abs_i128(self.z);
        if x >= y && x >= z {
            x
        } else if y >= z {
            y
        } else {
            z
        }
    }

    /// The weights at a precision of 30 bits.
    pub fn reduced(&self) -> (r: Weights)
        requires
            self.wf(),
        ensures
            r == self.spec_reduced(),
            r.largest() < REDUCED_LIMIT,
            r.wf(),
    {
        let mut r: Weights = *self;
        while r.largest_numerator() >= REDUCED_LIMIT as u128
            invariant
                r.wf(),
                r.spec_reduced() == self.spec_reduced(),
            decreases r.largest(),
        {
            r = Weights { x: div_i128(r.x, 2), y: div_i128(r.y, 2), z: div_i128(r.z, 2) };
        }
        r
    }
}

/// Reduced weights lie below the limit.
pub proof fn lemma_reduced_is_small(weights: Weights)
    ensures
        weights.spec_reduced().largest() < REDUCED_LIMIT,
    decreases weights.largest(),
{
    if weights.largest() >= REDUCED_LIMIT {
        lemma_reduced_is_small(weights.halved());
    }
}

/// Reducing keeps weights what they are in kind: weights none of which is negative
/// and one of which is positive stay so, and a weight that is zero stays zero.
pub proof fn lemma_reduced_keeps_signs(weights: Weights)
    requires
        weights.x >= 0,
        weights.y >= 0,
        weights.z >= 0,
        weights.spec_total() > 0,
    ensures
        weights.spec_reduced().x >= 0,
        weights.spec_reduced().y >= 0,
        weights.spec_reduced().z >= 0,
        weights.spec_reduced().spec_total() > 0,
        weights.x == 0 ==> weights.spec_reduced().x == 0,
        weights.y == 0 ==> weights.spec_reduced().y == 0,
        weights.z == 0 ==> weights.spec_reduced().z == 0,
    decreases weights.largest(),
{
    if weights.largest() >= REDUCED_LIMIT {
        let half = weights.halved();
        assert(half.x == weights.x / 2 && half.y == weights.y / 2 && half.z == weights.z / 2);
        assert(half.largest() == weights.largest() / 2);
        lemma_reduced_keeps_signs(half);
    }
}

/// The weights of `p` in the triangle `a`, `b`, `c`: each vertex is weighted by the
/// area of the sub-triangle that lies opposite to it.
pub open spec fn spec_barycentric(a: Point2, b: Point2, c: Point2, p: Point2) -> Weights {
    Weights {
        x: spec_signed_area(b, c, p) as i128,
        y: spec_signed_area(c, a, p) as i128,
        z: spec_signed_area(a, b, p) as i128,
    }
}

/// Every area of points with 32-bit coordinates is within the weight limit.
pub proof fn lemma_area_bounds(a: Point2, b: Point2, c: Point2)
    ensures
        -WEIGHT_LIMIT <= spec_signed_area(a, b, c) <= WEIGHT_LIMIT,
        -WEIGHT_LIMIT <= spec_edge_cross(a, b, c) <= WEIGHT_LIMIT,
{
    lemma_product_bound(c.x - a.x, b.y - a.y, 0x1_0000_0000, 0x1_0000_0000);
    lemma_product_bound(b.x - a.x, c.y - a.y, 0x1_0000_0000, 0x1_0000_0000);
}

/// A product of two differences, multiplied out.
proof fn lemma_expand(u: int, v: int, s: int, t: int)
    by (nonlinear_arith)
    ensures
        (u - v) * (s - t) == u * s - u * t - v * s + v * t,
{
}

/// The two cross products differ in sign only.
pub proof fn lemma_area_is_edge_cross(a: Point2, b: Point2, c: Point2)
    ensures
        spec_signed_area(a, b, c) == -spec_edge_cross(a, b, c),
        spec_signed_area(a, b, c) == spec_edge_cross(b, a, c),
{
    lemma_expand(c.x as int, a.x as int, b.y as int, a.y as int);
    lemma_expand(b.x as int, a.x as int, c.y as int, a.y as int);
    lemma_expand(a.x as int, b.x as int, c.y as int, b.y as int);
    lemma_expand(c.x as int, b.x as int, a.y as int, b.y as int);
}

/// The three sub-areas that a point spans with the edges add up to the area of the
/// triangle, wherever the point lies.
pub proof fn lemma_areas_sum(a: Point2, b: Point2, c: Point2, p: Point2)
    ensures
        spec_signed_area(a, b, p) + spec_signed_area(b, c, p) + spec_signed_area(c, a, p)
            == spec_signed_area(a, b, c),
        spec_barycentric(a, b, c, p).spec_total() == spec_signed_area(a, b, c),
{
    lemma_area_bounds(a, b, p);
    lemma_area_bounds(b, c, p);
    lemma_area_bounds(c, a, p);
    lemma_expand(p.x as int, a.x as int, b.y as int, a.y as int);
    lemma_expand(b.x as int, a.x as int, p.y as int, a.y as int);
    lemma_expand(p.x as int, b.x as int, c.y as int, b.y as int);
    lemma_expand(c.x as int, b.x as int, p.y as int, b.y as int);
    lemma_expand(p.x as int, c.x as int, a.y as int, c.y as int);
    lemma_expand(a.x as int, c.x as int, p.y as int, c.y as int);
    lemma_expand(c.x as int, a.x as int, b.y as int, a.y as int);
    lemma_expand(b.x as int, a.x as int, c.y as int, a.y as int);
}

/// Rotating the vertices of a triangle keeps its area.
pub proof fn lemma_area_rotates(a: Point2, b: Point2, c: Point2)
    ensures
        spec_signed_area(b, c, a) == spec_signed_area(a, b, c),
        spec_signed_area(c, a, b) == spec_signed_area(a, b, c),
{
    lemma_expand(c.x as int, a.x as int, b.y as int, a.y as int);
    lemma_expand(b.x as int, a.x as int, c.y as int, a.y as int);
    lemma_expand(a.x as int, b.x as int, c.y as int, b.y as int);
    lemma_expand(c.x as int, b.x as int, a.y as int, b.y as int);
    lemma_expand(b.x as int, c.x as int, a.y as int, c.y as int);
    lemma_expand(a.x as int, c.x as int, b.y as int, c.y as int);
}

/// Inside a front-facing triangle the test succeeds and the weights are proper
/// fractions that add up to one. "Strictly inside" is meant as it is defined: `p` is
/// a combination of the vertices with positive coefficients `la`, `lb`, `lc`. The
/// weights are then in the proportion of those coefficients.
pub proof fn lemma_inside_weights(
    a: Point2,
    b: Point2,
    c: Point2,
    p: Point2,
    la: int,
    lb: int,
    lc: int,
)
    requires
        spec_signed_area(a, b, c) > 0,
        la > 0,
        lb > 0,
        lc > 0,
        (la + lb + lc) * p.x == la * a.x + lb * b.x + lc * c.x,
        (la + lb + lc) * p.y == la * a.y + lb * b.y + lc * c.y,
    ensures
        spec_inside(a, b, c, p),
        spec_barycentric(a, b, c, p).is_convex(),
        spec_barycentric(a, b, c, p).x > 0,
        spec_barycentric(a, b, c, p).y > 0,
        spec_barycentric(a, b, c, p).z > 0,
        spec_barycentric(a, b, c, p).spec_total() == spec_signed_area(a, b, c),
        (la + lb + lc) * spec_barycentric(a, b, c, p).x == la * spec_signed_area(a, b, c),
        (la + lb + lc) * spec_barycentric(a, b, c, p).y == lb * spec_signed_area(a, b, c),
        (la + lb + lc) * spec_barycentric(a, b, c, p).z == lc * spec_signed_area(a, b, c),
{
    let n = la + lb + lc;
    let t = spec_signed_area(a, b, c);
    lemma_area_bounds(b, c, p);
    lemma_area_bounds(c, a, p);
    lemma_area_bounds(a, b, p);
    lemma_areas_sum(a, b, c, p);
    lemma_area_rotates(a, b, c);
    assert(n * p.x == lb * b.x + lc * c.x + la * a.x);
    assert(n * p.y == lb * b.y + lc * c.y + la * a.y);
    assert(n == lb + lc + la);
    lemma_scaled_area(b, c, a, p, lb, lc, la);
    assert(n * p.x == lc * c.x + la * a.x + lb * b.x);
    assert(n * p.y == lc * c.y + la * a.y + lb * b.y);
    assert(n == lc + la + lb);
    lemma_scaled_area(c, a, b, p, lc, la, lb);
    lemma_scaled_area(a, b, c, p, la, lb, lc);
    let wx = spec_signed_area(b, c, p);
    let wy = spec_signed_area(c, a, p);
    let wz = spec_signed_area(a, b, p);
    assert(n * wx == la * t);
    assert(n * wy == lb * t);
    assert(n * wz == lc * t);
    lemma_positive_quotient(n, wx, la, t);
    lemma_positive_quotient(n, wy, lb, t);
    lemma_positive_quotient(n, wz, lc, t);
}

/// Where `p` combines `u`, `v`, `w` with the coefficients `lu`, `lv`, `lw`, the area
/// that it spans with the edge from `u` to `v` is the share `lw` of the whole.
proof fn lemma_scaled_area(u: Point2, v: Point2, w: Point2, p: Point2, lu: int, lv: int, lw: int)
    requires
        (lu + lv + lw) * p.x == lu * u.x + lv * v.x + lw * w.x,
        (lu + lv + lw) * p.y == lu * u.y + lv * v.y + lw * w.y,
    ensures
        (lu + lv + lw) * spec_signed_area(u, v, p) == lw * spec_signed_area(u, v, w),
{
    let n = lu + lv + lw;
    let ax = v.x - u.x;
    let bx = w.x - u.x;
    let ay = v.y - u.y;
    let by = w.y - u.y;
    let px = p.x - u.x;
    let py = p.y - u.y;
    lemma_times_difference(n, p.x as int, u.x as int);
    lemma_times_difference(lv, v.x as int, u.x as int);
    lemma_times_difference(lw, w.x as int, u.x as int);
    lemma_common_factor(lu, lv, lw, u.x as int);
    assert(n * px == lv * ax + lw * bx);
    lemma_times_difference(n, p.y as int, u.y as int);
    lemma_times_difference(lv, v.y as int, u.y as int);
    lemma_times_difference(lw, w.y as int, u.y as int);
    lemma_common_factor(lu, lv, lw, u.y as int);
    assert(n * py == lv * ay + lw * by);
    lemma_share(n, lv, lw, ax, bx, ay, by, px, py);
}

proof fn lemma_share(n: int, lv: int, lw: int, ax: int, bx: int, ay: int, by: int, px: int, py: int)
    requires
        n * px == lv * ax + lw * bx,
        n * py == lv * ay + lw * by,
    ensures
        n * (px * ay - ax * py) == lw * (bx * ay - ax * by),
{
    assert(n * (px * ay) == (n * px) * ay) by (nonlinear_arith);
    assert((lv * ax + lw * bx) * ay == lv * (ax * ay) + lw * (bx * ay)) by (nonlinear_arith);
    assert(n * (ax * py) == ax * (n * py)) by (nonlinear_arith);
    assert(ax * (lv * ay + lw * by) == lv * (ax * ay) + lw * (ax * by)) by (nonlinear_arith);
    assert(n * (px * ay - ax * py) == n * (px * ay) - n * (ax * py)) by (nonlinear_arith);
    assert(lw * (bx * ay - ax * by) == lw * (bx * ay) - lw * (ax * by)) by (nonlinear_arith);
}

proof fn lemma_positive_quotient(n: int, w: int, l: int, t: int)
    by (nonlinear_arith)
    requires
        n > 0,
        l > 0,
        t > 0,
        n * w == l * t,
    ensures
        w > 0,
{
}

/// At the vertices themselves the weights are the unit vectors, scaled by the
/// common denominator.
pub proof fn lemma_weights_at_vertices(a: Point2, b: Point2, c: Point2)
    ensures
        spec_barycentric(a, b, c, a).x == spec_signed_area(a, b, c),
        spec_barycentric(a, b, c, a).y == 0,
        spec_barycentric(a, b, c, a).z == 0,
        spec_barycentric(a, b, c, b).x == 0,
        spec_barycentric(a, b, c, b).y == spec_signed_area(a, b, c),
        spec_barycentric(a, b, c, b).z == 0,
        spec_barycentric(a, b, c, c).x == 0,
        spec_barycentric(a, b, c, c).y == 0,
        spec_barycentric(a, b, c, c).z == spec_signed_area(a, b, c),
{
    lemma_area_bounds(a, b, c);
    lemma_area_bounds(b, c, a);
    lemma_area_bounds(c, a, b);
    lemma_area_rotates(a, b, c);
    assert(spec_signed_area(c, a, a) == 0) by (nonlinear_arith);
    assert(spec_signed_area(a, b, a) == 0) by (nonlinear_arith);
    assert(spec_signed_area(b, c, b) == 0) by (nonlinear_arith);
    assert(spec_signed_area(a, b, b) == 0) by (nonlinear_arith);
    assert(spec_signed_area(b, c, c) == 0) by (nonlinear_arith);
    assert(spec_signed_area(c, a, c) == 0) by (nonlinear_arith);
}

/// Cross product of `b - a` with `p - a`: the doubled area of `a`, `b`, `p` with the
/// opposite sign, or that of `b`, `a`, `p`.
pub fn edge_cross(a: &Point2, b: &Point2, p: &Point2) -> (r: i128)
    ensures
        r == spec_edge_cross(*a, *b, *p),
        r == -spec_signed_area(*a, *b, *p),
        r == spec_signed_area(*b, *a, *p),
        -WEIGHT_LIMIT <= r <= WEIGHT_LIMIT,
{
    let ab: Vector2 = b.offset_from(a);
    let ap: Vector2 = p.offset_from(a);
    proof {
        lemma_area_is_edge_cross(*a, *b, *p);
        lemma_area_is_edge_cross(*b, *a, *p);
        lemma_area_bounds(*a, *b, *p);
        lemma_product_bound(ab.x as int, ap.y as int, 0x1_0000_0000, 0x1_0000_0000);
        lemma_product_bound(ap.x as int, ab.y as int, 0x1_0000_0000, 0x1_0000_0000);
    }
    mul_wide(ab.x, ap.y) - mul_wide(ap.x, ab.y)
}

pub open spec fn spec_perpendicular(v: Vector2) -> Vector2 {
    Vector2 { x: v.y, y: (-v.x) as i64 }
}

/// The vector turned by a quarter: `(y, -x)`.
pub fn perpendicular_vector(v: &Vector2) -> (r: Vector2)
    requires
        v.x > i64::MIN,
    ensures
        r == spec_perpendicular(*v),
{
    Vector2 { x: v.y, y: -v.x }
}

/// Twice the signed area of the triangle `a`, `b`, `c`: the product of `c - a` with
/// the perpendicular of `b - a`.
pub fn signed_area(a: &Point2, b: &Point2, c: &Point2) -> (r: i128)
    ensures
        r == spec_signed_area(*a, *b, *c),
        -WEIGHT_LIMIT <= r <= WEIGHT_LIMIT,
{
    let ac: Vector2 = c.offset_from(a);
    let ab: Vector2 = b.offset_from(a);
    let ab_perp: Vector2 = perpendicular_vector(&ab);
    proof {
        lemma_area_bounds(*a, *b, *c);
        lemma_product_bound(ac.x as int, ab_perp.x as int, 0x1_0000_0000, 0x1_0000_0000);
        lemma_product_bound(ac.y as int, ab_perp.y as int, 0x1_0000_0000, 0x1_0000_0000);
        assert(ac.y * ab_perp.y == -(ab.x * ac.y)) by (nonlinear_arith)
            requires
                ab_perp.y == -ab.x,
        ;
    }
    mul_wide(ac.x, ab_perp.x) + mul_wide(ac.y, ab_perp.y)
}

/// A vertex: a homogeneous position and the attributes that shading may need.
///
/// What the position means depends on the stage. Before the perspective divide `z`
/// is the view-space depth and `w` the divisor; after the viewport mapping `x` and
/// `y` are screen coordinates, with the origin in the top-left corner.
#[derive(Clone, Copy, Debug)]
pub struct Vertex {
    pub position: Point4,
    pub normal: Option<Vector3>,
    pub color: Option<Color>,
    pub uv: Option<Point2>,
}

/// One coordinate divided by the homogeneous divisor.
pub open spec fn spec_divided(value: i32, w: i32) -> i32 {
    saturated(div_toward_zero(value as int * ONE as int, w as int)) as i32
}

/// The perspective divide. A zero divisor leaves the position as it is.
pub open spec fn spec_perspective_divide(p: Point4) -> Point4 {
    if p.w == 0 {
        p
    } else {
        Point4 {
            x: spec_divided(p.x, p.w),
            y: spec_divided(p.y, p.w),
            z: spec_divided(p.z, p.w),
            w: ONE,
        }
    }
}

/// The viewport mapping: `x` from [-1, 1] to [0, width], `y` from [1, -1] to
/// [0, height], so that the top of the picture comes first.
pub open spec fn spec_viewport(p: Point4, size: (u32, u32)) -> Point4 {
    Point4 {
        x: saturated(div_toward_zero((p.x as int + ONE as int) * size.0 as int, 2)) as i32,
        y: saturated(div_toward_zero((ONE as int - p.y as int) * size.1 as int, 2)) as i32,
        z: p.z,
        w: p.w,
    }
}

fn divided(value: i32, w: i32) -> (r: i32)
    requires
        w != 0,
    ensures
        r == spec_divided(value, w),
{
    let wide: i128 = mul_wide(value as i64, ONE as i64);
    proof {
        lemma_product_bound(value as int, ONE as int, 0x8000_0000, 0x1_0000);
    }
    saturate_i32(div_i128(wide, w as i128))
}

impl Vertex {
    /// A vertex at `position`, with the divisor one and no attributes.
    pub fn new(position: &Point3) -> (v: Self)
        ensures
            v.position == (Point4 { x: position.x, y: position.y, z: position.z, w: ONE }),
            v.normal is None,
            v.color is None,
            v.uv is None,
    {
        Vertex {
            position: Point4 { x: position.x, y: position.y, z: position.z, w: ONE },
            normal: None,
            color: None,
            uv: None,
        }
    }

    /// The same vertex with a normal.
    pub fn with_normal(self, normal: Vector3) -> (v: Self)
        ensures
            v.position == self.position,
            v.normal == Some(normal),
            v.color == self.color,
            v.uv == self.uv,
    {
        let mut v = self;
        v.normal = Some(normal);
        v
    }

    /// The same vertex with a colour.
    pub fn with_color(self, color: Color) -> (v: Self)
        ensures
            v.position == self.position,
            v.normal == self.normal,
            v.color == Some(color),
            v.uv == self.uv,
    {
        let mut v = self;
        v.color = Some(color);
        v
    }

    /// The same vertex with a texture coordinate.
    pub fn with_uv(self, uv: Point2) -> (v: Self)
        ensures
            v.position == self.position,
            v.normal == self.normal,
            v.color == self.color,
            v.uv == Some(uv),
    {
        let mut v = self;
        v.uv = Some(uv);
        v
    }

    /// The vertex with another position and the same attributes.
    pub open spec fn moved_to(&self, position: Point4) -> Vertex {
        Vertex { position, normal: self.normal, color: self.color, uv: self.uv }
    }

    pub open spec fn spec_clip_to_ndc(&self) -> Vertex {
        self.moved_to(spec_perspective_divide(self.position))
    }

    pub open spec fn spec_ndc_to_screen(&self, size: (u32, u32)) -> Vertex {
        self.moved_to(spec_viewport(self.position, size))
    }

    /// From clip space to normalized device coordinates: every component is divided
    /// by `w`, unless `w` is zero.
    pub fn clip_to_ndc(&self) -> (v: Vertex)
        ensures
            v == self.spec_clip_to_ndc(),
    {
        let mut v = *self;
        v.clip_to_ndc_mut();
        v
    }

    /// As [`Vertex::clip_to_ndc`], in place.
    pub fn clip_to_ndc_mut(&mut self) -> (r: &mut Self)
        ensures
            *r == old(self).spec_clip_to_ndc(),
            *final(self) == *final(r),
    {
        let p: Point4 = self.position;
        if p.w != 0 {
            self.position = Point4 {
                x: divided(p.x, p.w),
                y: divided(p.y, p.w),
                z: divided(p.z, p.w),
                w: ONE,
            };
        }
        self
    }

    /// From normalized device coordinates to the pixels of a target of `size`
    /// (width, height).
    pub fn ndc_to_screen(&self, size: (u32, u32)) -> (v: Vertex)
        ensures
            v == self.spec_ndc_to_screen(size),
    {
        let mut v = *self;
        v.ndc_to_screen_mut(size);
        v
    }

    /// As [`Vertex::ndc_to_screen`], in place.
    pub fn ndc_to_screen_mut(&mut self, size: (u32, u32)) -> (r: &mut Self)
        ensures
            *r == old(self).spec_ndc_to_screen(size),
            *final(self) == *final(r),
    {
        let p: Point4 = self.position;
        let right: i128 = mul_wide(p.x as i64 + ONE as i64, size.0 as i64);
        let down: i128 = mul_wide(ONE as i64 - p.y as i64, size.1 as i64);
        proof {
            lemma_product_bound(p.x as int + ONE as int, size.0 as int, 0x1_0000_0000, 0x1_0000_0000);
            lemma_product_bound(ONE as int - p.y as int, size.1 as int, 0x1_0000_0000, 0x1_0000_0000);
        }
        self.position = Point4 {
            x: saturate_i32(div_i128(right, 2)),
            y: saturate_i32(div_i128(down, 2)),
            z: p.z,
            w: p.w,
        };
        self
    }

    /// The position on the screen.
    pub open spec fn spec_point(&self) -> Point2 {
        self.position.spec_xy()
    }
}

impl Default for Vertex {
    /// The vertex at the origin, with a zero divisor and no attributes.
    fn default() -> (v: Self)
        ensures
            v.position == (Point4 { x: 0, y: 0, z: 0, w: 0 }),
            v.normal is None,
            v.color is None,
            v.uv is None,
    {
        Vertex { position: Point4 { x: 0, y: 0, z: 0, w: 0 }, normal: None, color: None, uv: None }
    }
}

/// The weights of `p` in the triangle made of the first three vertices.
pub open spec fn spec_triangle_barycentric(triangle: Seq<Vertex>, p: Point2) -> Weights {
    spec_barycentric(triangle[0].spec_point(), triangle[1].spec_point(), triangle[2].spec_point(), p)
}

/// Whether `p` passes the inside test of the triangle made of the first three
/// vertices.
pub open spec fn spec_point_in_triangle(triangle: Seq<Vertex>, p: Point2) -> bool {
    spec_inside(triangle[0].spec_point(), triangle[1].spec_point(), triangle[2].spec_point(), p)
}

/// The barycentric weights of `p` with respect to the screen positions of the
/// triangle's vertices.
pub fn triangle_barycentric(triangle: &[Vertex], p: &Point2) -> (weights: Weights)
    requires
        triangle@.len() >= 3,
    ensures
        weights == spec_triangle_barycentric(triangle@, *p),
        weights.wf(),
{
    let a: Point2 = triangle[0].position.xy();
    let b: Point2 = triangle[1].position.xy();
    let c: Point2 = triangle[2].position.xy();
    let area_abp: i128 = signed_area(&a, &b, p);
    let area_bcp: i128 = signed_area(&b, &c, p);
    let area_cap: i128 = signed_area(&c, &a, p);
    Weights { x: area_bcp, y: area_cap, z: area_abp }
}

/// The inside test together with the barycentric weights. The point is inside when
/// none of the three sub-areas is negative, which assumes that all triangles wind
/// the same way.
pub fn point_in_triangle(triangle: &[Vertex], p: &Point2) -> (r: (bool, Weights))
    requires
        triangle@.len() >= 3,
    ensures
        r.0 == spec_point_in_triangle(triangle@, *p),
        r.1 == spec_triangle_barycentric(triangle@, *p),
        r.1.wf(),
        r.0 ==> r.1.is_convex(),
{
    let weights: Weights = triangle_barycentric(triangle, p);
    proof {
        let a = triangle@[0].spec_point();
        let b = triangle@[1].spec_point();
        let c = triangle@[2].spec_point();
        lemma_area_bounds(a, b, *p);
        lemma_area_bounds(b, c, *p);
        lemma_area_bounds(c, a, *p);
    }
    let inside: bool = weights.x >= 0 && weights.y >= 0 && weights.z >= 0;
    (inside, weights)
}

/// One screen coordinate of a vertex: `y` if `vertical`, else `x`.
pub open spec fn coordinate(v: Vertex, vertical: bool) -> int {
    if vertical {
        v.position.y as int
    } else {
        v.position.x as int
    }
}

/// The greatest (if `upper`) or least coordinate among the points, which are not
/// empty.
pub open spec fn extreme(points: Seq<Vertex>, vertical: bool, upper: bool) -> int
    decreases points.len(),
{
    if points.len() <= 1 {
        coordinate(points[0], vertical)
    } else {
        let rest = extreme(points.drop_last(), vertical, upper);
        let here = coordinate(points.last(), vertical);
        if (here > rest) == upper {
            here
        } else {
            rest
        }
    }
}

/// No point lies outside the extremes.
pub proof fn lemma_extreme_bounds(points: Seq<Vertex>, vertical: bool, i: int)
    requires
        0 <= i < points.len(),
    ensures
        extreme(points, vertical, false) <= coordinate(points[i], vertical) <= extreme(
            points,
            vertical,
            true,
        ),
    decreases points.len(),
{
    if points.len() > 1 && i < points.len() - 1 {
        lemma_extreme_bounds(points.drop_last(), vertical, i);
    }
}

/// An extreme of some points is the coordinate of one of them.
pub proof fn lemma_extreme_is_reached(points: Seq<Vertex>, vertical: bool, upper: bool) -> (i: int)
    requires
        points.len() > 0,
    ensures
        0 <= i < points.len(),
        extreme(points, vertical, upper) == coordinate(points[i], vertical),
        i32::MIN <= extreme(points, vertical, upper) <= i32::MAX,
    decreases points.len(),
{
    if points.len() <= 1 {
        0
    } else {
        let rest = lemma_extreme_is_reached(points.drop_last(), vertical, upper);
        if extreme(points, vertical, upper) == coordinate(points.last(), vertical) {
            points.len() - 1
        } else {
            rest
        }
    }
}

/// The pixel that a non-negative coordinate falls into; a negative one counts as 0.
pub open spec fn spec_pixel(value: i32) -> u32 {
    if value < 0 {
        0
    } else {
        (value as int / ONE as int) as u32
    }
}

/// A coordinate as a pixel number.
pub fn pixel(value: i32) -> (r: u32)
    ensures
        r == spec_pixel(value),
        r < 0x8000,
{
    if value < 0 {
        0
    } else {
        let unsigned: u32 = value as u32;
        assert(unsigned / 65536 < 0x8000) by (bit_vector)
            requires
                unsigned < 0x8000_0000,
        ;
        unsigned / 65536
    }
}

/// The screen-space bounding box of a set of vertices, cut to the target.
#[derive(Clone, Copy, Debug)]
pub struct Bounds {
    pub min_x: i32,
    pub min_y: i32,
    pub max_x: i32,
    pub max_y: i32,
}

/// The lesser of two numbers.
pub open spec fn lesser(a: int, b: int) -> int {
    if a < b {
        a
    } else {
        b
    }
}

/// The greater of two numbers.
pub open spec fn greater(a: int, b: int) -> int {
    if a > b {
        a
    } else {
        b
    }
}

/// The bounding box of `points` on a screen of `screen` (width, height) pixels.
pub open spec fn spec_bounds(points: Seq<Vertex>, screen: (u32, u32)) -> Bounds {
    if points.len() == 0 {
        Bounds { min_x: 0, min_y: 0, max_x: 0, max_y: 0 }
    } else {
        Bounds {
            min_x: greater(extreme(points, false, false), 0) as i32,
            min_y: greater(extreme(points, true, false), 0) as i32,
            max_x: lesser(extreme(points, false, true), screen.0 as int * ONE as int) as i32,
            max_y: lesser(extreme(points, true, true), screen.1 as int * ONE as int) as i32,
        }
    }
}

impl Bounds {
    /// The box around the screen positions of `points`: its lower corner is kept at
    /// or above zero, its upper corner at or below the screen's size. No points give
    /// the empty box at the origin.
    pub fn new(points: &[Vertex], screen: (u32, u32)) -> (bounds: Self)
        ensures
            bounds == spec_bounds(points@, screen),
    {
        if points.len() == 0 {
            return Bounds { min_x: 0, min_y: 0, max_x: 0, max_y: 0 };
        }
        let first: Vertex = points[0];
        let mut min_x: i32 = first.position.x;
        let mut min_y: i32 = first.position.y;
        let mut max_x: i32 = first.position.x;
        let mut max_y: i32 = first.position.y;
        let mut i: usize = 1;
        assert(points@.take(1).len() == 1);
        while i < points.len()
            invariant
                1 <= i <= points.len(),
                min_x == extreme(points@.take(i as int), false, false),
                min_y == extreme(points@.take(i as int), true, false),
                max_x == extreme(points@.take(i as int), false, true),
                max_y == extreme(points@.take(i as int), true, true),
            decreases points.len() - i,
        {
            let point: Vertex = points[i];
            proof {
                let next = points@.take(i as int + 1);
                assert(next.drop_last() == points@.take(i as int));
                assert(next.last() == point);
            }
            if point.position.x < min_x {
                min_x = point.position.x;
            }
            if point.position.y < min_y {
                min_y = point.position.y;
            }
            if point.position.x > max_x {
                max_x = point.position.x;
            }
            if point.position.y > max_y {
                max_y = point.position.y;
            }
            i = i + 1;
        }
        assert(points@.take(points.len() as int) == points@);
        let width: i128 = mul_wide(screen.0 as i64, ONE as i64);
        let height: i128 = mul_wide(screen.1 as i64, ONE as i64);
        Bounds {
            min_x: if min_x < 0 { 0 } else { min_x },
            min_y: if min_y < 0 { 0 } else { min_y },
            max_x: if (max_x as i128) < width { max_x } else { width as i32 },
            max_y: if (max_y as i128) < height { max_y } else { height as i32 },
        }
    }

    /// The pixel columns to scan, first and last included.
    pub fn x_range(&self) -> (r: RangeInclusive<u32>)
        ensures
            r@.start == spec_pixel(self.min_x),
            r@.end == spec_pixel(self.max_x),
            !r@.exhausted,
    {
        RangeInclusive::new(pixel(self.min_x), pixel(self.max_x))
    }

    /// The pixel rows to scan, first and last included.
    pub fn y_range(&self) -> (r: RangeInclusive<u32>)
        ensures
            r@.start == spec_pixel(self.min_y),
            r@.end == spec_pixel(self.max_y),
            !r@.exhausted,
    {
        RangeInclusive::new(pixel(self.min_y), pixel(self.max_y))
    }

    /// Whether the pixel lies in the columns and rows that are scanned.
    pub open spec fn covers(&self, x: int, y: int) -> bool {
        &&& spec_pixel(self.min_x) <= x <= spec_pixel(self.max_x)
        &&& spec_pixel(self.min_y) <= y <= spec_pixel(self.max_y)
    }
}

/// An ordered list of vertices, three to a triangle.
#[derive(Clone, Debug)]
pub struct Model {
    pub vertices: Vec<Vertex>,
}

impl Model {
    /// A model that holds a copy of `vertices`.
    pub fn from_vertices(vertices: &[Vertex]) -> (model: Model)
        ensures
            model.vertices@ == vertices@,
    {
        let mut copy: Vec<Vertex> = Vec::with_capacity(vertices.len());
        let mut i: usize = 0;
        while i < vertices.len()
            invariant
                i <= vertices.len(),
                copy@ == vertices@.take(i as int),
            decreases vertices.len() - i,
        {
            copy.push(vertices[i]);
            i = i + 1;
        }
        Model { vertices: copy }
    }
}

} // verus!

//! Materials: how a triangle's colour at a point follows from its vertices.

use vstd::prelude::*;
use crate::color::{blend, spec_blend, white, Color};
use crate::fixed::{
    abs_i128, div_i128, div_toward_zero, lemma_at_least_once, lemma_common_factor,
    lemma_product_bound,
    lemma_quotient_is_between, lemma_share_is_between, magnitude, mul_wide, saturate_i32,
    saturated, spec_dot, spec_normalize, Point2, Vector3, ONE,
};
use crate::geometry::{lemma_reduced_keeps_signs, Vertex, Weights};
use crate::texture::{spec_sample, Texture};

verus! {

/// The least share of light that a lit surface receives: 0.01.
pub const AMBIENT: i32 = 655;

/// An interpolated reciprocal depth is taken as zero where its magnitude is at most
/// a millionth. In fixed point that is one part in this many: a million times
/// [`ONE`].
pub const EPSILON_SCALE: u128 = 65_536_000_000;

/// The numerator of the depth: the sum of the weights times the product of the
/// three depths.
pub open spec fn depth_numerator(w: Weights, z0: int, z1: int, z2: int) -> int {
    w.spec_total() * (z0 * (z1 * z2))
}

/// The denominator of the depth: each weight times the product of the depths of the
/// two other vertices.
pub open spec fn depth_denominator(w: Weights, z0: int, z1: int, z2: int) -> int {
    w.x * (z1 * z2) + w.y * (z0 * z2) + w.z * (z0 * z1)
}

/// The perspective-correct depth at a point of a triangle whose vertices have the
/// depths `z0`, `z1`, `z2`: the reciprocal of the interpolated reciprocal depth,
///
/// ```text
/// (x + y + z) / (x / z0 + y / z1 + z / z2)
/// ```
///
/// taken as one quotient of integers, with the fractions brought to the common
/// denominator `z0 * z1 * z2`, and rounded toward zero once. The weights enter at a
/// precision of 30 bits. A depth beyond what a coordinate holds is limited to the
/// greatest or least coordinate. Where the interpolated reciprocal is at most a
/// millionth in magnitude, and where no quotient can be formed, the depth is 0, the
/// nearest there is; a vertex at depth zero makes the depth 0 too.
pub open spec fn spec_depth(weights: Weights, z0: int, z1: int, z2: int) -> int {
    let w = weights.spec_reduced();
    let numerator = depth_numerator(w, z0, z1, z2);
    let denominator = depth_denominator(w, z0, z1, z2);
    if magnitude(denominator) * EPSILON_SCALE as int <= magnitude(numerator) {
        0
    } else {
        saturated(div_toward_zero(numerator, denominator))
    }
}

/// A multiple of a number, divided by the number.
proof fn lemma_multiple_divides(d: int, z: int)
    requires
        d != 0,
    ensures
        div_toward_zero(d * z, d) == z,
        magnitude(d * z) == magnitude(d) * magnitude(z),
{
    let b = magnitude(d);
    let m = magnitude(z);
    assert(magnitude(d * z) == b * m) by (nonlinear_arith)
        requires
            b == magnitude(d),
            m == magnitude(z),
    ;
    assert((b * m) / b == m) by (nonlinear_arith)
        requires
            b > 0,
            m >= 0,
    ;
    assert(z > 0 ==> ((d * z >= 0) == (d > 0))) by (nonlinear_arith)
        requires
            d != 0,
    ;
    assert(z < 0 ==> ((d * z >= 0) != (d > 0))) by (nonlinear_arith)
        requires
            d != 0,
    ;
    assert(z == 0 ==> d * z == 0) by (nonlinear_arith);
}

/// A quotient of a multiple is not held for zero, as long as the factor is a
/// coordinate.
proof fn lemma_multiple_is_kept(d: int, z: int)
    requires
        d != 0,
        i32::MIN <= z <= i32::MAX,
    ensures
        !(magnitude(d) * EPSILON_SCALE as int <= magnitude(d * z)),
        saturated(div_toward_zero(d * z, d)) == z,
{
    lemma_multiple_divides(d, z);
    let b = magnitude(d);
    let m = magnitude(z);
    assert(b * 65_536_000_000 > b * m) by (nonlinear_arith)
        requires
            b > 0,
            0 <= m < 65_536_000_000,
    ;
}

/// Products may be regrouped.
proof fn lemma_regroup(a: int, b: int, c: int)
    by (nonlinear_arith)
    ensures
        a * (b * c) == (a * b) * c,
        a * (b * c) == b * (a * c),
        a * (b * c) == c * (a * b),
        a * (b * c) == (a * c) * b,
{
}

/// A triangle whose vertices all lie at one depth has that depth everywhere.
pub proof fn lemma_depth_of_equal_depths(weights: Weights, z: int)
    requires
        weights.is_convex(),
        weights.spec_total() > 0,
        i32::MIN <= z <= i32::MAX,
    ensures
        spec_depth(weights, z, z, z) == z,
{
    lemma_reduced_keeps_signs(weights);
    let w = weights.spec_reduced();
    let square = z * z;
    let d = depth_denominator(w, z, z, z);
    let n = depth_numerator(w, z, z, z);
    lemma_common_factor(w.x as int, w.y as int, w.z as int, square);
    assert(d == w.spec_total() * square);
    lemma_regroup(w.spec_total(), z, square);
    assert(n == (w.spec_total() * square) * z) by {
        lemma_regroup(z, w.spec_total(), square);
    }
    if z == 0 {
        assert(square == 0);
        assert(d == 0) by (nonlinear_arith)
            requires
                d == w.spec_total() * square,
                square == 0,
        ;
        assert(n == 0) by (nonlinear_arith)
            requires
                n == (w.spec_total() * square) * z,
                z == 0,
        ;
    } else {
        assert(d != 0) by (nonlinear_arith)
            requires
                d == w.spec_total() * square,
                square == z * z,
                z != 0,
                w.spec_total() > 0,
        ;
        lemma_multiple_is_kept(d, z);
    }
}

/// At a vertex the depth is the depth of that vertex, as long as the two other
/// vertices do not lie at depth zero.
pub proof fn lemma_depth_at_vertices(total: i128, z0: int, z1: int, z2: int)
    requires
        0 < total <= crate::geometry::WEIGHT_LIMIT,
        i32::MIN <= z0 <= i32::MAX,
        i32::MIN <= z1 <= i32::MAX,
        i32::MIN <= z2 <= i32::MAX,
    ensures
        z1 != 0 && z2 != 0 ==> spec_depth(Weights { x: total, y: 0, z: 0 }, z0, z1, z2) == z0,
        z0 != 0 && z2 != 0 ==> spec_depth(Weights { x: 0, y: total, z: 0 }, z0, z1, z2) == z1,
        z0 != 0 && z1 != 0 ==> spec_depth(Weights { x: 0, y: 0, z: total }, z0, z1, z2) == z2,
{
    if z1 != 0 && z2 != 0 {
        let weights = Weights { x: total, y: 0, z: 0 };
        lemma_reduced_keeps_signs(weights);
        let w = weights.spec_reduced();
        let d = w.x * (z1 * z2);
        assert(z1 * z2 != 0) by (nonlinear_arith)
            requires
                z1 != 0,
                z2 != 0,
        ;
        assert(d != 0) by (nonlinear_arith)
            requires
                d == w.x * (z1 * z2),
                w.x > 0,
                z1 * z2 != 0,
        ;
        assert(depth_denominator(w, z0, z1, z2) == d);
        lemma_regroup(z0, w.x as int, z1 * z2);
        assert(depth_numerator(w, z0, z1, z2) == d * z0);
        lemma_multiple_is_kept(d, z0);
    }
    if z0 != 0 && z2 != 0 {
        let weights = Weights { x: 0, y: total, z: 0 };
        lemma_reduced_keeps_signs(weights);
        let w = weights.spec_reduced();
        let d = w.y * (z0 * z2);
        assert(z0 * z2 != 0) by (nonlinear_arith)
            requires
                z0 != 0,
                z2 != 0,
        ;
        assert(d != 0) by (nonlinear_arith)
            requires
                d == w.y * (z0 * z2),
                w.y > 0,
                z0 * z2 != 0,
        ;
        assert(depth_denominator(w, z0, z1, z2) == d);
        lemma_regroup(z0, z1, z2);
        lemma_regroup(z1, w.y as int, z0 * z2);
        assert(depth_numerator(w, z0, z1, z2) == d * z1);
        lemma_multiple_is_kept(d, z1);
    }
    if z0 != 0 && z1 != 0 {
        let weights = Weights { x: 0, y: 0, z: total };
        lemma_reduced_keeps_signs(weights);
        let w = weights.spec_reduced();
        let d = w.z * (z0 * z1);
        assert(z0 * z1 != 0) by (nonlinear_arith)
            requires
                z0 != 0,
                z1 != 0,
        ;
        assert(d != 0) by (nonlinear_arith)
            requires
                d == w.z * (z0 * z1),
                w.z > 0,
                z0 * z1 != 0,
        ;
        assert(depth_denominator(w, z0, z1, z2) == d);
        lemma_regroup(z0, z1, z2);
        lemma_regroup(z2, w.z as int, z0 * z1);
        assert(depth_numerator(w, z0, z1, z2) == d * z2);
        lemma_multiple_is_kept(d, z2);
    }
}

/// Inside a triangle in front of the camera the depth lies between the least and
/// the greatest depth of the vertices: for weights none of which is negative and
/// depths that are positive.
pub proof fn lemma_depth_is_between(weights: Weights, z0: int, z1: int, z2: int, low: int, high: int)
    requires
        weights.is_convex(),
        weights.spec_total() > 0,
        0 < low <= z0 <= high,
        low <= z1 <= high,
        low <= z2 <= high,
        high <= i32::MAX,
    ensures
        low <= spec_depth(weights, z0, z1, z2) <= high,
{
    lemma_reduced_keeps_signs(weights);
    let w = weights.spec_reduced();
    let q0 = z1 * z2;
    let q1 = z0 * z2;
    let q2 = z0 * z1;
    assert(q0 >= 1 && q1 >= 1 && q2 >= 1) by (nonlinear_arith)
        requires
            z0 >= 1,
            z1 >= 1,
            z2 >= 1,
            q0 == z1 * z2,
            q1 == z0 * z2,
            q2 == z0 * z1,
    ;
    let a0 = w.x * q0;
    let a1 = w.y * q1;
    let a2 = w.z * q2;
    lemma_at_least_once(w.x as int, q0);
    lemma_at_least_once(w.y as int, q1);
    lemma_at_least_once(w.z as int, q2);
    let d = depth_denominator(w, z0, z1, z2);
    let n = depth_numerator(w, z0, z1, z2);
    let product = z0 * (z1 * z2);
    assert(d == a0 + a1 + a2);
    assert(d > 0);
    lemma_common_factor(w.x as int, w.y as int, w.z as int, product);
    assert(n == w.x * product + w.y * product + w.z * product);
    lemma_regroup(z0, z1, z2);
    lemma_regroup(w.x as int, q0, z0);
    assert(w.x * product == a0 * z0) by (nonlinear_arith)
        requires
            product == z0 * q0,
            a0 == w.x * q0,
    ;
    assert(w.y * product == a1 * z1) by (nonlinear_arith)
        requires
            product == z1 * q1,
            a1 == w.y * q1,
    ;
    assert(w.z * product == a2 * z2) by (nonlinear_arith)
        requires
            product == z2 * q2,
            a2 == w.z * q2,
    ;
    lemma_share_is_between(a0, z0, low, high);
    lemma_share_is_between(a1, z1, low, high);
    lemma_share_is_between(a2, z2, low, high);
    lemma_common_factor(a0, a1, a2, low);
    lemma_common_factor(a0, a1, a2, high);
    assert(low * a0 + low * a1 + low * a2 == low * d);
    assert(high * a0 + high * a1 + high * a2 == high * d);
    assert(low * d <= n <= high * d);
    lemma_quotient_is_between(n, d, low, high);
    assert(n >= 0) by (nonlinear_arith)
        requires
            low * d <= n,
            low > 0,
            d > 0,
    ;
    assert(d * 65_536_000_000 > n) by (nonlinear_arith)
        requires
            n <= high * d,
            high < 65_536_000_000,
            d > 0,
    ;
}

/// The depth at a point of the triangle made of the first three vertices.
pub open spec fn spec_calculate_depths(triangle: Seq<Vertex>, weights: Weights) -> int {
    spec_depth(
        weights,
        triangle[0].position.z as int,
        triangle[1].position.z as int,
        triangle[2].position.z as int,
    )
}

/// The texture coordinate at a point of the triangle, if all three vertices have
/// one.
pub open spec fn spec_calculate_uvs(triangle: Seq<Vertex>, weights: Weights) -> Option<Point2> {
    if triangle[0].uv is Some && triangle[1].uv is Some && triangle[2].uv is Some {
        let uv0 = triangle[0].uv->0;
        let uv1 = triangle[1].uv->0;
        let uv2 = triangle[2].uv->0;
        Some(
            Point2 {
                x: saturated(spec_blend(uv0.x as int, uv1.x as int, uv2.x as int, weights)) as i32,
                y: saturated(spec_blend(uv0.y as int, uv1.y as int, uv2.y as int, weights)) as i32,
            },
        )
    } else {
        None
    }
}

/// The unit normal at a point of the triangle, if all three vertices have a normal.
pub open spec fn spec_calculate_normals(triangle: Seq<Vertex>, weights: Weights) -> Option<
    Vector3,
> {
    if triangle[0].normal is Some && triangle[1].normal is Some && triangle[2].normal is Some {
        let n0 = triangle[0].normal->0;
        let n1 = triangle[1].normal->0;
        let n2 = triangle[2].normal->0;
        Some(
            spec_normalize(
                Vector3 {
                    x: saturated(spec_blend(n0.x as int, n1.x as int, n2.x as int, weights)) as i32,
                    y: saturated(spec_blend(n0.y as int, n1.y as int, n2.y as int, weights)) as i32,
                    z: saturated(spec_blend(n0.z as int, n1.z as int, n2.z as int, weights)) as i32,
                },
            ),
        )
    } else {
        None
    }
}

/// The share of light that a surface with the unit normal `normal` receives from the
/// direction `light_dir`: their dot product, and never less than [`AMBIENT`].
pub open spec fn spec_intensity(normal: Vector3, light_dir: Vector3) -> i32 {
    let direct = saturated(div_toward_zero(spec_dot(normal, light_dir), ONE as int));
    if direct < AMBIENT {
        AMBIENT
    } else {
        direct as i32
    }
}

/// A colour under the light that reaches the triangle at a point; unchanged where
/// the vertices have no normals.
pub open spec fn spec_lit(color: Color, light_dir: Vector3, triangle: Seq<Vertex>, weights: Weights) -> Color {
    match spec_calculate_normals(triangle, weights) {
        Some(normal) => color.spec_scale(spec_intensity(normal, light_dir)),
        None => color,
    }
}

/// The colour of a texture at a coordinate; white where the texture has none.
pub open spec fn spec_texel_or_white(texture: Texture, uv: Point2) -> Color {
    match spec_sample(texture.texture, uv) {
        Some(color) => color,
        None => white(),
    }
}

/// Whether a product stays within a bound can be told by a division.
proof fn lemma_scaled_comparison(a: int, n: int, c: int)
    by (nonlinear_arith)
    requires
        a >= 0,
        n >= 0,
        c > 0,
    ensures
        (a * c <= n) == (a <= n / c),
{
}

/// The perspective-correct depth at a point of a triangle.
pub fn calculate_depths(triangle: &[Vertex], weights: &Weights) -> (depth: i32)
    requires
        triangle@.len() >= 3,
        weights.wf(),
    ensures
        depth == spec_calculate_depths(triangle@, *weights),
{
    let z0: i32 = triangle[0].position.z;
    let z1: i32 = triangle[1].position.z;
    let z2: i32 = triangle[2].position.z;
    let w: Weights = weights.reduced();
    let q0: i128 = mul_wide(z1 as i64, z2 as i64);
    let q1: i128 = mul_wide(z0 as i64, z2 as i64);
    let q2: i128 = mul_wide(z0 as i64, z1 as i64);
    proof {
        lemma_product_bound(z1 as int, z2 as int, 0x8000_0000, 0x8000_0000);
        lemma_product_bound(z0 as int, z2 as int, 0x8000_0000, 0x8000_0000);
        lemma_product_bound(z0 as int, z1 as int, 0x8000_0000, 0x8000_0000);
        lemma_product_bound(z0 as int, q0 as int, 0x8000_0000, 0x4000_0000_0000_0000);
        lemma_product_bound(w.x as int, q0 as int, 0x4000_0000, 0x4000_0000_0000_0000);
        lemma_product_bound(w.y as int, q1 as int, 0x4000_0000, 0x4000_0000_0000_0000);
        lemma_product_bound(w.z as int, q2 as int, 0x4000_0000, 0x4000_0000_0000_0000);
    }
    let product: i128 = z0 as i128 * q0;
    let total: i128 = w.x + w.y + w.z;
    proof {
        lemma_product_bound(
            total as int,
            product as int,
            0xC000_0000,
            0x2000_0000_0000_0000_0000_0000,
        );
    }
    let numerator: i128 = total * product;
    let denominator: i128 = w.x * q0 + w.y * q1 + w.z * q2;
    assert(numerator == depth_numerator(w, z0 as int, z1 as int, z2 as int));
    assert(denominator == depth_denominator(w, z0 as int, z1 as int, z2 as int));
    let numerator_size: u128 = abs_i128(numerator);
    let denominator_size: u128 = abs_i128(denominator);
    proof {
        lemma_scaled_comparison(
            denominator_size as int,
            numerator_size as int,
            EPSILON_SCALE as int,
        );
    }
    if denominator_size <= numerator_size / EPSILON_SCALE {
        return 0;
    }
    saturate_i32(div_i128(numerator, denominator))
}

fn blended_coordinate(v0: i32, v1: i32, v2: i32, weights: &Weights) -> (r: i32)
    requires
        weights.wf(),
    ensures
        r == saturated(spec_blend(v0 as int, v1 as int, v2 as int, *weights)),
{
    saturate_i32(blend(v0, v1, v2, weights))
}

/// The texture coordinate at a point of a triangle, if all three vertices have one.
pub fn calculate_uvs(triangle: &[Vertex], weights: &Weights) -> (uv: Option<Point2>)
    requires
        triangle@.len() >= 3,
        weights.wf(),
    ensures
        uv == spec_calculate_uvs(triangle@, *weights),
{
    match (triangle[0].uv, triangle[1].uv, triangle[2].uv) {
        (Some(uv0), Some(uv1), Some(uv2)) => Some(
            Point2 {
                x: blended_coordinate(uv0.x, uv1.x, uv2.x, weights),
                y: blended_coordinate(uv0.y, uv1.y, uv2.y, weights),
            },
        ),
        _ => None,
    }
}

/// The unit normal at a point of a triangle, if all three vertices have one.
pub fn calculate_normals(triangle: &[Vertex], weights: &Weights) -> (normal: Option<Vector3>)
    requires
        triangle@.len() >= 3,
        weights.wf(),
    ensures
        normal == spec_calculate_normals(triangle@, *weights),
{
    match (triangle[0].normal, triangle[1].normal, triangle[2].normal) {
        (Some(n0), Some(n1), Some(n2)) => {
            let blended = Vector3 {
                x: blended_coordinate(n0.x, n1.x, n2.x, weights),
                y: blended_coordinate(n0.y, n1.y, n2.y, weights),
                z: blended_coordinate(n0.z, n1.z, n2.z, weights),
            };
            Some(blended.normalize())
        },
        _ => None,
    }
}

/// The share of light that a surface receives.
pub fn intensity(normal: &Vector3, light_dir: &Vector3) -> (share: i32)
    ensures
        share == spec_intensity(*normal, *light_dir),
{
    let direct: i32 = saturate_i32(div_i128(normal.dot(light_dir), ONE as i128));
    if direct < AMBIENT {
        AMBIENT
    } else {
        direct
    }
}

/// The built-in ways to colour a triangle.
#[derive(Debug)]
pub enum Material {
    /// One colour everywhere.
    SolidColor(Color),
    /// The colours of the vertices, blended.
    VertexColors,
    /// The colour of a texture at the blended texture coordinate.
    Textured { texture: Texture },
    /// As `Textured`, under a directional light.
    LitTexture { texture: Texture, light_dir: Vector3 },
    /// One colour, under a directional light.
    LitSolid { color: Color, light_dir: Vector3 },
}

/// Something that gives a triangle its colour at a point.
pub trait Shader: Sync {
    /// The colour that `shade` returns.
    spec fn spec_shade(&self, triangle: Seq<Vertex>, weights: Weights) -> Color;

    /// The colour of the triangle made of the first three vertices at the point with
    /// the given barycentric weights.
    fn shade(&self, triangle: &[Vertex], weights: &Weights) -> (color: Color)
        requires
            triangle@.len() >= 3,
            weights.wf(),
        ensures
            color == self.spec_shade(triangle@, *weights),
    ;
}

/// The colour that a material gives a triangle at a point. A vertex attribute that
/// is missing makes the material fall back: to white for a colour or a texture
/// coordinate, to no lighting for a normal.
pub open spec fn spec_material_color(material: Material, triangle: Seq<Vertex>, weights: Weights) -> Color {
    match material {
        Material::SolidColor(color) => color,
        Material::VertexColors => {
            if triangle[0].color is Some && triangle[1].color is Some && triangle[2].color is Some {
                (triangle[0].color->0).spec_interpolate(
                    &(triangle[1].color->0),
                    &(triangle[2].color->0),
                    &weights,
                )
            } else {
                white()
            }
        },
        Material::Textured { texture } => match spec_calculate_uvs(triangle, weights) {
            Some(uv) => spec_texel_or_white(texture, uv),
            None => white(),
        },
        Material::LitTexture { texture, light_dir } => match spec_calculate_uvs(triangle, weights) {
            Some(uv) => spec_lit(spec_texel_or_white(texture, uv), light_dir, triangle, weights),
            None => spec_lit(white(), light_dir, triangle, weights),
        },
        Material::LitSolid { color, light_dir } => spec_lit(color, light_dir, triangle, weights),
    }
}

fn lit(color: Color, light_dir: &Vector3, triangle: &[Vertex], weights: &Weights) -> (r: Color)
    requires
        triangle@.len() >= 3,
        weights.wf(),
    ensures
        r == spec_lit(color, *light_dir, triangle@, *weights),
{
    match calculate_normals(triangle, weights) {
        Some(normal) => color.scale(intensity(&normal, light_dir)),
        None => color,
    }
}

fn texel_or_white(texture: &Texture, uv: &Point2) -> (r: Color)
    ensures
        r == spec_texel_or_white(*texture, *uv),
{
    match texture.sample(uv) {
        Some(color) => color,
        None => Color::white(),
    }
}

impl Shader for Material {
    open spec fn spec_shade(&self, triangle: Seq<Vertex>, weights: Weights) -> Color {
        spec_material_color(*self, triangle, weights)
    }

    fn shade(&self, triangle: &[Vertex], weights: &Weights) -> (color: Color) {
        match self {
            Material::SolidColor(color) => *color,
            Material::VertexColors => match (triangle[0].color, triangle[1].color, triangle[2].color) {
                (Some(c1), Some(c2), Some(c3)) => c1.interpolate(&c2, &c3, weights),
                _ => Color::white(),
            },
            Material::Textured { texture } => match calculate_uvs(triangle, weights) {
                Some(uv) => texel_or_white(texture, &uv),
                None => Color::white(),
            },
            Material::LitTexture { texture, light_dir } => match calculate_uvs(triangle, weights) {
                Some(uv) => lit(texel_or_white(texture, &uv), light_dir, triangle, weights),
                None => lit(Color::white(), light_dir, triangle, weights),
            },
            Material::LitSolid { color, light_dir } => lit(*color, light_dir, triangle, weights),
        }
    }
}

} // verus!

//! 16.16 fixed-point numbers and the small vectors built from them.

use vstd::prelude::*;

verus! {

/// The fixed-point representation of one: every coordinate, depth, direction
/// component and texture coordinate counts units of 1/65536.
pub const ONE: i32 = 65536;

/// Absolute value.
pub open spec fn magnitude(a: int) -> int {
    if a < 0 {
        -a
    } else {
        a
    }
}

/// Quotient rounded toward zero, the way machine division rounds.
pub open spec fn div_toward_zero(a: int, b: int) -> int
    recommends
        b != 0,
{
    if (a >= 0) == (b > 0) {
        magnitude(a) / magnitude(b)
    } else {
        -(magnitude(a) / magnitude(b))
    }
}

/// `a` limited to the interval from `lo` to `hi`.
pub open spec fn clamp(a: int, lo: int, hi: int) -> int
    recommends
        lo <= hi,
{
    if a < lo {
        lo
    } else if a > hi {
        hi
    } else {
        a
    }
}

/// `a` limited to what an `i32` holds.
pub open spec fn saturated(a: int) -> int {
    clamp(a, i32::MIN as int, i32::MAX as int)
}

/// Largest `r` with `r * r <= n`.
pub open spec fn is_floor_sqrt(n: int, r: int) -> bool {
    0 <= r && r * r <= n < (r + 1) * (r + 1)
}

/// The integer square root: the largest `r` with `r * r <= n`.
pub open spec fn floor_sqrt(n: int) -> int {
    choose|r: int| is_floor_sqrt(n, r)
}

/// Only one number is the integer square root of `n`.
pub proof fn lemma_floor_sqrt_unique(n: int, r: int, s: int)
    by (nonlinear_arith)
    requires
        is_floor_sqrt(n, r),
        is_floor_sqrt(n, s),
    ensures
        r == s,
{
}

/// The quotient of two non-negative numbers never exceeds the dividend.
pub proof fn lemma_quotient_bounds(a: int, b: int)
    by (nonlinear_arith)
    requires
        0 <= a,
        0 < b,
    ensures
        0 <= a / b <= a,
        b * (a / b) <= a < b * (a / b) + b,
{
}

/// A product is bounded by the product of the bounds of its factors.
pub proof fn lemma_product_bound(a: int, b: int, bound_a: int, bound_b: int)
    by (nonlinear_arith)
    requires
        -bound_a <= a <= bound_a,
        -bound_b <= b <= bound_b,
    ensures
        -(bound_a * bound_b) <= a * b <= bound_a * bound_b,
{
}

/// A share that is not negative, times a value, lies between the share times the
/// least and the share times the greatest that the value can be.
pub proof fn lemma_share_is_between(share: int, value: int, low: int, high: int)
    by (nonlinear_arith)
    requires
        share >= 0,
        low <= value <= high,
    ensures
        low * share <= share * value <= high * share,
{
}

/// A sum of three products with one factor in common.
pub proof fn lemma_common_factor(x: int, y: int, z: int, f: int)
    by (nonlinear_arith)
    ensures
        x * f + y * f + z * f == (x + y + z) * f,
        f * x + f * y + f * z == f * (x + y + z),
        f * (x + y + z) == (x + y + z) * f,
{
}

/// A quotient lies between two numbers when the dividend lies between their
/// multiples of the divisor.
pub proof fn lemma_quotient_is_between(n: int, d: int, low: int, high: int)
    by (nonlinear_arith)
    requires
        d > 0,
        low * d <= n <= high * d,
    ensures
        low <= n / d <= high,
{
}

/// A factor times a difference.
pub proof fn lemma_times_difference(f: int, x: int, y: int)
    by (nonlinear_arith)
    ensures
        f * (x - y) == f * x - f * y,
        (x - y) * f == x * f - y * f,
        f * x == x * f,
{
}

/// A positive factor can be cancelled from a strict inequality.
pub proof fn lemma_cancel_less(a: int, b: int, f: int)
    by (nonlinear_arith)
    requires
        f > 0,
        a * f < b * f,
    ensures
        a < b,
{
}

/// A number that is not negative, taken at least once, is not less than itself.
pub proof fn lemma_at_least_once(f: int, times: int)
    by (nonlinear_arith)
    requires
        f >= 0,
        times >= 1,
    ensures
        f * times >= f,
{
}

/// A positive factor can be cancelled from an inequality.
pub proof fn lemma_cancel_factor(f: int, x: int, low: int, high: int)
    by (nonlinear_arith)
    requires
        f > 0,
        low * f <= f * x <= high * f,
    ensures
        low <= x <= high,
{
}

/// The exact product of two 64-bit numbers.
pub fn mul_wide(a: i64, b: i64) -> (p: i128)
    ensures
        p == a as int * b as int,
{
    proof {
        lemma_product_bound(a as int, b as int, 0x8000_0000_0000_0000, 0x8000_0000_0000_0000);
    }
    a as i128 * b as i128
}

/// The absolute value of `a` as an unsigned number.
pub fn abs_i128(a: i128) -> (m: u128)
    ensures
        m == magnitude(a as int),
{
    if a >= 0 {
        a as u128
    } else if a == i128::MIN {
        0x8000_0000_0000_0000_0000_0000_0000_0000u128
    } else {
        (-a) as u128
    }
}

/// Divides rounding toward zero.
pub fn div_i128(a: i128, b: i128) -> (q: i128)
    requires
        b != 0,
        a != i128::MIN,
    ensures
        q == div_toward_zero(a as int, b as int),
        magnitude(q as int) <= magnitude(a as int),
{
    let ma: u128 = abs_i128(a);
    let mb: u128 = abs_i128(b);
    let mq: u128 = ma / mb;
    proof {
        lemma_quotient_bounds(ma as int, mb as int);
    }
    if (a >= 0) == (b > 0) {
        mq as i128
    } else {
        -(mq as i128)
    }
}

/// Narrows to `i32`, saturating at the ends of its range.
pub fn saturate_i32(a: i128) -> (r: i32)
    ensures
        r == saturated(a as int),
{
    if a < i32::MIN as i128 {
        i32::MIN
    } else if a > i32::MAX as i128 {
        i32::MAX
    } else {
        a as i32
    }
}

/// Integer square root, rounded down.
pub fn isqrt(n: u64) -> (r: u32)
    ensures
        is_floor_sqrt(n as int, r as int),
        r == floor_sqrt(n as int),
{
    let mut lo: u64 = 0;
    let mut hi: u64 = 0x1_0000_0000;
    assert(0x1_0000_0000int * 0x1_0000_0000int > n);
    while hi - lo > 1
        invariant
            lo < hi <= 0x1_0000_0000,
            lo * lo <= n < hi * hi,
        decreases hi - lo,
    {
        let mid: u64 = lo + (hi - lo) / 2;
        assert(mid * mid <= 0xffff_ffff * 0xffff_ffff) by (nonlinear_arith)
            requires
                0 <= mid <= 0xffff_ffff,
        ;
        if mid * mid <= n {
            lo = mid;
        } else {
            hi = mid;
        }
    }
    proof {
        assert(is_floor_sqrt(n as int, lo as int));
        lemma_floor_sqrt_unique(n as int, lo as int, floor_sqrt(n as int));
    }
    lo as u32
}

/// The difference of two points of the plane. Its components are wider than a
/// point's, so that every difference of two points fits.
#[derive(Clone, Copy, Debug, PartialEq, Eq, Structural)]
pub struct Vector2 {
    pub x: i64,
    pub y: i64,
}

/// A point of the plane, or a texture coordinate.
#[derive(Clone, Copy, Debug, PartialEq, Eq, Structural)]
pub struct Point2 {
    pub x: i32,
    pub y: i32,
}

/// A 3D direction.
#[derive(Clone, Copy, Debug, PartialEq, Eq, Structural)]
pub struct Vector3 {
    pub x: i32,
    pub y: i32,
    pub z: i32,
}

/// A point of space.
#[derive(Clone, Copy, Debug, PartialEq, Eq, Structural)]
pub struct Point3 {
    pub x: i32,
    pub y: i32,
    pub z: i32,
}

/// A homogeneous point: `x`, `y`, `z` and the divisor `w`.
#[derive(Clone, Copy, Debug, PartialEq, Eq, Structural)]
pub struct Point4 {
    pub x: i32,
    pub y: i32,
    pub z: i32,
    pub w: i32,
}

impl Vector2 {
    pub fn new(x: i64, y: i64) -> (v: Self)
        ensures
            v == (Vector2 { x, y }),
    {
        Vector2 { x, y }
    }
}

impl Point2 {
    pub fn new(x: i32, y: i32) -> (p: Self)
        ensures
            p == (Point2 { x, y }),
    {
        Point2 { x, y }
    }

    /// The origin.
    pub fn origin() -> (p: Self)
        ensures
            p == (Point2 { x: 0, y: 0 }),
    {
        Point2 { x: 0, y: 0 }
    }

    pub open spec fn spec_offset_from(&self, origin: &Point2) -> Vector2 {
        Vector2 { x: (self.x - origin.x) as i64, y: (self.y - origin.y) as i64 }
    }

    /// The vector that leads from `origin` to this point.
    pub fn offset_from(&self, origin: &Point2) -> (v: Vector2)
        ensures
            v == self.spec_offset_from(origin),
            v.x == self.x - origin.x,
            v.y == self.y - origin.y,
    {
        Vector2 { x: self.x as i64 - origin.x as i64, y: self.y as i64 - origin.y as i64 }
    }
}

impl Vector3 {
    pub fn new(x: i32, y: i32, z: i32) -> (v: Self)
        ensures
            v == (Vector3 { x, y, z }),
    {
        Vector3 { x, y, z }
    }
}

/// The sum of the products of the components. For two fixed-point vectors it is
/// their dot product times [`ONE`].
pub open spec fn spec_dot(a: Vector3, b: Vector3) -> int {
    a.x * b.x + a.y * b.y + a.z * b.z
}

/// The length of a vector, rounded down.
pub open spec fn spec_length(v: Vector3) -> int {
    floor_sqrt(spec_dot(v, v))
}

/// A component of a vector divided by the vector's length; 0 where the length is 0.
pub open spec fn spec_unit_component(component: i32, length: int) -> i32 {
    if length == 0 {
        0
    } else {
        saturated(div_toward_zero(component as int * ONE as int, length)) as i32
    }
}

/// The vector scaled to length one. The zero vector stays as it is.
pub open spec fn spec_normalize(v: Vector3) -> Vector3 {
    Vector3 {
        x: spec_unit_component(v.x, spec_length(v)),
        y: spec_unit_component(v.y, spec_length(v)),
        z: spec_unit_component(v.z, spec_length(v)),
    }
}

impl Vector3 {
    /// The sum of the products of the components.
    pub fn dot(&self, other: &Vector3) -> (d: i128)
        ensures
            d == spec_dot(*self, *other),
            -0x1_0000_0000_0000_0000 <= d <= 0x1_0000_0000_0000_0000,
    {
        proof {
            lemma_product_bound(self.x as int, other.x as int, 0x8000_0000, 0x8000_0000);
            lemma_product_bound(self.y as int, other.y as int, 0x8000_0000, 0x8000_0000);
            lemma_product_bound(self.z as int, other.z as int, 0x8000_0000, 0x8000_0000);
        }
        mul_wide(self.x as i64, other.x as i64) + mul_wide(self.y as i64, other.y as i64)
            + mul_wide(self.z as i64, other.z as i64)
    }

    /// The vector scaled to length one.
    pub fn normalize(&self) -> (unit: Vector3)
        ensures
            unit == spec_normalize(*self),
    {
        let square: i128 = self.dot(self);
        proof {
            assert(self.x * self.x >= 0) by (nonlinear_arith);
            assert(self.y * self.y >= 0) by (nonlinear_arith);
            assert(self.z * self.z >= 0) by (nonlinear_arith);
            lemma_product_bound(self.x as int, self.x as int, 0x8000_0000, 0x8000_0000);
            lemma_product_bound(self.y as int, self.y as int, 0x8000_0000, 0x8000_0000);
            lemma_product_bound(self.z as int, self.z as int, 0x8000_0000, 0x8000_0000);
        }
        let length: u32 = isqrt(square as u64);
        if length == 0 {
            Vector3 { x: 0, y: 0, z: 0 }
        } else {
            Vector3 {
                x: unit_component(self.x, length),
                y: unit_component(self.y, length),
                z: unit_component(self.z, length),
            }
        }
    }
}

fn unit_component(component: i32, length: u32) -> (r: i32)
    requires
        length > 0,
    ensures
        r == spec_unit_component(component, length as int),
{
    let wide: i128 = mul_wide(component as i64, ONE as i64);
    proof {
        lemma_product_bound(component as int, ONE as int, 0x8000_0000, 0x1_0000);
    }
    saturate_i32(div_i128(wide, length as i128))
}

impl Point3 {
    pub fn new(x: i32, y: i32, z: i32) -> (p: Self)
        ensures
            p == (Point3 { x, y, z }),
    {
        Point3 { x, y, z }
    }
}

impl Point4 {
    pub fn new(x: i32, y: i32, z: i32, w: i32) -> (p: Self)
        ensures
            p == (Point4 { x, y, z, w }),
    {
        Point4 { x, y, z, w }
    }

    /// The first two coordinates.
    pub fn xy(&self) -> (p: Point2)
        ensures
            p == self.spec_xy(),
    {
        Point2 { x: self.x, y: self.y }
    }

    pub open spec fn spec_xy(&self) -> Point2 {
        Point2 { x: self.x, y: self.y }
    }
}

} // verus!

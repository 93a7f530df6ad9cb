//! Vectors, poses and the crossing of a ray with the sensing circle.
//!
//! The circle is centred at the origin of the frame in which the poses are
//! given, so a crossing is a root of one quadratic in the distance along
//! the ray.

use vstd::prelude::*;
use crate::fixed::{UNIT, floor_sqrt, isqrt, magnitude, quot, lemma_floor_sqrt_exists,
    lemma_floor_sqrt_of_square, lemma_square_monotone};

verus! {

/// A planar vector in counts.
#[derive(Clone, Copy, Debug, PartialEq, Eq, Structural)]
pub struct Vec2 {
    pub x: i32,
    pub y: i32,
}

/// A position with a heading. The heading is held as its unit vector, scaled
/// so that a length of one is `UNIT` counts.
#[derive(Clone, Copy, Debug, PartialEq, Eq, Structural)]
pub struct Pose {
    pub position: Vec2,
    pub direction: Vec2,
}

/// A point where a ray meets the circle, in counts.
#[derive(Clone, Copy, Debug, PartialEq, Eq, Structural)]
pub struct Crossing {
    pub x: i64,
    pub y: i64,
}

/// Which of the two crossings of a ray is meant: the one behind the pose,
/// where the ray enters the circle, or the one ahead, where it leaves.
#[derive(Clone, Copy, Debug, PartialEq, Eq, Structural)]
pub enum Root {
    Near,
    Far,
}

impl Vec2 {
    /// The scalar product of two vectors.
    pub open spec fn spec_dot(self, other: Vec2) -> int {
        self.x * other.x + self.y * other.y
    }

    /// The squared length of the vector.
    pub open spec fn spec_norm_squared(self) -> int {
        self.x * self.x + self.y * self.y
    }

    /// The vector lies strictly inside the circle of the given radius about
    /// the origin.
    pub open spec fn spec_inside(self, radius: int) -> bool {
        self.spec_norm_squared() < radius * radius
    }

    pub fn dot(&self, other: &Vec2) -> (d: i128)
        ensures
            d == self.spec_dot(*other),
            -0x8000_0000_0000_0000 <= d <= 0x8000_0000_0000_0000,
    {
        proof {
            lemma_product_bound(self.x as int, other.x as int);
            lemma_product_bound(self.y as int, other.y as int);
        }
        (self.x as i128) * (other.x as i128) + (self.y as i128) * (other.y as i128)
    }

    pub fn norm_squared(&self) -> (n: u64)
        ensures
            n == self.spec_norm_squared(),
            n <= 0x8000_0000_0000_0000,
    {
        proof {
            lemma_product_bound(self.x as int, self.x as int);
            lemma_product_bound(self.y as int, self.y as int);
            assert(self.x * self.x >= 0) by (nonlinear_arith);
            assert(self.y * self.y >= 0) by (nonlinear_arith);
        }
        let xx: i64 = (self.x as i64) * (self.x as i64);
        let yy: i64 = (self.y as i64) * (self.y as i64);
        xx as u64 + yy as u64
    }

    pub fn inside(&self, radius: u32) -> (b: bool)
        ensures
            b == self.spec_inside(radius as int),
    {
        proof {
            assert(radius * radius <= 0xffff_ffff * 0xffff_ffff) by (nonlinear_arith)
                requires
                    0 <= radius <= 0xffff_ffff,
            ;
        }
        self.norm_squared() < (radius as u64) * (radius as u64)
    }
}

/// The linear coefficient of the crossing quadratic: twice the component of
/// the position along the heading.
pub open spec fn ray_slope(pose: Pose) -> int {
    quot(2 * pose.position.spec_dot(pose.direction), UNIT as int)
}

/// The constant coefficient of the crossing quadratic: how far the squared
/// distance of the position from the centre is from the squared radius.
pub open spec fn ray_offset(pose: Pose, r_squared: int) -> int {
    pose.position.spec_norm_squared() - r_squared
}

/// The discriminant of the crossing quadratic, whose leading coefficient is
/// one because the heading has unit length.
pub open spec fn discriminant(pose: Pose, r_squared: int) -> int {
    ray_slope(pose) * ray_slope(pose) - 4 * ray_offset(pose, r_squared)
}

/// The sign in front of the square root for each of the two roots.
pub open spec fn root_sign(root: Root) -> int {
    match root {
        Root::Near => -1,
        Root::Far => 1,
    }
}

/// The signed distance along the heading from the pose to a crossing.
pub open spec fn ray_distance(pose: Pose, r_squared: int, root: Root) -> int {
    quot(-ray_slope(pose) + root_sign(root) * floor_sqrt(discriminant(pose, r_squared)), 2)
}

/// The point at signed distance `k` from the pose along its heading.
pub open spec fn point_along(pose: Pose, k: int) -> (int, int) {
    (
        pose.position.x + quot(k * pose.direction.x, UNIT as int),
        pose.position.y + quot(k * pose.direction.y, UNIT as int),
    )
}

/// The crossing of the ray through `pose` with the circle of the given
/// squared radius about the origin.
pub open spec fn spec_intersection(pose: Pose, r_squared: int, root: Root) -> (int, int) {
    point_along(pose, ray_distance(pose, r_squared, root))
}

/// Where the ray through `pose` along its heading meets the circle of the
/// given squared radius about the origin. The pose must lie inside or on the
/// circle; then the quadratic has real roots.
pub fn intersection(pose: &Pose, r_squared: u64, root: Root) -> (c: Crossing)
    requires
        pose.position.spec_norm_squared() <= r_squared,
    ensures
        c.x == spec_intersection(*pose, r_squared as int, root).0,
        c.y == spec_intersection(*pose, r_squared as int, root).1,
{
    let b: i128 = 2 * pose.position.dot(&pose.direction) / (UNIT as i128);
    assert(-18_446_744_073_710 <= b <= 18_446_744_073_710);
    proof {
        assert(0 <= b * b <= 18_446_744_073_710 * 18_446_744_073_710) by (nonlinear_arith)
            requires
                -18_446_744_073_710 <= b <= 18_446_744_073_710,
        ;
    }
    let c: i128 = pose.position.norm_squared() as i128 - r_squared as i128;
    let delta: i128 = b * b - 4 * c;
    let s: i128 = isqrt(delta as u128) as i128;
    proof {
        if s >= 0x2000_0000_0000 {
            lemma_square_monotone(0x2000_0000_0000, s as int);
        }
    }
    let numer: i128 = match root {
        Root::Near => -b - s,
        Root::Far => -b + s,
    };
    let k: i128 = numer / 2;
    proof {
        lemma_scaled_bound(k as int, pose.direction.x as int);
        lemma_scaled_bound(k as int, pose.direction.y as int);
    }
    let dx: i128 = k * (pose.direction.x as i128) / (UNIT as i128);
    let dy: i128 = k * (pose.direction.y as i128) / (UNIT as i128);
    Crossing { x: (pose.position.x as i128 + dx) as i64, y: (pose.position.y as i128 + dy) as i64 }
}

/// How far the point at signed distance `k` along the ray is from the circle:
/// the value of the crossing quadratic at `k`. It is zero on the circle and
/// negative inside it.
pub open spec fn circle_residual(pose: Pose, r_squared: int, k: int) -> int {
    k * k + ray_slope(pose) * k + ray_offset(pose, r_squared)
}

/// The two rounded roots of `k * k + b * k + c` for `c` not positive: they lie
/// on either side of zero, each misses a true root by less than the rounding
/// of the square root, always to the inside, and they differ unless the
/// discriminant is zero. Their sum is `-b`, as that of the true roots, and
/// their difference is the rounded square root of the discriminant or one
/// less.
pub proof fn lemma_rounded_roots(b: int, c: int)
    requires
        c <= 0,
    ensures
        ({
            let s = floor_sqrt(b * b - 4 * c);
            let near = quot(-b - s, 2);
            let far = quot(-b + s, 2);
            &&& 0 <= s
            &&& near <= 0 <= far
            &&& -s <= near * near + b * near + c <= 0
            &&& -s <= far * far + b * far + c <= 0
            &&& (b * b - 4 * c > 0 ==> near < far)
            &&& near + far == -b
            &&& s - 1 <= far - near <= s
        }),
{
    let d: int = b * b - 4 * c;
    assert(b * b >= 0) by (nonlinear_arith);
    lemma_floor_sqrt_exists(d);
    let s: int = floor_sqrt(d);
    assert((s + 1) * (s + 1) == s * s + 2 * s + 1) by (nonlinear_arith);
    let m: int = if b < 0 { -b } else { b };
    assert(m * m == b * b) by (nonlinear_arith)
        requires
            m == b || m == -b,
    ;
    if s < m {
        lemma_square_monotone(s + 1, m);
    }
    assert(m <= s);
    let far: int = quot(-b + s, 2);
    let near: int = quot(-b - s, 2);
    let e: int = (s - b) - 2 * far;
    let f: int = (s + b) + 2 * near;
    assert(e == 0 || e == 1);
    assert(f == 0 || f == 1);
    assert(4 * (far * far + b * far + c) == s * s - d + e * e - 2 * (s * e)) by (nonlinear_arith)
        requires
            2 * far + e == s - b,
            d == b * b - 4 * c,
    ;
    assert(4 * (near * near + b * near + c) == s * s - d + f * f - 2 * (s * f)) by (nonlinear_arith)
        requires
            f - 2 * near == s + b,
            d == b * b - 4 * c,
    ;
    assert(e * e == e && s * e == (if e == 0 { 0 } else { s })) by (nonlinear_arith)
        requires
            e == 0 || e == 1,
    ;
    assert(f * f == f && s * f == (if f == 0 { 0 } else { s })) by (nonlinear_arith)
        requires
            f == 0 || f == 1,
    ;
}

/// Both crossings of a ray that starts inside or on the circle lie on the
/// circle: the entry behind the pose, the exit ahead of it, each within the
/// rounding of the square root and never outside. Their distances differ
/// unless the discriminant is zero, which is a ray that touches the circle at
/// the pose itself. The middle of the chord lies half the slope behind the
/// pose, and the chord is as long as the rounded square root of the
/// discriminant, or one count shorter.
pub proof fn lemma_crossings_on_circle(pose: Pose, r_squared: int)
    requires
        pose.position.spec_norm_squared() <= r_squared,
    ensures
        ({
            let s = floor_sqrt(discriminant(pose, r_squared));
            let near = ray_distance(pose, r_squared, Root::Near);
            let far = ray_distance(pose, r_squared, Root::Far);
            &&& 0 <= discriminant(pose, r_squared)
            &&& near <= 0 <= far
            &&& -s <= circle_residual(pose, r_squared, near) <= 0
            &&& -s <= circle_residual(pose, r_squared, far) <= 0
            &&& (discriminant(pose, r_squared) > 0 ==> near < far)
            &&& near + far == -ray_slope(pose)
            &&& s - 1 <= far - near <= s
        }),
{
    let b: int = ray_slope(pose);
    assert(b * b >= 0) by (nonlinear_arith);
    lemma_rounded_roots(b, ray_offset(pose, r_squared));
}

/// The heading has unit length, up to the rounding of its two components.
pub open spec fn is_unit(direction: Vec2) -> bool {
    magnitude(direction.spec_norm_squared() - UNIT * UNIT) <= 2 * UNIT
}

/// The squared distance of a crossing from the centre, less the squared
/// radius.
pub open spec fn off_circle(pose: Pose, r_squared: int, root: Root) -> int {
    let c = spec_intersection(pose, r_squared, root);
    c.0 * c.0 + c.1 * c.1 - r_squared
}

/// Either crossing of a ray that starts inside or on the circle, along a
/// heading of unit length, lies on the circle up to rounding: its squared
/// distance from the centre misses the squared radius by an amount that grows
/// with the size of the circle, not with its square.
pub proof fn lemma_crossing_near_circle(pose: Pose, r_squared: int, root: Root)
    requires
        pose.position.spec_norm_squared() <= r_squared,
        is_unit(pose.direction),
    ensures
        ({
            let k = ray_distance(pose, r_squared, root);
            let s = floor_sqrt(discriminant(pose, r_squared));
            UNIT * magnitude(off_circle(pose, r_squared, root)) <= UNIT * (s + 5 * magnitude(k) + 2 * (
            magnitude(pose.position.x as int) + magnitude(pose.position.y as int)) + 2) + 2 * (k
                * k)
        }),
{
    lemma_crossings_on_circle(pose, r_squared);
    let k: int = ray_distance(pose, r_squared, root);
    let s: int = floor_sqrt(discriminant(pose, r_squared));
    lemma_point_off_circle(
        pose.position.x as int,
        pose.position.y as int,
        pose.direction.x as int,
        pose.direction.y as int,
        k,
        ray_slope(pose),
        ray_offset(pose, r_squared),
        s,
    );
}

/// The two crossings of a ray along a heading of unit length are two points
/// as soon as the rounded square root of the discriminant is four counts or
/// more: the entry then lies behind the exit along the heading.
pub proof fn lemma_crossings_differ(pose: Pose, r_squared: int)
    requires
        pose.position.spec_norm_squared() <= r_squared,
        is_unit(pose.direction),
        floor_sqrt(discriminant(pose, r_squared)) >= 4,
    ensures
        spec_intersection(pose, r_squared, Root::Near) != spec_intersection(
            pose,
            r_squared,
            Root::Far,
        ),
{
    lemma_crossings_on_circle(pose, r_squared);
    let near: int = ray_distance(pose, r_squared, Root::Near);
    let far: int = ray_distance(pose, r_squared, Root::Far);
    let dx: int = pose.direction.x as int;
    let dy: int = pose.direction.y as int;
    lemma_long_component(dx, dy);
    lemma_step_along(near, dx);
    lemma_step_along(far, dx);
    lemma_step_along(near, dy);
    lemma_step_along(far, dy);
}

/// From a pose on the circle one crossing is the pose itself: the exit where
/// the heading points outward, the entry where it points inward. The other
/// crossing lies the slope behind the pose. Along a heading of unit length
/// the two are different points as soon as the slope is two counts or more
/// either way; a ray that touches the circle, whose slope is zero, has the
/// pose for both.
pub proof fn lemma_crossings_from_the_circle(pose: Pose, r_squared: int)
    requires
        pose.position.spec_norm_squared() == r_squared,
    ensures
        ({
            let b = ray_slope(pose);
            let here = (pose.position.x as int, pose.position.y as int);
            let near = spec_intersection(pose, r_squared, Root::Near);
            let far = spec_intersection(pose, r_squared, Root::Far);
            &&& (b >= 0 ==> far == here && near == point_along(pose, -b))
            &&& (b <= 0 ==> near == here && far == point_along(pose, -b))
            &&& (is_unit(pose.direction) && magnitude(b) >= 2 ==> near != far)
        }),
{
    let b: int = ray_slope(pose);
    let m: int = magnitude(b);
    assert(m * m == b * b) by (nonlinear_arith)
        requires
            m == b || m == -b,
    ;
    lemma_floor_sqrt_of_square(m);
    assert(discriminant(pose, r_squared) == m * m);
    let dx: int = pose.direction.x as int;
    let dy: int = pose.direction.y as int;
    assert(0 * dx == 0 && 0 * dy == 0);
    if b >= 0 {
        assert(ray_distance(pose, r_squared, Root::Far) == 0);
        assert(ray_distance(pose, r_squared, Root::Near) == -b);
    }
    if b <= 0 {
        assert(ray_distance(pose, r_squared, Root::Near) == 0);
        assert(ray_distance(pose, r_squared, Root::Far) == -b);
    }
    if is_unit(pose.direction) && m >= 2 {
        lemma_long_component(dx, dy);
        lemma_step_along(-b, dx);
        lemma_step_along(-b, dy);
    }
}

/// A vector of unit length has a component of at least half a unit.
proof fn lemma_long_component(dx: int, dy: int)
    requires
        magnitude(dx * dx + dy * dy - UNIT * UNIT) <= 2 * UNIT,
    ensures
        magnitude(dx) >= 500_000 || magnitude(dy) >= 500_000,
{
    if magnitude(dx) < 500_000 && magnitude(dy) < 500_000 {
        assert(dx * dx <= 250_000_000_000) by (nonlinear_arith)
            requires
                -500_000 < dx < 500_000,
        ;
        assert(dy * dy <= 250_000_000_000) by (nonlinear_arith)
            requires
                -500_000 < dy < 500_000,
        ;
    }
}

/// The step of `k` counts along a heading component `d`: it goes the way of
/// `k` where `d` is positive and against it where `d` is negative, and it is
/// at least one count once `k` is two counts and `d` half a unit.
proof fn lemma_step_along(k: int, d: int)
    ensures
        (k >= 0 && d >= 0) || (k <= 0 && d <= 0) ==> quot(k * d, UNIT as int) >= 0,
        (k >= 0 && d <= 0) || (k <= 0 && d >= 0) ==> quot(k * d, UNIT as int) <= 0,
        (k >= 2 && d >= 500_000) || (k <= -2 && d <= -500_000) ==> quot(k * d, UNIT as int) >= 1,
        (k >= 2 && d <= -500_000) || (k <= -2 && d >= 500_000) ==> quot(k * d, UNIT as int) <= -1,
{
    assert((k >= 0 && d >= 0) || (k <= 0 && d <= 0) ==> k * d >= 0) by (nonlinear_arith);
    assert((k >= 0 && d <= 0) || (k <= 0 && d >= 0) ==> k * d <= 0) by (nonlinear_arith);
    assert((k >= 2 && d >= 500_000) || (k <= -2 && d <= -500_000) ==> k * d >= 1_000_000)
        by (nonlinear_arith);
    assert((k >= 2 && d <= -500_000) || (k <= -2 && d >= 500_000) ==> k * d <= -1_000_000)
        by (nonlinear_arith);
}

/// The size of a product is at most the product of bounds on its factors.
proof fn lemma_abs_product(a: int, b: int, m: int, n: int)
    requires
        magnitude(a) <= m,
        magnitude(b) <= n,
    ensures
        magnitude(a * b) <= m * n,
{
    assert(magnitude(a * b) <= m * n) by (nonlinear_arith)
        requires
            -m <= a <= m,
            -n <= b <= n,
            magnitude(a * b) == a * b || magnitude(a * b) == -(a * b),
    ;
}

/// The square of a rounded quotient, scaled back, in terms of what was
/// divided and of the remainder.
proof fn lemma_square_of_scaled(u: int, a: int, k: int, d: int, e: int)
    requires
        u * a == k * d - e,
    ensures
        u * u * (a * a) == (k * k) * (d * d) - 2 * (k * d * e) + e * e,
{
    let m: int = k * d;
    assert(u * u * (a * a) == (u * a) * (u * a)) by (nonlinear_arith);
    assert((m - e) * (m - e) == m * m - 2 * (m * e) + e * e) by (nonlinear_arith);
    assert(m * m == (k * k) * (d * d)) by (nonlinear_arith)
        requires
            m == k * d,
    ;
}

/// A multiple of a rounded quotient, scaled back, in terms of what was
/// divided and of the remainder.
proof fn lemma_cross_of_scaled(u: int, a: int, k: int, d: int, e: int, x: int)
    requires
        u * a == k * d - e,
    ensures
        u * u * (x * a) == u * (k * (x * d)) - u * (x * e),
{
    let m: int = k * d;
    assert(u * u * (x * a) == u * (x * (u * a))) by (nonlinear_arith);
    assert(x * (m - e) == x * m - x * e) by (nonlinear_arith);
    assert(x * m == k * (x * d)) by (nonlinear_arith)
        requires
            m == k * d,
    ;
    assert(u * (x * m - x * e) == u * (x * m) - u * (x * e)) by (nonlinear_arith);
}

/// The sum of the error terms of a crossing, each taken by its bound.
proof fn lemma_linear_part(
    off: int, c: int, xa: int, ya: int, aa: int, bb: int, kk: int, kkxx: int, kkyy: int,
    kxe: int, kye: int, ee: int, ff: int, kx: int, ky: int, xe: int, ye: int, kb: int, kr: int,
    kkn: int, res: int, s: int, mk: int, mx: int, my: int,
)
    requires
        off == c + 2 * xa + 2 * ya + aa + bb,
        1_000_000_000_000 * aa == kkxx - 2 * kxe + ee,
        1_000_000_000_000 * bb == kkyy - 2 * kye + ff,
        1_000_000_000_000 * xa == 1_000_000 * kx - 1_000_000 * xe,
        1_000_000_000_000 * ya == 1_000_000 * ky - 1_000_000 * ye,
        2 * kx + 2 * ky == 1_000_000 * kb + kr,
        kkxx + kkyy == 1_000_000_000_000 * kk + kkn,
        res == kk + kb + c,
        -s <= res <= 0,
        0 <= kk,
        magnitude(kr) <= mk * 1_000_000,
        magnitude(kkn) <= kk * 2_000_000,
        magnitude(xe) <= mx * 1_000_000,
        magnitude(ye) <= my * 1_000_000,
        magnitude(kxe) <= (mk * 1_000_000) * 1_000_000,
        magnitude(kye) <= (mk * 1_000_000) * 1_000_000,
        magnitude(ee) <= 1_000_000 * 1_000_000,
        magnitude(ff) <= 1_000_000 * 1_000_000,
    ensures
        1_000_000 * magnitude(off) <= 1_000_000 * (s + 5 * mk + 2 * (mx + my) + 2) + 2 * kk,
{
}

/// The point at a rounded root of the crossing quadratic misses the circle by
/// no more than the roundings of the slope, the root, the heading and the
/// point add up to.
proof fn lemma_point_off_circle(x: int, y: int, dx: int, dy: int, k: int, b: int, c: int, s: int)
    requires
        b == quot(2 * (x * dx + y * dy), UNIT as int),
        -s <= k * k + b * k + c <= 0,
        magnitude(dx * dx + dy * dy - UNIT * UNIT) <= 2 * UNIT,
    ensures
        ({
            let px = x + quot(k * dx, UNIT as int);
            let py = y + quot(k * dy, UNIT as int);
            UNIT * magnitude(px * px + py * py - (x * x + y * y - c)) <= UNIT * (s + 5 * magnitude(k)
                + 2 * (magnitude(x) + magnitude(y)) + 2) + 2 * (k * k)
        }),
{
    let a: int = quot(k * dx, 1_000_000);
    let a2: int = quot(k * dy, 1_000_000);
    let ex: int = k * dx - 1_000_000 * a;
    let ey: int = k * dy - 1_000_000 * a2;
    let rho: int = 2 * (x * dx + y * dy) - 1_000_000 * b;
    let nu: int = dx * dx + dy * dy - 1_000_000_000_000;
    let px: int = x + a;
    let py: int = y + a2;
    let off: int = px * px + py * py - (x * x + y * y - c);
    let mk: int = magnitude(k);
    assert(dx * dx >= 0 && dy * dy >= 0 && k * k >= 0) by (nonlinear_arith);
    assert(magnitude(dx) <= 1_000_000) by (nonlinear_arith)
        requires
            dx * dx <= 1_000_002_000_000,
    ;
    assert(magnitude(dy) <= 1_000_000) by (nonlinear_arith)
        requires
            dy * dy <= 1_000_002_000_000,
    ;
    assert(off == c + 2 * (x * a) + 2 * (y * a2) + a * a + a2 * a2) by (nonlinear_arith)
        requires
            off == px * px + py * py - (x * x + y * y - c),
            px == x + a,
            py == y + a2,
    ;
    lemma_square_of_scaled(1_000_000, a, k, dx, ex);
    lemma_square_of_scaled(1_000_000, a2, k, dy, ey);
    lemma_cross_of_scaled(1_000_000, a, k, dx, ex, x);
    lemma_cross_of_scaled(1_000_000, a2, k, dy, ey, y);
    assert((k * k) * (dx * dx) + (k * k) * (dy * dy) == 1_000_000_000_000 * (k * k) + (k * k) * nu)
        by (nonlinear_arith)
        requires
            dx * dx + dy * dy == 1_000_000_000_000 + nu,
    ;
    assert(2 * (k * (x * dx)) + 2 * (k * (y * dy)) == 1_000_000 * (k * b) + k * rho)
        by (nonlinear_arith)
        requires
            2 * (x * dx + y * dy) == 1_000_000 * b + rho,
    ;
    assert(b * k == k * b) by (nonlinear_arith);
    lemma_abs_product(k, rho, mk, 1_000_000);
    lemma_abs_product(k * k, nu, k * k, 2_000_000);
    lemma_abs_product(x, ex, magnitude(x), 1_000_000);
    lemma_abs_product(y, ey, magnitude(y), 1_000_000);
    lemma_abs_product(k, dx, mk, 1_000_000);
    lemma_abs_product(k, dy, mk, 1_000_000);
    lemma_abs_product(k * dx, ex, mk * 1_000_000, 1_000_000);
    lemma_abs_product(k * dy, ey, mk * 1_000_000, 1_000_000);
    lemma_abs_product(ex, ex, 1_000_000, 1_000_000);
    lemma_abs_product(ey, ey, 1_000_000, 1_000_000);
    lemma_linear_part(
        off, c, x * a, y * a2, a * a, a2 * a2, k * k, (k * k) * (dx * dx), (k * k) * (dy * dy),
        k * dx * ex, k * dy * ey, ex * ex, ey * ey, k * (x * dx), k * (y * dy), x * ex, y * ey,
        k * b, k * rho, (k * k) * nu, k * k + b * k + c, s, mk, magnitude(x), magnitude(y),
    );
}

/// A distance along the ray times a heading component stays well within
/// 128 bits.
proof fn lemma_scaled_bound(k: int, d: int)
    requires
        -0x4000_0000_0000 <= k <= 0x4000_0000_0000,
        -0x8000_0000 <= d <= 0x8000_0000,
    ensures
        -0x2000_0000_0000_0000_0000 <= k * d <= 0x2000_0000_0000_0000_0000,
{
    assert(-0x2000_0000_0000_0000_0000 <= k * d <= 0x2000_0000_0000_0000_0000) by (nonlinear_arith)
        requires
            -0x4000_0000_0000 <= k <= 0x4000_0000_0000,
            -0x8000_0000 <= d <= 0x8000_0000,
    ;
}

/// The product of two 32-bit counts fits in 63 bits.
proof fn lemma_product_bound(a: int, b: int)
    requires
        -0x8000_0000 <= a <= 0x8000_0000,
        -0x8000_0000 <= b <= 0x8000_0000,
    ensures
        -0x4000_0000_0000_0000 <= a * b <= 0x4000_0000_0000_0000,
{
    assert(-0x4000_0000_0000_0000 <= a * b <= 0x4000_0000_0000_0000) by (nonlinear_arith)
        requires
            -0x8000_0000 <= a <= 0x8000_0000,
            -0x8000_0000 <= b <= 0x8000_0000,
    ;
}

} // verus!

//! Exact predicates on one point, one ray and one triangle.
//!
//! Each predicate is the sign of a determinant of coordinate differences. The
//! differences of 32-bit coordinates span 33 bits and the determinants are of
//! degree three, so 128-bit arithmetic holds every intermediate value.

use vstd::prelude::*;
use crate::geometry::{Point, Triangle, Vec3};

verus! {

/// How a ray meets a triangle.
#[derive(Clone, Copy, Debug, PartialEq, Eq, Structural)]
pub enum Crossing {
    /// The ray does not meet the triangle.
    Miss,
    /// The ray passes through the interior of the triangle, ahead of its origin.
    Hit,
    /// The ray meets an edge or a vertex of the triangle, or lies in its plane.
    Graze,
}

/// No component of `u` points against the same component of `n`.
pub open spec fn along(u: Vec3, n: Vec3) -> bool {
    u.x * n.x >= 0 && u.y * n.y >= 0 && u.z * n.z >= 0
}

/// `p` lies on the triangle: in its plane, and not beyond any of its edges. Seen
/// from such a point, the three triangles that `p` spans with the edges have
/// normals that are multiples of the triangle's own, none of them negative.
/// No point lies on a triangle of zero area.
pub open spec fn on_triangle(p: Vec3, t: Triangle) -> bool {
    let a = p.to(t.a@);
    let b = p.to(t.b@);
    let c = p.to(t.c@);
    let n = t.normal();
    &&& !n.is_zero()
    &&& a.triple(b, c) == 0
    &&& along(b.cross(c), n)
    &&& along(c.cross(a), n)
    &&& along(a.cross(b), n)
}

/// The crossing of a ray that runs towards the side of the plane to which the
/// normal points, given the signed distance `vol` of the origin to the plane
/// and the three barycentric weights of the point where the ray's line meets
/// the plane, all four scaled by the same positive factor.
pub open spec fn pierce(vol: int, wa: int, wb: int, wc: int) -> Crossing {
    if vol <= 0 || wa < 0 || wb < 0 || wc < 0 {
        Crossing::Miss
    } else if wa > 0 && wb > 0 && wc > 0 {
        Crossing::Hit
    } else {
        Crossing::Graze
    }
}

/// How the ray from `p` in direction `d` meets `t`.
///
/// A triangle of zero area is never met. A ray parallel to the plane of `t`
/// grazes it if it lies in that plane and misses it otherwise. Any other ray
/// meets the plane in one point: behind the origin or at it, that is a miss;
/// ahead of it, the crossing is a hit inside the triangle, a graze on its edges
/// and vertices, and a miss outside.
pub open spec fn crossing(p: Vec3, d: Vec3, t: Triangle) -> Crossing {
    let a = p.to(t.a@);
    let b = p.to(t.b@);
    let c = p.to(t.c@);
    let n = t.normal();
    let dn = d.dot(n);
    let vol = a.triple(b, c);
    let wa = d.triple(b, c);
    let wb = d.triple(c, a);
    let wc = d.triple(a, b);
    if n.is_zero() {
        Crossing::Miss
    } else if dn == 0 {
        if vol == 0 {
            Crossing::Graze
        } else {
            Crossing::Miss
        }
    } else if dn > 0 {
        pierce(vol, wa, wb, wc)
    } else {
        pierce(-vol, -wa, -wb, -wc)
    }
}

/// The normal of a triangle, from the displacements that lead from any point
/// to its vertices: `(b - a) x (c - a) = b x c + c x a + a x b`.
pub proof fn lemma_normal_from_any_point(p: Vec3, t: Triangle)
    ensures
        ({
            let a = p.to(t.a@);
            let b = p.to(t.b@);
            let c = p.to(t.c@);
            let n = t.normal();
            &&& n.x == b.cross(c).x + c.cross(a).x + a.cross(b).x
            &&& n.y == b.cross(c).y + c.cross(a).y + a.cross(b).y
            &&& n.z == b.cross(c).z + c.cross(a).z + a.cross(b).z
        }),
{
    let a = p.to(t.a@);
    let b = p.to(t.b@);
    let c = p.to(t.c@);
    let u = t.a@.to(t.b@);
    let v = t.a@.to(t.c@);
    assert(u.x == b.x - a.x && u.y == b.y - a.y && u.z == b.z - a.z);
    assert(v.x == c.x - a.x && v.y == c.y - a.y && v.z == c.z - a.z);
    lemma_cross_of_differences(a.y, a.z, b.y, b.z, c.y, c.z);
    lemma_cross_of_differences(a.z, a.x, b.z, b.x, c.z, c.x);
    lemma_cross_of_differences(a.x, a.y, b.x, b.y, c.x, c.y);
}

/// One component of the cross product of two differences.
proof fn lemma_cross_of_differences(ay: int, az: int, by: int, bz: int, cy: int, cz: int)
    by (nonlinear_arith)
    ensures
        (by - ay) * (cz - az) - (bz - az) * (cy - ay) == (by * cz - bz * cy) + (cy * az - cz * ay) + (ay * bz - az
            * by),
{
}

/// A determinant with two equal rows is zero: the expansion of the rows `b`,
/// `c`, `a` along the first column, against the minors of another column.
proof fn lemma_alien_minors(ax: int, ay: int, bx: int, by: int, cx: int, cy: int)
    by (nonlinear_arith)
    ensures
        (by * cx - bx * cy) * ax + (cy * ax - cx * ay) * bx + (ay * bx - ax * by) * cx == 0,
{
}

proof fn lemma_rotate(x: int, y: int, z: int)
    by (nonlinear_arith)
    ensures
        x * y * z == y * z * x,
        x * y * z == z * x * y,
        x * y * z == y * x * z,
{
}

proof fn lemma_minor_times(p: int, q: int, r: int, s: int, k: int)
    by (nonlinear_arith)
    ensures
        (p * q - r * s) * k == p * q * k - r * s * k,
        k * (p * q - r * s) == k * p * q - k * r * s,
{
}

proof fn lemma_sum_times(x: int, y: int, z: int, k: int)
    by (nonlinear_arith)
    ensures
        (x + y + z) * k == x * k + y * k + z * k,
        k * (x + y + z) == k * x + k * y + k * z,
{
}

proof fn lemma_regroup(k: int, p: int, a: int)
    by (nonlinear_arith)
    ensures
        k * (p * a) == (k * p) * a,
        (p * a) * k == (k * p) * a,
{
}

/// The expansion of a determinant along its first column equals that along
/// its first row, as far as the two differ.
proof fn lemma_own_minors(ax: int, ay: int, az: int, bx: int, by: int, bz: int, cx: int, cy: int, cz: int)
    ensures
        (cy * az - cz * ay) * bx + (ay * bz - az * by) * cx == ay * (bz * cx - bx * cz) + az * (bx * cy - by * cx),
{
    lemma_minor_times(cy, az, cz, ay, bx);
    lemma_minor_times(ay, bz, az, by, cx);
    lemma_minor_times(bz, cx, bx, cz, ay);
    lemma_minor_times(bx, cy, by, cx, az);
    lemma_rotate(cy, az, bx);
    lemma_rotate(cz, ay, bx);
}

/// One component of Cramer's rule, from the facts on the minors.
proof fn lemma_cramer_combined(
    ax: int,
    bx: int,
    cx: int,
    dx: int,
    dy: int,
    dz: int,
    px: int,
    py: int,
    pz: int,
    qx: int,
    qy: int,
    qz: int,
    rx: int,
    ry: int,
    rz: int,
    rest: int,
)
    requires
        py * ax + qy * bx + ry * cx == 0,
        pz * ax + qz * bx + rz * cx == 0,
        qx * bx + rx * cx == rest,
    ensures
        (ax * px + rest) * dx == (dx * px + dy * py + dz * pz) * ax + (dx * qx + dy * qy + dz * qz) * bx + (dx * rx
            + dy * ry + dz * rz) * cx,
{
    lemma_sum_times(dx * px, dy * py, dz * pz, ax);
    lemma_sum_times(dx * qx, dy * qy, dz * qz, bx);
    lemma_sum_times(dx * rx, dy * ry, dz * rz, cx);
    lemma_sum_times(py * ax, qy * bx, ry * cx, dy);
    lemma_sum_times(pz * ax, qz * bx, rz * cx, dz);
    lemma_sum_times(ax * px, qx * bx, rx * cx, dx);
    lemma_regroup(dy, py, ax);
    lemma_regroup(dy, qy, bx);
    lemma_regroup(dy, ry, cx);
    lemma_regroup(dz, pz, ax);
    lemma_regroup(dz, qz, bx);
    lemma_regroup(dz, rz, cx);
    lemma_regroup(dx, qx, bx);
    lemma_regroup(dx, rx, cx);
    lemma_rotate(ax, px, dx);
    assert(dy * (py * ax + qy * bx + ry * cx) == 0);
    assert(dz * (pz * ax + qz * bx + rz * cx) == 0);
    assert((ax * px + rest) * dx == (ax * px + qx * bx + rx * cx) * dx);
}

/// One component of Cramer's rule.
proof fn lemma_cramer_component(
    ax: int,
    ay: int,
    az: int,
    bx: int,
    by: int,
    bz: int,
    cx: int,
    cy: int,
    cz: int,
    dx: int,
    dy: int,
    dz: int,
)
    ensures
        (ax * (by * cz - bz * cy) + ay * (bz * cx - bx * cz) + az * (bx * cy - by * cx)) * dx == (dx * (by * cz - bz
            * cy) + dy * (bz * cx - bx * cz) + dz * (bx * cy - by * cx)) * ax + (dx * (cy * az - cz * ay) + dy * (cz
            * ax - cx * az) + dz * (cx * ay - cy * ax)) * bx + (dx * (ay * bz - az * by) + dy * (az * bx - ax * bz)
            + dz * (ax * by - ay * bx)) * cx,
{
    lemma_alien_minors(ax, az, bx, bz, cx, cz);
    lemma_alien_minors(ax, ay, bx, by, cx, cy);
    lemma_own_minors(ax, ay, az, bx, by, bz, cx, cy, cz);
    let px = by * cz - bz * cy;
    let py = bz * cx - bx * cz;
    let pz = bx * cy - by * cx;
    let qx = cy * az - cz * ay;
    let qy = cz * ax - cx * az;
    let qz = cx * ay - cy * ax;
    let rx = ay * bz - az * by;
    let ry = az * bx - ax * bz;
    let rz = ax * by - ay * bx;
    assert(pz * ax + qz * bx + rz * cx == 0) by (nonlinear_arith)
        requires
            (by * cx - bx * cy) * ax + (cy * ax - cx * ay) * bx + (ay * bx - ax * by) * cx == 0,
            pz == bx * cy - by * cx,
            qz == cx * ay - cy * ax,
            rz == ax * by - ay * bx,
    ;
    lemma_cramer_combined(ax, bx, cx, dx, dy, dz, px, py, pz, qx, qy, qz, rx, ry, rz, ay * py + az * pz);
}

/// Cramer's rule for three vectors: `(a . b x c) d = (d . b x c) a +
/// (d . c x a) b + (d . a x b) c`.
pub proof fn lemma_cramer(d: Vec3, a: Vec3, b: Vec3, c: Vec3)
    ensures
        a.triple(b, c) * d.x == d.triple(b, c) * a.x + d.triple(c, a) * b.x + d.triple(a, b) * c.x,
        a.triple(b, c) * d.y == d.triple(b, c) * a.y + d.triple(c, a) * b.y + d.triple(a, b) * c.y,
        a.triple(b, c) * d.z == d.triple(b, c) * a.z + d.triple(c, a) * b.z + d.triple(a, b) * c.z,
{
    lemma_cramer_component(a.x, a.y, a.z, b.x, b.y, b.z, c.x, c.y, c.z, d.x, d.y, d.z);
    lemma_cramer_component(a.y, a.z, a.x, b.y, b.z, b.x, c.y, c.z, c.x, d.y, d.z, d.x);
    lemma_cramer_component(a.z, a.x, a.y, b.z, b.x, b.y, c.z, c.x, c.y, d.z, d.x, d.y);
}

/// A triple product keeps its value when its factors move round in a circle.
pub proof fn lemma_triple_cyclic(a: Vec3, b: Vec3, c: Vec3)
    ensures
        a.triple(b, c) == b.triple(c, a),
{
    lemma_minor_times(b.y, c.z, b.z, c.y, a.x);
    lemma_minor_times(b.z, c.x, b.x, c.z, a.y);
    lemma_minor_times(b.x, c.y, b.y, c.x, a.z);
    lemma_minor_times(c.y, a.z, c.z, a.y, b.x);
    lemma_minor_times(c.z, a.x, c.x, a.z, b.y);
    lemma_minor_times(c.x, a.y, c.y, a.x, b.z);
    lemma_rotate(a.x, b.y, c.z);
    lemma_rotate(a.x, b.z, c.y);
    lemma_rotate(a.y, b.z, c.x);
    lemma_rotate(a.y, b.x, c.z);
    lemma_rotate(a.z, b.x, c.y);
    lemma_rotate(a.z, b.y, c.x);
}

proof fn lemma_weight_times(w: int, v: int, p: int)
    by (nonlinear_arith)
    ensures
        w * (v - p) == w * v - w * p,
{
}

/// Where the line of a ray meets the plane of a triangle.
///
/// The three weights `wa`, `wb`, `wc` that `crossing` looks at add up to
/// `dn = d . n`, and the point `p + (vol / dn) d` of the line is the
/// combination `(wa a + wb b + wc c) / dn` of the vertices. So where `dn` is
/// not zero the line meets the plane at the parameter `vol / dn`, in the point
/// with the barycentric coordinates `wa / dn`, `wb / dn`, `wc / dn`: ahead of
/// the origin where `vol` has the sign of `dn`, and strictly inside the
/// triangle where all three weights have it.
pub proof fn lemma_ray_meets_plane(p: Vec3, d: Vec3, t: Triangle)
    ensures
        ({
            let a = p.to(t.a@);
            let b = p.to(t.b@);
            let c = p.to(t.c@);
            let dn = d.dot(t.normal());
            let vol = a.triple(b, c);
            let wa = d.triple(b, c);
            let wb = d.triple(c, a);
            let wc = d.triple(a, b);
            &&& dn == wa + wb + wc
            &&& dn * p.x + vol * d.x == wa * t.a.x + wb * t.b.x + wc * t.c.x
            &&& dn * p.y + vol * d.y == wa * t.a.y + wb * t.b.y + wc * t.c.y
            &&& dn * p.z + vol * d.z == wa * t.a.z + wb * t.b.z + wc * t.c.z
        }),
{
    let a = p.to(t.a@);
    let b = p.to(t.b@);
    let c = p.to(t.c@);
    let n = t.normal();
    let bc = b.cross(c);
    let ca = c.cross(a);
    let ab = a.cross(b);
    let wa = d.triple(b, c);
    let wb = d.triple(c, a);
    let wc = d.triple(a, b);
    lemma_normal_from_any_point(p, t);
    lemma_sum_times(bc.x, ca.x, ab.x, d.x);
    lemma_sum_times(bc.y, ca.y, ab.y, d.y);
    lemma_sum_times(bc.z, ca.z, ab.z, d.z);
    assert(d.dot(n) == wa + wb + wc);
    lemma_cramer(d, a, b, c);
    lemma_sum_times(wa, wb, wc, p.x);
    lemma_sum_times(wa, wb, wc, p.y);
    lemma_sum_times(wa, wb, wc, p.z);
    lemma_weight_times(wa, t.a.x as int, p.x);
    lemma_weight_times(wb, t.b.x as int, p.x);
    lemma_weight_times(wc, t.c.x as int, p.x);
    lemma_weight_times(wa, t.a.y as int, p.y);
    lemma_weight_times(wb, t.b.y as int, p.y);
    lemma_weight_times(wc, t.c.y as int, p.y);
    lemma_weight_times(wa, t.a.z as int, p.z);
    lemma_weight_times(wb, t.b.z as int, p.z);
    lemma_weight_times(wc, t.c.z as int, p.z);
}

/// A ray hits a triangle exactly where the signed distance of its origin to
/// the plane and the three weights are all positive or all negative.
pub proof fn lemma_hit_by_signs(p: Vec3, d: Vec3, t: Triangle)
    ensures
        ({
            let a = p.to(t.a@);
            let b = p.to(t.b@);
            let c = p.to(t.c@);
            let vol = a.triple(b, c);
            let wa = d.triple(b, c);
            let wb = d.triple(c, a);
            let wc = d.triple(a, b);
            crossing(p, d, t) == Crossing::Hit <==> (vol > 0 && wa > 0 && wb > 0 && wc > 0) || (vol < 0 && wa < 0
                && wb < 0 && wc < 0)
        }),
{
    lemma_ray_meets_plane(p, d, t);
    let n = t.normal();
    if n.is_zero() {
        assert(d.dot(n) == 0) by (nonlinear_arith)
            requires
                d.dot(n) == d.x * n.x + d.y * n.y + d.z * n.z,
                n.x == 0 && n.y == 0 && n.z == 0,
        ;
    }
}

/// A point on a triangle is a combination of its vertices with weights of one
/// sign. Along each axis the three weights add up to the component of the
/// normal, none of them points against it, and the point, taken that many
/// times, is the sum of the vertices, each taken as often as its weight says.
/// The normal is not zero, so one axis at least gives weights that are
/// barycentric coordinates of the point.
pub proof fn lemma_point_on_triangle(p: Vec3, t: Triangle)
    requires
        on_triangle(p, t),
    ensures
        ({
            let a = p.to(t.a@);
            let b = p.to(t.b@);
            let c = p.to(t.c@);
            let n = t.normal();
            let wa = b.cross(c);
            let wb = c.cross(a);
            let wc = a.cross(b);
            &&& n.x == wa.x + wb.x + wc.x
            &&& n.y == wa.y + wb.y + wc.y
            &&& n.z == wa.z + wb.z + wc.z
            &&& n.x * p.x == wa.x * t.a.x + wb.x * t.b.x + wc.x * t.c.x
            &&& n.x * p.y == wa.x * t.a.y + wb.x * t.b.y + wc.x * t.c.y
            &&& n.x * p.z == wa.x * t.a.z + wb.x * t.b.z + wc.x * t.c.z
            &&& n.y * p.x == wa.y * t.a.x + wb.y * t.b.x + wc.y * t.c.x
            &&& n.y * p.y == wa.y * t.a.y + wb.y * t.b.y + wc.y * t.c.y
            &&& n.y * p.z == wa.y * t.a.z + wb.y * t.b.z + wc.y * t.c.z
            &&& n.z * p.x == wa.z * t.a.x + wb.z * t.b.x + wc.z * t.c.x
            &&& n.z * p.y == wa.z * t.a.y + wb.z * t.b.y + wc.z * t.c.y
            &&& n.z * p.z == wa.z * t.a.z + wb.z * t.b.z + wc.z * t.c.z
        }),
{
    let ex = Vec3 { x: 1, y: 0, z: 0 };
    let ey = Vec3 { x: 0, y: 1, z: 0 };
    let ez = Vec3 { x: 0, y: 0, z: 1 };
    lemma_ray_meets_plane(p, ex, t);
    lemma_ray_meets_plane(p, ey, t);
    lemma_ray_meets_plane(p, ez, t);
    lemma_normal_from_any_point(p, t);
}

proof fn lemma_negated_products(u: int, n: int)
    by (nonlinear_arith)
    ensures
        (-u) * (-n) == u * n,
        u * (-n) == -(u * n),
        (-u) * n == -(u * n),
{
}

/// Swapping the factors of a cross product negates it.
pub proof fn lemma_cross_swapped(u: Vec3, v: Vec3)
    ensures
        v.cross(u).x == -u.cross(v).x,
        v.cross(u).y == -u.cross(v).y,
        v.cross(u).z == -u.cross(v).z,
{
    assert(v.y * u.z == u.z * v.y && v.z * u.y == u.y * v.z) by (nonlinear_arith);
    assert(v.z * u.x == u.x * v.z && v.x * u.z == u.z * v.x) by (nonlinear_arith);
    assert(v.x * u.y == u.y * v.x && v.y * u.x == u.x * v.y) by (nonlinear_arith);
}

/// Swapping the last two factors of a triple product negates it.
pub proof fn lemma_triple_swapped(d: Vec3, u: Vec3, v: Vec3)
    ensures
        d.triple(v, u) == -d.triple(u, v),
{
    lemma_cross_swapped(u, v);
    lemma_negated_products(d.x, u.cross(v).x);
    lemma_negated_products(d.y, u.cross(v).y);
    lemma_negated_products(d.z, u.cross(v).z);
}

/// The same triangle with its vertices listed in the other sense.
pub open spec fn reversed(t: Triangle) -> Triangle {
    Triangle { a: t.a, b: t.c, c: t.b }
}

/// Neither predicate depends on the sense in which the vertices of a triangle
/// are listed: a mesh need not be oriented, and not consistently.
pub proof fn lemma_orientation_is_immaterial(p: Vec3, d: Vec3, t: Triangle)
    ensures
        crossing(p, d, reversed(t)) == crossing(p, d, t),
        on_triangle(p, reversed(t)) == on_triangle(p, t),
{
    let a = p.to(t.a@);
    let b = p.to(t.b@);
    let c = p.to(t.c@);
    let n = t.normal();
    let m = reversed(t).normal();
    lemma_cross_swapped(t.a@.to(t.b@), t.a@.to(t.c@));
    assert(m.x == -n.x && m.y == -n.y && m.z == -n.z);
    lemma_negated_products(d.x, n.x);
    lemma_negated_products(d.y, n.y);
    lemma_negated_products(d.z, n.z);
    assert(d.dot(m) == -d.dot(n));
    lemma_triple_swapped(a, b, c);
    lemma_triple_swapped(d, b, c);
    lemma_triple_swapped(d, a, b);
    lemma_triple_swapped(d, c, a);
    lemma_cross_swapped(b, c);
    lemma_cross_swapped(a, b);
    lemma_cross_swapped(c, a);
    lemma_negated_products(b.cross(c).x, n.x);
    lemma_negated_products(b.cross(c).y, n.y);
    lemma_negated_products(b.cross(c).z, n.z);
    lemma_negated_products(c.cross(a).x, n.x);
    lemma_negated_products(c.cross(a).y, n.y);
    lemma_negated_products(c.cross(a).z, n.z);
    lemma_negated_products(a.cross(b).x, n.x);
    lemma_negated_products(a.cross(b).y, n.y);
    lemma_negated_products(a.cross(b).z, n.z);
}

/// The largest magnitude of a difference of two coordinates.
pub open spec fn span() -> int {
    0x1_0000_0000
}

/// The largest magnitude of a component of a ray direction: what 128 bits
/// leave for it beside the cross product of two differences.
pub open spec fn reach() -> int {
    0x1000_0000_0000_0000
}

/// The largest magnitude of a component of a cross product of two such vectors.
pub open spec fn area() -> int {
    0x2_0000_0000_0000_0000
}

/// The largest magnitude of a dot product of a vector of the first kind with one
/// of the second.
pub open spec fn volume() -> int {
    0x6_0000_0000_0000_0000_0000_0000
}

/// A vector whose components are wide enough for products of differences.
#[derive(Clone, Copy, Debug)]
pub struct Wide {
    pub x: i128,
    pub y: i128,
    pub z: i128,
}

impl View for Wide {
    type V = Vec3;

    open spec fn view(&self) -> Vec3 {
        Vec3 { x: self.x as int, y: self.y as int, z: self.z as int }
    }
}

/// The product of two bounded integers is bounded by the product of the bounds.
pub proof fn lemma_product_within(a: int, b: int, ma: int, mb: int)
    by (nonlinear_arith)
    requires
        -ma <= a <= ma,
        -mb <= b <= mb,
    ensures
        -(ma * mb) <= a * b <= ma * mb,
{
}

proof fn lemma_product_sign(a: int, b: int)
    by (nonlinear_arith)
    ensures
        (a * b >= 0) <==> !((a > 0 && b < 0) || (a < 0 && b > 0)),
{
}

/// The displacement from `p` to `q`.
pub fn offset(p: &Point, q: &Point) -> (r: Wide)
    ensures
        r@ == p@.to(q@),
        r@.within(span()),
{
    Wide {
        x: q.x as i128 - p.x as i128,
        y: q.y as i128 - p.y as i128,
        z: q.z as i128 - p.z as i128,
    }
}

fn cross_wide(u: &Wide, v: &Wide) -> (r: Wide)
    requires
        u@.within(span()),
        v@.within(span()),
    ensures
        r@ == u@.cross(v@),
        r@.within(area()),
{
    proof {
        lemma_product_within(u.y as int, v.z as int, span(), span());
        lemma_product_within(u.z as int, v.y as int, span(), span());
        lemma_product_within(u.z as int, v.x as int, span(), span());
        lemma_product_within(u.x as int, v.z as int, span(), span());
        lemma_product_within(u.x as int, v.y as int, span(), span());
        lemma_product_within(u.y as int, v.x as int, span(), span());
        assert(span() * span() == 0x1_0000_0000_0000_0000);
    }
    Wide {
        x: u.y * v.z - u.z * v.y,
        y: u.z * v.x - u.x * v.z,
        z: u.x * v.y - u.y * v.x,
    }
}

fn dot_wide(u: &Wide, v: &Wide) -> (r: i128)
    requires
        u@.within(span()),
        v@.within(area()),
    ensures
        r == u@.dot(v@),
        -volume() <= r <= volume(),
{
    proof {
        lemma_product_within(u.x as int, v.x as int, span(), area());
        lemma_product_within(u.y as int, v.y as int, span(), area());
        lemma_product_within(u.z as int, v.z as int, span(), area());
        assert(span() * area() == 0x2_0000_0000_0000_0000_0000_0000);
    }
    u.x * v.x + u.y * v.y + u.z * v.z
}

fn dot_aimed(d: &Wide, v: &Wide) -> (r: i128)
    requires
        d@.within(reach()),
        v@.within(area()),
    ensures
        r == d@.dot(v@),
        -0x6000_0000_0000_0000_0000_0000_0000_0000 <= r <= 0x6000_0000_0000_0000_0000_0000_0000_0000,
{
    proof {
        lemma_product_within(d.x as int, v.x as int, reach(), area());
        lemma_product_within(d.y as int, v.y as int, reach(), area());
        lemma_product_within(d.z as int, v.z as int, reach(), area());
        assert(reach() * area() == 0x2000_0000_0000_0000_0000_0000_0000_0000);
    }
    d.x * v.x + d.y * v.y + d.z * v.z
}

fn along_wide(u: &Wide, n: &Wide) -> (r: bool)
    ensures
        r == along(u@, n@),
{
    proof {
        lemma_product_sign(u.x as int, n.x as int);
        lemma_product_sign(u.y as int, n.y as int);
        lemma_product_sign(u.z as int, n.z as int);
    }
    !((u.x > 0 && n.x < 0) || (u.x < 0 && n.x > 0))
        && !((u.y > 0 && n.y < 0) || (u.y < 0 && n.y > 0))
        && !((u.z > 0 && n.z < 0) || (u.z < 0 && n.z > 0))
}

fn normal_wide(t: &Triangle) -> (n: Wide)
    ensures
        n@ == t.normal(),
        n@.within(area()),
{
    let ab = offset(&t.a, &t.b);
    let ac = offset(&t.a, &t.c);
    cross_wide(&ab, &ac)
}

/// Whether `p` lies on `t`.
pub fn touches(p: &Point, t: &Triangle) -> (r: bool)
    ensures
        r == on_triangle(p@, *t),
{
    let n = normal_wide(t);
    if n.x == 0 && n.y == 0 && n.z == 0 {
        return false;
    }
    let a = offset(p, &t.a);
    let b = offset(p, &t.b);
    let c = offset(p, &t.c);
    let bc = cross_wide(&b, &c);
    let vol: i128 = dot_wide(&a, &bc);
    if vol != 0 {
        return false;
    }
    let ca = cross_wide(&c, &a);
    let ab = cross_wide(&a, &b);
    along_wide(&bc, &n) && along_wide(&ca, &n) && along_wide(&ab, &n)
}

fn pierce_wide(vol: i128, wa: i128, wb: i128, wc: i128) -> (r: Crossing)
    ensures
        r == pierce(vol as int, wa as int, wb as int, wc as int),
{
    if vol <= 0 || wa < 0 || wb < 0 || wc < 0 {
        Crossing::Miss
    } else if wa > 0 && wb > 0 && wc > 0 {
        Crossing::Hit
    } else {
        Crossing::Graze
    }
}

/// How the ray from `p` in direction `d` meets `t`.
pub fn cross_triangle(p: &Point, d: &Wide, t: &Triangle) -> (r: Crossing)
    requires
        d@.within(reach()),
    ensures
        r == crossing(p@, d@, *t),
{
    let n = normal_wide(t);
    if n.x == 0 && n.y == 0 && n.z == 0 {
        return Crossing::Miss;
    }
    let a = offset(p, &t.a);
    let b = offset(p, &t.b);
    let c = offset(p, &t.c);
    let bc = cross_wide(&b, &c);
    let dn: i128 = dot_aimed(d, &n);
    let vol: i128 = dot_wide(&a, &bc);
    if dn == 0 {
        return if vol == 0 { Crossing::Graze } else { Crossing::Miss };
    }
    let ca = cross_wide(&c, &a);
    let ab = cross_wide(&a, &b);
    let wa: i128 = dot_aimed(d, &bc);
    let wb: i128 = dot_aimed(d, &ca);
    let wc: i128 = dot_aimed(d, &ab);
    if dn > 0 {
        pierce_wide(vol, wa, wb, wc)
    } else {
        pierce_wide(-vol, -wa, -wb, -wc)
    }
}

} // verus!

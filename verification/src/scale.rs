//! The unit of the lattice is immaterial to classification.
//!
//! Every predicate compares a determinant with zero, and a change of unit
//! multiplies each determinant by a positive factor. So no tolerance has to be
//! fitted to the size of a mesh: a mesh and a point that are stretched by the
//! same factor are classified as before.

use vstd::prelude::*;
use crate::classify::{attempts, cast, classification, direction, grazes, hits, on_surface};
use crate::geometry::{BoundingBox, Triangle, Vec3};
use crate::ray::{Crossing, along, crossing, on_triangle};

verus! {

/// `v` stretched by the factor `k`.
pub open spec fn stretched(v: Vec3, k: int) -> Vec3 {
    Vec3 { x: k * v.x, y: k * v.y, z: k * v.z }
}

/// `u` is `t` stretched by the factor `k`.
pub open spec fn stretched_triangle(t: Triangle, k: int, u: Triangle) -> bool {
    u.a@ == stretched(t.a@, k) && u.b@ == stretched(t.b@, k) && u.c@ == stretched(t.c@, k)
}

/// `us` lists the triangles of `ts`, each stretched by the factor `k`.
pub open spec fn stretched_triangles(ts: Seq<Triangle>, k: int, us: Seq<Triangle>) -> bool {
    &&& us.len() == ts.len()
    &&& forall|i: int| 0 <= i < ts.len() ==> stretched_triangle(#[trigger] ts[i], k, us[i])
}

/// `c` is `b` stretched by the factor `k`.
pub open spec fn stretched_box(b: BoundingBox, k: int, c: BoundingBox) -> bool {
    c.min@ == stretched(b.min@, k) && c.max@ == stretched(b.max@, k)
}

proof fn lemma_factor_out(k: int, x: int, y: int)
    by (nonlinear_arith)
    ensures
        k * y - k * x == k * (y - x),
{
}

proof fn lemma_square_out(j: int, k: int, x: int, y: int)
    by (nonlinear_arith)
    ensures
        (j * x) * (k * y) == (j * k) * (x * y),
{
}

proof fn lemma_factor_in(s: int, x: int, y: int, z: int)
    by (nonlinear_arith)
    ensures
        s * x + s * y + s * z == s * (x + y + z),
        s * x - s * y == s * (x - y),
{
}

proof fn lemma_regrouped(d: int, s: int, w: int)
    by (nonlinear_arith)
    ensures
        d * (s * w) == s * (d * w),
{
}

proof fn lemma_sign_kept(s: int, w: int)
    by (nonlinear_arith)
    requires
        s > 0,
    ensures
        s * w > 0 <==> w > 0,
        s * w < 0 <==> w < 0,
        s * w == 0 <==> w == 0,
        s * s > 0,
{
}

proof fn lemma_stretched_difference(p: Vec3, q: Vec3, k: int)
    ensures
        stretched(p, k).to(stretched(q, k)) == stretched(p.to(q), k),
{
    lemma_factor_out(k, p.x, q.x);
    lemma_factor_out(k, p.y, q.y);
    lemma_factor_out(k, p.z, q.z);
}

proof fn lemma_stretched_cross(u: Vec3, v: Vec3, k: int)
    ensures
        stretched(u, k).cross(stretched(v, k)) == stretched(u.cross(v), k * k),
{
    lemma_square_out(k, k, u.y, v.z);
    lemma_square_out(k, k, u.z, v.y);
    lemma_square_out(k, k, u.z, v.x);
    lemma_square_out(k, k, u.x, v.z);
    lemma_square_out(k, k, u.x, v.y);
    lemma_square_out(k, k, u.y, v.x);
    lemma_factor_in(k * k, u.y * v.z, u.z * v.y, 0);
    lemma_factor_in(k * k, u.z * v.x, u.x * v.z, 0);
    lemma_factor_in(k * k, u.x * v.y, u.y * v.x, 0);
}

proof fn lemma_stretched_dot(d: Vec3, v: Vec3, s: int)
    ensures
        d.dot(stretched(v, s)) == s * d.dot(v),
{
    lemma_regrouped(d.x, s, v.x);
    lemma_regrouped(d.y, s, v.y);
    lemma_regrouped(d.z, s, v.z);
    lemma_factor_in(s, d.x * v.x, d.y * v.y, d.z * v.z);
}

proof fn lemma_stretched_along(u: Vec3, n: Vec3, s: int)
    requires
        s > 0,
    ensures
        along(stretched(u, s), stretched(n, s)) == along(u, n),
{
    lemma_square_out(s, s, u.x, n.x);
    lemma_square_out(s, s, u.y, n.y);
    lemma_square_out(s, s, u.z, n.z);
    lemma_sign_kept(s, 0);
    lemma_sign_kept(s * s, u.x * n.x);
    lemma_sign_kept(s * s, u.y * n.y);
    lemma_sign_kept(s * s, u.z * n.z);
}

/// Stretching a point and a triangle by the same positive factor changes
/// neither how a ray from the point meets the triangle nor whether the point
/// lies on it.
pub proof fn lemma_stretched_triangle(p: Vec3, d: Vec3, t: Triangle, k: int, u: Triangle)
    requires
        k > 0,
        stretched_triangle(t, k, u),
    ensures
        crossing(stretched(p, k), d, u) == crossing(p, d, t),
        on_triangle(stretched(p, k), u) == on_triangle(p, t),
{
    let q = stretched(p, k);
    let a = p.to(t.a@);
    let b = p.to(t.b@);
    let c = p.to(t.c@);
    let n = t.normal();
    let s = k * k;
    lemma_sign_kept(k, 0);
    lemma_sign_kept(k, k);
    lemma_stretched_difference(p, t.a@, k);
    lemma_stretched_difference(p, t.b@, k);
    lemma_stretched_difference(p, t.c@, k);
    lemma_stretched_difference(t.a@, t.b@, k);
    lemma_stretched_difference(t.a@, t.c@, k);
    lemma_stretched_cross(t.a@.to(t.b@), t.a@.to(t.c@), k);
    assert(u.normal() == stretched(n, s));
    lemma_stretched_cross(b, c, k);
    lemma_stretched_cross(c, a, k);
    lemma_stretched_cross(a, b, k);
    lemma_stretched_dot(d, n, s);
    lemma_stretched_dot(d, b.cross(c), s);
    lemma_stretched_dot(d, c.cross(a), s);
    lemma_stretched_dot(d, a.cross(b), s);
    lemma_stretched_dot(stretched(a, k), b.cross(c), s);
    assert(stretched(a, k).dot(b.cross(c)) == k * a.dot(b.cross(c))) by {
        lemma_square_out(k, 1, a.x, b.cross(c).x);
        lemma_square_out(k, 1, a.y, b.cross(c).y);
        lemma_square_out(k, 1, a.z, b.cross(c).z);
        lemma_factor_in(k, a.x * b.cross(c).x, a.y * b.cross(c).y, a.z * b.cross(c).z);
    }
    let vol = a.triple(b, c);
    let wa = d.triple(b, c);
    let wb = d.triple(c, a);
    let wc = d.triple(a, b);
    let dn = d.dot(n);
    assert(q.to(u.a@).triple(q.to(u.b@), q.to(u.c@)) == s * (k * vol));
    assert(d.triple(q.to(u.b@), q.to(u.c@)) == s * wa);
    assert(d.triple(q.to(u.c@), q.to(u.a@)) == s * wb);
    assert(d.triple(q.to(u.a@), q.to(u.b@)) == s * wc);
    assert(d.dot(u.normal()) == s * dn);
    lemma_sign_kept(s, n.x);
    lemma_sign_kept(s, n.y);
    lemma_sign_kept(s, n.z);
    lemma_sign_kept(s, dn);
    lemma_sign_kept(k, vol);
    lemma_sign_kept(s, k * vol);
    lemma_sign_kept(s, wa);
    lemma_sign_kept(s, wb);
    lemma_sign_kept(s, wc);
    lemma_stretched_along(b.cross(c), n, s);
    lemma_stretched_along(c.cross(a), n, s);
    lemma_stretched_along(a.cross(b), n, s);
}

proof fn lemma_stretched_hits(ts: Seq<Triangle>, us: Seq<Triangle>, p: Vec3, d: Vec3, k: int)
    requires
        k > 0,
        stretched_triangles(ts, k, us),
    ensures
        hits(us, stretched(p, k), d) == hits(ts, p, d),
    decreases ts.len(),
{
    if ts.len() > 0 {
        assert(stretched_triangles(ts.drop_last(), k, us.drop_last())) by {
            assert forall|i: int| 0 <= i < ts.drop_last().len() implies stretched_triangle(
                #[trigger] ts.drop_last()[i],
                k,
                us.drop_last()[i],
            ) by {
                assert(stretched_triangle(ts[i], k, us[i]));
            }
        }
        lemma_stretched_hits(ts.drop_last(), us.drop_last(), p, d, k);
        assert(stretched_triangle(ts[ts.len() - 1], k, us[ts.len() - 1]));
        lemma_stretched_triangle(p, d, ts.last(), k, us.last());
    }
}

proof fn lemma_stretched_ray(ts: Seq<Triangle>, us: Seq<Triangle>, p: Vec3, d: Vec3, k: int)
    requires
        k > 0,
        stretched_triangles(ts, k, us),
    ensures
        hits(us, stretched(p, k), d) == hits(ts, p, d),
        grazes(us, stretched(p, k), d) == grazes(ts, p, d),
        on_surface(us, stretched(p, k)) == on_surface(ts, p),
{
    lemma_stretched_hits(ts, us, p, d, k);
    assert forall|i: int| 0 <= i < ts.len() implies crossing(stretched(p, k), d, us[i]) == crossing(p, d, ts[i])
        && on_triangle(stretched(p, k), us[i]) == on_triangle(p, ts[i]) by {
        assert(stretched_triangle(ts[i], k, us[i]));
        lemma_stretched_triangle(p, d, ts[i], k, us[i]);
    }
    if grazes(ts, p, d) {
        let i = choose|i: int| 0 <= i < ts.len() && crossing(p, d, #[trigger] ts[i]) == Crossing::Graze;
        assert(crossing(stretched(p, k), d, us[i]) == Crossing::Graze);
    }
    if grazes(us, stretched(p, k), d) {
        let i = choose|i: int|
            0 <= i < us.len() && crossing(stretched(p, k), d, #[trigger] us[i]) == Crossing::Graze;
        assert(crossing(p, d, ts[i]) == Crossing::Graze);
    }
    if on_surface(ts, p) {
        let i = choose|i: int| 0 <= i < ts.len() && on_triangle(p, #[trigger] ts[i]);
        assert(on_triangle(stretched(p, k), us[i]));
    }
    if on_surface(us, stretched(p, k)) {
        let i = choose|i: int| 0 <= i < us.len() && on_triangle(stretched(p, k), #[trigger] us[i]);
        assert(on_triangle(p, ts[i]));
    }
}

proof fn lemma_stretched_cast(ts: Seq<Triangle>, us: Seq<Triangle>, p: Vec3, k: int, attempt: nat)
    requires
        k > 0,
        stretched_triangles(ts, k, us),
    ensures
        cast(us, stretched(p, k), attempt) == cast(ts, p, attempt),
    decreases attempts(ts) - attempt,
{
    lemma_stretched_ray(ts, us, p, direction(attempt as int), k);
    if attempt < attempts(ts) {
        lemma_stretched_cast(ts, us, p, k, attempt + 1);
    }
}

/// A mesh, its box and a point that are all stretched by the same positive
/// factor are classified as they were before.
pub proof fn lemma_scale_is_immaterial(
    triangles: Seq<Triangle>,
    bounds: BoundingBox,
    p: Vec3,
    k: int,
    stretched_mesh: Seq<Triangle>,
    stretched_bounds: BoundingBox,
)
    requires
        k > 0,
        stretched_triangles(triangles, k, stretched_mesh),
        stretched_box(bounds, k, stretched_bounds),
    ensures
        classification(stretched_mesh, stretched_bounds, stretched(p, k)) == classification(triangles, bounds, p),
{
    lemma_factor_out(k, bounds.min.x as int, p.x);
    lemma_factor_out(k, bounds.min.y as int, p.y);
    lemma_factor_out(k, bounds.min.z as int, p.z);
    lemma_factor_out(k, p.x, bounds.max.x as int);
    lemma_factor_out(k, p.y, bounds.max.y as int);
    lemma_factor_out(k, p.z, bounds.max.z as int);
    lemma_sign_kept(k, p.x - bounds.min.x);
    lemma_sign_kept(k, p.y - bounds.min.y);
    lemma_sign_kept(k, p.z - bounds.min.z);
    lemma_sign_kept(k, bounds.max.x - p.x);
    lemma_sign_kept(k, bounds.max.y - p.y);
    lemma_sign_kept(k, bounds.max.z - p.z);
    assert(stretched_bounds.encloses(stretched(p, k)) == bounds.encloses(p));
    lemma_stretched_ray(triangles, stretched_mesh, p, direction(0), k);
    lemma_stretched_cast(triangles, stretched_mesh, p, k, 0);
}

} // verus!

//! Among the ray directions that a mesh is given, one grazes no triangle.
//!
//! A ray from a point grazes a triangle only if it lies in the plane of the
//! triangle or in the plane through the point and one of the three edges. The
//! directions lie on a curve that meets no plane through the origin more than
//! twice. So each triangle spoils eight directions at most, and a mesh of `n`
//! triangles leaves one of any `8 n + 1` directions clear.

use vstd::prelude::*;
use vstd::set_lib::{lemma_int_range, lemma_len_subset, lemma_len_union, set_int_range};
use crate::classify::{DRIFT, attempts, direction, grazes};
use crate::geometry::{Triangle, Vec3};
use crate::ray::{Crossing, crossing, lemma_triple_cyclic};

verus! {

/// The normal of one of the four planes through `p` in which a ray from `p`
/// can graze `t`: the plane of the triangle for 0, and for 1, 2 and 3 the
/// plane through `p` and the edge opposite to the first, second and third
/// vertex.
pub open spec fn grazing_normal(p: Vec3, t: Triangle, which: int) -> Vec3 {
    let a = p.to(t.a@);
    let b = p.to(t.b@);
    let c = p.to(t.c@);
    if which == 0 {
        t.normal()
    } else if which == 1 {
        b.cross(c)
    } else if which == 2 {
        c.cross(a)
    } else {
        a.cross(b)
    }
}

/// The direction `d` lies in the plane `which` of `t`, and that plane is one.
pub open spec fn lies_in(p: Vec3, d: Vec3, t: Triangle, which: int) -> bool {
    !grazing_normal(p, t, which).is_zero() && d.dot(grazing_normal(p, t, which)) == 0
}

proof fn lemma_dot_with_zero(u: Vec3, v: Vec3)
    requires
        v.is_zero(),
    ensures
        u.dot(v) == 0,
{
    assert(u.x * 0 == 0 && u.y * 0 == 0 && u.z * 0 == 0);
}

/// A ray that grazes a triangle lies in one of its four planes.
pub proof fn lemma_graze_lies_in_a_plane(p: Vec3, d: Vec3, t: Triangle)
    requires
        crossing(p, d, t) == Crossing::Graze,
    ensures
        lies_in(p, d, t, 0) || lies_in(p, d, t, 1) || lies_in(p, d, t, 2) || lies_in(p, d, t, 3),
{
    let a = p.to(t.a@);
    let b = p.to(t.b@);
    let c = p.to(t.c@);
    let n = t.normal();
    if d.dot(n) != 0 {
        let vol = a.triple(b, c);
        assert(vol != 0);
        lemma_triple_cyclic(a, b, c);
        lemma_triple_cyclic(b, c, a);
        if b.cross(c).is_zero() {
            lemma_dot_with_zero(a, b.cross(c));
        }
        if c.cross(a).is_zero() {
            lemma_dot_with_zero(b, c.cross(a));
        }
        if a.cross(b).is_zero() {
            lemma_dot_with_zero(c, a.cross(b));
        }
        assert(d.triple(b, c) == 0 || d.triple(c, a) == 0 || d.triple(a, b) == 0);
    }
}

proof fn lemma_difference_of_offsets(j: int, k: int)
    by (nonlinear_arith)
    ensures
        j * (j + 1) - k * (k + 1) == (j - k) * (j + k + 1),
{
}

proof fn lemma_common_factor(f: int, y: int, g: int, z: int)
    by (nonlinear_arith)
    ensures
        f * y + (f * g) * z == f * (y + g * z),
{
}

proof fn lemma_zero_product(f: int, v: int)
    by (nonlinear_arith)
    requires
        f * v == 0,
        f != 0,
    ensures
        v == 0,
{
}

proof fn lemma_line_through(j: int, k: int, x: int, y: int, z: int)
    requires
        j != k,
        x + j * y + (j * (j + 1)) * z == 0,
        x + k * y + (k * (k + 1)) * z == 0,
    ensures
        y + (j + k + 1) * z == 0,
{
    lemma_difference_of_offsets(j, k);
    assert((j - k) * y + ((j - k) * (j + k + 1)) * z == 0) by (nonlinear_arith)
        requires
            x + j * y + (j * (j + 1)) * z == 0,
            x + k * y + (k * (k + 1)) * z == 0,
            j * (j + 1) - k * (k + 1) == (j - k) * (j + k + 1),
    ;
    lemma_common_factor(j - k, y, j + k + 1, z);
    lemma_zero_product(j - k, y + (j + k + 1) * z);
}

/// No plane through the origin holds three of the directions: a vector that is
/// at right angles to three of them is zero.
pub proof fn lemma_three_directions_span_space(m: Vec3, k1: int, k2: int, k3: int)
    requires
        k1 != k2 && k2 != k3 && k1 != k3,
        direction(k1).dot(m) == 0,
        direction(k2).dot(m) == 0,
        direction(k3).dot(m) == 0,
    ensures
        m.is_zero(),
{
    let x = DRIFT * m.x;
    lemma_line_through(k1, k2, x, m.y, m.z);
    lemma_line_through(k1, k3, x, m.y, m.z);
    assert((k2 - k3) * m.z == 0) by (nonlinear_arith)
        requires
            m.y + (k1 + k2 + 1) * m.z == 0,
            m.y + (k1 + k3 + 1) * m.z == 0,
    ;
    lemma_zero_product(k2 - k3, m.z);
    assert((k1 + k2 + 1) * m.z == 0 && (k1 * (k1 + 1)) * m.z == 0) by (nonlinear_arith)
        requires
            m.z == 0,
    ;
    assert(k1 * m.y == 0) by (nonlinear_arith)
        requires
            m.y == 0,
    ;
}

/// No three arguments of `f` below `count` have the same value.
spec fn spread(f: spec_fn(int) -> int, count: int) -> bool {
    forall|k1: int, k2: int, k3: int|
        0 <= k1 < k2 < k3 < count ==> !(#[trigger] f(k1) == #[trigger] f(k2) && f(k2) == #[trigger] f(k3))
}

spec fn cell(f: spec_fn(int) -> int, count: int, c: int) -> Set<int> {
    Set::new(|k: int| 0 <= k < count && f(k) == c)
}

spec fn below(f: spec_fn(int) -> int, count: int, c: int) -> Set<int> {
    Set::new(|k: int| 0 <= k < count && 0 <= f(k) < c)
}

proof fn lemma_cell_is_small(f: spec_fn(int) -> int, count: int, c: int)
    requires
        0 <= count,
        spread(f, count),
    ensures
        cell(f, count, c).finite(),
        cell(f, count, c).len() <= 2,
{
    let s = cell(f, count, c);
    lemma_int_range(0, count);
    assert(s.subset_of(set_int_range(0, count)));
    lemma_len_subset(s, set_int_range(0, count));
    if s.len() >= 3 {
        let x = s.choose();
        let s1 = s.remove(x);
        let y = s1.choose();
        let s2 = s1.remove(y);
        let z = s2.choose();
        assert(s.contains(x) && s1.contains(y) && s2.contains(z));
        assert(x != y && y != z && x != z);
        let lo = if x < y && x < z { x } else if y < z { y } else { z };
        let hi = if x > y && x > z { x } else if y > z { y } else { z };
        let mid = x + y + z - lo - hi;
        assert(0 <= lo < mid < hi < count);
        assert(f(lo) == c && f(mid) == c && f(hi) == c);
        assert(false);
    }
}

proof fn lemma_below_is_small(f: spec_fn(int) -> int, count: int, c: int)
    requires
        0 <= count,
        0 <= c,
        spread(f, count),
    ensures
        below(f, count, c).finite(),
        below(f, count, c).len() <= 2 * c,
    decreases c,
{
    if c == 0 {
        assert(below(f, count, c) =~= Set::<int>::empty());
    } else {
        lemma_below_is_small(f, count, c - 1);
        lemma_cell_is_small(f, count, c - 1);
        assert(below(f, count, c) =~= below(f, count, c - 1).union(cell(f, count, c - 1)));
        lemma_len_union(below(f, count, c - 1), cell(f, count, c - 1));
    }
}

/// Where more than twice as many arguments as there are values are mapped,
/// three of them get the same value.
proof fn lemma_crowded(f: spec_fn(int) -> int, count: int, cells: int)
    requires
        0 <= cells,
        count > 2 * cells,
        forall|k: int| 0 <= k < count ==> 0 <= #[trigger] f(k) < cells,
    ensures
        !spread(f, count),
{
    if spread(f, count) {
        lemma_below_is_small(f, count, cells);
        lemma_int_range(0, count);
        assert(below(f, count, cells) =~= set_int_range(0, count));
    }
}

/// The direction `k` lies in the plane `c % 4` of the triangle `c / 4`.
spec fn spoils(triangles: Seq<Triangle>, p: Vec3, c: int, k: int) -> bool {
    0 <= c < 4 * triangles.len() && lies_in(p, direction(k), triangles[c / 4], c % 4)
}

/// A plane in which the direction `k` lies, if it lies in one.
spec fn spoiler(triangles: Seq<Triangle>, p: Vec3, k: int) -> int {
    choose|c: int| spoils(triangles, p, c, k)
}

proof fn lemma_grazing_is_spoiled(triangles: Seq<Triangle>, p: Vec3, k: int)
    requires
        grazes(triangles, p, direction(k)),
    ensures
        spoils(triangles, p, spoiler(triangles, p, k), k),
{
    let i = choose|i: int| 0 <= i < triangles.len() && crossing(p, direction(k), #[trigger] triangles[i]) == Crossing::Graze;
    lemma_graze_lies_in_a_plane(p, direction(k), triangles[i]);
    let which: int = if lies_in(p, direction(k), triangles[i], 0) {
        0
    } else if lies_in(p, direction(k), triangles[i], 1) {
        1
    } else if lies_in(p, direction(k), triangles[i], 2) {
        2
    } else {
        3
    };
    let c = 4 * i + which;
    assert(c / 4 == i && c % 4 == which);
    assert(spoils(triangles, p, c, k));
}

/// One of the directions of a mesh grazes none of its triangles, from
/// whatever point the rays are cast.
pub proof fn lemma_clear_direction_exists(triangles: Seq<Triangle>, p: Vec3)
    ensures
        exists|k: int| 0 <= k < attempts(triangles) && !grazes(triangles, p, #[trigger] direction(k)),
{
    let count = attempts(triangles) as int;
    let cells = 4 * triangles.len() as int;
    if forall|k: int| 0 <= k < count ==> grazes(triangles, p, #[trigger] direction(k)) {
        let f = |k: int| spoiler(triangles, p, k);
        assert forall|k: int| 0 <= k < count implies 0 <= #[trigger] f(k) < cells by {
            assert(grazes(triangles, p, direction(k)));
            lemma_grazing_is_spoiled(triangles, p, k);
        }
        lemma_crowded(f, count, cells);
        let (k1, k2, k3) = choose|k1: int, k2: int, k3: int|
            0 <= k1 < k2 < k3 < count && #[trigger] f(k1) == #[trigger] f(k2) && f(k2) == #[trigger] f(k3);
        assert(grazes(triangles, p, direction(k1)));
        assert(grazes(triangles, p, direction(k2)));
        assert(grazes(triangles, p, direction(k3)));
        lemma_grazing_is_spoiled(triangles, p, k1);
        lemma_grazing_is_spoiled(triangles, p, k2);
        lemma_grazing_is_spoiled(triangles, p, k3);
        let c = f(k1);
        let m = grazing_normal(p, triangles[c / 4], c % 4);
        lemma_three_directions_span_space(m, k1, k2, k3);
    }
}

} // verus!

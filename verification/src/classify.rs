//! Containment of a point in a mesh: a bounding-box test, then ray casting
//! with a parity rule.

use vstd::prelude::*;
use crate::clear::lemma_clear_direction_exists;
use crate::geometry::{BoundingBox, MAX_TRIANGLES, Mesh, Point, Triangle, Vec3, within_bounds};
use crate::ray::{Crossing, Wide, cross_triangle, crossing, on_triangle, reach, touches};

verus! {

/// Where a point lies with respect to a mesh.
#[derive(Clone, Copy, Debug, PartialEq, Eq, Structural)]
pub enum Classification {
    Outside,
    Inside,
    OnBoundary,
}

impl Classification {
    /// The integer code under which a classification is stored in a volume.
    pub open spec fn code_of(self) -> u8 {
        match self {
            Classification::Outside => 0,
            Classification::Inside => 1,
            Classification::OnBoundary => 2,
        }
    }

    /// The integer code of this classification.
    pub fn code(&self) -> (c: u8)
        ensures
            c == self.code_of(),
    {
        match self {
            Classification::Outside => 0,
            Classification::Inside => 1,
            Classification::OnBoundary => 2,
        }
    }

    /// The classification that `code` stands for, if it stands for one.
    pub fn from_code(code: u8) -> (r: Option<Classification>)
        ensures
            match r {
                Some(c) => c.code_of() == code,
                None => code > 2,
            },
    {
        if code == 0 {
            Some(Classification::Outside)
        } else if code == 1 {
            Some(Classification::Inside)
        } else if code == 2 {
            Some(Classification::OnBoundary)
        } else {
            None
        }
    }
}

/// The first component of every ray direction. It is large beside the first
/// offsets, so that the first retries leave the x axis by little.
pub const DRIFT: i128 = 0x10_0000;

/// The `k`-th ray direction. The first is the positive x axis; each later one
/// is nudged off it by a fixed offset. No plane through the origin holds more
/// than two of them (`lemma_three_directions_span_space`).
pub open spec fn direction(k: int) -> Vec3 {
    Vec3 { x: DRIFT as int, y: k, z: k * (k + 1) }
}

/// How many ray directions a mesh is given: eight for each triangle and one
/// more. A ray grazes a triangle only in one of four planes, each plane holds
/// two of the directions at most, so one of these directions grazes nothing
/// (`lemma_clear_direction_exists`).
pub open spec fn attempts(triangles: Seq<Triangle>) -> nat {
    8 * triangles.len() + 1
}

/// `p` lies on one of the triangles.
pub open spec fn on_surface(triangles: Seq<Triangle>, p: Vec3) -> bool {
    exists|i: int| 0 <= i < triangles.len() && on_triangle(p, #[trigger] triangles[i])
}

/// The ray from `p` in direction `d` grazes one of the triangles.
pub open spec fn grazes(triangles: Seq<Triangle>, p: Vec3, d: Vec3) -> bool {
    exists|i: int| 0 <= i < triangles.len() && crossing(p, d, #[trigger] triangles[i]) == Crossing::Graze
}

/// The number of triangles that the ray from `p` in direction `d` hits.
pub open spec fn hits(triangles: Seq<Triangle>, p: Vec3, d: Vec3) -> nat
    decreases triangles.len(),
{
    if triangles.len() == 0 {
        0
    } else {
        let rest = hits(triangles.drop_last(), p, d);
        if crossing(p, d, triangles.last()) == Crossing::Hit {
            rest + 1
        } else {
            rest
        }
    }
}

/// The verdict of ray casting from the `k`-th direction on: the parity of the
/// hits along the first direction that grazes no triangle, an odd count
/// meaning inside. Among the directions of the mesh there is such a one.
pub open spec fn cast(triangles: Seq<Triangle>, p: Vec3, k: nat) -> Classification
    decreases attempts(triangles) - k,
{
    if k < attempts(triangles) && grazes(triangles, p, direction(k as int)) {
        cast(triangles, p, k + 1)
    } else if hits(triangles, p, direction(k as int)) % 2 == 1 {
        Classification::Inside
    } else {
        Classification::Outside
    }
}

/// Where `p` lies with respect to the triangles, whose bounding box is
/// `bounds`. A point that is not strictly inside the box is outside, whatever
/// the triangles are; so a point on a face of the box is outside even where
/// the surface touches that face. Any other point that lies on a triangle is
/// on the boundary, and no other point is; the rest are decided by ray
/// casting.
pub open spec fn classification(triangles: Seq<Triangle>, bounds: BoundingBox, p: Vec3) -> Classification {
    if !bounds.encloses(p) {
        Classification::Outside
    } else if on_surface(triangles, p) {
        Classification::OnBoundary
    } else {
        cast(triangles, p, 0)
    }
}

fn direction_wide(k: usize) -> (d: Wide)
    requires
        k <= 8 * MAX_TRIANGLES,
    ensures
        d@ == direction(k as int),
        d@.within(reach()),
{
    let n: i128 = k as i128;
    assert(0 <= n * (n + 1) <= 0x1000_0000_0000_0000) by (nonlinear_arith)
        requires
            0 <= n <= 0x3fff_fff8,
    ;
    Wide { x: DRIFT, y: n, z: n * (n + 1) }
}

fn touches_any(mesh: &Mesh, p: &Point) -> (r: bool)
    ensures
        r == on_surface(mesh.triangles(), p@),
{
    let n: usize = mesh.triangle_count();
    let mut i: usize = 0;
    while i < n
        invariant
            0 <= i <= n,
            n == mesh.triangles().len(),
            forall|j: int| 0 <= j < i ==> !on_triangle(p@, #[trigger] mesh.triangles()[j]),
        decreases n - i,
    {
        let t: Triangle = mesh.triangle(i);
        if touches(p, &t) {
            return true;
        }
        i = i + 1;
    }
    false
}

proof fn lemma_hits_step(triangles: Seq<Triangle>, p: Vec3, d: Vec3, i: int)
    requires
        0 <= i < triangles.len(),
    ensures
        hits(triangles.take(i + 1), p, d) == hits(triangles.take(i), p, d) + if crossing(p, d, triangles[i]) == Crossing::Hit {
            1nat
        } else {
            0nat
        },
{
    assert(triangles.take(i + 1).drop_last() =~= triangles.take(i));
}

/// Casts one ray: `None` if it grazes a triangle, else the number of its hits.
fn cast_ray(mesh: &Mesh, p: &Point, d: &Wide) -> (r: Option<usize>)
    requires
        d@.within(reach()),
    ensures
        match r {
            None => grazes(mesh.triangles(), p@, d@),
            Some(count) => !grazes(mesh.triangles(), p@, d@) && count == hits(mesh.triangles(), p@, d@),
        },
{
    let n: usize = mesh.triangle_count();
    let mut count: usize = 0;
    let mut i: usize = 0;
    while i < n
        invariant
            0 <= i <= n,
            n == mesh.triangles().len(),
            d@.within(reach()),
            count <= i,
            count == hits(mesh.triangles().take(i as int), p@, d@),
            forall|j: int| 0 <= j < i ==> crossing(p@, d@, #[trigger] mesh.triangles()[j]) != Crossing::Graze,
        decreases n - i,
    {
        let t: Triangle = mesh.triangle(i);
        let met = cross_triangle(p, d, &t);
        proof {
            lemma_hits_step(mesh.triangles(), p@, d@, i as int);
        }
        match met {
            Crossing::Graze => {
                return None;
            },
            Crossing::Hit => {
                count = count + 1;
            },
            Crossing::Miss => {},
        }
        i = i + 1;
    }
    proof {
        assert(mesh.triangles().take(n as int) =~= mesh.triangles());
    }
    Some(count)
}

/// Classifies `point` with respect to `mesh`.
///
/// The function reads the mesh and nothing else, so any number of calls may
/// run side by side on one mesh.
pub fn classify(mesh: &Mesh, point: &Point) -> (r: Classification)
    ensures
        r == classification(mesh.triangles(), mesh.bounds(), point@),
        !mesh.bounds().encloses(point@) ==> r == Classification::Outside,
        r == Classification::OnBoundary <==> mesh.bounds().encloses(point@) && on_surface(mesh.triangles(), point@),
{
    let bounds = mesh.bounding_box();
    if !within_bounds(point, &bounds) {
        return Classification::Outside;
    }
    if touches_any(mesh, point) {
        return Classification::OnBoundary;
    }
    let limit: usize = 8 * mesh.triangle_count() + 1;
    let mut k: usize = 0;
    while k < limit
        invariant
            0 <= k <= limit,
            limit == attempts(mesh.triangles()),
            limit <= 8 * MAX_TRIANGLES + 1,
            mesh.bounds().encloses(point@),
            !on_surface(mesh.triangles(), point@),
            forall|j: int| 0 <= j < k ==> grazes(mesh.triangles(), point@, #[trigger] direction(j)),
            cast(mesh.triangles(), point@, 0) == cast(mesh.triangles(), point@, k as nat),
        decreases limit - k,
    {
        let d = direction_wide(k);
        match cast_ray(mesh, point, &d) {
            Some(count) => {
                return if count % 2 == 1 {
                    Classification::Inside
                } else {
                    Classification::Outside
                };
            },
            None => {},
        }
        k = k + 1;
    }
    proof {
        // Every direction grazed, which cannot be.
        lemma_clear_direction_exists(mesh.triangles(), point@);
    }
    Classification::Outside
}

/// The code of the classification of `point` with respect to `mesh`.
pub fn contains(mesh: &Mesh, point: &Point) -> (code: u8)
    ensures
        code == classification(mesh.triangles(), mesh.bounds(), point@).code_of(),
        code == 2 <==> mesh.bounds().encloses(point@) && on_surface(mesh.triangles(), point@),
{
    classify(mesh, point).code()
}

} // verus!

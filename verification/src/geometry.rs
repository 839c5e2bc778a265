//! Points, triangles, bounding boxes and meshes on the integer lattice.

use vstd::prelude::*;
use crate::error::VoxelError;

verus! {

/// A vector of three mathematical integers: the model of every point and
/// displacement that the contracts speak of.
pub struct Vec3 {
    pub x: int,
    pub y: int,
    pub z: int,
}

impl Vec3 {
    /// The displacement that leads from `self` to `q`.
    pub open spec fn to(self, q: Vec3) -> Vec3 {
        Vec3 { x: q.x - self.x, y: q.y - self.y, z: q.z - self.z }
    }

    pub open spec fn dot(self, v: Vec3) -> int {
        self.x * v.x + self.y * v.y + self.z * v.z
    }

    pub open spec fn cross(self, v: Vec3) -> Vec3 {
        Vec3 {
            x: self.y * v.z - self.z * v.y,
            y: self.z * v.x - self.x * v.z,
            z: self.x * v.y - self.y * v.x,
        }
    }

    /// The triple product `self . (v x w)`: six times the signed volume of the
    /// tetrahedron that the three vectors span.
    pub open spec fn triple(self, v: Vec3, w: Vec3) -> int {
        self.dot(v.cross(w))
    }

    pub open spec fn is_zero(self) -> bool {
        self.x == 0 && self.y == 0 && self.z == 0
    }

    /// No component is larger in magnitude than `m`.
    pub open spec fn within(self, m: int) -> bool {
        -m <= self.x <= m && -m <= self.y <= m && -m <= self.z <= m
    }
}

/// A point of the lattice, in lattice units.
#[derive(Clone, Copy, Debug, PartialEq, Eq, Structural)]
pub struct Point {
    pub x: i32,
    pub y: i32,
    pub z: i32,
}

impl View for Point {
    type V = Vec3;

    open spec fn view(&self) -> Vec3 {
        Vec3 { x: self.x as int, y: self.y as int, z: self.z as int }
    }
}

/// A triangle by its three vertices. One of zero area is a valid value.
#[derive(Clone, Copy, Debug, PartialEq, Eq, Structural)]
pub struct Triangle {
    pub a: Point,
    pub b: Point,
    pub c: Point,
}

impl Triangle {
    /// The normal `(b - a) x (c - a)`, whose length is twice the area.
    pub open spec fn normal(self) -> Vec3 {
        self.a@.to(self.b@).cross(self.a@.to(self.c@))
    }

    pub open spec fn is_degenerate(self) -> bool {
        self.normal().is_zero()
    }
}

/// An axis-aligned box by its least and greatest corner.
#[derive(Clone, Copy, Debug, PartialEq, Eq, Structural)]
pub struct BoundingBox {
    pub min: Point,
    pub max: Point,
}

impl BoundingBox {
    /// `p` lies strictly between the two corners on every axis.
    pub open spec fn encloses(self, p: Vec3) -> bool {
        &&& self.min.x < p.x < self.max.x
        &&& self.min.y < p.y < self.max.y
        &&& self.min.z < p.z < self.max.z
    }

    /// `q` lies inside the box or on its faces.
    pub open spec fn covers(self, q: Point) -> bool {
        &&& self.min.x <= q.x <= self.max.x
        &&& self.min.y <= q.y <= self.max.y
        &&& self.min.z <= q.z <= self.max.z
    }

    /// The smallest box that covers both `self` and `q`.
    pub open spec fn grown(self, q: Point) -> BoundingBox {
        BoundingBox {
            min: Point {
                x: if q.x < self.min.x { q.x } else { self.min.x },
                y: if q.y < self.min.y { q.y } else { self.min.y },
                z: if q.z < self.min.z { q.z } else { self.min.z },
            },
            max: Point {
                x: if q.x > self.max.x { q.x } else { self.max.x },
                y: if q.y > self.max.y { q.y } else { self.max.y },
                z: if q.z > self.max.z { q.z } else { self.max.z },
            },
        }
    }

    fn grow(&self, q: &Point) -> (r: BoundingBox)
        ensures
            r == self.grown(*q),
    {
        BoundingBox {
            min: Point {
                x: if q.x < self.min.x { q.x } else { self.min.x },
                y: if q.y < self.min.y { q.y } else { self.min.y },
                z: if q.z < self.min.z { q.z } else { self.min.z },
            },
            max: Point {
                x: if q.x > self.max.x { q.x } else { self.max.x },
                y: if q.y > self.max.y { q.y } else { self.max.y },
                z: if q.z > self.max.z { q.z } else { self.max.z },
            },
        }
    }
}

/// Whether `point` lies strictly inside `bounds`: a point on a face of the box
/// is not within it.
pub fn within_bounds(point: &Point, bounds: &BoundingBox) -> (r: bool)
    ensures
        r == bounds.encloses(point@),
{
    point.x > bounds.min.x && point.x < bounds.max.x
        && point.y > bounds.min.y && point.y < bounds.max.y
        && point.z > bounds.min.z && point.z < bounds.max.z
}

/// The `j`-th vertex of a list of triangles, three to a triangle.
pub open spec fn vertex(triangles: Seq<Triangle>, j: int) -> Point {
    let t = triangles[j / 3];
    if j % 3 == 0 {
        t.a
    } else if j % 3 == 1 {
        t.b
    } else {
        t.c
    }
}

/// `bounds` is the least box that covers every vertex: it covers them all, and
/// each of its six faces passes through one of them.
pub open spec fn tight(triangles: Seq<Triangle>, bounds: BoundingBox) -> bool {
    &&& forall|j: int| 0 <= j < 3 * triangles.len() ==> bounds.covers(#[trigger] vertex(triangles, j))
    &&& exists|j: int| 0 <= j < 3 * triangles.len() && (#[trigger] vertex(triangles, j)).x == bounds.min.x
    &&& exists|j: int| 0 <= j < 3 * triangles.len() && (#[trigger] vertex(triangles, j)).y == bounds.min.y
    &&& exists|j: int| 0 <= j < 3 * triangles.len() && (#[trigger] vertex(triangles, j)).z == bounds.min.z
    &&& exists|j: int| 0 <= j < 3 * triangles.len() && (#[trigger] vertex(triangles, j)).x == bounds.max.x
    &&& exists|j: int| 0 <= j < 3 * triangles.len() && (#[trigger] vertex(triangles, j)).y == bounds.max.y
    &&& exists|j: int| 0 <= j < 3 * triangles.len() && (#[trigger] vertex(triangles, j)).z == bounds.max.z
}

/// A list of triangles has one tight box at most.
pub proof fn lemma_tight_is_unique(triangles: Seq<Triangle>, first: BoundingBox, second: BoundingBox)
    requires
        tight(triangles, first),
        tight(triangles, second),
    ensures
        first == second,
{
}

/// The largest number of triangles of a mesh. The classifier may have to try
/// eight ray directions for each triangle and one more, and the components of
/// the last of them must leave room for exact arithmetic in 128 bits.
pub const MAX_TRIANGLES: usize = 0x7ff_ffff;

/// A set of triangles together with its bounding box. It is never empty and
/// never changes once built.
pub struct Mesh {
    triangles: Vec<Triangle>,
    bounds: BoundingBox,
}

impl Mesh {
    #[verifier::type_invariant]
    spec fn inv(&self) -> bool {
        &&& 0 < self.triangles@.len() <= MAX_TRIANGLES
        &&& tight(self.triangles@, self.bounds)
    }

    /// The triangles, in the order in which they were given.
    pub closed spec fn triangles(&self) -> Seq<Triangle> {
        self.triangles@
    }

    /// The bounding box that the mesh carries.
    pub closed spec fn bounds(&self) -> BoundingBox {
        self.bounds
    }

    /// There is a triangle, there are not too many, and the box is the tight
    /// one. Every mesh that executable code holds is of this kind.
    pub open spec fn wf(&self) -> bool {
        &&& 0 < self.triangles().len() <= MAX_TRIANGLES
        &&& tight(self.triangles(), self.bounds())
    }

    /// Builds the mesh of `triangles` and derives its bounding box. An empty
    /// list is refused with `EmptyMesh`, and one of more than `MAX_TRIANGLES`
    /// triangles, which the classifier could not decide, with `MeshParse`.
    pub fn new(triangles: Vec<Triangle>) -> (r: Result<Mesh, VoxelError>)
        ensures
            match r {
                Ok(m) => 0 < triangles@.len() <= MAX_TRIANGLES && m.triangles() == triangles@ && m.wf(),
                Err(e) => if triangles@.len() == 0 {
                    e == VoxelError::EmptyMesh
                } else {
                    e == VoxelError::MeshParse && triangles@.len() > MAX_TRIANGLES
                },
            },
    {
        if triangles.len() == 0 {
            return Err(VoxelError::EmptyMesh);
        }
        if triangles.len() > MAX_TRIANGLES {
            return Err(VoxelError::MeshParse);
        }
        let first: Point = triangles[0].a;
        let mut bounds = BoundingBox { min: first, max: first };
        let ghost mut lo_x: int = 0;
        let ghost mut lo_y: int = 0;
        let ghost mut lo_z: int = 0;
        let ghost mut hi_x: int = 0;
        let ghost mut hi_y: int = 0;
        let ghost mut hi_z: int = 0;
        let mut i: usize = 0;
        while i < triangles.len()
            invariant
                0 <= i <= triangles.len(),
                triangles.len() > 0,
                forall|j: int| 0 <= j < 3 * i ==> bounds.covers(#[trigger] vertex(triangles@, j)),
                0 <= lo_x < 3 * triangles.len() && vertex(triangles@, lo_x).x == bounds.min.x,
                0 <= lo_y < 3 * triangles.len() && vertex(triangles@, lo_y).y == bounds.min.y,
                0 <= lo_z < 3 * triangles.len() && vertex(triangles@, lo_z).z == bounds.min.z,
                0 <= hi_x < 3 * triangles.len() && vertex(triangles@, hi_x).x == bounds.max.x,
                0 <= hi_y < 3 * triangles.len() && vertex(triangles@, hi_y).y == bounds.max.y,
                0 <= hi_z < 3 * triangles.len() && vertex(triangles@, hi_z).z == bounds.max.z,
            decreases triangles.len() - i,
        {
            let t: Triangle = triangles[i];
            let ghost before = bounds;
            let with_a = bounds.grow(&t.a);
            let with_b = with_a.grow(&t.b);
            bounds = with_b.grow(&t.c);
            proof {
                let ja: int = 3 * i;
                let jb: int = 3 * i + 1;
                let jc: int = 3 * i + 2;
                assert(vertex(triangles@, ja) == t.a);
                assert(vertex(triangles@, jb) == t.b);
                assert(vertex(triangles@, jc) == t.c);
                lo_x = if bounds.min.x == before.min.x { lo_x } else if bounds.min.x == t.a.x { ja } else if bounds.min.x == t.b.x { jb } else { jc };
                lo_y = if bounds.min.y == before.min.y { lo_y } else if bounds.min.y == t.a.y { ja } else if bounds.min.y == t.b.y { jb } else { jc };
                lo_z = if bounds.min.z == before.min.z { lo_z } else if bounds.min.z == t.a.z { ja } else if bounds.min.z == t.b.z { jb } else { jc };
                hi_x = if bounds.max.x == before.max.x { hi_x } else if bounds.max.x == t.a.x { ja } else if bounds.max.x == t.b.x { jb } else { jc };
                hi_y = if bounds.max.y == before.max.y { hi_y } else if bounds.max.y == t.a.y { ja } else if bounds.max.y == t.b.y { jb } else { jc };
                hi_z = if bounds.max.z == before.max.z { hi_z } else if bounds.max.z == t.a.z { ja } else if bounds.max.z == t.b.z { jb } else { jc };
                assert forall|j: int| 0 <= j < 3 * (i + 1) implies bounds.covers(#[trigger] vertex(triangles@, j)) by {
                    if j < 3 * i {
                        assert(before.covers(vertex(triangles@, j)));
                    } else {
                        assert(j == ja || j == jb || j == jc);
                    }
                }
            }
            i = i + 1;
        }
        Ok(Mesh { triangles, bounds })
    }

    /// How many triangles the mesh holds.
    pub fn triangle_count(&self) -> (n: usize)
        ensures
            n == self.triangles().len(),
            0 < n <= MAX_TRIANGLES,
    {
        proof {
            use_type_invariant(self);
        }
        self.triangles.len()
    }

    /// The `i`-th triangle.
    pub fn triangle(&self, i: usize) -> (t: Triangle)
        requires
            i < self.triangles().len(),
        ensures
            t == self.triangles()[i as int],
    {
        self.triangles[i]
    }

    /// The bounding box of the mesh.
    pub fn bounding_box(&self) -> (b: BoundingBox)
        ensures
            b == self.bounds(),
            tight(self.triangles(), b),
    {
        proof {
            use_type_invariant(self);
        }
        self.bounds
    }
}

} // verus!

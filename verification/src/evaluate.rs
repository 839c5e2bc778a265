//! Classification of every voxel of a grid, in the order of the voxels.

use vstd::prelude::*;
use crate::classify::{Classification, classification, classify};
use crate::geometry::{BoundingBox, Mesh, Point, Triangle};
use crate::grid::{GridCoordinate, Spacing, physical};

verus! {

/// The classification of each of `coordinates`, in their order: the `i`-th
/// entry is that of the physical point of the `i`-th coordinate.
pub open spec fn evaluation(
    triangles: Seq<Triangle>,
    bounds: BoundingBox,
    coordinates: Seq<GridCoordinate>,
    spacing: Spacing,
) -> Seq<Classification> {
    Seq::new(coordinates.len(), |i: int| classification(triangles, bounds, physical(coordinates[i], spacing)))
}

/// Classifies the physical point of the voxel at `c`.
///
/// Calls on different voxels share nothing but the mesh, which they only read:
/// they may run in any order and side by side, and each result depends on its
/// own voxel alone.
pub fn classify_at(mesh: &Mesh, c: &GridCoordinate, spacing: &Spacing) -> (r: Classification)
    ensures
        r == classification(mesh.triangles(), mesh.bounds(), physical(*c, *spacing)),
{
    let px = spacing.dx.advance(c.x);
    let py = spacing.dy.advance(c.y);
    let pz = spacing.dz.advance(c.z);
    match (px, py, pz) {
        (Some(x), Some(y), Some(z)) => classify(mesh, &Point { x, y, z }),
        // Every box has its corners on the lattice, so a point beyond the
        // lattice is outside all of them.
        _ => Classification::Outside,
    }
}

/// Classifies every voxel of `coordinates`. The result has one entry for each
/// coordinate, at the same place.
pub fn evaluate(mesh: &Mesh, coordinates: &[GridCoordinate], spacing: &Spacing) -> (r: Vec<Classification>)
    ensures
        r@ == evaluation(mesh.triangles(), mesh.bounds(), coordinates@, *spacing),
{
    let n: usize = coordinates.len();
    let mut results: Vec<Classification> = Vec::new();
    let mut i: usize = 0;
    while i < n
        invariant
            0 <= i <= n,
            n == coordinates@.len(),
            results@.len() == i,
            forall|j: int| 0 <= j < i ==> results@[j] == classification(
                mesh.triangles(),
                mesh.bounds(),
                physical(#[trigger] coordinates@[j], *spacing),
            ),
        decreases n - i,
    {
        let r = classify_at(mesh, &coordinates[i], spacing);
        results.push(r);
        i = i + 1;
    }
    proof {
        assert(results@ =~= evaluation(mesh.triangles(), mesh.bounds(), coordinates@, *spacing));
    }
    results
}

} // verus!

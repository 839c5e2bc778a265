//! The whole run: enumerate the voxels, classify each, assemble the grid.

use vstd::prelude::*;
use crate::classify::classification;
use crate::error::VoxelError;
use crate::evaluate::{evaluate, evaluation};
use crate::geometry::{BoundingBox, Mesh, Triangle};
use crate::grid::{GridCoordinate, GridGeometry, physical};
use crate::volume::{VolumeGrid, assemble, codes_of};

verus! {

/// The code of every voxel of the grid, in the order of the enumeration: that
/// of the classification of the voxel's physical point.
pub open spec fn voxelization(triangles: Seq<Triangle>, bounds: BoundingBox, geometry: GridGeometry) -> Seq<u8> {
    Seq::new(
        geometry.shape.volume(),
        |i: int|
            classification(triangles, bounds, physical(geometry.shape.coordinate_of(i), geometry.spacing)).code_of(),
    )
}

/// `r` is the outcome of voxelizing `mesh` on the grid of `geometry`: the grid
/// of the shape of `geometry` that holds the voxelization, or `InvalidShape`
/// where an axis of the shape is empty.
pub open spec fn voxelized(mesh: Mesh, geometry: GridGeometry, r: Result<VolumeGrid, VoxelError>) -> bool {
    match r {
        Ok(g) => {
            &&& geometry.shape.populated()
            &&& g.shape() == geometry.shape
            &&& g.codes() == voxelization(mesh.triangles(), mesh.bounds(), geometry)
        },
        Err(e) => e == VoxelError::InvalidShape && !geometry.shape.populated(),
    }
}

/// Voxelizes `mesh` on the grid of `geometry`. The grid must be small enough
/// to be held in memory.
pub fn voxelize(mesh: &Mesh, geometry: &GridGeometry) -> (r: Result<VolumeGrid, VoxelError>)
    requires
        geometry.shape.addressable(),
    ensures
        voxelized(*mesh, *geometry, r),
{
    let coordinates = match geometry.coordinates() {
        Ok(coordinates) => coordinates,
        Err(e) => {
            return Err(e);
        },
    };
    let results = evaluate(mesh, coordinates.as_slice(), &geometry.spacing);
    let r = assemble(results.as_slice(), &geometry.shape);
    proof {
        assert(codes_of(evaluation(mesh.triangles(), mesh.bounds(), geometry.shape.enumeration(), geometry.spacing))
            =~= voxelization(mesh.triangles(), mesh.bounds(), *geometry));
    }
    r
}

/// Two runs on the same mesh and the same geometry end alike: both fail with
/// the same error, or both yield grids of the same shape that hold the same
/// codes at the same places.
pub proof fn lemma_voxelize_repeatable(
    mesh: Mesh,
    geometry: GridGeometry,
    first: Result<VolumeGrid, VoxelError>,
    second: Result<VolumeGrid, VoxelError>,
)
    requires
        voxelized(mesh, geometry, first),
        voxelized(mesh, geometry, second),
    ensures
        match (first, second) {
            (Ok(a), Ok(b)) => a.shape() == b.shape() && a.codes() == b.codes(),
            (Err(a), Err(b)) => a == b,
            _ => false,
        },
{
}

/// In a voxelized grid the code of the voxel at `c` is that of the
/// classification of the physical point of `c`.
pub proof fn lemma_voxel_code(mesh: Mesh, geometry: GridGeometry, grid: VolumeGrid, c: GridCoordinate)
    requires
        voxelized(mesh, geometry, Ok(grid)),
        geometry.shape.holds(c),
    ensures
        grid.code_at(c) == classification(
            mesh.triangles(),
            mesh.bounds(),
            physical(c, geometry.spacing),
        ).code_of(),
{
    geometry.shape.lemma_index_in_range(c);
    geometry.shape.lemma_coordinate_of_index(c);
}

} // verus!

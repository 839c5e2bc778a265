//! The sampling grid that the header of a reference image describes.
//!
//! A header lists its axes in two arrays of equal layout. Entry 0 of `dim`
//! holds the number of axes that the image advertises, and entry `k`, for `k`
//! from 1 up to that number, the voxel count of axis `k`. `pixdim` holds at
//! entry `k` the spacing of axis `k`, as the encoding of a single-precision
//! value.

use vstd::prelude::*;
use crate::error::VoxelError;
use crate::grid::{GridGeometry, Shape, Spacing};
use crate::lattice::Step;

verus! {

/// The two arrays have an entry for each axis that the header advertises.
pub open spec fn legible(dim: Seq<u16>, pixdim: Seq<u32>) -> bool {
    dim.len() > 0 && dim[0] < dim.len() && dim[0] < pixdim.len()
}

/// The number of usable axes among the first `n`: a last axis beyond the third
/// that holds a single voxel is not counted, and so on down from the last.
pub open spec fn usable_axes(dim: Seq<u16>, n: int) -> int
    decreases n,
{
    if n > 3 && dim[n] == 1 {
        usable_axes(dim, n - 1)
    } else {
        n
    }
}

/// The geometry that a header describes, on a lattice with `2^resolution`
/// points to the physical unit.
///
/// A header whose arrays are too short for the axes it advertises cannot be
/// read. One with other than three usable axes is unsupported: a fourth axis
/// with more than one voxel is refused, not dropped. The grid then takes the
/// voxel counts and spacings of the first three axes; a spacing that is not a
/// finite number cannot be read either. Every other spacing is taken as it is,
/// without rounding.
pub open spec fn described(dim: Seq<u16>, pixdim: Seq<u32>, resolution: i32) -> Result<GridGeometry, VoxelError> {
    if !legible(dim, pixdim) {
        Err(VoxelError::ReferenceRead)
    } else if usable_axes(dim, dim[0] as int) != 3 {
        Err(VoxelError::UnsupportedDimensionality)
    } else {
        match (Step::decoded(pixdim[1], resolution), Step::decoded(pixdim[2], resolution), Step::decoded(pixdim[3], resolution)) {
            (Some(dx), Some(dy), Some(dz)) => Ok(
                GridGeometry {
                    shape: Shape { nx: dim[1] as usize, ny: dim[2] as usize, nz: dim[3] as usize },
                    spacing: Spacing { dx, dy, dz },
                },
            ),
            _ => Err(VoxelError::ReferenceRead),
        }
    }
}

/// The number of usable axes of a legible header.
pub fn count_usable_axes(dim: &[u16]) -> (n: usize)
    requires
        dim@.len() > 0,
        dim@[0] < dim@.len(),
    ensures
        n == usable_axes(dim@, dim@[0] as int),
{
    let mut n: usize = dim[0] as usize;
    while n > 3 && dim[n] == 1
        invariant
            n < dim@.len(),
            usable_axes(dim@, n as int) == usable_axes(dim@, dim@[0] as int),
        decreases n,
    {
        n = n - 1;
    }
    n
}

/// Reads the sampling grid from the two arrays of a header.
pub fn read_geometry(dim: &[u16], pixdim: &[u32], resolution: i32) -> (r: Result<GridGeometry, VoxelError>)
    ensures
        r == described(dim@, pixdim@, resolution),
{
    if dim.len() == 0 || dim[0] as usize >= dim.len() || dim[0] as usize >= pixdim.len() {
        return Err(VoxelError::ReferenceRead);
    }
    if count_usable_axes(dim) != 3 {
        return Err(VoxelError::UnsupportedDimensionality);
    }
    assert(dim@[0] >= 3);
    let dx = Step::decode(pixdim[1], resolution);
    let dy = Step::decode(pixdim[2], resolution);
    let dz = Step::decode(pixdim[3], resolution);
    match (dx, dy, dz) {
        (Some(dx), Some(dy), Some(dz)) => Ok(
            GridGeometry {
                shape: Shape { nx: dim[1] as usize, ny: dim[2] as usize, nz: dim[3] as usize },
                spacing: Spacing { dx, dy, dz },
            },
        ),
        _ => Err(VoxelError::ReferenceRead),
    }
}

} // verus!

//! The ways in which a voxelisation run can fail.

use vstd::prelude::*;

verus! {

/// The failure of one stage of a run. None of them is retried: each stems from
/// the input, or from a fault in how the stages were wired together.
#[derive(Clone, Copy, Debug, PartialEq, Eq, Structural)]
pub enum VoxelError {
    /// The mesh file is malformed or unreadable.
    MeshParse,
    /// The mesh holds no triangle.
    EmptyMesh,
    /// The reference image is malformed or unreadable.
    ReferenceRead,
    /// The reference geometry has other than three usable spatial axes.
    UnsupportedDimensionality,
    /// A voxel-count axis is zero.
    InvalidShape,
    /// The number of classification results is not the number of voxels.
    ShapeMismatch,
    /// The output volume cannot be persisted.
    VolumeWrite,
}

impl VoxelError {
    /// The diagnostic of each failure: the stage that failed, then the cause.
    pub open spec fn diagnostic(self) -> Seq<char> {
        match self {
            VoxelError::MeshParse => "mesh parse: the mesh file is malformed or unreadable"@,
            VoxelError::EmptyMesh => "mesh parse: the mesh holds no triangle"@,
            VoxelError::ReferenceRead => "reference read: the reference image is malformed or unreadable"@,
            VoxelError::UnsupportedDimensionality => "dimensionality check: the reference image does not have exactly three usable spatial axes"@,
            VoxelError::InvalidShape => "grid enumeration: a voxel-count axis is zero"@,
            VoxelError::ShapeMismatch => "volume assembly: the number of results is not the number of voxels"@,
            VoxelError::VolumeWrite => "volume write: the output volume cannot be persisted"@,
        }
    }

    /// A human-readable diagnostic that names the stage that failed.
    pub fn describe(&self) -> (s: String)
        ensures
            s@ == self.diagnostic(),
    {
        match self {
            VoxelError::MeshParse => "mesh parse: the mesh file is malformed or unreadable".to_owned(),
            VoxelError::EmptyMesh => "mesh parse: the mesh holds no triangle".to_owned(),
            VoxelError::ReferenceRead => "reference read: the reference image is malformed or unreadable".to_owned(),
            VoxelError::UnsupportedDimensionality => "dimensionality check: the reference image does not have exactly three usable spatial axes".to_owned(),
            VoxelError::InvalidShape => "grid enumeration: a voxel-count axis is zero".to_owned(),
            VoxelError::ShapeMismatch => "volume assembly: the number of results is not the number of voxels".to_owned(),
            VoxelError::VolumeWrite => "volume write: the output volume cannot be persisted".to_owned(),
        }
    }
}

} // verus!

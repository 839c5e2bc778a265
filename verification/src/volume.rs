//! Dense three-dimensional grids of classification codes.

use vstd::prelude::*;
use crate::classify::Classification;
use crate::error::VoxelError;
use crate::grid::{GridCoordinate, Shape};

verus! {

/// A dense array of codes of rank three, indexed `[z, y, x]`: an owned
/// `ndarray::Array3<u8>`.
#[verifier::external_body]
pub struct CodeArray {
    cells: ndarray::Array3<u8>,
}

/// The axis lengths of an array, outermost first.
pub uninterp spec fn array_dims(a: CodeArray) -> (nat, nat, nat);

/// The elements of an array by their index `(z, y, x)`.
pub uninterp spec fn array_cells(a: CodeArray) -> Map<(int, int, int), u8>;

/// `k` is an index of an array with axis lengths `dims`.
pub open spec fn in_bounds(dims: (nat, nat, nat), k: (int, int, int)) -> bool {
    0 <= k.0 < dims.0 && 0 <= k.1 < dims.1 && 0 <= k.2 < dims.2
}

/// `ndarray::Array3::zeros`: an array of the given axis lengths, every element
/// of which is zero. The call panics where the product of the lengths exceeds
/// `isize::MAX`, which `requires` leaves out.
#[verifier::external_body]
fn array_zeros(nz: usize, ny: usize, nx: usize) -> (a: CodeArray)
    requires
        0 < nz,
        0 < ny,
        0 < nx,
        nz * ny * nx <= isize::MAX,
    ensures
        array_dims(a) == (nz as nat, ny as nat, nx as nat),
        array_cells(a) == Map::new(|k: (int, int, int)| in_bounds(array_dims(a), k), |k: (int, int, int)| 0u8),
{
    CodeArray { cells: ndarray::Array3::zeros((nz, ny, nx)) }
}

/// Indexed assignment on `ndarray::Array3`: the element at `[z, y, x]` becomes
/// `code`, every other element and the axis lengths stay. The index must lie
/// within the array.
#[verifier::external_body]
fn array_set(a: &mut CodeArray, z: usize, y: usize, x: usize, code: u8)
    requires
        in_bounds(array_dims(*old(a)), (z as int, y as int, x as int)),
    ensures
        array_dims(*final(a)) == array_dims(*old(a)),
        array_cells(*final(a)) == array_cells(*old(a)).insert((z as int, y as int, x as int), code),
{
    a.cells[[z, y, x]] = code;
}

/// Indexing on `ndarray::Array3`: the element at `[z, y, x]`. The index must
/// lie within the array.
#[verifier::external_body]
fn array_get(a: &CodeArray, z: usize, y: usize, x: usize) -> (code: u8)
    requires
        in_bounds(array_dims(*a), (z as int, y as int, x as int)),
    ensures
        code == array_cells(*a)[(z as int, y as int, x as int)],
{
    a.cells[[z, y, x]]
}

/// The codes of `results`, in their order.
pub open spec fn codes_of(results: Seq<Classification>) -> Seq<u8> {
    Seq::new(results.len(), |i: int| results[i].code_of())
}

/// Why `count` results cannot be assembled into a grid of `shape`, if they
/// cannot: a count that differs from the number of voxels is a mismatch, and
/// so is a number of voxels beyond what one allocation can hold, which no list
/// of results can reach; an empty list for a shape with an empty axis is an
/// invalid shape.
pub open spec fn assembly_failure(count: nat, shape: Shape) -> Option<VoxelError> {
    if count != shape.volume() {
        Some(VoxelError::ShapeMismatch)
    } else if !shape.populated() {
        Some(VoxelError::InvalidShape)
    } else if !shape.addressable() {
        Some(VoxelError::ShapeMismatch)
    } else {
        None
    }
}

/// A dense grid of classification codes, one for each voxel. The code of the
/// voxel `(x, y, z)` is stored at `[z][y][x]`, so that walking the array in its
/// index order visits the voxels in the order of their enumeration.
pub struct VolumeGrid {
    cells: CodeArray,
    shape: Shape,
}

impl VolumeGrid {
    #[verifier::type_invariant]
    spec fn inv(&self) -> bool {
        &&& self.shape.populated()
        &&& self.shape.addressable()
        &&& array_dims(self.cells) == (self.shape.nz as nat, self.shape.ny as nat, self.shape.nx as nat)
    }

    /// The voxel counts of the grid.
    pub closed spec fn shape(&self) -> Shape {
        self.shape
    }

    /// The codes of the voxels in the order of their enumeration.
    pub closed spec fn codes(&self) -> Seq<u8> {
        Seq::new(
            self.shape.volume(),
            |i: int|
                {
                    let c = self.shape.coordinate_of(i);
                    array_cells(self.cells)[(c.z as int, c.y as int, c.x as int)]
                },
        )
    }

    /// The code of the voxel at `c`.
    pub open spec fn code_at(&self, c: GridCoordinate) -> u8 {
        self.codes()[self.shape().index_of(c)]
    }

    /// The voxel counts of the grid.
    pub fn dims(&self) -> (s: Shape)
        ensures
            s == self.shape(),
            s.populated(),
            s.addressable(),
    {
        proof {
            use_type_invariant(self);
        }
        self.shape
    }

    /// The code of the voxel at `c`, or `None` if the grid has no such voxel.
    pub fn get(&self, c: &GridCoordinate) -> (r: Option<u8>)
        ensures
            match r {
                Some(code) => self.shape().holds(*c) && code == self.code_at(*c),
                None => !self.shape().holds(*c),
            },
    {
        proof {
            use_type_invariant(self);
        }
        if c.x < self.shape.nx && c.y < self.shape.ny && c.z < self.shape.nz {
            proof {
                self.shape.lemma_index_in_range(*c);
                self.shape.lemma_coordinate_of_index(*c);
            }
            Some(array_get(&self.cells, c.z, c.y, c.x))
        } else {
            None
        }
    }

    /// All codes in the order of the enumeration of the voxels.
    pub fn to_vec(&self) -> (v: Vec<u8>)
        ensures
            v@ == self.codes(),
    {
        proof {
            use_type_invariant(self);
        }
        let n: usize = match self.shape.count() {
            Some(n) => n,
            None => 0,
        };
        let mut v: Vec<u8> = Vec::new();
        let mut i: usize = 0;
        while i < n
            invariant
                0 <= i <= n,
                n == self.shape.volume(),
                array_dims(self.cells) == (self.shape.nz as nat, self.shape.ny as nat, self.shape.nx as nat),
                v@.len() == i,
                forall|j: int| 0 <= j < i ==> v@[j] == self.codes()[j],
            decreases n - i,
        {
            let c = self.shape.coordinate_at(i);
            v.push(array_get(&self.cells, c.z, c.y, c.x));
            i = i + 1;
        }
        proof {
            assert(v@ =~= self.codes());
        }
        v
    }
}

/// Assembles `results`, which list one classification for each voxel in the
/// order of the enumeration, into the grid of `shape`.
///
/// The grid has exactly the voxel counts of `shape`. A list of any other
/// length than the number of voxels is refused with `ShapeMismatch`: nothing is
/// cut off or padded.
pub fn assemble(results: &[Classification], shape: &Shape) -> (r: Result<VolumeGrid, VoxelError>)
    ensures
        match r {
            Ok(g) => assembly_failure(results@.len(), *shape) is None && g.shape() == *shape && g.codes()
                == codes_of(results@),
            Err(e) => assembly_failure(results@.len(), *shape) == Some(e),
        },
{
    let n: usize = results.len();
    match shape.count() {
        None => {
            return Err(VoxelError::ShapeMismatch);
        },
        Some(count) => {
            if count != n {
                return Err(VoxelError::ShapeMismatch);
            }
        },
    }
    if shape.nx == 0 || shape.ny == 0 || shape.nz == 0 {
        return Err(VoxelError::InvalidShape);
    }
    if n > isize::MAX as usize {
        return Err(VoxelError::ShapeMismatch);
    }
    assert(shape.nz * shape.ny * shape.nx == shape.nx * shape.ny * shape.nz) by (nonlinear_arith);
    let mut cells = array_zeros(shape.nz, shape.ny, shape.nx);
    let mut i: usize = 0;
    while i < n
        invariant
            0 <= i <= n,
            n == results@.len(),
            n == shape.volume(),
            array_dims(cells) == (shape.nz as nat, shape.ny as nat, shape.nx as nat),
            forall|j: int|
                0 <= j < i ==> {
                    let c = #[trigger] shape.coordinate_of(j);
                    array_cells(cells)[(c.z as int, c.y as int, c.x as int)] == results@[j].code_of()
                },
        decreases n - i,
    {
        let c = shape.coordinate_at(i);
        let ghost before = cells;
        array_set(&mut cells, c.z, c.y, c.x, results[i].code());
        proof {
            assert forall|j: int| 0 <= j < i + 1 implies {
                let cj = #[trigger] shape.coordinate_of(j);
                array_cells(cells)[(cj.z as int, cj.y as int, cj.x as int)] == results@[j].code_of()
            } by {
                if j < i {
                    shape.lemma_index_of_coordinate(j);
                    let cj = shape.coordinate_of(j);
                    assert(cj != c);
                }
            }
        }
        i = i + 1;
    }
    let grid = VolumeGrid { cells, shape: *shape };
    proof {
        assert(grid.codes() =~= codes_of(results@));
    }
    Ok(grid)
}

} // verus!

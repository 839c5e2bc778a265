//! The sampling grid: its shape and spacing, the order in which its voxels are
//! enumerated, and the physical point of each voxel.

use vstd::prelude::*;
use vstd::arithmetic::div_mod::{lemma_fundamental_div_mod, lemma_fundamental_div_mod_converse};
use crate::error::VoxelError;
use crate::geometry::Vec3;
use crate::lattice::Step;

verus! {

/// The position of a voxel, counted in voxels along each axis.
#[derive(Clone, Copy, Debug, PartialEq, Eq, Structural)]
pub struct GridCoordinate {
    pub x: usize,
    pub y: usize,
    pub z: usize,
}

/// The distance between neighbouring voxels along each axis.
#[derive(Clone, Copy, Debug, PartialEq, Eq, Structural)]
pub struct Spacing {
    pub dx: Step,
    pub dy: Step,
    pub dz: Step,
}

/// The number of voxels along each axis.
#[derive(Clone, Copy, Debug, PartialEq, Eq, Structural)]
pub struct Shape {
    pub nx: usize,
    pub ny: usize,
    pub nz: usize,
}

/// The physical point of the voxel at `c`: each component of the coordinate
/// times the spacing of its axis, the product placed on the lattice. The grid
/// is not rotated and starts at the origin. The spacing is held exactly and
/// only the product is rounded, so no voxel is off by more than half a
/// lattice unit, however far from the origin it lies.
pub open spec fn physical(c: GridCoordinate, s: Spacing) -> Vec3 {
    Vec3 { x: s.dx.times(c.x as nat), y: s.dy.times(c.y as nat), z: s.dz.times(c.z as nat) }
}

impl Shape {
    /// The number of voxels.
    pub open spec fn volume(self) -> nat {
        (self.nx * self.ny * self.nz) as nat
    }

    /// No axis is empty.
    pub open spec fn populated(self) -> bool {
        self.nx > 0 && self.ny > 0 && self.nz > 0
    }

    /// The voxels can be held in memory at once: their number does not exceed
    /// the largest size of an allocation.
    pub open spec fn addressable(self) -> bool {
        self.volume() <= isize::MAX
    }

    /// `c` is a voxel of a grid of this shape.
    pub open spec fn holds(self, c: GridCoordinate) -> bool {
        c.x < self.nx && c.y < self.ny && c.z < self.nz
    }

    /// The place of `c` in the enumeration: x varies fastest, z slowest.
    pub open spec fn index_of(self, c: GridCoordinate) -> int {
        (c.z * self.ny + c.y) * self.nx + c.x
    }

    /// The voxel at place `i` of the enumeration.
    pub open spec fn coordinate_of(self, i: int) -> GridCoordinate {
        GridCoordinate {
            x: (i % (self.nx as int)) as usize,
            y: ((i / (self.nx as int)) % (self.ny as int)) as usize,
            z: ((i / (self.nx as int)) / (self.ny as int)) as usize,
        }
    }

    /// All voxels in order: z outermost, then y, then x innermost.
    pub open spec fn enumeration(self) -> Seq<GridCoordinate> {
        Seq::new(self.volume(), |i: int| self.coordinate_of(i))
    }

    /// Every voxel has a place in the enumeration.
    pub proof fn lemma_index_in_range(self, c: GridCoordinate)
        requires
            self.holds(c),
        ensures
            0 <= self.index_of(c) < self.volume(),
    {
        let nx = self.nx as int;
        let ny = self.ny as int;
        let nz = self.nz as int;
        let x = c.x as int;
        let y = c.y as int;
        let z = c.z as int;
        assert(0 <= (z * ny + y) * nx + x < nx * ny * nz) by (nonlinear_arith)
            requires
                0 <= x < nx,
                0 <= y < ny,
                0 <= z < nz,
        ;
    }

    /// The voxel at the place of `c` is `c`.
    pub proof fn lemma_coordinate_of_index(self, c: GridCoordinate)
        requires
            self.holds(c),
        ensures
            self.coordinate_of(self.index_of(c)) == c,
    {
        let nx = self.nx as int;
        let ny = self.ny as int;
        let row = c.z * ny + c.y;
        lemma_fundamental_div_mod_converse(self.index_of(c), nx, row, c.x as int);
        lemma_fundamental_div_mod_converse(row, ny, c.z as int, c.y as int);
    }

    /// The voxel at place `i` lies in the grid, and its place is `i`.
    pub proof fn lemma_index_of_coordinate(self, i: int)
        requires
            0 <= i < self.volume(),
        ensures
            self.holds(self.coordinate_of(i)),
            self.index_of(self.coordinate_of(i)) == i,
    {
        let nx = self.nx as int;
        let ny = self.ny as int;
        let nz = self.nz as int;
        assert(nx > 0 && ny > 0 && nz > 0) by (nonlinear_arith)
            requires
                0 <= i < nx * ny * nz,
                nx >= 0,
                ny >= 0,
                nz >= 0,
        ;
        let row = i / nx;
        lemma_fundamental_div_mod(i, nx);
        lemma_fundamental_div_mod(row, ny);
        assert(0 <= row < ny * nz) by (nonlinear_arith)
            requires
                0 <= i < nx * ny * nz,
                i == nx * row + i % nx,
                0 <= i % nx < nx,
                nx > 0,
        ;
        let z = row / ny;
        assert(0 <= z < nz) by (nonlinear_arith)
            requires
                0 <= row < ny * nz,
                row == ny * z + row % ny,
                0 <= row % ny < ny,
                ny > 0,
        ;
        assert((z * ny + row % ny) * nx + i % nx == i) by (nonlinear_arith)
            requires
                row == ny * z + row % ny,
                i == nx * row + i % nx,
        ;
    }

    /// Whether the voxels can be held in memory at once.
    pub fn is_addressable(&self) -> (b: bool)
        ensures
            b == self.addressable(),
    {
        match self.count() {
            Some(n) => n <= isize::MAX as usize,
            None => false,
        }
    }

    /// The number of voxels, if it fits the machine word.
    pub fn count(&self) -> (n: Option<usize>)
        ensures
            match n {
                Some(v) => v == self.volume(),
                None => self.volume() > usize::MAX,
            },
    {
        if self.nx == 0 || self.ny == 0 || self.nz == 0 {
            assert(self.nx * self.ny * self.nz == 0) by (nonlinear_arith)
                requires
                    self.nx == 0 || self.ny == 0 || self.nz == 0,
            ;
            return Some(0);
        }
        match self.nx.checked_mul(self.ny) {
            None => {
                assert(self.nx * self.ny * self.nz > usize::MAX) by (nonlinear_arith)
                    requires
                        self.nx * self.ny > usize::MAX,
                        self.nz >= 1,
                ;
                None
            },
            Some(plane) => plane.checked_mul(self.nz),
        }
    }

    /// The voxel at place `i` of the enumeration: the enumeration read one
    /// voxel at a time, from any place and as often as wanted.
    pub fn coordinate_at(&self, i: usize) -> (c: GridCoordinate)
        requires
            i < self.volume(),
        ensures
            c == self.coordinate_of(i as int),
            self.holds(c),
            self.index_of(c) == i,
    {
        proof {
            self.lemma_index_of_coordinate(i as int);
        }
        let row: usize = i / self.nx;
        GridCoordinate { x: i % self.nx, y: row % self.ny, z: row / self.ny }
    }

    /// All voxels of the grid in order, x varying fastest and z slowest. A
    /// shape with an empty axis is refused with `InvalidShape`.
    pub fn coordinates(&self) -> (r: Result<Vec<GridCoordinate>, VoxelError>)
        requires
            self.addressable(),
        ensures
            match r {
                Ok(v) => self.populated() && v@ == self.enumeration(),
                Err(e) => e == VoxelError::InvalidShape && !self.populated(),
            },
    {
        if self.nx == 0 || self.ny == 0 || self.nz == 0 {
            return Err(VoxelError::InvalidShape);
        }
        let mut v: Vec<GridCoordinate> = Vec::new();
        let mut z: usize = 0;
        assert((z * self.ny) * self.nx == 0) by (nonlinear_arith)
            requires
                z == 0,
        ;
        while z < self.nz
            invariant
                self.populated(),
                0 <= z <= self.nz,
                v@.len() == (z * self.ny) * self.nx,
                forall|j: int| 0 <= j < v@.len() ==> v@[j] == self.coordinate_of(j),
            decreases self.nz - z,
        {
            let mut y: usize = 0;
            assert((z * self.ny + 0) * self.nx == (z * self.ny) * self.nx);
            while y < self.ny
                invariant
                    self.populated(),
                    0 <= z < self.nz,
                    0 <= y <= self.ny,
                    v@.len() == (z * self.ny + y) * self.nx,
                    forall|j: int| 0 <= j < v@.len() ==> v@[j] == self.coordinate_of(j),
                decreases self.ny - y,
            {
                let mut x: usize = 0;
                while x < self.nx
                    invariant
                        self.populated(),
                        0 <= z < self.nz,
                        0 <= y < self.ny,
                        0 <= x <= self.nx,
                        v@.len() == (z * self.ny + y) * self.nx + x,
                        forall|j: int| 0 <= j < v@.len() ==> v@[j] == self.coordinate_of(j),
                    decreases self.nx - x,
                {
                    let c = GridCoordinate { x, y, z };
                    proof {
                        self.lemma_coordinate_of_index(c);
                    }
                    v.push(c);
                    x = x + 1;
                }
                assert((z * self.ny + y) * self.nx + self.nx == (z * self.ny + (y + 1)) * self.nx)
                    by (nonlinear_arith);
                y = y + 1;
            }
            assert((z * self.ny + self.ny) * self.nx == ((z + 1) * self.ny) * self.nx) by (nonlinear_arith);
            z = z + 1;
        }
        proof {
            assert((self.nz * self.ny) * self.nx == self.nx * self.ny * self.nz) by (nonlinear_arith);
            assert(v@ =~= self.enumeration());
        }
        Ok(v)
    }
}

/// The sampling grid of a reference image: how many voxels it has along each
/// axis, and how far apart they lie.
#[derive(Clone, Copy, Debug, PartialEq, Eq, Structural)]
pub struct GridGeometry {
    pub shape: Shape,
    pub spacing: Spacing,
}

impl GridGeometry {
    /// All voxels of the grid in the order of their enumeration.
    pub fn coordinates(&self) -> (r: Result<Vec<GridCoordinate>, VoxelError>)
        requires
            self.shape.addressable(),
        ensures
            match r {
                Ok(v) => self.shape.populated() && v@ == self.shape.enumeration(),
                Err(e) => e == VoxelError::InvalidShape && !self.shape.populated(),
            },
    {
        self.shape.coordinates()
    }
}

} // verus!

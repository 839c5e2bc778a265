//! Loading a mesh from the bytes of an STL file.
//!
//! The file format is left to the `pk_stl` parser. What this module adds is
//! the check that keeps the parser from files it cannot take, the choice of
//! the lattice by the size of the mesh, the placement of the vertices on it,
//! and the refusal of a mesh without triangles.

use vstd::prelude::*;
use crate::error::VoxelError;
use crate::geometry::{MAX_TRIANGLES, Mesh, Point, Triangle};
use crate::lattice::{lemma_coarser_holds, quantize, quantized};

verus! {

/// `pk_stl::error::Error`: why the parser rejected a file. Nothing is read
/// from it.
#[verifier::external_type_specification]
#[verifier::external_body]
pub struct ExStlError(pk_stl::error::Error);

/// The facets that the parser reads from a file, in the order of the file:
/// each as the encodings of the nine coordinates of its vertices, x, y and z of
/// the first vertex, then of the second and of the third. `None` where the
/// parser rejects the file.
pub uninterp spec fn stl_facets(bytes: Seq<u8>) -> Option<Seq<Seq<u32>>>;

/// The file starts with the keyword of the text form.
pub open spec fn textual(bytes: Seq<u8>) -> bool {
    &&& bytes.len() >= 6
    &&& bytes[0] == 0x73
    &&& bytes[1] == 0x6f
    &&& bytes[2] == 0x6c
    &&& bytes[3] == 0x69
    &&& bytes[4] == 0x64
    &&& bytes[5] == 0x20
}

/// The number of facets that a file of the binary form announces, in the four
/// bytes after its header of 80 bytes.
pub open spec fn announced(bytes: Seq<u8>) -> nat {
    (bytes[80] + 0x100 * bytes[81] + 0x1_0000 * bytes[82] + 0x100_0000 * bytes[83]) as nat
}

/// A file of the binary form is long enough for the facets that it announces:
/// 50 bytes for each, of which the last facet may lack the final two.
pub open spec fn framed(bytes: Seq<u8>) -> bool {
    &&& bytes.len() >= 84
    &&& announced(bytes) == 0 || 50 * announced(bytes) + 82 <= bytes.len()
}

/// The parser can be given the file: it is of the text form, or of the binary
/// form and framed.
pub open spec fn parseable(bytes: Seq<u8>) -> bool {
    textual(bytes) || (bytes.len() >= 6 && framed(bytes))
}

/// The views of the facets of a list.
pub open spec fn facet_views(facets: Seq<[u32; 9]>) -> Seq<Seq<u32>> {
    Seq::new(facets.len(), |i: int| facets[i]@)
}

/// `pk_stl::parse_stl`, with each vertex coordinate of the model handed out as
/// the bits of its encoding. The parser decides on the first six bytes between
/// the text and the binary form, and panics on a shorter file; for the binary
/// form it reserves room for as many facets as the file announces, before it
/// has read any. `requires` leaves out the files on which either can go wrong.
/// Its result is a function of the bytes alone. For a file of the text form it
/// also writes trace lines to the standard output.
#[verifier::external_body]
fn parse_facets(bytes: &[u8]) -> (r: Result<Vec<[u32; 9]>, pk_stl::error::Error>)
    requires
        parseable(bytes@),
    ensures
        match r {
            Ok(facets) => stl_facets(bytes@) == Some(facet_views(facets@)),
            Err(_) => stl_facets(bytes@) is None,
        },
{
    let model = pk_stl::parse_stl(bytes)?;
    Ok(model.triangles.iter().map(|t| {
        let [a, b, c] = t.vertices;
        [a.x.to_bits(), a.y.to_bits(), a.z.to_bits(), b.x.to_bits(), b.y.to_bits(), b.z.to_bits(),
            c.x.to_bits(), c.y.to_bits(), c.z.to_bits()]
    }).collect())
}

/// Whether the parser can be given the file.
pub fn is_parseable(bytes: &[u8]) -> (r: bool)
    ensures
        r == parseable(bytes@),
{
    let n: usize = bytes.len();
    if n < 6 {
        return false;
    }
    if bytes[0] == 0x73 && bytes[1] == 0x6f && bytes[2] == 0x6c && bytes[3] == 0x69 && bytes[4] == 0x64
        && bytes[5] == 0x20 {
        return true;
    }
    if n < 84 {
        return false;
    }
    let count: u64 = bytes[80] as u64 + 0x100 * (bytes[81] as u64) + 0x1_0000 * (bytes[82] as u64) + 0x100_0000
        * (bytes[83] as u64);
    count == 0 || 50 * count + 82 <= n as u64
}

/// The point of three consecutive encodings of a facet, from place `k` on, if
/// the lattice holds all three.
pub open spec fn vertex_at(facet: Seq<u32>, k: int, resolution: i32) -> Option<Point> {
    match (quantized(facet[k], resolution), quantized(facet[k + 1], resolution), quantized(facet[k + 2], resolution)) {
        (Some(x), Some(y), Some(z)) => Some(Point { x, y, z }),
        _ => None,
    }
}

/// The triangle of a facet, if the lattice holds its three vertices.
pub open spec fn placed(facet: Seq<u32>, resolution: i32) -> Option<Triangle> {
    match (vertex_at(facet, 0, resolution), vertex_at(facet, 3, resolution), vertex_at(facet, 6, resolution)) {
        (Some(a), Some(b), Some(c)) => Some(Triangle { a, b, c }),
        _ => None,
    }
}

/// The triangles of a list of facets, or why they make no mesh: an empty list
/// is an empty mesh; a list of more facets than a mesh can have triangles, and
/// a coordinate that is not a finite number or that the lattice cannot hold,
/// are faults of the file.
pub open spec fn triangles_of(facets: Seq<Seq<u32>>, resolution: i32) -> Result<Seq<Triangle>, VoxelError> {
    if facets.len() == 0 {
        Err(VoxelError::EmptyMesh)
    } else if facets.len() > MAX_TRIANGLES {
        Err(VoxelError::MeshParse)
    } else if exists|i: int| 0 <= i < facets.len() && placed(#[trigger] facets[i], resolution) is None {
        Err(VoxelError::MeshParse)
    } else {
        Ok(Seq::new(facets.len(), |i: int| placed(facets[i], resolution).unwrap()))
    }
}

/// The triangles of the file `bytes`, or why it yields no mesh.
pub open spec fn loaded(bytes: Seq<u8>, resolution: i32) -> Result<Seq<Triangle>, VoxelError> {
    if !parseable(bytes) {
        Err(VoxelError::MeshParse)
    } else {
        match stl_facets(bytes) {
            None => Err(VoxelError::MeshParse),
            Some(facets) => triangles_of(facets, resolution),
        }
    }
}

fn place_vertex(facet: &[u32; 9], k: usize, resolution: i32) -> (r: Option<Point>)
    requires
        k + 2 < 9,
    ensures
        r == vertex_at(facet@, k as int, resolution),
{
    let x = quantize(facet[k], resolution);
    let y = quantize(facet[k + 1], resolution);
    let z = quantize(facet[k + 2], resolution);
    match (x, y, z) {
        (Some(x), Some(y), Some(z)) => Some(Point { x, y, z }),
        _ => None,
    }
}

fn place(facet: &[u32; 9], resolution: i32) -> (r: Option<Triangle>)
    ensures
        r == placed(facet@, resolution),
{
    let a = place_vertex(facet, 0, resolution);
    let b = place_vertex(facet, 3, resolution);
    let c = place_vertex(facet, 6, resolution);
    match (a, b, c) {
        (Some(a), Some(b), Some(c)) => Some(Triangle { a, b, c }),
        _ => None,
    }
}

/// Builds the mesh of the facets that a parser read, on a lattice with
/// `2^resolution` points to the physical unit.
pub fn mesh_from_facets(facets: &[[u32; 9]], resolution: i32) -> (r: Result<Mesh, VoxelError>)
    ensures
        match r {
            Ok(mesh) => triangles_of(facet_views(facets@), resolution) == Ok::<Seq<Triangle>, VoxelError>(
                mesh.triangles(),
            ) && mesh.wf(),
            Err(e) => triangles_of(facet_views(facets@), resolution) == Err::<Seq<Triangle>, VoxelError>(e),
        },
{
    let n: usize = facets.len();
    let ghost views = facet_views(facets@);
    if n == 0 {
        return Err(VoxelError::EmptyMesh);
    }
    if n > MAX_TRIANGLES {
        return Err(VoxelError::MeshParse);
    }
    let mut triangles: Vec<Triangle> = Vec::new();
    let mut i: usize = 0;
    while i < n
        invariant
            0 <= i <= n,
            n == facets@.len(),
            views == facet_views(facets@),
            triangles@.len() == i,
            forall|j: int| 0 <= j < i ==> placed(#[trigger] views[j], resolution) == Some(triangles@[j]),
        decreases n - i,
    {
        match place(&facets[i], resolution) {
            None => {
                assert(placed(views[i as int], resolution) is None);
                return Err(VoxelError::MeshParse);
            },
            Some(t) => {
                triangles.push(t);
            },
        }
        i = i + 1;
    }
    proof {
        assert(triangles@ =~= Seq::new(views.len(), |i: int| placed(views[i], resolution).unwrap()));
    }
    match Mesh::new(triangles) {
        Ok(mesh) => Ok(mesh),
        Err(e) => Err(e),
    }
}

/// The coarsest lattice that a mesh is put on: a point to every `2^128`
/// physical units, which holds every finite single-precision value.
pub const MIN_RESOLUTION: i32 = -128;

/// The finest lattice that a mesh is put on.
pub const MAX_RESOLUTION: i32 = 179;

/// The lattice of `resolution` holds every coordinate of the facets.
pub open spec fn fits(facets: Seq<Seq<u32>>, resolution: i32) -> bool {
    forall|i: int, k: int|
        0 <= i < facets.len() && 0 <= k < 9 ==> quantized(#[trigger] facets[i][k], resolution) is Some
}

/// `resolution` is that of the finest lattice that holds every coordinate of
/// the facets: the mesh fills the lattice as far as it can, whatever its
/// physical size is.
pub open spec fn finest(facets: Seq<Seq<u32>>, resolution: i32) -> bool {
    &&& MIN_RESOLUTION <= resolution <= MAX_RESOLUTION
    &&& fits(facets, resolution)
    &&& resolution < MAX_RESOLUTION ==> !fits(facets, (resolution + 1) as i32)
}

/// The resolution of the finest lattice that holds the facets.
pub open spec fn finest_of(facets: Seq<Seq<u32>>) -> i32 {
    choose|resolution: i32| finest(facets, resolution)
}

/// What a lattice holds, every coarser lattice holds too.
pub proof fn lemma_fits_coarser(facets: Seq<Seq<u32>>, fine: i32, coarse: i32)
    requires
        coarse <= fine,
        fits(facets, fine),
    ensures
        fits(facets, coarse),
    decreases fine - coarse,
{
    if coarse < fine {
        let next = (fine - 1) as i32;
        assert forall|i: int, k: int| 0 <= i < facets.len() && 0 <= k < 9 implies quantized(
            #[trigger] facets[i][k],
            next,
        ) is Some by {
            lemma_coarser_holds(facets[i][k], next);
        }
        lemma_fits_coarser(facets, next, coarse);
    }
}

/// There is one finest lattice at most.
pub proof fn lemma_finest_is_unique(facets: Seq<Seq<u32>>, first: i32, second: i32)
    requires
        finest(facets, first),
        finest(facets, second),
    ensures
        first == second,
{
    if first < second {
        lemma_fits_coarser(facets, second, (first + 1) as i32);
    }
    if second < first {
        lemma_fits_coarser(facets, first, (second + 1) as i32);
    }
}

/// Picks the resolution for a list of facets: that of the finest lattice that
/// holds them all, or `None` where no lattice does, which is where a
/// coordinate is an infinity or a NaN.
pub fn finest_resolution(facets: &[[u32; 9]]) -> (r: Option<i32>)
    ensures
        match r {
            Some(resolution) => finest(facet_views(facets@), resolution),
            None => forall|v: i32| MIN_RESOLUTION <= v <= MAX_RESOLUTION ==> !fits(facet_views(facets@), v),
        },
{
    let n: usize = facets.len();
    let ghost views = facet_views(facets@);
    let mut r: i32 = MAX_RESOLUTION;
    let ghost mut wi: int = 0;
    let ghost mut wk: int = 0;
    let mut i: usize = 0;
    while i < n
        invariant
            0 <= i <= n,
            n == facets@.len(),
            views == facet_views(facets@),
            MIN_RESOLUTION <= r <= MAX_RESOLUTION,
            forall|a: int, b: int| 0 <= a < i && 0 <= b < 9 ==> quantized(#[trigger] views[a][b], r) is Some,
            r < MAX_RESOLUTION ==> 0 <= wi < n && 0 <= wk < 9 && quantized(views[wi][wk], (r + 1) as i32) is None,
        decreases n - i,
    {
        let mut k: usize = 0;
        while k < 9
            invariant
                0 <= i < n,
                0 <= k <= 9,
                n == facets@.len(),
                views == facet_views(facets@),
                MIN_RESOLUTION <= r <= MAX_RESOLUTION,
                forall|a: int, b: int| 0 <= a < i && 0 <= b < 9 ==> quantized(#[trigger] views[a][b], r) is Some,
                forall|b: int| 0 <= b < k ==> quantized(#[trigger] views[i as int][b], r) is Some,
                r < MAX_RESOLUTION ==> 0 <= wi < n && 0 <= wk < 9 && quantized(views[wi][wk], (r + 1) as i32)
                    is None,
            decreases 9 - k,
        {
            let bits: u32 = facets[i][k];
            assert(bits == views[i as int][k as int]);
            let mut placed = quantize(bits, r);
            while placed.is_none()
                invariant
                    0 <= i < n,
                    0 <= k < 9,
                    n == facets@.len(),
                    views == facet_views(facets@),
                    bits == views[i as int][k as int],
                    MIN_RESOLUTION <= r <= MAX_RESOLUTION,
                    placed == quantized(bits, r),
                    forall|a: int, b: int|
                        0 <= a < i && 0 <= b < 9 ==> quantized(#[trigger] views[a][b], r) is Some,
                    forall|b: int| 0 <= b < k ==> quantized(#[trigger] views[i as int][b], r) is Some,
                    r < MAX_RESOLUTION ==> 0 <= wi < n && 0 <= wk < 9 && quantized(views[wi][wk], (r + 1) as i32)
                        is None,
                decreases r - MIN_RESOLUTION,
            {
                if r == MIN_RESOLUTION {
                    proof {
                        assert forall|v: i32| MIN_RESOLUTION <= v <= MAX_RESOLUTION implies !fits(views, v) by {
                            if fits(views, v) {
                                lemma_fits_coarser(views, v, MIN_RESOLUTION);
                                assert(quantized(views[i as int][k as int], MIN_RESOLUTION) is Some);
                            }
                        }
                    }
                    return None;
                }
                proof {
                    wi = i as int;
                    wk = k as int;
                    let next = (r - 1) as i32;
                    assert forall|a: int, b: int| 0 <= a < i && 0 <= b < 9 implies quantized(
                        #[trigger] views[a][b],
                        next,
                    ) is Some by {
                        lemma_coarser_holds(views[a][b], next);
                    }
                    assert forall|b: int| 0 <= b < k implies quantized(#[trigger] views[i as int][b], next) is Some by {
                        lemma_coarser_holds(views[i as int][b], next);
                    }
                }
                r = r - 1;
                placed = quantize(bits, r);
            }
            k = k + 1;
        }
        i = i + 1;
    }
    proof {
        if r < MAX_RESOLUTION {
            assert(quantized(views[wi][wk], (r + 1) as i32) is None);
        }
    }
    Some(r)
}

/// The triangles of a list of facets on the finest lattice that holds them,
/// with the resolution of that lattice, or why they make no mesh.
pub open spec fn fitted(facets: Seq<Seq<u32>>) -> Result<(Seq<Triangle>, i32), VoxelError> {
    if !fits(facets, MIN_RESOLUTION) {
        Err(VoxelError::MeshParse)
    } else {
        match triangles_of(facets, finest_of(facets)) {
            Ok(triangles) => Ok((triangles, finest_of(facets))),
            Err(e) => Err(e),
        }
    }
}

/// Builds the mesh of the facets that a parser read, on the finest lattice
/// that holds them, and tells the resolution of that lattice.
pub fn fit_mesh(facets: &[[u32; 9]]) -> (r: Result<(Mesh, i32), VoxelError>)
    ensures
        match r {
            Ok((mesh, resolution)) => fitted(facet_views(facets@)) == Ok::<(Seq<Triangle>, i32), VoxelError>(
                (mesh.triangles(), resolution),
            ) && finest(facet_views(facets@), resolution) && mesh.wf(),
            Err(e) => fitted(facet_views(facets@)) == Err::<(Seq<Triangle>, i32), VoxelError>(e),
        },
{
    let ghost views = facet_views(facets@);
    match finest_resolution(facets) {
        None => Err(VoxelError::MeshParse),
        Some(resolution) => {
            proof {
                lemma_fits_coarser(views, resolution, MIN_RESOLUTION);
                lemma_finest_is_unique(views, resolution, finest_of(views));
            }
            match mesh_from_facets(facets, resolution) {
                Ok(mesh) => Ok((mesh, resolution)),
                Err(e) => Err(e),
            }
        },
    }
}

/// The triangles of the file `bytes` on the finest lattice that holds them,
/// with the resolution of that lattice, or why the file yields no mesh.
pub open spec fn loaded_fitted(bytes: Seq<u8>) -> Result<(Seq<Triangle>, i32), VoxelError> {
    if !parseable(bytes) {
        Err(VoxelError::MeshParse)
    } else {
        match stl_facets(bytes) {
            None => Err(VoxelError::MeshParse),
            Some(facets) => fitted(facets),
        }
    }
}

/// Loads the mesh of an STL file on the finest lattice that holds it, and
/// tells the resolution of that lattice, on which the sampling grid is then
/// to be read.
pub fn load_fitted(bytes: &[u8]) -> (r: Result<(Mesh, i32), VoxelError>)
    ensures
        match r {
            Ok((mesh, resolution)) => loaded_fitted(bytes@) == Ok::<(Seq<Triangle>, i32), VoxelError>(
                (mesh.triangles(), resolution),
            ) && mesh.wf(),
            Err(e) => loaded_fitted(bytes@) == Err::<(Seq<Triangle>, i32), VoxelError>(e),
        },
{
    if !is_parseable(bytes) {
        return Err(VoxelError::MeshParse);
    }
    match parse_facets(bytes) {
        Err(_) => Err(VoxelError::MeshParse),
        Ok(facets) => fit_mesh(facets.as_slice()),
    }
}

/// Loads the mesh of an STL file, of the text or the binary form, on a lattice
/// with `2^resolution` points to the physical unit.
///
/// A file that the parser rejects, or cannot be given, fails with `MeshParse`;
/// so does one with a vertex that the lattice cannot hold. A file without
/// facets fails with `EmptyMesh`.
pub fn load_mesh(bytes: &[u8], resolution: i32) -> (r: Result<Mesh, VoxelError>)
    ensures
        match r {
            Ok(mesh) => loaded(bytes@, resolution) == Ok::<Seq<Triangle>, VoxelError>(mesh.triangles()) && mesh.wf(),
            Err(e) => loaded(bytes@, resolution) == Err::<Seq<Triangle>, VoxelError>(e),
        },
{
    if !is_parseable(bytes) {
        return Err(VoxelError::MeshParse);
    }
    match parse_facets(bytes) {
        Err(_) => Err(VoxelError::MeshParse),
        Ok(facets) => mesh_from_facets(facets.as_slice(), resolution),
    }
}

} // verus!

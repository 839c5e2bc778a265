use meshvox::duration::format_duration;
use meshvox::error::VoxelError;
use meshvox::geometry::{BoundingBox, Point, Triangle};
use meshvox::grid::{GridGeometry, Shape, Spacing};
use meshvox::header::{count_usable_axes, read_geometry};
use meshvox::lattice::{quantize, Step};
use meshvox::stl::{finest_resolution, fit_mesh, is_parseable, load_fitted, load_mesh, mesh_from_facets};

fn bits(v: f32) -> u32 {
    v.to_bits()
}

#[test]
fn quantize_whole_numbers() {
    assert_eq!(quantize(bits(0.0), 0), Some(0));
    assert_eq!(quantize(bits(-0.0), 0), Some(0));
    assert_eq!(quantize(bits(1.0), 0), Some(1));
    assert_eq!(quantize(bits(-1.0), 0), Some(-1));
    assert_eq!(quantize(bits(10.0), 0), Some(10));
    assert_eq!(quantize(bits(12345.0), 0), Some(12345));
    assert_eq!(quantize(bits(1.0), 8), Some(256));
    assert_eq!(quantize(bits(-2.5), 8), Some(-640));
    assert_eq!(quantize(bits(0.9375), 4), Some(15));
}

#[test]
fn quantize_rounds_to_nearest_and_halves_away_from_zero() {
    assert_eq!(quantize(bits(0.25), 0), Some(0));
    assert_eq!(quantize(bits(0.49), 0), Some(0));
    assert_eq!(quantize(bits(0.5), 0), Some(1));
    assert_eq!(quantize(bits(-0.5), 0), Some(-1));
    assert_eq!(quantize(bits(1.5), 0), Some(2));
    assert_eq!(quantize(bits(2.5), 0), Some(3));
    assert_eq!(quantize(bits(-2.5), 0), Some(-3));
    assert_eq!(quantize(bits(2.4999), 0), Some(2));
    assert_eq!(quantize(bits(0.75), 1), Some(2));
    assert_eq!(quantize(bits(0.7), 1), Some(1));
    assert_eq!(quantize(bits(1.0e-30), 0), Some(0));
    assert_eq!(quantize(bits(1.0e-30), 64), Some(0));
    assert_eq!(quantize(bits(f32::MIN_POSITIVE), 0), Some(0));
    assert_eq!(quantize(1, 0), Some(0));
    assert_eq!(quantize(1, 149), Some(1));
    assert_eq!(quantize(1, 148), Some(1));
    assert_eq!(quantize(1, 147), Some(0));
    assert_eq!(quantize(3, 148), Some(2));
}

#[test]
fn quantize_refuses_what_the_lattice_cannot_hold() {
    assert_eq!(quantize(bits(f32::NAN), 0), None);
    assert_eq!(quantize(bits(f32::INFINITY), 0), None);
    assert_eq!(quantize(bits(f32::NEG_INFINITY), 0), None);
    assert_eq!(quantize(bits(f32::MAX), 0), None);
    assert_eq!(quantize(bits(2147483648.0), 0), None);
    assert_eq!(quantize(bits(-2147483648.0), 0), None);
    assert_eq!(quantize(bits(2147483520.0), 0), Some(2147483520));
    assert_eq!(quantize(bits(-2147483520.0), 0), Some(-2147483520));
    assert_eq!(quantize(bits(1.0), 30), Some(1 << 30));
    assert_eq!(quantize(bits(1.0), 31), None);
    assert_eq!(quantize(bits(1.0), i32::MAX), None);
    assert_eq!(quantize(bits(0.0), i32::MAX), Some(0));
    assert_eq!(quantize(bits(f32::MAX), -97), Some(2147483520));
    assert_eq!(quantize(bits(f32::MAX), -96), None);
    assert_eq!(quantize(bits(f32::MAX), i32::MIN), Some(0));
    assert_eq!(quantize(bits(1.0e10), -8), Some(39062500));
    assert_eq!(quantize(bits(3.0), -1), Some(2));
    assert_eq!(quantize(bits(-3.0), -2), Some(-1));
    assert_eq!(quantize(bits(1.0), -2), Some(0));
}

#[test]
fn quantize_agrees_with_rounding_in_double_precision() {
    let mut state: u32 = 0x1234_5678;
    for frac_bits in [-12i32, -3, 0, 1, 4, 8, 10, 16] {
        for _ in 0..2000 {
            state = state.wrapping_mul(1664525).wrapping_add(1013904223);
            let v = f32::from_bits(state);
            if !v.is_finite() || v.abs() > 1.0e6 {
                continue;
            }
            let exact = ((v as f64) * f64::powi(2.0, frac_bits)).round();
            let want = if exact.abs() > i32::MAX as f64 { None } else { Some(exact as i32) };
            assert_eq!(quantize(state, frac_bits), want, "for {v} with {frac_bits} bits");
        }
    }
}

fn header(dim: [u16; 8], pixdim: [f32; 8]) -> ([u16; 8], [u32; 8]) {
    (dim, pixdim.map(|v| v.to_bits()))
}

#[test]
fn header_with_three_axes_is_read() {
    let (dim, pixdim) = header([3, 64, 48, 32, 1, 1, 1, 1], [1.0, 0.5, 0.75, 2.0, 0.0, 0.0, 0.0, 0.0]);
    let geometry = read_geometry(&dim, &pixdim, 8).unwrap();
    assert_eq!(geometry.shape, Shape { nx: 64, ny: 48, nz: 32 });
    assert_eq!(geometry.spacing.dx, Step { negative: false, significand: 0x80_0000, shift: -16 });
    assert_eq!(geometry.spacing.dx.advance(1), Some(128));
    assert_eq!(geometry.spacing.dy.advance(1), Some(192));
    assert_eq!(geometry.spacing.dz.advance(1), Some(512));
    assert_eq!(geometry.spacing.dz.advance(31), Some(15872));
    assert_eq!(
        geometry,
        GridGeometry {
            shape: geometry.shape,
            spacing: Spacing {
                dx: Step::decode(0.5f32.to_bits(), 8).unwrap(),
                dy: Step::decode(0.75f32.to_bits(), 8).unwrap(),
                dz: Step::decode(2.0f32.to_bits(), 8).unwrap(),
            },
        }
    );
    assert_eq!(count_usable_axes(&dim), 3);
}

#[test]
fn trailing_axes_of_one_voxel_are_not_counted() {
    let (dim, pixdim) = header([4, 64, 48, 32, 1, 1, 1, 1], [1.0, 1.0, 1.0, 1.0, 1.0, 0.0, 0.0, 0.0]);
    assert_eq!(count_usable_axes(&dim), 3);
    assert_eq!(read_geometry(&dim, &pixdim, 0).map(|g| g.shape), Ok(Shape { nx: 64, ny: 48, nz: 32 }));
    let (dim, pixdim) = header([7, 5, 6, 7, 1, 1, 1, 1], [1.0; 8]);
    assert_eq!(count_usable_axes(&dim), 3);
    assert!(read_geometry(&dim, &pixdim, 0).is_ok());
    let (dim, pixdim) = header([3, 5, 6, 1, 1, 1, 1, 1], [1.0; 8]);
    assert_eq!(count_usable_axes(&dim), 3);
    assert_eq!(read_geometry(&dim, &pixdim, 0).map(|g| g.shape), Ok(Shape { nx: 5, ny: 6, nz: 1 }));
}

#[test]
fn other_dimensionalities_are_unsupported() {
    for dim in [[4u16, 64, 48, 32, 10, 1, 1, 1], [5, 64, 48, 32, 1, 2, 1, 1], [5, 64, 48, 32, 2, 1, 1, 1],
        [2, 64, 48, 1, 1, 1, 1, 1], [1, 64, 1, 1, 1, 1, 1, 1], [0, 0, 0, 0, 0, 0, 0, 0], [4, 64, 48, 32, 0, 1, 1, 1]] {
        let (dim, pixdim) = header(dim, [1.0; 8]);
        assert_eq!(read_geometry(&dim, &pixdim, 0), Err(VoxelError::UnsupportedDimensionality), "for {dim:?}");
    }
    assert_eq!(count_usable_axes(&[5, 64, 48, 32, 2, 1, 1, 1]), 4);
    assert_eq!(count_usable_axes(&[5, 64, 48, 32, 1, 2, 1, 1]), 5);
    assert_eq!(count_usable_axes(&[2, 64, 48, 1, 1, 1, 1, 1]), 2);
}

#[test]
fn header_that_cannot_be_read() {
    let one = 1.0f32.to_bits();
    assert_eq!(read_geometry(&[], &[one; 8], 0), Err(VoxelError::ReferenceRead));
    assert_eq!(read_geometry(&[3, 4, 5], &[one; 8], 0), Err(VoxelError::ReferenceRead));
    assert_eq!(read_geometry(&[8, 4, 5, 6, 1, 1, 1, 1], &[one; 8], 0), Err(VoxelError::ReferenceRead));
    assert_eq!(read_geometry(&[3, 4, 5, 6, 1, 1, 1, 1], &[one; 3], 0), Err(VoxelError::ReferenceRead));
    let (dim, pixdim) = header([3, 4, 5, 6, 1, 1, 1, 1], [1.0, 1.0, f32::NAN, 1.0, 1.0, 1.0, 1.0, 1.0]);
    assert_eq!(read_geometry(&dim, &pixdim, 0), Err(VoxelError::ReferenceRead));
    let (dim, pixdim) = header([3, 4, 5, 6, 1, 1, 1, 1], [1.0, f32::INFINITY, 1.0, 1.0, 1.0, 1.0, 1.0, 1.0]);
    assert_eq!(read_geometry(&dim, &pixdim, 0), Err(VoxelError::ReferenceRead));
    // A spacing beyond the lattice is read; its voxels lie beyond the lattice.
    let (dim, pixdim) = header([3, 4, 5, 6, 1, 1, 1, 1], [1.0, 1.0, 1.0, 3.0e9, 1.0, 1.0, 1.0, 1.0]);
    let far = read_geometry(&dim, &pixdim, 0).unwrap();
    assert_eq!(far.spacing.dz.advance(0), Some(0));
    assert_eq!(far.spacing.dz.advance(1), None);
    // Entries that belong to no usable axis are not looked at.
    let (dim, pixdim) = header([3, 4, 5, 6, 1, 1, 1, 1], [f32::NAN, 1.0, 1.0, 1.0, f32::NAN, 1.0, 1.0, 1.0]);
    assert!(read_geometry(&dim, &pixdim, 0).is_ok());
}

#[test]
fn empty_axis_is_left_to_the_enumeration() {
    let (dim, pixdim) = header([3, 4, 0, 6, 1, 1, 1, 1], [1.0; 8]);
    let geometry = read_geometry(&dim, &pixdim, 0).unwrap();
    assert_eq!(geometry.shape, Shape { nx: 4, ny: 0, nz: 6 });
    assert_eq!(geometry.shape.coordinates().err(), Some(VoxelError::InvalidShape));
}

fn binary_stl(announced: u32, facets: &[[f32; 9]]) -> Vec<u8> {
    let mut out = vec![b' '; 80];
    out[..6].copy_from_slice(b"binary");
    out.extend_from_slice(&announced.to_le_bytes());
    for f in facets {
        for _ in 0..3 {
            out.extend_from_slice(&0.0f32.to_le_bytes());
        }
        for v in f {
            out.extend_from_slice(&v.to_le_bytes());
        }
        out.extend_from_slice(&[0, 0]);
    }
    out
}

fn pt(x: i32, y: i32, z: i32) -> Point {
    Point { x, y, z }
}

#[test]
fn binary_file_is_loaded() {
    let facets = [[0.0, 0.0, 0.0, 1.0, 0.0, 0.0, 0.0, 1.0, 0.0], [0.5, -0.25, 2.0, 1.0, 1.0, 1.0, 0.0, 0.0, 3.0]];
    let bytes = binary_stl(2, &facets);
    assert!(is_parseable(&bytes));
    let mesh = load_mesh(&bytes, 2).unwrap();
    assert_eq!(mesh.triangle_count(), 2);
    assert_eq!(mesh.triangle(0), Triangle { a: pt(0, 0, 0), b: pt(4, 0, 0), c: pt(0, 4, 0) });
    assert_eq!(mesh.triangle(1), Triangle { a: pt(2, -1, 8), b: pt(4, 4, 4), c: pt(0, 0, 12) });
    assert_eq!(mesh.bounding_box(), BoundingBox { min: pt(0, -1, 0), max: pt(4, 4, 12) });
    // The last facet may lack its two closing bytes.
    let short = &bytes[..bytes.len() - 2];
    assert!(is_parseable(short));
    assert_eq!(load_mesh(short, 2).unwrap().triangle_count(), 2);
}

#[test]
fn text_file_is_loaded() {
    let text = "solid wedge\nfacet normal 0 0 1\n  outer loop\n    vertex 0 0 0\n    vertex 1.5e1 0 0\n    vertex 0 -2.5 0\n  endloop\nendfacet\nendsolid wedge\n";
    assert!(is_parseable(text.as_bytes()));
    let mesh = load_mesh(text.as_bytes(), 1).unwrap();
    assert_eq!(mesh.triangle_count(), 1);
    assert_eq!(mesh.triangle(0), Triangle { a: pt(0, 0, 0), b: pt(30, 0, 0), c: pt(0, -5, 0) });
}

#[test]
fn file_without_triangles_is_an_empty_mesh() {
    assert_eq!(load_mesh(&binary_stl(0, &[]), 0).err(), Some(VoxelError::EmptyMesh));
    assert_eq!(load_mesh(b"solid nothing\nendsolid nothing\n", 0).err(), Some(VoxelError::EmptyMesh));
    assert_eq!(mesh_from_facets(&[], 0).err(), Some(VoxelError::EmptyMesh));
}

#[test]
fn malformed_file_is_a_parse_error() {
    assert_eq!(load_mesh(b"", 0).err(), Some(VoxelError::MeshParse));
    assert_eq!(load_mesh(b"soli", 0).err(), Some(VoxelError::MeshParse));
    assert_eq!(load_mesh(b"binary", 0).err(), Some(VoxelError::MeshParse));
    assert_eq!(load_mesh(b"solid wedge\nfacet normal 0 0\n", 0).err(), Some(VoxelError::MeshParse));
    assert_eq!(load_mesh(b"solid wedge\nfacet abnormal\n", 0).err(), Some(VoxelError::MeshParse));
    let facets = [[0.0, 0.0, 0.0, 1.0, 0.0, 0.0, 0.0, 1.0, 0.0]];
    let whole = binary_stl(1, &facets);
    for cut in [0usize, 5, 6, 83, 84, 100, whole.len() - 3] {
        assert_eq!(load_mesh(&whole[..cut], 0).err(), Some(VoxelError::MeshParse), "cut at {cut}");
    }
    // More facets announced than the file holds, up to the largest count.
    assert_eq!(load_mesh(&binary_stl(2, &facets), 0).err(), Some(VoxelError::MeshParse));
    assert!(!is_parseable(&binary_stl(u32::MAX, &facets)));
    assert_eq!(load_mesh(&binary_stl(u32::MAX, &facets), 0).err(), Some(VoxelError::MeshParse));
}

#[test]
fn vertex_off_the_lattice_is_a_parse_error() {
    let good = [0.0, 0.0, 0.0, 1.0, 0.0, 0.0, 0.0, 1.0, 0.0];
    for k in 0..9 {
        let mut bad = good;
        bad[k] = f32::NAN;
        assert_eq!(load_mesh(&binary_stl(2, &[good, bad]), 0).err(), Some(VoxelError::MeshParse));
        bad[k] = 1.0e10;
        assert_eq!(load_mesh(&binary_stl(2, &[bad, good]), 0).err(), Some(VoxelError::MeshParse));
        let raw = bad.map(|v| v.to_bits());
        assert_eq!(mesh_from_facets(&[raw], 0).err(), Some(VoxelError::MeshParse));
    }
    assert!(load_mesh(&binary_stl(1, &[good]), 0).is_ok());
    assert_eq!(load_mesh(&binary_stl(1, &[good]), 31).err(), Some(VoxelError::MeshParse));
}

#[test]
fn facets_are_placed_in_their_order() {
    let one = 1.0f32.to_bits();
    let two = 2.0f32.to_bits();
    let mesh = mesh_from_facets(&[[0, 0, 0, one, 0, 0, 0, one, 0], [two, two, two, one, 0, 0, 0, one, 0]], 3).unwrap();
    assert_eq!(mesh.triangle(0), Triangle { a: pt(0, 0, 0), b: pt(8, 0, 0), c: pt(0, 8, 0) });
    assert_eq!(mesh.triangle(1), Triangle { a: pt(16, 16, 16), b: pt(8, 0, 0), c: pt(0, 8, 0) });
}

#[test]
fn durations_are_formatted() {
    assert_eq!(format_duration(0, 0), "00h:00m:00.0000s");
    assert_eq!(format_duration(3723, 45), "01h:02m:03.0045s");
    assert_eq!(format_duration(59, 999), "00h:00m:59.0999s");
    assert_eq!(format_duration(60, 7), "00h:01m:00.0007s");
    assert_eq!(format_duration(86399, 120), "23h:59m:59.0120s");
    assert_eq!(format_duration(360000, 1), "100h:00m:00.0001s");
    assert_eq!(format_duration(5, 1234), "00h:00m:05.0234s");
    assert_eq!(format_duration(u64::MAX, u32::MAX), "5124095576030431h:00m:15.0295s");
}

#[test]
fn each_error_names_its_stage() {
    assert!(VoxelError::MeshParse.describe().starts_with("mesh parse: "));
    assert!(VoxelError::EmptyMesh.describe().starts_with("mesh parse: "));
    assert!(VoxelError::ReferenceRead.describe().starts_with("reference read: "));
    assert!(VoxelError::UnsupportedDimensionality.describe().starts_with("dimensionality check: "));
    assert!(VoxelError::InvalidShape.describe().starts_with("grid enumeration: "));
    assert!(VoxelError::ShapeMismatch.describe().starts_with("volume assembly: "));
    assert!(VoxelError::VolumeWrite.describe().starts_with("volume write: "));
    assert_eq!(VoxelError::EmptyMesh.describe(), "mesh parse: the mesh holds no triangle");
    assert_ne!(VoxelError::MeshParse.describe(), VoxelError::EmptyMesh.describe());
}

#[test]
fn resolution_follows_the_size_of_the_mesh() {
    let facet = |scale: f32| [0.0, 0.0, 0.0, scale, 0.0, 0.0, 0.0, -1.5 * scale, 0.25 * scale].map(|v: f32| v.to_bits());
    // The largest magnitude is 1.5 times the scale: 1.5 * 2^30 fits, 1.5 * 2^31 does not.
    assert_eq!(finest_resolution(&[facet(1.0)]), Some(30));
    assert_eq!(finest_resolution(&[facet(0.01)]), Some(37));
    assert_eq!(finest_resolution(&[facet(1.0e-6)]), Some(50));
    assert_eq!(finest_resolution(&[facet(1024.0)]), Some(20));
    assert_eq!(finest_resolution(&[facet(1.0e12)]), Some(-10));
    assert_eq!(finest_resolution(&[facet(1.0), facet(1024.0), facet(0.5)]), Some(20));
    assert_eq!(finest_resolution(&[[0u32; 9]]), Some(179));
    assert_eq!(finest_resolution(&[]), Some(179));
    assert_eq!(finest_resolution(&[[f32::MAX.to_bits(); 9]]), Some(-97));
    let mut bad = facet(1.0);
    bad[4] = f32::NAN.to_bits();
    assert_eq!(finest_resolution(&[facet(1.0), bad]), None);
    bad[4] = f32::NEG_INFINITY.to_bits();
    assert_eq!(finest_resolution(&[bad]), None);
    for scale in [1.0e-20f32, 3.0e-3, 1.0, 7.0e5, 2.0e30] {
        let r = finest_resolution(&[facet(scale)]).unwrap();
        assert!(mesh_from_facets(&[facet(scale)], r).is_ok());
        assert_eq!(mesh_from_facets(&[facet(scale)], r + 1).err(), Some(VoxelError::MeshParse));
    }
}

#[test]
fn small_and_large_meshes_are_fitted_alike() {
    let facets = |scale: f32| {
        [[0.0, 0.0, 0.0, 1.0, 0.0, 0.0, 0.0, 1.0, 0.0], [0.0, 0.0, 1.0, 1.0, 0.0, 0.0, 0.0, 1.0, 0.0]]
            .map(|f: [f32; 9]| f.map(|v| (v * scale).to_bits()))
    };
    let (unit, r0) = fit_mesh(&facets(1.0)).unwrap();
    let (small, r1) = fit_mesh(&facets(1.0 / 128.0)).unwrap();
    let (large, r2) = fit_mesh(&facets(4096.0)).unwrap();
    assert_eq!((r0, r1, r2), (30, 37, 18));
    for i in 0..2 {
        assert_eq!(unit.triangle(i), small.triangle(i));
        assert_eq!(unit.triangle(i), large.triangle(i));
    }
    assert_eq!(unit.triangle(0).b, pt(1 << 30, 0, 0));
    assert_eq!(fit_mesh(&[]).err(), Some(VoxelError::EmptyMesh));
    assert_eq!(fit_mesh(&[[f32::NAN.to_bits(); 9]]).err(), Some(VoxelError::MeshParse));
}

#[test]
fn file_is_loaded_on_the_finest_lattice() {
    let facets = [[0.0, 0.0, 0.0, 0.01, 0.0, 0.0, 0.0, 0.01, 0.0], [0.005, -0.0025, 0.02, 0.01, 0.01, 0.01, 0.0, 0.0, 0.03]];
    let bytes = binary_stl(2, &facets);
    let (mesh, resolution) = load_fitted(&bytes).unwrap();
    // The largest magnitude is 0.03, and 0.03 * 2^36 is the last to fit.
    assert_eq!(resolution, 36);
    assert_eq!(mesh.triangle_count(), 2);
    assert_eq!(mesh.triangle(1).c.z, quantize(0.03f32.to_bits(), 36).unwrap());
    assert!(mesh.triangle(1).c.z > (1 << 30));
    let same = load_mesh(&bytes, resolution).unwrap();
    assert_eq!(same.triangle(0), mesh.triangle(0));
    assert_eq!(same.triangle(1), mesh.triangle(1));
    assert_eq!(load_fitted(&binary_stl(0, &[])).err(), Some(VoxelError::EmptyMesh));
    assert_eq!(load_fitted(b"soli").err(), Some(VoxelError::MeshParse));
    assert_eq!(load_fitted(&binary_stl(3, &facets)).err(), Some(VoxelError::MeshParse));
    let mut bad = facets;
    bad[1][7] = f32::INFINITY;
    assert_eq!(load_fitted(&binary_stl(2, &bad)).err(), Some(VoxelError::MeshParse));
}

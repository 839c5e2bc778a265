use meshvox::classify::Classification;
use meshvox::error::VoxelError;
use meshvox::evaluate::{classify_at, evaluate};
use meshvox::geometry::{Mesh, Point, Triangle};
use meshvox::grid::{GridCoordinate, GridGeometry, Shape, Spacing};
use meshvox::lattice::Step;
use meshvox::pipeline::voxelize;
use meshvox::volume::{assemble, VolumeGrid};

fn pt(x: i32, y: i32, z: i32) -> Point {
    Point { x, y, z }
}

fn at(x: usize, y: usize, z: usize) -> GridCoordinate {
    GridCoordinate { x, y, z }
}

fn box_mesh(lo: Point, hi: Point) -> Mesh {
    let v = |i: usize| {
        pt(
            if i & 1 == 0 { lo.x } else { hi.x },
            if i & 2 == 0 { lo.y } else { hi.y },
            if i & 4 == 0 { lo.z } else { hi.z },
        )
    };
    let faces: [[usize; 4]; 6] =
        [[0, 2, 3, 1], [4, 5, 7, 6], [0, 1, 5, 4], [2, 6, 7, 3], [0, 4, 6, 2], [1, 3, 7, 5]];
    let mut out = Vec::new();
    for f in faces.iter() {
        out.push(Triangle { a: v(f[0]), b: v(f[1]), c: v(f[2]) });
        out.push(Triangle { a: v(f[0]), b: v(f[2]), c: v(f[3]) });
    }
    Mesh::new(out).unwrap()
}

fn unit_spacing() -> Spacing {
    Spacing { dx: Step::whole(1), dy: Step::whole(1), dz: Step::whole(1) }
}

#[test]
fn enumeration_has_x_fastest_and_z_slowest() {
    let shape = Shape { nx: 2, ny: 3, nz: 4 };
    let all = shape.coordinates().unwrap();
    assert_eq!(all.len(), 24);
    assert_eq!(all[0], at(0, 0, 0));
    assert_eq!(all[1], at(1, 0, 0));
    assert_eq!(all[2], at(0, 1, 0));
    assert_eq!(all[5], at(1, 2, 0));
    assert_eq!(all[6], at(0, 0, 1));
    assert_eq!(all[23], at(1, 2, 3));
    let mut i = 0;
    for z in 0..4 {
        for y in 0..3 {
            for x in 0..2 {
                assert_eq!(all[i], at(x, y, z));
                assert_eq!(shape.coordinate_at(i), at(x, y, z));
                assert_eq!((z * 3 + y) * 2 + x, i);
                i += 1;
            }
        }
    }
}

#[test]
fn geometry_enumerates_its_shape() {
    let geometry = GridGeometry { shape: Shape { nx: 3, ny: 2, nz: 2 }, spacing: Spacing { dx: Step::whole(7), dy: Step::whole(-1), dz: Step::whole(0) } };
    assert_eq!(geometry.coordinates(), geometry.shape.coordinates());
    assert_eq!(geometry.coordinates().unwrap()[4], at(1, 1, 0));
}

#[test]
fn enumeration_can_be_read_again() {
    let shape = Shape { nx: 5, ny: 1, nz: 2 };
    assert_eq!(shape.coordinates().unwrap(), shape.coordinates().unwrap());
    assert_eq!(shape.coordinate_at(7), at(2, 0, 1));
    assert_eq!(shape.coordinate_at(7), at(2, 0, 1));
}

#[test]
fn empty_axis_is_an_invalid_shape() {
    for shape in [Shape { nx: 0, ny: 3, nz: 4 }, Shape { nx: 2, ny: 0, nz: 4 }, Shape { nx: 2, ny: 3, nz: 0 },
        Shape { nx: 0, ny: 0, nz: 0 }] {
        assert_eq!(shape.coordinates().err(), Some(VoxelError::InvalidShape));
    }
}

#[test]
fn count_is_the_product_or_nothing() {
    assert_eq!(Shape { nx: 2, ny: 3, nz: 4 }.count(), Some(24));
    assert_eq!(Shape { nx: 2, ny: 0, nz: 4 }.count(), Some(0));
    assert_eq!(Shape { nx: usize::MAX, ny: 2, nz: 1 }.count(), None);
    assert_eq!(Shape { nx: usize::MAX, ny: 1, nz: 2 }.count(), None);
    assert_eq!(Shape { nx: usize::MAX, ny: 2, nz: 0 }.count(), Some(0));
    assert!(Shape { nx: 2, ny: 3, nz: 4 }.is_addressable());
    assert!(!Shape { nx: usize::MAX, ny: 1, nz: 1 }.is_addressable());
    assert!(Shape { nx: isize::MAX as usize, ny: 1, nz: 1 }.is_addressable());
}

#[test]
fn voxel_maps_to_coordinate_times_spacing() {
    let mesh = box_mesh(pt(0, 0, 0), pt(100, 100, 100));
    let spacing = Spacing { dx: Step::whole(10), dy: Step::whole(20), dz: Step::whole(30) };
    // (30, 60, 90) lies in the box, (30, 100, 90) on its face.
    assert_eq!(classify_at(&mesh, &at(3, 3, 3), &spacing), Classification::Inside);
    assert_eq!(classify_at(&mesh, &at(3, 5, 3), &spacing), Classification::Outside);
    assert_eq!(classify_at(&mesh, &at(9, 4, 3), &spacing), Classification::Inside);
    assert_eq!(classify_at(&mesh, &at(9, 4, 4), &spacing), Classification::Outside);
    let mirrored = box_mesh(pt(-100, 0, 0), pt(0, 100, 100));
    let back = Spacing { dx: Step::whole(-10), dy: Step::whole(20), dz: Step::whole(30) };
    assert_eq!(classify_at(&mirrored, &at(3, 3, 3), &back), Classification::Inside);
    assert_eq!(classify_at(&mirrored, &at(3, 3, 3), &spacing), Classification::Outside);
}

#[test]
fn voxel_beyond_the_lattice_is_outside() {
    let mesh = box_mesh(pt(i32::MIN, i32::MIN, i32::MIN), pt(i32::MAX, i32::MAX, i32::MAX));
    let spacing = Spacing { dx: Step::whole(i32::MAX), dy: Step::whole(1), dz: Step::whole(1) };
    assert_eq!(classify_at(&mesh, &at(0, 5, 5), &spacing), Classification::Inside);
    assert_eq!(classify_at(&mesh, &at(2, 5, 5), &spacing), Classification::Outside);
    assert_eq!(classify_at(&mesh, &at(usize::MAX, 5, 5), &spacing), Classification::Outside);
    let back = Spacing { dx: Step::whole(i32::MIN), dy: Step::whole(i32::MIN), dz: Step::whole(i32::MIN) };
    assert_eq!(classify_at(&mesh, &at(usize::MAX, usize::MAX, usize::MAX), &back), Classification::Outside);
}

#[test]
fn evaluate_keeps_the_order_of_the_coordinates() {
    let mesh = box_mesh(pt(0, 0, 0), pt(4, 4, 4));
    let coordinates = vec![at(2, 2, 2), at(0, 0, 0), at(1, 3, 2), at(9, 9, 9), at(2, 2, 2), at(4, 1, 1)];
    let results = evaluate(&mesh, &coordinates, &unit_spacing());
    assert_eq!(results.len(), coordinates.len());
    assert_eq!(
        results,
        vec![
            Classification::Inside,
            Classification::Outside,
            Classification::Inside,
            Classification::Outside,
            Classification::Inside,
            Classification::Outside
        ]
    );
    for (i, c) in coordinates.iter().enumerate() {
        assert_eq!(results[i], classify_at(&mesh, c, &unit_spacing()));
    }
    let mut reversed = coordinates.clone();
    reversed.reverse();
    let mut back = evaluate(&mesh, &reversed, &unit_spacing());
    back.reverse();
    assert_eq!(back, results);
    assert!(evaluate(&mesh, &[], &unit_spacing()).is_empty());
}

fn codes(grid: &VolumeGrid) -> Vec<u8> {
    grid.to_vec()
}

#[test]
fn assemble_keeps_the_shape_and_the_order() {
    let shape = Shape { nx: 2, ny: 3, nz: 4 };
    let cycle = [Classification::Outside, Classification::Inside, Classification::OnBoundary];
    let results: Vec<Classification> = (0..24).map(|i| cycle[(i * 7 + i / 5) % 3]).collect();
    let grid = assemble(&results, &shape).unwrap();
    assert_eq!(grid.dims(), shape);
    let flat = codes(&grid);
    assert_eq!(flat.len(), 24);
    for i in 0..24 {
        assert_eq!(flat[i], results[i].code());
        let c = shape.coordinate_at(i);
        assert_eq!(grid.get(&c), Some(results[i].code()));
    }
    assert_eq!(grid.get(&at(1, 2, 3)), Some(results[23].code()));
    assert_eq!(grid.get(&at(1, 0, 2)), Some(results[(2 * 3 + 0) * 2 + 1].code()));
    assert_eq!(grid.get(&at(2, 0, 0)), None);
    assert_eq!(grid.get(&at(0, 3, 0)), None);
    assert_eq!(grid.get(&at(0, 0, 4)), None);
}

#[test]
fn assemble_refuses_other_lengths() {
    let shape = Shape { nx: 2, ny: 3, nz: 4 };
    for n in [0usize, 1, 23, 25, 48] {
        let results = vec![Classification::Inside; n];
        assert_eq!(assemble(&results, &shape).err(), Some(VoxelError::ShapeMismatch), "for {n} results");
    }
    let results = vec![Classification::Inside; 24];
    assert!(assemble(&results, &shape).is_ok());
    assert_eq!(
        assemble(&results, &Shape { nx: usize::MAX, ny: usize::MAX, nz: 2 }).err(),
        Some(VoxelError::ShapeMismatch)
    );
    assert_eq!(assemble(&results, &Shape { nx: 0, ny: 3, nz: 4 }).err(), Some(VoxelError::ShapeMismatch));
}

#[test]
fn assemble_refuses_an_empty_grid() {
    assert_eq!(assemble(&[], &Shape { nx: 0, ny: 3, nz: 4 }).err(), Some(VoxelError::InvalidShape));
    assert_eq!(assemble(&[], &Shape { nx: 2, ny: usize::MAX, nz: 0 }).err(), Some(VoxelError::InvalidShape));
}

#[test]
fn unit_cube_on_a_grid_of_three() {
    let mesh = box_mesh(pt(0, 0, 0), pt(1, 1, 1));
    let geometry = GridGeometry { shape: Shape { nx: 3, ny: 3, nz: 3 }, spacing: unit_spacing() };
    let grid = voxelize(&mesh, &geometry).unwrap();
    assert_eq!(grid.dims(), geometry.shape);
    let flat = codes(&grid);
    assert_eq!(flat.len(), 27);
    // The centre voxel sits on the corner (1, 1, 1) of the cube, which lies on
    // the faces of the bounding box: by the rule for such points it is outside.
    let centre = geometry.shape.coordinates().unwrap().iter().position(|c| *c == at(1, 1, 1)).unwrap();
    assert_eq!(centre, 13);
    for (i, code) in flat.iter().enumerate() {
        if i != centre {
            assert_eq!(*code, 0, "voxel {i}");
        }
    }
    assert_eq!(flat[centre], meshvox::classify::contains(&mesh, &pt(1, 1, 1)));
    assert_eq!(flat[centre], 0);
}

#[test]
fn cube_of_two_on_a_grid_of_three() {
    let mesh = box_mesh(pt(0, 0, 0), pt(2, 2, 2));
    let geometry = GridGeometry { shape: Shape { nx: 3, ny: 3, nz: 3 }, spacing: unit_spacing() };
    let grid = voxelize(&mesh, &geometry).unwrap();
    let flat = codes(&grid);
    for (i, code) in flat.iter().enumerate() {
        assert_eq!(*code, if i == 13 { 1 } else { 0 }, "voxel {i}");
    }
    assert_eq!(grid.get(&at(1, 1, 1)), Some(1));
}

#[test]
fn voxelize_twice_gives_the_same_grid() {
    let mesh = box_mesh(pt(3, 5, 7), pt(40, 30, 20));
    let geometry =
        GridGeometry { shape: Shape { nx: 9, ny: 7, nz: 5 }, spacing: Spacing { dx: Step::whole(5), dy: Step::whole(6), dz: Step::whole(4) } };
    let first = voxelize(&mesh, &geometry).unwrap();
    let second = voxelize(&mesh, &geometry).unwrap();
    assert_eq!(first.dims(), second.dims());
    assert_eq!(codes(&first), codes(&second));
    assert!(codes(&first).iter().any(|c| *c == 1));
    assert!(codes(&first).iter().any(|c| *c == 0));
}

#[test]
fn voxelize_places_each_code_at_its_voxel() {
    let mesh = box_mesh(pt(0, 0, 0), pt(10, 20, 30));
    let geometry =
        GridGeometry { shape: Shape { nx: 4, ny: 5, nz: 6 }, spacing: Spacing { dx: Step::whole(3), dy: Step::whole(5), dz: Step::whole(7) } };
    let grid = voxelize(&mesh, &geometry).unwrap();
    for z in 0..6usize {
        for y in 0..5usize {
            for x in 0..4usize {
                let inside = 0 < 3 * x && 3 * x < 10 && 0 < 5 * y && 5 * y < 20 && 0 < 7 * z && 7 * z < 30;
                assert_eq!(grid.get(&at(x, y, z)), Some(if inside { 1 } else { 0 }), "at ({x}, {y}, {z})");
                assert_eq!(grid.to_vec()[(z * 5 + y) * 4 + x], if inside { 1 } else { 0 });
            }
        }
    }
}

#[test]
fn voxelize_refuses_an_empty_axis() {
    let mesh = box_mesh(pt(0, 0, 0), pt(2, 2, 2));
    let geometry = GridGeometry { shape: Shape { nx: 3, ny: 0, nz: 3 }, spacing: unit_spacing() };
    assert_eq!(voxelize(&mesh, &geometry).err(), Some(VoxelError::InvalidShape));
}

/// A sphere of latitude rings, its vertices rounded to the lattice.
fn sphere(radius: f64, rings: usize, segments: usize) -> Mesh {
    let vertex = |i: usize, j: usize| {
        let theta = std::f64::consts::PI * (i as f64) / (rings as f64);
        let phi = 2.0 * std::f64::consts::PI * ((j % segments) as f64) / (segments as f64);
        pt(
            (radius * theta.sin() * phi.cos()).round() as i32,
            (radius * theta.sin() * phi.sin()).round() as i32,
            (radius * theta.cos()).round() as i32,
        )
    };
    let mut out = Vec::new();
    for i in 0..rings {
        for j in 0..segments {
            let (a, b, c, d) = (vertex(i, j), vertex(i + 1, j), vertex(i + 1, j + 1), vertex(i, j + 1));
            out.push(Triangle { a, b, c });
            out.push(Triangle { a, b: c, c: d });
        }
    }
    Mesh::new(out).unwrap()
}

/// The volume of the voxels inside the sphere, relative to that of the ball.
fn relative_volume(mesh: &Mesh, radius: i32, step: i32) -> f64 {
    let n = (2 * radius / step + 3) as usize;
    let mut inside = 0u64;
    for z in 0..n {
        for y in 0..n {
            for x in 0..n {
                let p = pt(
                    x as i32 * step - radius - step,
                    y as i32 * step - radius - step,
                    z as i32 * step - radius - step,
                );
                if meshvox::classify::classify(mesh, &p) == Classification::Inside {
                    inside += 1;
                }
            }
        }
    }
    let ball = 4.0 / 3.0 * std::f64::consts::PI * (radius as f64).powi(3);
    (inside as f64) * (step as f64).powi(3) / ball
}

#[test]
fn sphere_volume_is_approached_as_spacing_shrinks() {
    let radius = 1000;
    let mesh = sphere(radius as f64, 24, 48);
    let coarse = relative_volume(&mesh, radius, 500);
    let medium = relative_volume(&mesh, radius, 250);
    let fine = relative_volume(&mesh, radius, 100);
    assert!((coarse - 1.0).abs() < 0.5, "coarse {coarse}");
    assert!((medium - 1.0).abs() < 0.2, "medium {medium}");
    assert!((fine - 1.0).abs() < 0.05, "fine {fine}");
}

#[test]
fn voxel_positions_are_rounded_once() {
    // A spacing of 0.3 units on a lattice of 256 points to the unit.
    let step = Step::decode(0.3f32.to_bits(), 8).unwrap();
    for i in [0usize, 1, 2, 10, 1000, 100000] {
        let exact = ((i as f64) * (0.3f32 as f64) * 256.0).round() as i32;
        assert_eq!(step.advance(i), Some(exact), "voxel {i}");
    }
    assert_eq!(step.advance(1), Some(77));
    assert_eq!(step.advance(1000), Some(76800));
    assert_eq!(step.advance(100000), Some(7680000));
    let back = Step::decode((-0.3f32).to_bits(), 8).unwrap();
    assert_eq!(back.advance(1000), Some(-76800));
    assert_eq!(step.advance(usize::MAX), None);
    assert_eq!(Step::decode(f32::NAN.to_bits(), 8), None);
    assert_eq!(Step::decode(f32::INFINITY.to_bits(), 8), None);
}

#[test]
fn whole_steps_multiply() {
    assert_eq!(Step::whole(7).advance(6), Some(42));
    assert_eq!(Step::whole(-7).advance(6), Some(-42));
    assert_eq!(Step::whole(0).advance(usize::MAX), Some(0));
    assert_eq!(Step::whole(i32::MAX).advance(1), Some(i32::MAX));
    assert_eq!(Step::whole(i32::MAX).advance(2), None);
    assert_eq!(Step::whole(i32::MIN).advance(1), None);
    assert_eq!(Step::whole(i32::MIN + 1).advance(1), Some(i32::MIN + 1));
    assert_eq!(Step::whole(-3), Step { negative: true, significand: 3, shift: 0 });
}

#[test]
fn voxels_of_a_fractional_spacing_do_not_drift() {
    // A box of 300 by 3 by 3 units and a grid of 0.3 units: voxel 999 lies at
    // 299.7 units, inside; voxel 1000 at 300 units, on the face.
    let resolution = 8;
    let mesh = box_mesh(pt(0, 0, 0), pt(300 * 256, 3 * 256, 3 * 256));
    let step = Step::decode(0.3f32.to_bits(), resolution).unwrap();
    let spacing = Spacing { dx: step, dy: step, dz: step };
    assert_eq!(classify_at(&mesh, &at(999, 5, 5), &spacing), Classification::Inside);
    assert_eq!(classify_at(&mesh, &at(1000, 5, 5), &spacing), Classification::Outside);
    assert_eq!(classify_at(&mesh, &at(1001, 5, 5), &spacing), Classification::Outside);
    assert_eq!(classify_at(&mesh, &at(5, 9, 5), &spacing), Classification::Inside);
    assert_eq!(classify_at(&mesh, &at(5, 10, 5), &spacing), Classification::Outside);
}

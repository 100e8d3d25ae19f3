use terrain::coords::{XZCoords, CHUNK_SIZE};
use terrain::heightmap::{Cell, PaddedHeightmap};
use terrain::mesh::{
    ChunkMesh, ChunkVertex, MeshGenerator, SurfaceVertex, GRASS, GRID_DIM, INDEX_COUNT,
    QUAD_COUNT, TRIANGLE_COUNT, VERTEX_COUNT,
};

fn gradient_grid() -> PaddedHeightmap<f32> {
    let mut data = Vec::new();
    for z in -1..=33 {
        for x in -1..=33 {
            data.push(x as f32 * 0.5 + z as f32 * 0.25);
        }
    }
    PaddedHeightmap::new(data, CHUNK_SIZE)
}

fn corner_position(cell: Cell<f32>) -> SurfaceVertex<f32> {
    SurfaceVertex {
        position: [cell.x as f32, cell.c00.height, cell.z as f32],
        normal: [cell.c00.west, cell.c00.east, cell.c11.north],
    }
}

fn vertex_row(heights: usize, positions: usize, normals: usize) -> ChunkVertex<f32> {
    ChunkVertex::new(
        XZCoords { x: 0, z: 0 },
        vec![0.0; heights],
        vec![0.0; positions],
        vec![0.0; normals],
    )
}

#[test]
fn mesh_counts_follow_the_chunk_size() {
    let size = CHUNK_SIZE as usize;
    assert_eq!(GRID_DIM, size + 1);
    assert_eq!(VERTEX_COUNT, (size + 1) * (size + 1));
    assert_eq!(QUAD_COUNT, size * size);
    assert_eq!(TRIANGLE_COUNT, 2 * size * size);
    assert_eq!(INDEX_COUNT, 6 * size * size);
    assert_eq!(GRASS, 0);
}

#[test]
fn every_cell_emits_one_vertex() {
    let generator = MeshGenerator::new();
    let grid = gradient_grid();
    let mesh = generator.generate_mesh(&grid, corner_position);
    assert_eq!(mesh.id, 0);
    assert_eq!(mesh.vertices.len(), 3 * 1089);
    assert_eq!(mesh.normals.len(), 3 * 1089);
    assert_eq!(mesh.indices.len(), 3 * 2048);
    assert_eq!(mesh.materials.len(), 1089);
    assert!(mesh.materials.iter().all(|m| *m == 0));
    assert!(mesh.indices.iter().all(|i| (*i as usize) < mesh.vertices.len() / 3));
    for z in 0..33usize {
        for x in 0..33usize {
            let at = 3 * (z * 33 + x);
            let height = x as f32 * 0.5 + z as f32 * 0.25;
            assert_eq!(&mesh.vertices[at..at + 3], &[x as f32, height, z as f32]);
            let (xi, zi) = (x as isize, z as isize);
            assert_eq!(
                &mesh.normals[at..at + 3],
                &[grid.get(xi - 1, zi), grid.get(xi + 1, zi), grid.get(xi + 1, zi + 2)]
            );
        }
    }
}

#[test]
fn vertices_are_placed_row_by_row() {
    let generator = MeshGenerator::new();
    let records = generator.generate_vertices(&gradient_grid(), corner_position);
    assert_eq!(records.len(), VERTEX_COUNT);
    assert_eq!(records[0].position, [0.0, 0.0, 0.0]);
    assert_eq!(records[1].position, [1.0, 0.5, 0.0]);
    assert_eq!(records[33].position, [0.0, 0.25, 1.0]);
    assert_eq!(records[1088].position, [32.0, 24.0, 32.0]);
}

#[test]
fn flat_buffers_hold_three_components_per_vertex() {
    let generator = MeshGenerator::new();
    let records = vec![
        SurfaceVertex { position: [1, 2, 3], normal: [4, 5, 6] },
        SurfaceVertex { position: [7, 8, 9], normal: [10, 11, 12] },
    ];
    let (positions, normals) = generator.flatten(&records);
    assert_eq!(positions, vec![1, 2, 3, 7, 8, 9]);
    assert_eq!(normals, vec![4, 5, 6, 10, 11, 12]);
    let (no_positions, no_normals) = generator.flatten(&Vec::<SurfaceVertex<u8>>::new());
    assert!(no_positions.is_empty() && no_normals.is_empty());
}

#[test]
fn a_flat_grid_hands_every_cell_the_same_height() {
    let flat = PaddedHeightmap::new(vec![7.5f32; 35 * 35], CHUNK_SIZE);
    for z in 0..33u16 {
        for x in 0..33u16 {
            let cell = flat.cell(x, z);
            for corner in [cell.c00, cell.c10, cell.c01, cell.c11] {
                assert_eq!(corner.height, 7.5);
                assert_eq!(corner.west, 7.5);
                assert_eq!(corner.east, 7.5);
                assert_eq!(corner.south, 7.5);
                assert_eq!(corner.north, 7.5);
            }
        }
    }
}

#[test]
fn index_buffer_is_a_list_of_triangles_over_the_vertices() {
    let indices = MeshGenerator::new().generate_indices();
    assert_eq!(indices.len() % 3, 0);
    assert_eq!(indices.len() / 3, TRIANGLE_COUNT);
    assert!(indices.iter().all(|i| (*i as usize) < VERTEX_COUNT));
    let mut used = vec![false; VERTEX_COUNT];
    for i in &indices {
        used[*i as usize] = true;
    }
    assert!(used.iter().all(|u| *u));
}

#[test]
fn quads_are_cut_along_the_same_diagonal() {
    let indices = MeshGenerator::new().generate_indices();
    assert_eq!(&indices[0..6], &[0, 34, 1, 0, 33, 34]);
    assert_eq!(&indices[6..12], &[1, 35, 2, 1, 34, 35]);
    let last = 6 * (31 * 32 + 31);
    assert_eq!(&indices[last..last + 6], &[1054, 1088, 1055, 1054, 1087, 1088]);
    for z in 0..32u32 {
        for x in 0..32u32 {
            let base = 6 * (z * 32 + x) as usize;
            let v00 = z * 33 + x;
            let v10 = v00 + 1;
            let v01 = v00 + 33;
            let v11 = v01 + 1;
            assert_eq!(&indices[base..base + 6], &[v00, v11, v10, v00, v01, v11]);
        }
    }
}

#[test]
fn triangles_face_up_on_a_rising_slope() {
    let generator = MeshGenerator::new();
    let mesh = generator.generate_mesh(&gradient_grid(), corner_position);
    let position = |i: u32| {
        let at = 3 * i as usize;
        [mesh.vertices[at], mesh.vertices[at + 1], mesh.vertices[at + 2]]
    };
    for t in mesh.indices.chunks(3) {
        let a = position(t[0]);
        let b = position(t[1]);
        let c = position(t[2]);
        let u = [b[0] - a[0], b[1] - a[1], b[2] - a[2]];
        let w = [c[0] - a[0], c[1] - a[1], c[2] - a[2]];
        let cross_y = u[2] * w[0] - u[0] * w[2];
        assert!(cross_y > 0.0);
    }
}

#[test]
fn cell_vertex_index_runs_row_by_row() {
    let generator = MeshGenerator::new();
    assert_eq!(generator.cell_vertex_index(0, 0), Some(0));
    assert_eq!(generator.cell_vertex_index(32, 0), Some(32));
    assert_eq!(generator.cell_vertex_index(0, 1), Some(33));
    assert_eq!(generator.cell_vertex_index(32, 32), Some(1088));
    assert_eq!(generator.cell_vertex_index(33, 0), None);
    assert_eq!(generator.cell_vertex_index(0, 33), None);
    assert_eq!(generator.cell_vertex_index(usize::MAX, usize::MAX), None);
}

#[test]
fn seam_partner_names_the_neighbours_vertex() {
    let generator = MeshGenerator::new();
    for z in 0..33usize {
        assert_eq!(generator.seam_partner(1, 0, 32, z), Some((z * 33) as u32));
        assert_eq!(generator.seam_partner(-1, 0, 0, z), Some((z * 33 + 32) as u32));
        assert_eq!(generator.seam_partner(1, 0, 31, z), None);
    }
    assert_eq!(generator.seam_partner(0, 1, 5, 32), Some(5));
    assert_eq!(generator.seam_partner(0, -1, 5, 0), Some(32 * 33 + 5));
    assert_eq!(generator.seam_partner(1, 1, 32, 32), Some(0));
    assert_eq!(generator.seam_partner(-1, -1, 0, 0), Some(1088));
    assert_eq!(generator.seam_partner(0, 0, 7, 9), None);
    assert_eq!(generator.seam_partner(2, 0, 32, 0), None);
    assert_eq!(generator.seam_partner(1, 0, 33, 0), None);
    assert_eq!(generator.seam_partner(i32::MIN, i32::MAX, 0, 0), None);
}

#[test]
fn stitching_visits_exactly_the_shared_lattice_points() {
    let generator = MeshGenerator::new();
    let mut own: Vec<i32> = (0..3 * 1089).collect();
    let neighbor: Vec<i32> = (0..3 * 1089).map(|i| -i).collect();
    generator.stitch(
        &mut own,
        1,
        0,
        &neighbor,
        &|mine: [i32; 3], theirs: [i32; 3], dx: i32, dz: i32| {
            assert_eq!((dx, dz), (1, 0));
            [theirs[0], theirs[1], mine[2] + 1_000_000]
        },
    );
    for z in 0..33i32 {
        for x in 0..33i32 {
            let at = 3 * (z * 33 + x);
            let triple = &own[at as usize..at as usize + 3];
            if x == 32 {
                let partner = 3 * (z * 33);
                assert_eq!(triple, &[-partner, -(partner + 1), at + 2 + 1_000_000]);
            } else {
                assert_eq!(triple, &[at, at + 1, at + 2]);
            }
        }
    }
}

#[test]
fn stitching_leaves_out_what_the_buffers_do_not_hold() {
    let generator = MeshGenerator::new();
    let take = |_: [u8; 3], theirs: [u8; 3], _: i32, _: i32| theirs;

    let mut own = vec![1u8; 3 * 1089];
    generator.stitch(&mut own, 0, 1, &vec![9u8; 3 * 5], &take);
    assert_eq!(own.iter().filter(|v| **v == 9).count(), 3 * 5);
    assert!(own[3 * (32 * 33)..3 * (32 * 33) + 15].iter().all(|v| *v == 9));

    let mut short = vec![1u8; 3 * 40 + 2];
    generator.stitch(&mut short, -1, 0, &vec![9u8; 3 * 1089], &take);
    assert_eq!(&short[0..3], &[9, 9, 9]);
    assert_eq!(&short[3 * 33..3 * 34], &[9, 9, 9]);
    assert_eq!(short.iter().filter(|v| **v == 9).count(), 6);

    let mut far = vec![1u8; 3 * 1089];
    generator.stitch(&mut far, 2, 0, &vec![9u8; 3 * 1089], &take);
    assert!(far.iter().all(|v| *v == 1));

    let mut same = vec![1u8; 3 * 1089];
    generator.stitch(&mut same, 0, 0, &vec![9u8; 3 * 1089], &take);
    assert!(same.iter().all(|v| *v == 1));

    let mut corner = vec![1u8; 3 * 1089];
    generator.stitch(&mut corner, -1, 1, &vec![9u8; 3 * 1089], &take);
    assert_eq!(corner.iter().filter(|v| **v == 9).count(), 3);
    assert_eq!(&corner[3 * (32 * 33)..3 * (32 * 33) + 3], &[9, 9, 9]);
}

#[test]
fn rows_mirror_their_address() {
    let coord = XZCoords { x: -7, z: 12 };
    let generator = MeshGenerator::new();
    let row = ChunkMesh::new(coord, generator.generate_indices(), generator.generate_materials());
    assert_eq!((row.grid, row.grid_x, row.grid_z), (coord, -7, 12));
    assert_eq!(row.materials, vec![0u32; 1089]);
    let vertex = ChunkVertex::new(coord, vec![0.0f32; 1024], vec![0.0; 3267], vec![0.0; 3267]);
    assert_eq!((vertex.grid, vertex.grid_x, vertex.grid_z), (coord, -7, 12));
    assert!(row.is_consistent_with(&vertex));
}

#[test]
fn a_mesh_splits_into_its_two_rows() {
    let coord = XZCoords { x: 3, z: -3 };
    let grid = gradient_grid();
    let mesh = MeshGenerator::new().generate_mesh(&grid, corner_position);
    let positions = mesh.vertices.clone();
    let normals = mesh.normals.clone();
    let (vertex, row) = mesh.into_rows(coord, grid.chunk_only());
    assert_eq!((vertex.grid, vertex.grid_x, vertex.grid_z), (coord, 3, -3));
    assert_eq!((row.grid, row.grid_x, row.grid_z), (coord, 3, -3));
    assert_eq!(vertex.heightmap, grid.chunk_only());
    assert_eq!(vertex.vertices, positions);
    assert_eq!(vertex.normals, normals);
    assert_eq!(row.indices, MeshGenerator::new().generate_indices());
    assert_eq!(row.materials, vec![0u32; 1089]);
    assert!(row.is_consistent_with(&vertex));
}

#[test]
fn malformed_rows_are_told_apart() {
    let coord = XZCoords { x: 0, z: 0 };
    let good = ChunkMesh::new(coord, vec![0, 1, 2, 2, 1, 3], vec![0, 0, 0, 0]);
    assert!(good.is_consistent_with(&vertex_row(1024, 12, 12)));
    assert!(!good.is_consistent_with(&vertex_row(1023, 12, 12)));
    assert!(!good.is_consistent_with(&vertex_row(1024, 12, 9)));
    assert!(!good.is_consistent_with(&vertex_row(1024, 9, 9)));
    assert!(!good.is_consistent_with(&vertex_row(1024, 13, 13)));
    let elsewhere = ChunkMesh::new(XZCoords { x: 0, z: 1 }, vec![0, 1, 2], vec![0, 0, 0, 0]);
    assert!(!elsewhere.is_consistent_with(&vertex_row(1024, 12, 12)));
    let ragged = ChunkMesh::new(coord, vec![0, 1, 2, 3], vec![0, 0, 0, 0]);
    assert!(!ragged.is_consistent_with(&vertex_row(1024, 12, 12)));
    let dangling = ChunkMesh::new(coord, vec![0, 1, 4], vec![0, 0, 0, 0]);
    assert!(!dangling.is_consistent_with(&vertex_row(1024, 12, 12)));
    let untagged = ChunkMesh::new(coord, vec![0, 1, 2], vec![0, 0, 0]);
    assert!(!untagged.is_consistent_with(&vertex_row(1024, 12, 12)));
    let empty = ChunkMesh::new(coord, vec![], vec![]);
    assert!(empty.is_consistent_with(&vertex_row(1024, 0, 0)));
}

fn neighbor_row(x: i32, z: i32, fill: f32) -> ChunkVertex<f32> {
    ChunkVertex::new(XZCoords { x, z }, vec![0.0; 1024], vec![fill; 3 * 1089], vec![0.0; 3 * 1089])
}

fn take_theirs(_: [f32; 3], theirs: [f32; 3], _: i32, _: i32) -> [f32; 3] {
    theirs
}

#[test]
fn a_chunk_without_neighbours_is_built_as_placed() {
    let generator = MeshGenerator::new();
    let grid = gradient_grid();
    let alone = generator.generate_dual_contour_mesh(
        XZCoords { x: 0, z: 0 },
        &grid,
        &Vec::new(),
        corner_position,
        take_theirs,
    );
    let built = generator.generate_mesh(&grid, corner_position);
    assert_eq!(alone.id, 0);
    assert_eq!(alone.vertices, built.vertices);
    assert_eq!(alone.normals, built.normals);
    assert_eq!(alone.indices, built.indices);
    assert_eq!(alone.materials, built.materials);
}

#[test]
fn only_seams_to_adjacent_chunks_are_stitched() {
    let generator = MeshGenerator::new();
    let grid = gradient_grid();
    let coord = XZCoords { x: 4, z: -2 };
    let neighborhood = vec![
        neighbor_row(5, -2, -1.0),
        neighbor_row(4, -2, -2.0),
        neighbor_row(6, -2, -3.0),
        neighbor_row(4, -3, -4.0),
        neighbor_row(0, 0, -5.0),
    ];
    let mesh =
        generator.generate_dual_contour_mesh(coord, &grid, &neighborhood, corner_position, take_theirs);
    let built = generator.generate_mesh(&grid, corner_position);
    assert_eq!(mesh.normals, built.normals);
    assert_eq!(mesh.indices, built.indices);
    assert_eq!(mesh.materials, vec![0u32; 1089]);
    assert_eq!(mesh.vertices.len(), 3 * 1089);
    for z in 0..33usize {
        for x in 0..33usize {
            let at = 3 * (z * 33 + x);
            let expected = if z == 0 {
                [-4.0; 3]
            } else if x == 32 {
                [-1.0; 3]
            } else {
                [built.vertices[at], built.vertices[at + 1], built.vertices[at + 2]]
            };
            assert_eq!(&mesh.vertices[at..at + 3], &expected);
        }
    }
}

#[test]
fn rows_are_stitched_in_the_order_given() {
    let generator = MeshGenerator::new();
    let grid = gradient_grid();
    let coord = XZCoords { x: 0, z: 0 };
    let east_then_north = vec![neighbor_row(1, 0, 1.0), neighbor_row(0, 1, 2.0)];
    let mesh = generator.generate_dual_contour_mesh(
        coord,
        &grid,
        &east_then_north,
        corner_position,
        |own: [f32; 3], theirs: [f32; 3], dx: i32, dz: i32| {
            [own[0] * 10.0 + theirs[0], dx as f32, dz as f32]
        },
    );
    let corner = 3 * (32 * 33 + 32);
    assert_eq!(&mesh.vertices[corner..corner + 3], &[(32.0 * 10.0 + 1.0) * 10.0 + 2.0, 0.0, 1.0]);
    let east = 3 * 32;
    assert_eq!(&mesh.vertices[east..east + 3], &[321.0, 1.0, 0.0]);
    let north = 3 * (32 * 33);
    assert_eq!(&mesh.vertices[north..north + 3], &[2.0, 0.0, 1.0]);
}

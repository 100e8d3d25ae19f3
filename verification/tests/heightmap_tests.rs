use terrain::coords::CHUNK_SIZE;
use terrain::heightmap::{PaddedHeightmap, PADDED_DIM};

fn numbered_grid() -> PaddedHeightmap<f32> {
    let data: Vec<f32> = (0..PADDED_DIM * PADDED_DIM).map(|i| i as f32).collect();
    PaddedHeightmap::new(data, CHUNK_SIZE)
}

#[test]
fn padded_grid_has_chunk_size_plus_three_samples_per_edge() {
    assert_eq!(PADDED_DIM, 35);
    assert_eq!(numbered_grid().size(), 35);
}

#[test]
fn get_reads_logical_coordinates() {
    let grid = numbered_grid();
    assert_eq!(grid.get(-1, -1), 0.0);
    assert_eq!(grid.get(0, 0), 36.0);
    assert_eq!(grid.get(5, 2), (3 * 35 + 6) as f32);
    assert_eq!(grid.get(33, 33), (35 * 35 - 1) as f32);
}

#[test]
fn get_clamps_to_the_border() {
    let grid = numbered_grid();
    assert_eq!(grid.get(-2, 0), grid.get(-1, 0));
    assert_eq!(grid.get(-100, -100), 0.0);
    assert_eq!(grid.get(34, 4), grid.get(33, 4));
    assert_eq!(grid.get(isize::MAX, isize::MAX), (35 * 35 - 1) as f32);
    assert_eq!(grid.get(isize::MIN, 33), (34 * 35) as f32);
}

#[test]
fn chunk_only_is_the_unpadded_interior() {
    let grid = numbered_grid();
    let interior = grid.chunk_only();
    let size = CHUNK_SIZE as usize;
    assert_eq!(interior.len(), size * size);
    for z in 0..size {
        for x in 0..size {
            assert_eq!(interior[z * size + x], grid.get(x as isize, z as isize));
            assert_eq!(interior[z * size + x], ((z + 1) * 35 + (x + 1)) as f32);
        }
    }
}

#[test]
fn smallest_grid_has_an_empty_interior() {
    let grid = PaddedHeightmap::new(vec![1u8, 2, 3, 4, 5, 6, 7, 8, 9], 0);
    assert_eq!(grid.size(), 3);
    assert_eq!(grid.chunk_only().len(), 0);
    assert_eq!(grid.get(0, 0), 5);
    assert_eq!(grid.get(1, 1), 9);
    assert_eq!(grid.get(9, -9), 3);
}

#[test]
fn corner_gathers_the_four_neighbours() {
    let grid = numbered_grid();
    let corner = grid.corner(4, 7);
    let at = |x: usize, z: usize| ((z + 1) * 35 + (x + 1)) as f32;
    assert_eq!(corner.height, at(4, 7));
    assert_eq!(corner.west, at(3, 7));
    assert_eq!(corner.east, at(5, 7));
    assert_eq!(corner.south, at(4, 6));
    assert_eq!(corner.north, at(4, 8));
}

#[test]
fn corner_past_the_padding_reads_the_border() {
    let grid = numbered_grid();
    let corner = grid.corner(33, -1);
    assert_eq!(corner.height, 34.0);
    assert_eq!(corner.east, 34.0);
    assert_eq!(corner.west, 33.0);
    assert_eq!(corner.south, 34.0);
    assert_eq!(corner.north, 69.0);
    let far = grid.corner(isize::MAX, isize::MIN);
    assert_eq!(far.height, 34.0);
    assert_eq!(far.east, 34.0);
    assert_eq!(far.south, 34.0);
}

#[test]
fn cell_gathers_its_four_corners() {
    let grid = numbered_grid();
    let cell = grid.cell(32, 0);
    assert_eq!(cell.x, 32);
    assert_eq!(cell.z, 0);
    assert_eq!(cell.c00.height, grid.get(32, 0));
    assert_eq!(cell.c10.height, grid.get(33, 0));
    assert_eq!(cell.c01.height, grid.get(32, 1));
    assert_eq!(cell.c11.height, grid.get(33, 1));
    assert_eq!(cell.c10.east, grid.get(33, 0));
    assert_eq!(cell.c00.west, grid.get(31, 0));
}

#[test]
fn clone_keeps_the_samples() {
    let grid = numbered_grid();
    let copy = grid.clone();
    assert_eq!(copy.size(), grid.size());
    assert_eq!(copy.chunk_only(), grid.chunk_only());
}

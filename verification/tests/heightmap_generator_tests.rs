use noise::{NoiseFn, Perlin};
use terrain::coords::{WorldPos, XZCoords, CHUNK_SIZE};
use terrain::sampling::{generate_chunk, generate_padded_heightmap, CHUNK_AREA, PADDED_AREA};

const HEIGHT_RANGE: f32 = 32.0;

fn sample_height(noise: &Perlin, x: f64, z: f64) -> f32 {
    let mut amplitude = 1.0;
    let mut frequency = 0.01;
    let mut noise_height = 0.0;
    let mut max_value = 0.0;
    for _ in 0..4 {
        noise_height += noise.get([x * frequency, z * frequency]) * amplitude;
        max_value += amplitude;
        amplitude *= 0.5;
        frequency *= 2.0;
    }
    (noise_height / max_value) as f32 * HEIGHT_RANGE
}

fn chunk_heights(seed: u32, coord: XZCoords) -> Vec<f32> {
    let noise = Perlin::new(seed);
    generate_chunk(coord, |pos: WorldPos| sample_height(&noise, pos.x as f32 as f64, pos.z as f32 as f64))
}

#[test]
fn test_heightmap_generator_creation() {
    let coord = XZCoords { x: 0, z: 0 };
    let heights = chunk_heights(42, coord);
    assert!(!heights.is_empty());
}

#[test]
fn test_heightmap_generation_dimensions() {
    let coord = XZCoords { x: 0, z: 0 };
    let heights = chunk_heights(42, coord);
    assert_eq!(heights.len(), (CHUNK_SIZE as usize) * (CHUNK_SIZE as usize));
}

#[test]
fn test_height_range() {
    let coord = XZCoords { x: 0, z: 0 };
    let heights = chunk_heights(42, coord);
    for height in heights {
        assert!(height >= -32.0);
        assert!(height <= 32.0);
    }
}

#[test]
fn test_height_continuity() {
    let heights1 = chunk_heights(42, XZCoords { x: 0, z: 0 });
    let heights2 = chunk_heights(42, XZCoords { x: 1, z: 0 });
    for z in 0..CHUNK_SIZE as usize {
        let h1 = heights1[z * CHUNK_SIZE as usize + (CHUNK_SIZE as usize - 1)];
        let h2 = heights2[z * CHUNK_SIZE as usize];
        assert!((h1 - h2).abs() <= 1.0);
    }
}

#[test]
fn test_padded_heightmap() {
    let noise = Perlin::new(42);
    let coord = XZCoords { x: 0, z: 0 };
    let padded = generate_padded_heightmap(coord, |pos: WorldPos| {
        sample_height(&noise, pos.x as f32 as f64, pos.z as f32 as f64)
    });
    assert_eq!(padded.size(), CHUNK_SIZE as usize + 3);
    assert_eq!(padded.chunk_only().len(), (CHUNK_SIZE as usize) * (CHUNK_SIZE as usize));

    let chunk = chunk_heights(42, coord);
    let interior = padded.chunk_only();
    for z in 0..CHUNK_SIZE as usize {
        for x in 0..CHUNK_SIZE as usize {
            let index = z * CHUNK_SIZE as usize + x;
            assert!((chunk[index] - interior[index]).abs() <= 1e-5);
        }
    }
    assert_eq!(interior, chunk);
}

#[test]
fn test_seed_determinism() {
    let coord = XZCoords { x: 0, z: 0 };
    let heights1 = chunk_heights(42, coord);
    let heights2 = chunk_heights(42, coord);
    assert_eq!(heights1, heights2, "Same seed should produce identical heights");
}

#[test]
fn chunk_position_changes_the_heights() {
    let origin = chunk_heights(42, XZCoords { x: 0, z: 0 });
    assert!(origin != chunk_heights(42, XZCoords { x: 1, z: 0 }));
    assert!(origin != chunk_heights(42, XZCoords { x: 0, z: 1 }));
    assert!(origin != chunk_heights(42, XZCoords { x: -1, z: -1 }));
}

#[test]
fn samples_are_taken_row_by_row_at_world_positions() {
    let coord = XZCoords { x: 2, z: -1 };
    let points = generate_chunk(coord, |pos: WorldPos| pos);
    assert_eq!(points.len(), CHUNK_AREA);
    assert_eq!(CHUNK_AREA, 1024);
    assert_eq!(points[0], WorldPos { x: 64, z: -32 });
    assert_eq!(points[1], WorldPos { x: 65, z: -32 });
    assert_eq!(points[32], WorldPos { x: 64, z: -31 });
    assert_eq!(points[1023], WorldPos { x: 95, z: -1 });
    for z in 0..32 {
        for x in 0..32 {
            assert_eq!(points[(z * 32 + x) as usize], coord.to_world_pos(x, z));
        }
    }
}

#[test]
fn padded_samples_reach_one_step_before_and_two_past_the_chunk() {
    let coord = XZCoords { x: 2, z: -1 };
    let grid = generate_padded_heightmap(coord, |pos: WorldPos| pos);
    assert_eq!(PADDED_AREA, 1225);
    assert_eq!(grid.size(), 35);
    assert_eq!(grid.get(-1, -1), WorldPos { x: 63, z: -33 });
    assert_eq!(grid.get(0, 0), WorldPos { x: 64, z: -32 });
    assert_eq!(grid.get(33, 33), WorldPos { x: 97, z: 1 });
    for z in -1..=33 {
        for x in -1..=33 {
            assert_eq!(grid.get(x as isize, z as isize), coord.to_world_pos(x, z));
        }
    }
    assert_eq!(grid.chunk_only(), generate_chunk(coord, |pos: WorldPos| pos));
}

#[test]
fn padded_column_past_the_seam_is_the_neighbours_first_column() {
    let noise = Perlin::new(42);
    let sample = |pos: WorldPos| sample_height(&noise, pos.x as f32 as f64, pos.z as f32 as f64);
    let west = generate_padded_heightmap(XZCoords { x: 0, z: 0 }, &sample);
    let east = generate_chunk(XZCoords { x: 1, z: 0 }, &sample);
    for z in 0..32usize {
        assert_eq!(west.get(32, z as isize), east[z * 32]);
    }
}

use terrain::coords::XZCoords;
use terrain::minimap::{MinimapConfig, TEXEL_BYTES};

fn at(x: i32, z: i32) -> XZCoords {
    XZCoords { x, z }
}

fn pixels(config: &MinimapConfig) -> Vec<u8> {
    let size = config.chunk_size as usize;
    (0..size * size * TEXEL_BYTES).map(|i| (i % 251) as u8 + 1).collect()
}

#[test]
fn default_layout_holds_twenty_one_chunks_per_edge() {
    let config = MinimapConfig::default();
    assert_eq!(config.radius, 10);
    assert_eq!(config.chunk_size, 32);
    assert_eq!(config.texture_size, 672);
    assert_eq!(TEXEL_BYTES, 4);
}

#[test]
fn centre_chunk_sits_in_the_middle() {
    let config = MinimapConfig::default();
    assert_eq!(config.chunk_origin(at(5, -4), at(5, -4)), (320, 320));
    assert_eq!(config.chunk_origin(at(6, -4), at(5, -4)), (352, 320));
    assert_eq!(config.chunk_origin(at(-5, -14), at(5, -4)), (0, 0));
    assert_eq!(config.chunk_origin(at(16, -4), at(5, -4)), (672, 320));
}

#[test]
fn margin_rounds_toward_zero() {
    let odd = MinimapConfig { radius: 0, chunk_size: 32, texture_size: 41 };
    assert_eq!(odd.chunk_origin(at(0, 0), at(0, 0)), (4, 4));
    let small = MinimapConfig { radius: 0, chunk_size: 32, texture_size: 27 };
    assert_eq!(small.chunk_origin(at(0, 0), at(0, 0)), (-2, -2));
    assert_eq!(small.chunk_origin(at(1, -1), at(0, 0)), (30, -34));
}

#[test]
fn origin_at_the_ends_of_the_index_range() {
    let config = MinimapConfig { radius: 0, chunk_size: 255, texture_size: u32::MAX };
    let origin = config.chunk_origin(at(i32::MAX, i32::MIN), at(i32::MIN, i32::MAX));
    assert_eq!(origin.0, 4294967295i64 * 255 + (4294967295i64 - 255) / 2);
    assert_eq!(origin.1, -4294967295i64 * 255 + (4294967295i64 - 255) / 2);
}

#[test]
fn chunk_pixels_land_at_their_offset() {
    let config = MinimapConfig::default();
    let mut data = vec![0u8; 672 * 672 * 4];
    let source = pixels(&config);
    assert!(config.paint_chunk(&mut data, at(1, -2), at(0, 0), &source));
    let (ox, oz) = (352usize, 256usize);
    for row in 0..32usize {
        for col in 0..32usize {
            for channel in 0..4usize {
                let dest = ((oz + row) * 672 + ox + col) * 4 + channel;
                assert_eq!(data[dest], source[(row * 32 + col) * 4 + channel]);
            }
        }
    }
    let painted = data.iter().filter(|b| **b != 0).count();
    assert_eq!(painted, 32 * 32 * 4);
    assert_eq!(data[((oz - 1) * 672 + ox) * 4], 0);
    assert_eq!(data[(oz * 672 + ox - 1) * 4 + 3], 0);
    assert_eq!(data[(oz * 672 + ox + 32) * 4], 0);
    assert_eq!(data[((oz + 32) * 672 + ox) * 4], 0);
}

#[test]
fn painting_keeps_what_lies_outside_the_chunk() {
    let config = MinimapConfig { radius: 1, chunk_size: 2, texture_size: 6 };
    let mut data = vec![9u8; 6 * 6 * 4];
    let source: Vec<u8> = (1..=16).collect();
    assert!(config.paint_chunk(&mut data, at(0, 0), at(0, 0), &source));
    let mut expected = vec![9u8; 6 * 6 * 4];
    expected[(2 * 6 + 2) * 4..(2 * 6 + 4) * 4].copy_from_slice(&source[0..8]);
    expected[(3 * 6 + 2) * 4..(3 * 6 + 4) * 4].copy_from_slice(&source[8..16]);
    assert_eq!(data, expected);
}

#[test]
fn rows_below_the_texture_are_left_out() {
    let config = MinimapConfig { radius: 1, chunk_size: 32, texture_size: 40 };
    let mut data = vec![0u8; 40 * 40 * 4];
    let source = pixels(&config);
    assert!(config.paint_chunk(&mut data, at(0, 1), at(0, 0), &source));
    for row in 0..4usize {
        let dest = ((36 + row) * 40 + 4) * 4;
        assert_eq!(&data[dest..dest + 128], &source[row * 128..(row + 1) * 128]);
    }
    assert_eq!(data.iter().filter(|b| **b != 0).count(), 4 * 128);
}

#[test]
fn rows_above_the_texture_are_left_out() {
    let config = MinimapConfig { radius: 1, chunk_size: 32, texture_size: 40 };
    let mut data = vec![0u8; 40 * 40 * 4];
    let source = pixels(&config);
    assert!(config.paint_chunk(&mut data, at(0, -1), at(0, 0), &source));
    for row in 28..32usize {
        let dest = ((row - 28) * 40 + 4) * 4;
        assert_eq!(&data[dest..dest + 128], &source[row * 128..(row + 1) * 128]);
    }
    assert_eq!(data.iter().filter(|b| **b != 0).count(), 4 * 128);
}

#[test]
fn chunks_beside_the_texture_are_not_painted() {
    let config = MinimapConfig::default();
    let mut data = vec![0u8; 672 * 672 * 4];
    let source = pixels(&config);
    assert!(!config.paint_chunk(&mut data, at(11, 0), at(0, 0), &source));
    assert!(!config.paint_chunk(&mut data, at(-11, 0), at(0, 0), &source));
    assert!(data.iter().all(|b| *b == 0));
    assert!(config.paint_chunk(&mut data, at(0, 11), at(0, 0), &source));
    assert!(data.iter().all(|b| *b == 0));
    assert!(config.paint_chunk(&mut data, at(10, 10), at(0, 0), &source));
    assert_eq!(data[(640 * 672 + 640) * 4], source[0]);
    assert_eq!(data[672 * 672 * 4 - 1], source[32 * 32 * 4 - 1]);
}

#[test]
fn buffers_of_the_wrong_size_are_refused() {
    let config = MinimapConfig::default();
    let source = pixels(&config);
    let mut short = vec![0u8; 672 * 672 * 4 - 1];
    assert!(!config.paint_chunk(&mut short, at(0, 0), at(0, 0), &source));
    assert!(short.iter().all(|b| *b == 0));
    let mut data = vec![0u8; 672 * 672 * 4];
    assert!(!config.paint_chunk(&mut data, at(0, 0), at(0, 0), &source[1..].to_vec()));
    assert!(!config.paint_chunk(&mut data, at(0, 0), at(0, 0), &Vec::new()));
    assert!(data.iter().all(|b| *b == 0));
}

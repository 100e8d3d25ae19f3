//! Terrain streaming core: chunk addressing, padded height grids, mesh
//! topology and stitching, the rows the server writes for a chunk, and the
//! client-side dirty-chunk reconciler.

pub mod coords;
pub mod dirty;
pub mod heightmap;
pub mod mesh;
pub mod minimap;
pub mod sampling;
pub mod service;
pub mod stream;
pub mod text;
pub mod tiles;
pub mod wireframe;

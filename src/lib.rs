//! Tile grids partitioned into chunks of depth-ordered layers, and the
//! conversion of those layers into flat buffers for a renderer.
//!
//! A [`Chunk`] holds, for every z-depth, one layer per sprite order. Each
//! layer is dense (a slot per cell) or sparse (only the cells that were set).
//! Tints are stored as one byte per channel, 0 for 0.0 and 255 for 1.0.
pub mod chunk;
pub mod layer;
pub mod tile;

pub use chunk::{Chunk, ChunkError};
pub use layer::{DenseLayer, LayerKind, LayerKindInner, SparseLayer, SpriteLayer};
pub use tile::{Dimension3, Entity, MeshHandle, Point2, Point3, RawTile, Rgba, Tile};

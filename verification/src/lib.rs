//! Decomposition of source code into tiles: functions, types, imports,
//! comments and blocks, found line by line.

pub mod blocks;
pub mod decompose;
mod external;
pub mod laws;
pub mod model;
pub mod reader_laws;
pub mod stats;
pub mod text;
pub mod text_laws;
pub mod tile;

pub use decompose::CodeDecomposer;
pub use tile::{CodeKind, CodeStats, CodeTile, Language, TileModel};

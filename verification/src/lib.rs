//! A verified model of the PNG chunk container format: 4-character chunk
//! type tags, length-delimited checksummed chunks, and the 8-byte magic
//! header, with parsing and serialization proved inverse to each other.

pub mod chunk;
pub mod chunk_type;
pub mod crc32;
pub mod png;
pub mod text;
pub mod wire;

pub use chunk::Chunk;
pub use chunk::ChunkError;
pub use chunk_type::ChunkType;
pub use chunk_type::ChunkTypeError;
pub use png::Png;
pub use png::PngError;

//! Reading, editing and writing the chunk layer of PNG files.
//!
//! A PNG file is an eight-byte signature followed by a sequence of chunks.
//! Each chunk is framed by a big-endian length, a four-letter type code, its
//! payload and a CRC-32 over the type code and payload.
pub mod checksum;
pub mod chunk;
pub mod chunk_type;
pub mod edit;
pub mod error;
pub mod png;
pub mod wire;

pub use chunk::Chunk;
pub use chunk_type::ChunkType;
pub use error::PngError;
pub use png::Png;

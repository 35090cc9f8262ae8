//! A codec for length-prefixed, type-tagged, CRC-checked chunks, and the
//! validation rules of their four-letter type tags.

pub mod chunk;
pub mod chunk_type;
pub mod error;
pub mod text;

pub use chunk::{check_checksum, Chunk};
pub use chunk_type::ChunkType;
pub use error::ChunkError;

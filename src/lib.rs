//! Reading, checking and writing the chunk structure of PNG byte streams.

pub mod chunk;
pub mod chunk_type;
pub mod edit;
pub mod error;
pub mod png;
pub mod text;

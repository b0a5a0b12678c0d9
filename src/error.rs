use vstd::prelude::*;

verus! {

/// The ways in which building, decoding or editing chunks can fail.
#[derive(Debug, Clone, Copy, PartialEq, Eq, Structural)]
pub enum PngError {
    /// A chunk-type byte or character is not an ASCII letter.
    InvalidChunkType,
    /// A chunk-type text is not exactly four characters long.
    InvalidLength,
    /// A chunk payload is not valid UTF-8 text.
    InvalidUtf8,
    /// The checksum stored after a chunk's payload differs from the one computed over it.
    CrcMismatch { stored: u32, computed: u32 },
    /// The buffer ends before the chunk it holds does.
    TruncatedInput,
    /// The buffer does not open with the PNG file signature.
    InvalidSignature,
    /// No chunk of the requested type is present.
    ChunkNotFound,
}

} // verus!

//! Failures of the container decoder.
use vstd::prelude::*;

verus! {

/// Why a container, or a part of one, could not be decoded.
#[derive(Clone, Copy, Debug, PartialEq, Eq, Structural)]
pub enum RresError {
    /// The chunk is classified as holding no data.
    NullResource,
    /// The source of the file header could not be read.
    HeaderRead,
    /// No chunk descriptor carries the requested id.
    ChunkNotFound,
    /// Wrong magic tag or version.
    HeaderVerificationFailed,
    /// The directory offset does not lead to a directory chunk.
    InvalidCentralDir,
    /// The stored checksum differs from the one computed over the payload.
    Crc32VerificationFailed,
    /// The bytes end before a record or a declared length.
    InsufficientData,
    /// The base size is smaller than the property table it must hold.
    MalformedChunk,
}

impl RresError {
    /// The human-readable description of this error.
    pub open spec fn spec_message(self) -> &'static str {
        match self {
            RresError::NullResource => "RRES: Chunk contains no data!",
            RresError::HeaderRead => "RRES: Could not read rres file header!",
            RresError::ChunkNotFound => "RRES: Chunk not found in file!",
            RresError::HeaderVerificationFailed => "RRES: File is not an rres file!",
            RresError::InvalidCentralDir =>
                "RRES: Central directory chunk byte offset does not point to a central directory chunk!",
            RresError::Crc32VerificationFailed =>
                "RRES: CRC32 does not match. Data was unable to be loaded!",
            RresError::InsufficientData => "RRES: Not enough data to read the requested record!",
            RresError::MalformedChunk => "RRES: Chunk base size is smaller than its property table!",
        }
    }

    /// The human-readable description of this error.
    pub fn message(&self) -> (r: &'static str)
        ensures
            r == self.spec_message(),
    {
        match self {
            RresError::NullResource => "RRES: Chunk contains no data!",
            RresError::HeaderRead => "RRES: Could not read rres file header!",
            RresError::ChunkNotFound => "RRES: Chunk not found in file!",
            RresError::HeaderVerificationFailed => "RRES: File is not an rres file!",
            RresError::InvalidCentralDir =>
                "RRES: Central directory chunk byte offset does not point to a central directory chunk!",
            RresError::Crc32VerificationFailed =>
                "RRES: CRC32 does not match. Data was unable to be loaded!",
            RresError::InsufficientData => "RRES: Not enough data to read the requested record!",
            RresError::MalformedChunk => "RRES: Chunk base size is smaller than its property table!",
        }
    }
}

} // verus!

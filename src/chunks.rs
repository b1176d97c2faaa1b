//! Chunk descriptors and the decoding of a chunk's payload.
use vstd::prelude::*;
use vstd::slice::{slice_subrange, slice_to_vec};
use crate::bytes::{le_u16, u16_at_pos, u32_at, u32_at_pos};
use crate::crc::{compute_crc32, crc32};
use crate::errors::RresError;
use crate::types::{data_type_of, CompressionType, EncryptionType, ResourceDataType};

verus! {

/// Size in bytes of an on-disk chunk descriptor.
pub const CHUNK_INFO_SIZE: usize = 32;

/// Fixed-size descriptor that precedes every chunk payload.
#[derive(Debug)]
pub struct ResourceChunkInfo {
    pub chunk_type: [u8; 4],
    pub chunk_id: u32,
    pub compression_type: u8,
    pub cipher_type: u8,
    pub flags: u16,
    pub packed_size: u32,
    pub base_size: u32,
    pub next_offset: u32,
    pub reserved: u32,
    pub crc32: u32,
}

/// Type tag of the descriptor that starts at `p` in `b`.
pub open spec fn tag_at(b: Seq<u8>, p: int) -> Seq<u8> {
    b.subrange(p, p + 4)
}

/// Chunk id of the descriptor that starts at `p` in `b`.
pub open spec fn id_at(b: Seq<u8>, p: int) -> u32 {
    u32_at(b, p + 4)
}

/// Packed payload size of the descriptor that starts at `p` in `b`.
pub open spec fn packed_at(b: Seq<u8>, p: int) -> u32 {
    u32_at(b, p + 12)
}

/// Base size of the descriptor that starts at `p` in `b`.
pub open spec fn base_at(b: Seq<u8>, p: int) -> u32 {
    u32_at(b, p + 16)
}

/// Stored checksum of the descriptor that starts at `p` in `b`.
pub open spec fn crc_at(b: Seq<u8>, p: int) -> u32 {
    u32_at(b, p + 28)
}

/// `i` holds the fields of the descriptor that starts at `p` in `b`.
pub open spec fn info_matches(i: ResourceChunkInfo, b: Seq<u8>, p: int) -> bool {
    &&& i.chunk_type@ == tag_at(b, p)
    &&& i.chunk_id == id_at(b, p)
    &&& i.compression_type == b[p + 8]
    &&& i.cipher_type == b[p + 9]
    &&& i.flags == le_u16(b.subrange(p + 10, p + 12))
    &&& i.packed_size == packed_at(b, p)
    &&& i.base_size == base_at(b, p)
    &&& i.next_offset == u32_at(b, p + 20)
    &&& i.reserved == u32_at(b, p + 24)
    &&& i.crc32 == crc_at(b, p)
}

/// A compression or cipher code other than "none" means the payload is
/// still transformed.
pub open spec fn transformed(compression: u8, cipher: u8) -> bool {
    compression != CompressionType::NoCompression.spec_code() || cipher
        != EncryptionType::NoEncryption.spec_code()
}

/// The `count` properties that follow the property count in a plain payload.
pub open spec fn props_of(data: Seq<u8>, count: nat) -> Seq<u32> {
    Seq::new(count, |k: int| u32_at(data, 4 + 4 * k))
}

/// What the payload `data` of a chunk with the given descriptor fields
/// decodes to: its properties and its raw tail.
pub open spec fn decode_fields(
    tag: Seq<u8>,
    compression: u8,
    cipher: u8,
    packed_size: u32,
    base_size: u32,
    stored_crc: u32,
    data: Seq<u8>,
) -> Result<(Seq<u32>, Seq<u8>), RresError> {
    if data_type_of(tag) == ResourceDataType::Null {
        Err(RresError::NullResource)
    } else if crc32(data) != stored_crc {
        Err(RresError::Crc32VerificationFailed)
    } else if !transformed(compression, cipher) {
        if data.len() < 4 {
            Err(RresError::InsufficientData)
        } else if (base_size as int) < 4 + 4 * (u32_at(data, 0) as int) {
            Err(RresError::MalformedChunk)
        } else if data.len() < base_size {
            Err(RresError::InsufficientData)
        } else {
            let count = u32_at(data, 0);
            Ok((props_of(data, count as nat), data.subrange(4 + 4 * count, base_size as int)))
        }
    } else if data.len() < packed_size {
        Err(RresError::InsufficientData)
    } else {
        Ok((Seq::empty(), data.subrange(0, packed_size as int)))
    }
}

/// What the payload `data` of a chunk described by `i` decodes to.
pub open spec fn decode_chunk(i: ResourceChunkInfo, data: Seq<u8>) -> Result<
    (Seq<u32>, Seq<u8>),
    RresError,
> {
    decode_fields(
        i.chunk_type@,
        i.compression_type,
        i.cipher_type,
        i.packed_size,
        i.base_size,
        i.crc32,
        data,
    )
}

/// What the payload `data` of the chunk described at `p` in `b` decodes to.
pub open spec fn decode_at(b: Seq<u8>, p: int, data: Seq<u8>) -> Result<
    (Seq<u32>, Seq<u8>),
    RresError,
> {
    decode_fields(
        tag_at(b, p),
        b[p + 8],
        b[p + 9],
        packed_at(b, p),
        base_at(b, p),
        crc_at(b, p),
        data,
    )
}

impl ResourceChunkInfo {
    /// Whether the chunk's tag classifies as `data_type`.
    pub fn is_chunk_type(&self, data_type: ResourceDataType) -> (r: bool)
        ensures
            r == (data_type_of(self.chunk_type@) == data_type),
    {
        ResourceDataType::from_tag(&self.chunk_type) == data_type
    }

    /// Reads the descriptor that starts at `pos` in `data`.
    pub fn from_bytes(data: &[u8], pos: usize) -> (r: Result<ResourceChunkInfo, RresError>)
        ensures
            pos + CHUNK_INFO_SIZE > data@.len() ==> r == Err::<ResourceChunkInfo, RresError>(
                RresError::InsufficientData,
            ),
            pos + CHUNK_INFO_SIZE <= data@.len() ==> (r matches Ok(i) && info_matches(
                i,
                data@,
                pos as int,
            )),
    {
        if data.len() < CHUNK_INFO_SIZE || pos > data.len() - CHUNK_INFO_SIZE {
            return Err(RresError::InsufficientData);
        }
        let chunk_type: [u8; 4] = [data[pos], data[pos + 1], data[pos + 2], data[pos + 3]];
        assert(chunk_type@ =~= data@.subrange(pos as int, pos + 4));
        Ok(ResourceChunkInfo {
            chunk_type,
            chunk_id: u32_at_pos(data, pos + 4),
            compression_type: data[pos + 8],
            cipher_type: data[pos + 9],
            flags: u16_at_pos(data, pos + 10),
            packed_size: u32_at_pos(data, pos + 12),
            base_size: u32_at_pos(data, pos + 16),
            next_offset: u32_at_pos(data, pos + 20),
            reserved: u32_at_pos(data, pos + 24),
            crc32: u32_at_pos(data, pos + 28),
        })
    }

    /// Whether the payload still has to be decompressed or decrypted.
    pub fn is_compressed_or_encrypted(&self) -> (r: bool)
        ensures
            r == transformed(self.compression_type, self.cipher_type),
    {
        self.compression_type != CompressionType::NoCompression.code() || self.cipher_type
            != EncryptionType::NoEncryption.code()
    }
}

/// Properties and raw tail of one decoded chunk.
pub struct ResourceChunkData {
    pub prop_count: u32,
    pub props: Vec<u32>,
    pub raw_data: Vec<u8>,
}

impl ResourceChunkData {
    /// Checks and decodes the payload `data` of the chunk described by `info`.
    pub fn from_info_and_data(info: &ResourceChunkInfo, data: &mut Vec<u8>) -> (r: Result<
        ResourceChunkData,
        RresError,
    >)
        ensures
            final(data)@ == old(data)@,
            match decode_chunk(*info, old(data)@) {
                Ok((props, raw)) => r matches Ok(d) && d.props@ == props && d.raw_data@ == raw
                    && d.prop_count == props.len(),
                Err(e) => r == Err::<ResourceChunkData, RresError>(e),
            },
    {
        let bytes = data.as_slice();
        decode_payload(info, bytes)
    }
}

/// Checks and decodes the payload `data` of the chunk described by `info`.
pub fn decode_payload(info: &ResourceChunkInfo, data: &[u8]) -> (r: Result<
    ResourceChunkData,
    RresError,
>)
    ensures
        match decode_chunk(*info, data@) {
            Ok((props, raw)) => r matches Ok(d) && d.props@ == props && d.raw_data@ == raw
                && d.prop_count == props.len(),
            Err(e) => r == Err::<ResourceChunkData, RresError>(e),
        },
{
    let crc = compute_crc32(data);
    if info.is_chunk_type(ResourceDataType::Null) {
        return Err(RresError::NullResource);
    }
    if crc != info.crc32 {
        return Err(RresError::Crc32VerificationFailed);
    }
    if !info.is_compressed_or_encrypted() {
        if data.len() < 4 {
            return Err(RresError::InsufficientData);
        }
        let prop_count = u32_at_pos(data, 0);
        let base = info.base_size as u64;
        let overhead = 4 + 4 * (prop_count as u64);
        if base < overhead {
            return Err(RresError::MalformedChunk);
        }
        let len = data.len();
        if (len as u64) < base {
            return Err(RresError::InsufficientData);
        }
        let ghost count = prop_count as nat;
        let mut props: Vec<u32> = Vec::new();
        let mut k: u32 = 0;
        while k < prop_count
            invariant
                k <= prop_count,
                len == data@.len(),
                4 + 4 * (prop_count as int) <= data@.len(),
                props@ == props_of(data@, k as nat),
            decreases prop_count - k,
        {
            let v = u32_at_pos(data, 4 + 4 * (k as usize));
            props.push(v);
            assert(props@ =~= props_of(data@, (k + 1) as nat));
            k = k + 1;
        }
        let start = overhead as usize;
        let end = base as usize;
        let raw_data = slice_to_vec(slice_subrange(data, start, end));
        Ok(ResourceChunkData { prop_count, props, raw_data })
    } else {
        if data.len() < info.packed_size as usize {
            return Err(RresError::InsufficientData);
        }
        let raw_data = slice_to_vec(slice_subrange(data, 0, info.packed_size as usize));
        let props: Vec<u32> = Vec::new();
        assert(props@ =~= Seq::<u32>::empty());
        Ok(ResourceChunkData { prop_count: 0, props, raw_data })
    }
}

/// A chunk descriptor together with its decoded payload.
pub struct ResourceChunk {
    pub info: ResourceChunkInfo,
    pub data: ResourceChunkData,
}

/// A group of chunks that make up one resource.
pub struct ResourceMulti {
    pub chunk_count: u32,
    pub chunks: Vec<ResourceChunk>,
}

} // verus!

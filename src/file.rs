//! The file header and the search for a chunk by id.
use vstd::prelude::*;
use vstd::slice::slice_subrange;
use crate::bytes::{le_u16, u16_at_pos, u32_at, u32_at_pos};
use crate::chunks::{
    decode_at, decode_payload, id_at, info_matches, packed_at, ResourceChunk, ResourceChunkInfo,
    CHUNK_INFO_SIZE,
};
use crate::errors::RresError;

verus! {

/// Size in bytes of the file header.
pub const HEADER_SIZE: usize = 16;

/// The only format version this decoder accepts.
pub const RRES_VERSION: u16 = 100;

/// The magic tag `"rres"` that opens every container.
pub open spec fn rres_magic() -> Seq<u8> {
    seq![114u8, 114u8, 101u8, 115u8]
}

/// The fixed header at the start of a container.
#[derive(Debug)]
pub struct RresFileHeader {
    pub id: [u8; 4],
    pub version: u16,
    pub chunk_count: u16,
    pub cd_offset: u32,
    pub reserved: u32,
}

/// `h` holds the fields of the header at the start of `b`.
pub open spec fn header_matches(h: RresFileHeader, b: Seq<u8>) -> bool {
    &&& h.id@ == b.subrange(0, 4)
    &&& h.version == le_u16(b.subrange(4, 6))
    &&& h.chunk_count == le_u16(b.subrange(6, 8))
    &&& h.cd_offset == u32_at(b, 8)
    &&& h.reserved == u32_at(b, 12)
}

/// The header at the start of `b` carries the magic tag and the version.
pub open spec fn header_valid(b: Seq<u8>) -> bool {
    b.subrange(0, 4) == rres_magic() && le_u16(b.subrange(4, 6)) == RRES_VERSION
}

/// Number of chunk descriptors that the header of `b` announces.
pub open spec fn chunk_count_of(b: Seq<u8>) -> nat {
    le_u16(b.subrange(6, 8)) as nat
}

/// Why the header of `b` is unusable, if it is.
pub open spec fn header_error(b: Seq<u8>) -> Option<RresError> {
    if b.len() < HEADER_SIZE {
        Some(RresError::InsufficientData)
    } else if !header_valid(b) {
        Some(RresError::HeaderVerificationFailed)
    } else {
        None
    }
}

/// Position of the `k`-th chunk descriptor of `b`, each one followed by
/// its packed payload.
pub open spec fn desc_pos(b: Seq<u8>, k: nat) -> int
    decreases k,
{
    if k == 0 {
        HEADER_SIZE as int
    } else {
        let p = desc_pos(b, (k - 1) as nat);
        p + CHUNK_INFO_SIZE + packed_at(b, p)
    }
}

/// Linear scan of descriptors `k..count` of `b` for the id `id`: the
/// position of the first that carries it.
pub open spec fn scan(b: Seq<u8>, k: nat, count: nat, id: u32) -> Result<int, RresError>
    decreases count - k,
{
    if k >= count {
        Err(RresError::ChunkNotFound)
    } else {
        let p = desc_pos(b, k);
        if p + CHUNK_INFO_SIZE > b.len() {
            Err(RresError::InsufficientData)
        } else if id_at(b, p) == id {
            Ok(p)
        } else if p + CHUNK_INFO_SIZE + packed_at(b, p) > b.len() {
            Err(RresError::InsufficientData)
        } else {
            scan(b, k + 1, count, id)
        }
    }
}

/// Position of the descriptor of the chunk with id `id` in the container `b`.
pub open spec fn locate(b: Seq<u8>, id: u32) -> Result<int, RresError> {
    match header_error(b) {
        Some(e) => Err(e),
        None => scan(b, 0, chunk_count_of(b), id),
    }
}

/// The packed payload that follows the descriptor at `p`.
pub open spec fn payload_at(b: Seq<u8>, p: int) -> Seq<u8> {
    b.subrange(p + CHUNK_INFO_SIZE, p + CHUNK_INFO_SIZE + packed_at(b, p))
}

/// The chunk with id `id` in the container `b`: the position of its
/// descriptor, its properties and its raw tail.
pub open spec fn fetch(b: Seq<u8>, id: u32) -> Result<(int, Seq<u32>, Seq<u8>), RresError> {
    match locate(b, id) {
        Err(e) => Err(e),
        Ok(p) => if p + CHUNK_INFO_SIZE + packed_at(b, p) > b.len() {
            Err(RresError::InsufficientData)
        } else {
            match decode_at(b, p, payload_at(b, p)) {
                Err(e) => Err(e),
                Ok((props, raw)) => Ok((p, props, raw)),
            }
        },
    }
}

impl RresFileHeader {
    /// Reads the header at the start of `data`.
    pub fn from_bytes(data: &[u8]) -> (r: Result<RresFileHeader, RresError>)
        ensures
            data@.len() < HEADER_SIZE ==> r == Err::<RresFileHeader, RresError>(
                RresError::InsufficientData,
            ),
            data@.len() >= HEADER_SIZE ==> (r matches Ok(h) && header_matches(h, data@)),
    {
        if data.len() < HEADER_SIZE {
            return Err(RresError::InsufficientData);
        }
        let id: [u8; 4] = [data[0], data[1], data[2], data[3]];
        assert(id@ =~= data@.subrange(0, 4));
        Ok(RresFileHeader {
            id,
            version: u16_at_pos(data, 4),
            chunk_count: u16_at_pos(data, 6),
            cd_offset: u32_at_pos(data, 8),
            reserved: u32_at_pos(data, 12),
        })
    }

    /// Whether the header carries the magic tag and the supported version.
    pub fn verify(&self) -> (r: bool)
        ensures
            r == (self.id@ == rres_magic() && self.version == RRES_VERSION),
    {
        let r = self.id[0] == 114u8 && self.id[1] == 114u8 && self.id[2] == 101u8 && self.id[3]
            == 115u8 && self.version == RRES_VERSION;
        if r {
            assert(self.id@ =~= rres_magic());
        }
        r
    }
}

/// Reads and checks the header of the container `data`.
pub fn read_verified_header(data: &[u8]) -> (r: Result<RresFileHeader, RresError>)
    ensures
        match header_error(data@) {
            Some(e) => r == Err::<RresFileHeader, RresError>(e),
            None => r matches Ok(h) && header_matches(h, data@),
        },
{
    let header = RresFileHeader::from_bytes(data)?;
    if !header.verify() {
        return Err(RresError::HeaderVerificationFailed);
    }
    Ok(header)
}

/// Finds the chunk with id `id` in the container `data` and decodes it.
pub fn load_resource_chunk(data: &[u8], id: u32) -> (r: Result<ResourceChunk, RresError>)
    ensures
        match fetch(data@, id) {
            Ok((p, props, raw)) => r matches Ok(c) && info_matches(c.info, data@, p)
                && c.data.props@ == props && c.data.raw_data@ == raw && c.data.prop_count
                == props.len(),
            Err(e) => r == Err::<ResourceChunk, RresError>(e),
        },
{
    let header = read_verified_header(data)?;
    let len = data.len();
    let count = header.chunk_count;
    let ghost b = data@;
    let mut pos: usize = HEADER_SIZE;
    let mut k: u16 = 0;
    while k < count
        invariant
            len == b.len(),
            b == data@,
            header_error(b).is_none(),
            count as nat == chunk_count_of(b),
            k <= count,
            pos as int == desc_pos(b, k as nat),
            pos <= len,
            locate(b, id) == scan(b, k as nat, count as nat, id),
        decreases count - k,
    {
        let info = ResourceChunkInfo::from_bytes(data, pos)?;
        let packed = info.packed_size as usize;
        if info.chunk_id == id {
            if packed > len - pos - CHUNK_INFO_SIZE {
                return Err(RresError::InsufficientData);
            }
            let start = pos + CHUNK_INFO_SIZE;
            let payload = slice_subrange(data, start, start + packed);
            let chunk_data = decode_payload(&info, payload)?;
            return Ok(ResourceChunk { info, data: chunk_data });
        }
        if packed > len - pos - CHUNK_INFO_SIZE {
            return Err(RresError::InsufficientData);
        }
        pos = pos + CHUNK_INFO_SIZE + packed;
        k = k + 1;
    }
    Err(RresError::ChunkNotFound)
}

} // verus!

//! Properties of the decoder that relate several inputs or several calls.
use vstd::prelude::*;
use crate::chunks::{id_at, packed_at, tag_at, CHUNK_INFO_SIZE};
use crate::crc::lemma_crc32_detects_byte_change;
use crate::directory::{directory_of, DirEntryModel};
use crate::errors::RresError;
use crate::file::{
    chunk_count_of, desc_pos, fetch, header_error, locate, payload_at, rres_magic, scan,
    HEADER_SIZE,
};

verus! {

proof fn lemma_scan_absent(b: Seq<u8>, k: nat, count: nat, id: u32)
    requires
        forall|j: nat|
            k <= j < count ==> desc_pos(b, j) + CHUNK_INFO_SIZE + packed_at(b, desc_pos(b, j))
                <= b.len() && id_at(b, #[trigger] desc_pos(b, j)) != id,
    ensures
        scan(b, k, count, id) == Err::<int, RresError>(RresError::ChunkNotFound),
    decreases count - k,
{
    if k < count {
        assert(id_at(b, desc_pos(b, k)) != id);
        lemma_scan_absent(b, k + 1, count, id);
    }
}

/// When every one of the descriptors that the header announces lies within
/// the bytes and none carries `id`, the search examines them all and ends
/// with `ChunkNotFound`.
pub proof fn lemma_absent_id_not_found(b: Seq<u8>, id: u32)
    requires
        header_error(b) is None,
        forall|j: nat|
            j < chunk_count_of(b) ==> desc_pos(b, j) + CHUNK_INFO_SIZE + packed_at(
                b,
                desc_pos(b, j),
            ) <= b.len() && id_at(b, #[trigger] desc_pos(b, j)) != id,
    ensures
        locate(b, id) == Err::<int, RresError>(RresError::ChunkNotFound),
        fetch(b, id) == Err::<(int, Seq<u32>, Seq<u8>), RresError>(RresError::ChunkNotFound),
{
    lemma_scan_absent(b, 0, chunk_count_of(b), id);
}

/// Input shorter than a header, or with a wrong magic tag, is refused with
/// `InsufficientData` or `HeaderVerificationFailed` by both the chunk search and
/// the directory reader.
pub proof fn lemma_bad_header_refused(b: Seq<u8>, id: u32)
    requires
        b.len() < HEADER_SIZE || b.subrange(0, 4) != rres_magic(),
    ensures
        b.len() < HEADER_SIZE ==> fetch(b, id) == Err::<(int, Seq<u32>, Seq<u8>), RresError>(
            RresError::InsufficientData,
        ) && directory_of(b) == Err::<Seq<DirEntryModel>, RresError>(
            RresError::InsufficientData,
        ),
        b.len() >= HEADER_SIZE ==> fetch(b, id) == Err::<(int, Seq<u32>, Seq<u8>), RresError>(
            RresError::HeaderVerificationFailed,
        ) && directory_of(b) == Err::<Seq<DirEntryModel>, RresError>(
            RresError::HeaderVerificationFailed,
        ),
{
}

/// Descriptor positions never go back.
proof fn lemma_desc_pos_grows(b: Seq<u8>, j: nat, k: nat)
    requires
        j <= k,
    ensures
        desc_pos(b, j) <= desc_pos(b, k),
    decreases k - j,
{
    if j < k {
        lemma_desc_pos_grows(b, j, (k - 1) as nat);
    }
}

/// A scan finds descriptors at or after the one it starts from.
proof fn lemma_scan_found_after(b: Seq<u8>, k: nat, count: nat, id: u32)
    ensures
        scan(b, k, count, id) matches Ok(p) ==> p >= desc_pos(b, k) >= HEADER_SIZE,
    decreases count - k,
{
    lemma_desc_pos_grows(b, 0, k);
    if k < count {
        lemma_scan_found_after(b, k + 1, count, id);
    }
}

/// A successful scan depends only on the bytes before the end of the
/// descriptor it finds.
proof fn lemma_scan_prefix(b: Seq<u8>, b2: Seq<u8>, k: nat, count: nat, id: u32, q: int)
    requires
        b.len() == b2.len(),
        q <= b.len(),
        forall|i: int| 0 <= i < q ==> b[i] == b2[i],
        desc_pos(b, k) == desc_pos(b2, k),
        scan(b, k, count, id) matches Ok(p) && p + CHUNK_INFO_SIZE <= q,
    ensures
        scan(b2, k, count, id) == scan(b, k, count, id),
        scan(b, k, count, id) matches Ok(p) && p >= desc_pos(b, k),
    decreases count - k,
{
    let p0 = desc_pos(b, k);
    lemma_desc_pos_grows(b, 0, k);
    if p0 + CHUNK_INFO_SIZE <= b.len() && id_at(b, p0) == id {
        assert(b.subrange(p0 + 4, p0 + 8) =~= b2.subrange(p0 + 4, p0 + 8));
    } else {
        let p1 = desc_pos(b, k + 1);
        assert(p1 == p0 + CHUNK_INFO_SIZE + packed_at(b, p0));
        lemma_scan_prefix_next(b, k, count, id);
        assert(p0 + CHUNK_INFO_SIZE <= q);
        assert(b.subrange(p0 + 4, p0 + 8) =~= b2.subrange(p0 + 4, p0 + 8));
        assert(b.subrange(p0 + 12, p0 + 16) =~= b2.subrange(p0 + 12, p0 + 16));
        assert(desc_pos(b2, k + 1) == desc_pos(b2, k) + CHUNK_INFO_SIZE + packed_at(
            b2,
            desc_pos(b2, k),
        ));
        lemma_scan_prefix(b, b2, k + 1, count, id, q);
    }
}

/// A scan that goes past descriptor `k` finds a position beyond it.
proof fn lemma_scan_prefix_next(b: Seq<u8>, k: nat, count: nat, id: u32)
    requires
        scan(b, k, count, id) is Ok,
        !(desc_pos(b, k) + CHUNK_INFO_SIZE <= b.len() && id_at(b, desc_pos(b, k)) == id),
    ensures
        scan(b, k, count, id) matches Ok(p) && p >= desc_pos(b, k + 1),
    decreases count - k,
{
    if desc_pos(b, k + 1) + CHUNK_INFO_SIZE <= b.len() && id_at(b, desc_pos(b, k + 1)) == id {
    } else {
        lemma_scan_prefix_next(b, k + 1, count, id);
        lemma_desc_pos_grows(b, k + 1, k + 2);
    }
}

/// Changing any single byte of the payload of a chunk that decodes makes
/// the search for its id fail with `Crc32VerificationFailed`.
pub proof fn lemma_payload_change_detected(b: Seq<u8>, id: u32, i: int, x: u8)
    requires
        fetch(b, id) matches Ok((p, _, _)) && p + CHUNK_INFO_SIZE <= i < p + CHUNK_INFO_SIZE
            + packed_at(b, p),
        x != b[i],
    ensures
        fetch(b.update(i, x), id) == Err::<(int, Seq<u32>, Seq<u8>), RresError>(
            RresError::Crc32VerificationFailed,
        ),
{
    let p = locate(b, id)->Ok_0;
    lemma_scan_found_after(b, 0, chunk_count_of(b), id);
    assert(p == fetch(b, id)->Ok_0.0);
    assert(p + CHUNK_INFO_SIZE + packed_at(b, p) <= b.len());
    let b2 = b.update(i, x);
    let q = p + CHUNK_INFO_SIZE;
    assert(scan(b, 0, chunk_count_of(b), id) == Ok::<int, RresError>(p));
    lemma_scan_prefix(b, b2, 0, chunk_count_of(b), id, q);
    assert(b.subrange(0, 4) =~= b2.subrange(0, 4));
    assert(b.subrange(4, 6) =~= b2.subrange(4, 6));
    assert(b.subrange(6, 8) =~= b2.subrange(6, 8));
    assert(header_error(b2) == header_error(b));
    assert(locate(b2, id) == Ok::<int, RresError>(p));
    assert(tag_at(b, p) =~= tag_at(b2, p));
    assert(b.subrange(p + 12, p + 16) =~= b2.subrange(p + 12, p + 16));
    assert(b.subrange(p + 16, p + 20) =~= b2.subrange(p + 16, p + 20));
    assert(b.subrange(p + 28, p + 32) =~= b2.subrange(p + 28, p + 32));
    let d = payload_at(b, p);
    let j = i - q;
    assert(payload_at(b2, p) =~= d.update(j, x));
    lemma_crc32_detects_byte_change(d, j, x);
}

} // verus!

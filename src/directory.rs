//! The central directory: decoding it and resolving names to ids.
use vstd::prelude::*;
use vstd::slice::{slice_subrange, slice_to_vec};
use vstd::string::StringSliceAdditionalSpecFns;
use crate::bytes::{u32_at, u32_at_pos};
use crate::chunks::{
    decode_at, decode_payload, packed_at, tag_at, transformed, ResourceChunkInfo, CHUNK_INFO_SIZE,
};
use crate::errors::RresError;
use crate::file::{header_error, read_verified_header, payload_at, HEADER_SIZE};
use crate::types::{data_type_of, ResourceDataType};

verus! {

/// Size in bytes of the fixed part of a directory entry.
pub const DIR_ENTRY_FIXED_SIZE: usize = 16;

/// One directory entry as a mathematical value.
pub struct DirEntryModel {
    pub id: u32,
    pub offset: u32,
    pub name: Seq<u8>,
}

/// One entry of the central directory.
pub struct CentralDirEntry {
    /// Id of the resource that the entry names.
    pub id: u32,
    /// Position of that resource's first descriptor in the file.
    pub offset: u32,
    /// The stored name; its logical content ends at the first NUL byte.
    pub file_name: Vec<u8>,
}

impl View for CentralDirEntry {
    type V = DirEntryModel;

    open spec fn view(&self) -> DirEntryModel {
        DirEntryModel { id: self.id, offset: self.offset, name: self.file_name@ }
    }
}

/// The name-to-id table of a container.
pub struct CentralDir {
    pub entry_count: u32,
    pub entries: Vec<CentralDirEntry>,
}

impl View for CentralDir {
    type V = Seq<DirEntryModel>;

    open spec fn view(&self) -> Seq<DirEntryModel> {
        self.entries@.map_values(|e: CentralDirEntry| e@)
    }
}

/// Index of the first NUL byte of `n` at or after `i`, or the length of `n`.
pub open spec fn name_end(n: Seq<u8>, i: int) -> int
    decreases n.len() - i,
{
    if i >= n.len() || n[i] == 0 {
        i
    } else {
        name_end(n, i + 1)
    }
}

/// The logical name held by the stored name `n`: its bytes before the first NUL.
pub open spec fn logical_name(n: Seq<u8>) -> Seq<u8> {
    n.subrange(0, name_end(n, 0))
}

/// The id of the first entry of `es` whose logical name is `q`.
pub open spec fn resolve(es: Seq<DirEntryModel>, q: Seq<u8>) -> Option<u32>
    decreases es.len(),
{
    if es.len() == 0 {
        None
    } else if logical_name(es[0].name) == q {
        Some(es[0].id)
    } else {
        resolve(es.drop_first(), q)
    }
}

/// The entry whose fixed part starts at `pos` in `raw`, with a name of `n` bytes.
pub open spec fn entry_at(raw: Seq<u8>, pos: int, n: int) -> DirEntryModel {
    DirEntryModel {
        id: u32_at(raw, pos),
        offset: u32_at(raw, pos + 4),
        name: raw.subrange(pos + DIR_ENTRY_FIXED_SIZE, pos + DIR_ENTRY_FIXED_SIZE + n),
    }
}

/// `count` consecutive entries of the directory tail `raw`, from `pos` on.
pub open spec fn parse_entries(raw: Seq<u8>, pos: int, count: nat) -> Result<
    Seq<DirEntryModel>,
    RresError,
>
    decreases count,
{
    if count == 0 {
        Ok(Seq::empty())
    } else if pos + DIR_ENTRY_FIXED_SIZE > raw.len() {
        Err(RresError::InsufficientData)
    } else {
        let n = u32_at(raw, pos + 12) as int;
        if pos + DIR_ENTRY_FIXED_SIZE + n > raw.len() {
            Err(RresError::InsufficientData)
        } else {
            match parse_entries(raw, pos + DIR_ENTRY_FIXED_SIZE + n, (count - 1) as nat) {
                Ok(rest) => Ok(seq![entry_at(raw, pos, n)] + rest),
                Err(e) => Err(e),
            }
        }
    }
}

/// Decoding `count` entries yields exactly `count` of them.
proof fn lemma_parse_entries_len(raw: Seq<u8>, pos: int, count: nat)
    ensures
        parse_entries(raw, pos, count) matches Ok(es) ==> es.len() == count,
    decreases count,
{
    if count > 0 && pos + DIR_ENTRY_FIXED_SIZE <= raw.len() {
        let n = u32_at(raw, pos + 12) as int;
        lemma_parse_entries_len(raw, pos + DIR_ENTRY_FIXED_SIZE + n, (count - 1) as nat);
    }
}

/// `r` with `front` put before its entries.
pub open spec fn prepend(front: Seq<DirEntryModel>, r: Result<Seq<DirEntryModel>, RresError>) -> Result<
    Seq<DirEntryModel>,
    RresError,
> {
    match r {
        Ok(rest) => Ok(front + rest),
        Err(e) => Err(e),
    }
}

/// Position of the directory descriptor of `b`: the header's offset,
/// counted from the end of the header.
pub open spec fn directory_pos(b: Seq<u8>) -> int {
    HEADER_SIZE + u32_at(b, 8)
}

/// The entries of the central directory of the container `b`.
pub open spec fn directory_of(b: Seq<u8>) -> Result<Seq<DirEntryModel>, RresError> {
    match header_error(b) {
        Some(e) => Err(e),
        None => {
            let p = directory_pos(b);
            if p + CHUNK_INFO_SIZE > b.len() {
                Err(RresError::InsufficientData)
            } else if data_type_of(tag_at(b, p)) != ResourceDataType::Directory {
                Err(RresError::InvalidCentralDir)
            } else if transformed(b[p + 8], b[p + 9]) {
                Err(RresError::InvalidCentralDir)
            } else if p + CHUNK_INFO_SIZE + packed_at(b, p) > b.len() {
                Err(RresError::InsufficientData)
            } else {
                match decode_at(b, p, payload_at(b, p)) {
                    Err(e) => Err(e),
                    Ok((props, raw)) => if props.len() == 0 {
                        Err(RresError::InvalidCentralDir)
                    } else {
                        parse_entries(raw, 0, props[0] as nat)
                    },
                }
            }
        }
    }
}

/// Decodes `count` consecutive entries from the directory tail `raw`.
pub fn parse_dir_entries(raw: &[u8], count: u32) -> (r: Result<Vec<CentralDirEntry>, RresError>)
    ensures
        match parse_entries(raw@, 0, count as nat) {
            Ok(es) => r matches Ok(v) && v@.map_values(|e: CentralDirEntry| e@) == es,
            Err(e) => r == Err::<Vec<CentralDirEntry>, RresError>(e),
        },
{
    let len = raw.len();
    let mut entries: Vec<CentralDirEntry> = Vec::new();
    let mut pos: usize = 0;
    let mut k: u32 = 0;
    while k < count
        invariant
            len == raw@.len(),
            k <= count,
            pos <= len,
            parse_entries(raw@, 0, count as nat) == prepend(
                entries@.map_values(|e: CentralDirEntry| e@),
                parse_entries(raw@, pos as int, (count - k) as nat),
            ),
        decreases count - k,
    {
        if len - pos < DIR_ENTRY_FIXED_SIZE {
            return Err(RresError::InsufficientData);
        }
        let id = u32_at_pos(raw, pos);
        let offset = u32_at_pos(raw, pos + 4);
        let n = u32_at_pos(raw, pos + 12) as usize;
        if n > len - pos - DIR_ENTRY_FIXED_SIZE {
            return Err(RresError::InsufficientData);
        }
        let start = pos + DIR_ENTRY_FIXED_SIZE;
        let file_name = slice_to_vec(slice_subrange(raw, start, start + n));
        let entry = CentralDirEntry { id, offset, file_name };
        let ghost before = entries@.map_values(|e: CentralDirEntry| e@);
        let ghost rest = parse_entries(raw@, (start + n) as int, (count - k - 1) as nat);
        assert(entry@ == entry_at(raw@, pos as int, n as int));
        entries.push(entry);
        assert(entries@.map_values(|e: CentralDirEntry| e@) =~= before.push(entry@));
        proof {
            if rest is Ok {
                let tail = rest->Ok_0;
                assert(before + (seq![entry@] + tail) =~= before.push(entry@) + tail);
            }
        }
        pos = start + n;
        k = k + 1;
    }
    assert(entries@.map_values(|e: CentralDirEntry| e@) + Seq::<DirEntryModel>::empty()
        =~= entries@.map_values(|e: CentralDirEntry| e@));
    Ok(entries)
}

/// Reads the central directory of the container `data`.
pub fn load_central_dir(data: &[u8]) -> (r: Result<CentralDir, RresError>)
    ensures
        match directory_of(data@) {
            Ok(es) => r matches Ok(d) && d@ == es && d.entry_count == es.len(),
            Err(e) => r == Err::<CentralDir, RresError>(e),
        },
{
    let header = read_verified_header(data)?;
    let len = data.len();
    let offset = header.cd_offset as usize;
    if offset > len - HEADER_SIZE {
        return Err(RresError::InsufficientData);
    }
    let pos = HEADER_SIZE + offset;
    let info = ResourceChunkInfo::from_bytes(data, pos)?;
    if !info.is_chunk_type(ResourceDataType::Directory) {
        return Err(RresError::InvalidCentralDir);
    }
    if info.is_compressed_or_encrypted() {
        return Err(RresError::InvalidCentralDir);
    }
    let packed = info.packed_size as usize;
    if packed > len - pos - CHUNK_INFO_SIZE {
        return Err(RresError::InsufficientData);
    }
    let start = pos + CHUNK_INFO_SIZE;
    let payload = slice_subrange(data, start, start + packed);
    let chunk_data = decode_payload(&info, payload)?;
    if chunk_data.props.len() == 0 {
        return Err(RresError::InvalidCentralDir);
    }
    let count = chunk_data.props[0];
    let entries = parse_dir_entries(chunk_data.raw_data.as_slice(), count)?;
    proof {
        lemma_parse_entries_len(chunk_data.raw_data@, 0, count as nat);
    }
    Ok(CentralDir { entry_count: count, entries })
}

/// Whether the logical name held by `stored` equals `q`.
pub fn logical_name_eq(stored: &[u8], q: &[u8]) -> (r: bool)
    ensures
        r == (logical_name(stored@) == q@),
{
    let mut i: usize = 0;
    while i < stored.len() && stored[i] != 0
        invariant
            i <= stored@.len(),
            name_end(stored@, i as int) == name_end(stored@, 0),
        decreases stored@.len() - i,
    {
        i = i + 1;
    }
    let end = i;
    assert(name_end(stored@, end as int) == end);
    if end != q.len() {
        return false;
    }
    let mut j: usize = 0;
    while j < end
        invariant
            j <= end,
            end == q@.len(),
            end <= stored@.len(),
            logical_name(stored@) == stored@.subrange(0, end as int),
            forall|t: int| 0 <= t < j ==> stored@[t] == q@[t],
        decreases end - j,
    {
        if stored[j] != q[j] {
            assert(logical_name(stored@)[j as int] != q@[j as int]);
            return false;
        }
        j = j + 1;
    }
    assert(logical_name(stored@) =~= q@);
    true
}

impl CentralDir {
    /// The id of the first entry whose logical name is `name`, or `None`
    /// when no entry has that name.
    pub fn get_resource_id(&self, name: &str) -> (r: Option<u32>)
        ensures
            r == resolve(self@, name.spec_bytes()),
    {
        let q = name.as_bytes();
        let n = self.entries.len();
        let mut i: usize = 0;
        assert(self@.subrange(0, n as int) =~= self@);
        while i < n
            invariant
                n == self.entries@.len(),
                i <= n,
                q@ == name.spec_bytes(),
                resolve(self@, q@) == resolve(self@.subrange(i as int, n as int), q@),
            decreases n - i,
        {
            let entry = &self.entries[i];
            assert(self@.subrange(i as int, n as int).drop_first() =~= self@.subrange(
                i + 1,
                n as int,
            ));
            if logical_name_eq(entry.file_name.as_slice(), q) {
                return Some(entry.id);
            }
            i = i + 1;
        }
        None
    }
}

/// No entry with the logical name `q` means that `resolve` reports absence.
pub proof fn lemma_resolve_absent(es: Seq<DirEntryModel>, q: Seq<u8>)
    requires
        forall|i: int| 0 <= i < es.len() ==> logical_name(#[trigger] es[i].name) != q,
    ensures
        resolve(es, q) == None::<u32>,
    decreases es.len(),
{
    if es.len() > 0 {
        assert(logical_name(es[0].name) != q);
        assert forall|i: int| 0 <= i < es.drop_first().len() implies logical_name(
            #[trigger] es.drop_first()[i].name,
        ) != q by {
            assert(es.drop_first()[i] == es[i + 1]);
        }
        lemma_resolve_absent(es.drop_first(), q);
    }
}

/// `resolve` returns the id stored in the first entry whose logical name
/// is `q`, whatever the other entries hold.
pub proof fn lemma_resolve_first_match(es: Seq<DirEntryModel>, q: Seq<u8>, i: int)
    requires
        0 <= i < es.len(),
        logical_name(es[i].name) == q,
        forall|j: int| 0 <= j < i ==> logical_name(#[trigger] es[j].name) != q,
    ensures
        resolve(es, q) == Some(es[i].id),
    decreases i,
{
    if i > 0 {
        assert(logical_name(es[0].name) != q);
        assert forall|j: int| 0 <= j < i - 1 implies logical_name(
            #[trigger] es.drop_first()[j].name,
        ) != q by {
            assert(es.drop_first()[j] == es[j + 1]);
        }
        lemma_resolve_first_match(es.drop_first(), q, i - 1);
    }
}

} // verus!

//! The layout of a container written from chunk values, and the law that
//! the decoder reads every chunk of it back unchanged.
use vstd::prelude::*;
use crate::bytes::{le_bytes_u32, le_u16, lemma_le_u32_round_trip, u32_at};
use crate::chunks::{packed_at, props_of, CHUNK_INFO_SIZE};
use crate::crc::crc32;
use crate::errors::RresError;
use crate::file::{
    chunk_count_of, desc_pos, fetch, header_error, rres_magic, scan, HEADER_SIZE, RRES_VERSION,
};
use crate::directory::{
    entry_at, logical_name, parse_entries, resolve, lemma_resolve_absent,
    lemma_resolve_first_match, DirEntryModel, DIR_ENTRY_FIXED_SIZE,
};
use crate::types::{data_type_of, ResourceDataType};

verus! {

/// A plain chunk as a value: its tag, id, properties and raw tail.
pub struct ChunkModel {
    pub tag: Seq<u8>,
    pub id: u32,
    pub props: Seq<u32>,
    pub raw: Seq<u8>,
}

/// The two little-endian bytes of `x`.
pub open spec fn le_bytes_u16(x: u16) -> Seq<u8> {
    seq![(x % 256) as u8, (x / 256) as u8]
}

/// The little-endian bytes of each value of `s`, one after the other.
pub open spec fn u32s_bytes(s: Seq<u32>) -> Seq<u8>
    decreases s.len(),
{
    if s.len() == 0 {
        Seq::empty()
    } else {
        u32s_bytes(s.drop_last()) + le_bytes_u32(s.last())
    }
}

/// The untransformed payload of `c`: property count, properties, raw tail.
pub open spec fn plain_payload(c: ChunkModel) -> Seq<u8> {
    le_bytes_u32(c.props.len() as u32) + u32s_bytes(c.props) + c.raw
}

/// Descriptor and payload of `c`, with no compression, no cipher, the base
/// size equal to the packed size and the payload's checksum.
#[verifier::opaque]
pub open spec fn plain_record(c: ChunkModel) -> Seq<u8> {
    let p = plain_payload(c);
    let n = p.len() as u32;
    c.tag + le_bytes_u32(c.id) + seq![0u8, 0u8, 0u8, 0u8] + le_bytes_u32(n) + le_bytes_u32(n)
        + le_bytes_u32(0) + le_bytes_u32(0) + le_bytes_u32(crc32(p)) + p
}

/// The records of all chunks of `cs`, in order.
pub open spec fn records(cs: Seq<ChunkModel>) -> Seq<u8>
    decreases cs.len(),
{
    if cs.len() == 0 {
        Seq::empty()
    } else {
        records(cs.drop_last()) + plain_record(cs.last())
    }
}

/// A valid header announcing `count` chunks, with a zero directory offset.
pub open spec fn plain_header(count: u16) -> Seq<u8> {
    rres_magic() + le_bytes_u16(RRES_VERSION) + le_bytes_u16(count) + le_bytes_u32(0)
        + le_bytes_u32(0)
}

/// A container holding the chunks `cs` after a valid header.
pub open spec fn container_of(cs: Seq<ChunkModel>) -> Seq<u8> {
    plain_header(cs.len() as u16) + records(cs)
}

/// Where the descriptor of chunk `k` of `cs` starts in `container_of(cs)`.
pub open spec fn record_offset(cs: Seq<ChunkModel>, k: int) -> int {
    HEADER_SIZE + records(cs.take(k)).len()
}

/// `c` has a recognized, non-null tag and a payload whose size fits a `u32`.
pub open spec fn chunk_well_formed(c: ChunkModel) -> bool {
    &&& c.tag.len() == 4
    &&& data_type_of(c.tag) != ResourceDataType::Null
    &&& 4 + 4 * c.props.len() + c.raw.len() <= u32::MAX
}

/// The chunks can be written into one container and told apart by id.
pub open spec fn chunks_well_formed(cs: Seq<ChunkModel>) -> bool {
    &&& cs.len() <= u16::MAX
    &&& forall|i: int| 0 <= i < cs.len() ==> chunk_well_formed(#[trigger] cs[i])
    &&& forall|i: int, j: int|
        0 <= i < cs.len() && 0 <= j < cs.len() && i != j ==> #[trigger] cs[i].id != #[trigger] cs[j].id
}

proof fn lemma_le_u16_round_trip(x: u16)
    ensures
        le_u16(le_bytes_u16(x)) == x,
{
    let xi = x as int;
    assert(xi == xi % 256 + (xi / 256) * 256) by (nonlinear_arith);
}

proof fn lemma_u32s_bytes(s: Seq<u32>, j: int)
    ensures
        u32s_bytes(s).len() == 4 * s.len(),
        0 <= j < s.len() ==> u32s_bytes(s).subrange(4 * j, 4 * j + 4) == le_bytes_u32(s[j]),
    decreases s.len(),
{
    if s.len() > 0 {
        let init = s.drop_last();
        lemma_u32s_bytes(init, j);
        let a = u32s_bytes(init);
        let whole = a + le_bytes_u32(s.last());
        if j == s.len() - 1 {
            assert(whole.subrange(4 * j, 4 * j + 4) =~= le_bytes_u32(s[j]));
        } else if 0 <= j < s.len() - 1 {
            assert(whole.subrange(4 * j, 4 * j + 4) =~= a.subrange(4 * j, 4 * j + 4));
        }
    }
}

/// A `u32` whose bytes stand at `q` in `s`, where `s` stands at `p` in `b`.
pub(crate) proof fn lemma_u32_in(b: Seq<u8>, p: int, s: Seq<u8>, q: int, x: u32)
    requires
        0 <= p,
        p + s.len() <= b.len(),
        b.subrange(p, p + s.len()) == s,
        0 <= q,
        q + 4 <= s.len(),
        s.subrange(q, q + 4) == le_bytes_u32(x),
    ensures
        u32_at(b, p + q) == x,
{
    assert(b.subrange(p + q, p + q + 4) =~= s.subrange(q, q + 4));
    lemma_le_u32_round_trip(x);
}

proof fn lemma_records_step(cs: Seq<ChunkModel>, k: int)
    requires
        0 <= k < cs.len(),
    ensures
        records(cs.take(k + 1)) == records(cs.take(k)) + plain_record(cs[k]),
{
    assert(cs.take(k + 1).drop_last() =~= cs.take(k));
}

proof fn lemma_records_prefix(cs: Seq<ChunkModel>, k: int)
    requires
        0 <= k <= cs.len(),
    ensures
        records(cs.take(k)).len() <= records(cs).len(),
        records(cs).subrange(0, records(cs.take(k)).len() as int) == records(cs.take(k)),
    decreases cs.len(),
{
    if k == cs.len() {
        assert(cs.take(k) =~= cs);
    } else {
        let init = cs.drop_last();
        assert(cs.take(k) =~= init.take(k));
        lemma_records_prefix(init, k);
        let a = records(init);
        let n = records(cs.take(k)).len() as int;
        assert((a + plain_record(cs.last())).subrange(0, n) =~= a.subrange(0, n));
    }
}

/// Layout facts of the record `r` of a well-formed chunk `c`.
proof fn lemma_record_fields(c: ChunkModel)
    requires
        chunk_well_formed(c),
    ensures
        plain_record(c).len() == CHUNK_INFO_SIZE + plain_payload(c).len(),
        plain_payload(c).len() == 4 + 4 * c.props.len() + c.raw.len(),
        plain_record(c).subrange(0, 4) == c.tag,
        plain_record(c).subrange(4, 8) == le_bytes_u32(c.id),
        plain_record(c)[8] == 0,
        plain_record(c)[9] == 0,
        plain_record(c).subrange(12, 16) == le_bytes_u32(plain_payload(c).len() as u32),
        plain_record(c).subrange(16, 20) == le_bytes_u32(plain_payload(c).len() as u32),
        plain_record(c).subrange(28, 32) == le_bytes_u32(crc32(plain_payload(c))),
        plain_record(c).subrange(32, plain_record(c).len() as int) == plain_payload(c),
{
    reveal(plain_record);
    lemma_u32s_bytes(c.props, 0);
    let p = plain_payload(c);
    let n = p.len() as u32;
    let r = plain_record(c);
    assert(r.subrange(0, 4) =~= c.tag);
    assert(r.subrange(4, 8) =~= le_bytes_u32(c.id));
    assert(r.subrange(12, 16) =~= le_bytes_u32(n));
    assert(r.subrange(16, 20) =~= le_bytes_u32(n));
    assert(r.subrange(28, 32) =~= le_bytes_u32(crc32(p)));
    assert(r.subrange(32, r.len() as int) =~= p);
}

/// The record of chunk `k` stands at its offset in the container.
proof fn lemma_record_in_container(cs: Seq<ChunkModel>, k: int)
    requires
        0 <= k < cs.len(),
    ensures
        record_offset(cs, k + 1) == record_offset(cs, k) + plain_record(cs[k]).len(),
        record_offset(cs, k + 1) <= container_of(cs).len(),
        container_of(cs).subrange(record_offset(cs, k), record_offset(cs, k + 1)) == plain_record(
            cs[k],
        ),
{
    lemma_records_step(cs, k);
    lemma_records_prefix(cs, k + 1);
    let h = plain_header(cs.len() as u16);
    let rs = records(cs);
    let a = records(cs.take(k));
    let r = plain_record(cs[k]);
    assert(h.len() == HEADER_SIZE);
    assert(rs.subrange(0, (a + r).len() as int) == a + r);
    assert((h + rs).subrange(HEADER_SIZE + a.len(), HEADER_SIZE + (a.len() + r.len()) as int) =~= (a
        + r).subrange(a.len() as int, (a.len() + r.len()) as int));
    assert((a + r).subrange(a.len() as int, (a.len() + r.len()) as int) =~= r);
}

/// The descriptor of chunk `k` carries its id and the size of its payload.
proof fn lemma_descriptor_fields(cs: Seq<ChunkModel>, k: int)
    requires
        chunks_well_formed(cs),
        0 <= k < cs.len(),
    ensures
        u32_at(container_of(cs), record_offset(cs, k) + 4) == cs[k].id,
        packed_at(container_of(cs), record_offset(cs, k)) == plain_payload(cs[k]).len(),
        record_offset(cs, k + 1) == record_offset(cs, k) + CHUNK_INFO_SIZE + plain_payload(
            cs[k],
        ).len(),
        record_offset(cs, k + 1) <= container_of(cs).len(),
{
    let b = container_of(cs);
    let c = cs[k];
    let off = record_offset(cs, k);
    assert(chunk_well_formed(c));
    lemma_record_fields(c);
    lemma_record_in_container(cs, k);
    lemma_u32_in(b, off, plain_record(c), 4, c.id);
    lemma_u32_in(b, off, plain_record(c), 12, plain_payload(c).len() as u32);
}

proof fn lemma_desc_pos_is_offset(cs: Seq<ChunkModel>, k: nat)
    requires
        chunks_well_formed(cs),
        k <= cs.len(),
    ensures
        desc_pos(container_of(cs), k) == record_offset(cs, k as int),
    decreases k,
{
    if k == 0 {
        assert(cs.take(0) =~= Seq::<ChunkModel>::empty());
    } else {
        lemma_desc_pos_is_offset(cs, (k - 1) as nat);
        lemma_descriptor_fields(cs, k - 1);
    }
}

proof fn lemma_scan_reaches(cs: Seq<ChunkModel>, k: nat, i: int)
    requires
        chunks_well_formed(cs),
        k <= i < cs.len(),
    ensures
        scan(container_of(cs), k, cs.len(), cs[i].id) == Ok::<int, RresError>(
            record_offset(cs, i),
        ),
    decreases i - k,
{
    lemma_desc_pos_is_offset(cs, k);
    lemma_descriptor_fields(cs, k as int);
    if k < i {
        assert(cs[k as int].id != cs[i].id);
        lemma_scan_reaches(cs, k + 1, i);
    }
}

proof fn lemma_header_fields(cs: Seq<ChunkModel>)
    requires
        cs.len() <= u16::MAX,
    ensures
        container_of(cs).len() >= HEADER_SIZE,
        header_error(container_of(cs)) is None,
        chunk_count_of(container_of(cs)) == cs.len(),
{
    let b = container_of(cs);
    let h = plain_header(cs.len() as u16);
    assert(b.subrange(0, 4) =~= rres_magic());
    assert(b.subrange(4, 6) =~= le_bytes_u16(RRES_VERSION));
    assert(b.subrange(6, 8) =~= le_bytes_u16(cs.len() as u16));
    lemma_le_u16_round_trip(RRES_VERSION);
    lemma_le_u16_round_trip(cs.len() as u16);
}

/// The plain payload of `c` holds its property count, properties and raw tail.
proof fn lemma_payload_fields(c: ChunkModel)
    requires
        chunk_well_formed(c),
    ensures
        u32_at(plain_payload(c), 0) == c.props.len(),
        props_of(plain_payload(c), c.props.len()) == c.props,
        plain_payload(c).subrange(4 + 4 * c.props.len() as int, plain_payload(c).len() as int) == c.raw,
{
    let p = plain_payload(c);
    let m = c.props.len() as int;
    let head = le_bytes_u32(m as u32);
    let pb = u32s_bytes(c.props);
    lemma_u32s_bytes(c.props, 0);
    assert(p.subrange(0, p.len() as int) =~= p);
    assert(p.subrange(0, 4) =~= head);
    lemma_u32_in(p, 0, p, 0, m as u32);
    assert forall|j: int| 0 <= j < m implies #[trigger] props_of(p, c.props.len())[j] == c.props[j] by {
        lemma_u32s_bytes(c.props, j);
        assert(p.subrange(4, 4 + 4 * m as int) =~= pb);
        lemma_u32_in(p, 4, pb, 4 * j, c.props[j]);
    }
    assert(props_of(p, c.props.len()) =~= c.props);
    assert(p.subrange(4 + 4 * m as int, p.len() as int) =~= c.raw);
}

/// Every chunk of a container written from well-formed plain chunks with
/// distinct ids is found by its id and decodes to exactly the properties
/// and raw tail it was written with.
pub proof fn lemma_round_trip(cs: Seq<ChunkModel>, i: int)
    requires
        chunks_well_formed(cs),
        0 <= i < cs.len(),
    ensures
        fetch(container_of(cs), cs[i].id) == Ok::<
            (int, Seq<u32>, Seq<u8>),
            RresError,
        >((record_offset(cs, i), cs[i].props, cs[i].raw)),
{
    let b = container_of(cs);
    let c = cs[i];
    let off = record_offset(cs, i);
    let p = plain_payload(c);
    let r = plain_record(c);
    assert(chunk_well_formed(c));
    lemma_record_fields(c);
    lemma_record_in_container(cs, i);
    lemma_descriptor_fields(cs, i);
    lemma_u32_in(b, off, r, 16, p.len() as u32);
    lemma_u32_in(b, off, r, 28, crc32(p));
    lemma_header_fields(cs);
    lemma_scan_reaches(cs, 0, i);
    // descriptor bytes
    assert(b.subrange(off, off + 4) =~= r.subrange(0, 4));
    assert(b[off + 8] == r[8]);
    assert(b[off + 9] == r[9]);
    assert(b.subrange(off + CHUNK_INFO_SIZE, off + CHUNK_INFO_SIZE + p.len()) =~= r.subrange(
        32,
        r.len() as int,
    ));
    lemma_payload_fields(c);
}

/// The bytes of one directory entry: id, offset, four reserved bytes,
/// name length and name.
pub open spec fn dir_entry_bytes(e: DirEntryModel) -> Seq<u8> {
    le_bytes_u32(e.id) + le_bytes_u32(e.offset) + le_bytes_u32(0) + le_bytes_u32(
        e.name.len() as u32,
    ) + e.name
}

/// The raw tail of a directory chunk holding the entries `es`, in order.
pub open spec fn dir_tail(es: Seq<DirEntryModel>) -> Seq<u8>
    decreases es.len(),
{
    if es.len() == 0 {
        Seq::empty()
    } else {
        dir_entry_bytes(es[0]) + dir_tail(es.drop_first())
    }
}

/// Every name of `es` has a length that fits its `u32` field.
pub open spec fn dir_entries_fit(es: Seq<DirEntryModel>) -> bool {
    forall|i: int| 0 <= i < es.len() ==> #[trigger] es[i].name.len() <= u32::MAX
}

/// The fields of an entry written after `pre` read back as the entry.
proof fn lemma_dir_entry_fields(pre: Seq<u8>, e: DirEntryModel, tail: Seq<u8>)
    requires
        e.name.len() <= u32::MAX,
    ensures
        ({
            let raw = (pre + dir_entry_bytes(e)) + tail;
            let p = pre.len() as int;
            let n = e.name.len() as int;
            &&& p + DIR_ENTRY_FIXED_SIZE + n <= raw.len()
            &&& u32_at(raw, p + 12) == n
            &&& entry_at(raw, p, n) == e
            &&& dir_entry_bytes(e).len() == DIR_ENTRY_FIXED_SIZE + n
        }),
{
    let eb = dir_entry_bytes(e);
    let raw = (pre + eb) + tail;
    let p = pre.len() as int;
    let n = e.name.len() as int;
    assert(raw.subrange(p, p + eb.len()) =~= eb);
    assert(eb.subrange(0, 4) =~= le_bytes_u32(e.id));
    assert(eb.subrange(4, 8) =~= le_bytes_u32(e.offset));
    assert(eb.subrange(12, 16) =~= le_bytes_u32(n as u32));
    lemma_u32_in(raw, p, eb, 0, e.id);
    lemma_u32_in(raw, p, eb, 4, e.offset);
    lemma_u32_in(raw, p, eb, 12, n as u32);
    assert(raw.subrange(p + DIR_ENTRY_FIXED_SIZE, p + DIR_ENTRY_FIXED_SIZE + n) =~= e.name);
}

proof fn lemma_dir_tail_parses(pre: Seq<u8>, es: Seq<DirEntryModel>)
    requires
        dir_entries_fit(es),
    ensures
        parse_entries(pre + dir_tail(es), pre.len() as int, es.len()) == Ok::<
            Seq<DirEntryModel>,
            RresError,
        >(es),
    decreases es.len(),
{
    if es.len() == 0 {
        assert(es =~= Seq::<DirEntryModel>::empty());
    } else {
        let e = es[0];
        let rest = es.drop_first();
        assert(e.name.len() <= u32::MAX);
        assert(dir_entries_fit(rest)) by {
            assert forall|i: int| 0 <= i < rest.len() implies #[trigger] rest[i].name.len()
                <= u32::MAX by {
                assert(rest[i] == es[i + 1]);
            }
        }
        let eb = dir_entry_bytes(e);
        let raw = pre + dir_tail(es);
        assert(raw =~= (pre + eb) + dir_tail(rest));
        lemma_dir_entry_fields(pre, e, dir_tail(rest));
        lemma_dir_tail_parses(pre + eb, rest);
        assert(seq![e] + rest =~= es);
    }
}

/// Decoding the raw tail written from the entries `es` gives back exactly
/// `es`, in order.
pub proof fn lemma_dir_tail_round_trip(es: Seq<DirEntryModel>)
    requires
        dir_entries_fit(es),
    ensures
        parse_entries(dir_tail(es), 0, es.len()) == Ok::<Seq<DirEntryModel>, RresError>(es),
{
    lemma_dir_tail_parses(Seq::empty(), es);
    assert(Seq::<u8>::empty() + dir_tail(es) =~= dir_tail(es));
}

/// In a directory decoded from a tail written from `es`, a name that no
/// entry holds resolves to no id at all, even when some entry has id 0.
pub proof fn lemma_dir_tail_absent_name(es: Seq<DirEntryModel>, q: Seq<u8>)
    requires
        dir_entries_fit(es),
        forall|i: int| 0 <= i < es.len() ==> logical_name(#[trigger] es[i].name) != q,
    ensures
        parse_entries(dir_tail(es), 0, es.len()) matches Ok(parsed) && resolve(parsed, q)
            == None::<u32>,
{
    lemma_dir_tail_round_trip(es);
    lemma_resolve_absent(es, q);
}

/// In a directory decoded from a tail written from `es`, a name resolves to
/// the id of the first entry that holds it, whatever prefixes the other
/// names share with it.
pub proof fn lemma_dir_tail_first_match(es: Seq<DirEntryModel>, q: Seq<u8>, j: int)
    requires
        dir_entries_fit(es),
        0 <= j < es.len(),
        logical_name(es[j].name) == q,
        forall|i: int| 0 <= i < j ==> logical_name(#[trigger] es[i].name) != q,
    ensures
        parse_entries(dir_tail(es), 0, es.len()) matches Ok(parsed) && resolve(parsed, q)
            == Some(es[j].id),
{
    lemma_dir_tail_round_trip(es);
    lemma_resolve_first_match(es, q, j);
}

} // verus!

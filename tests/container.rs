use rres::{
    compute_crc32, load_central_dir, load_resource_chunk, u16_at_pos, u32_at_pos, CentralDir,
    CentralDirEntry, CompressionType, EncryptionType, ResourceChunkData, ResourceChunkInfo,
    ResourceDataType, RresError, RresFileHeader, TextEncoding, VertexAttribute,
};

const TEXT_ID: u32 = 3342539433;
const TEXT_PATH: &str = "resources/text_data.txt";
const TEXT: &str = "Hello World! This is a test!";

struct Chunk {
    tag: [u8; 4],
    id: u32,
    compression: u8,
    cipher: u8,
    props: Vec<u32>,
    raw: Vec<u8>,
}

fn plain(tag: &[u8; 4], id: u32, props: &[u32], raw: &[u8]) -> Chunk {
    Chunk { tag: *tag, id, compression: 0, cipher: 0, props: props.to_vec(), raw: raw.to_vec() }
}

fn payload(c: &Chunk) -> Vec<u8> {
    if c.compression != 0 || c.cipher != 0 {
        return c.raw.clone();
    }
    let mut p = Vec::new();
    p.extend_from_slice(&(c.props.len() as u32).to_le_bytes());
    for v in &c.props {
        p.extend_from_slice(&v.to_le_bytes());
    }
    p.extend_from_slice(&c.raw);
    p
}

fn descriptor(c: &Chunk, payload: &[u8], crc: u32) -> Vec<u8> {
    let mut d = Vec::new();
    d.extend_from_slice(&c.tag);
    d.extend_from_slice(&c.id.to_le_bytes());
    d.push(c.compression);
    d.push(c.cipher);
    d.extend_from_slice(&0u16.to_le_bytes());
    d.extend_from_slice(&(payload.len() as u32).to_le_bytes());
    d.extend_from_slice(&(payload.len() as u32).to_le_bytes());
    d.extend_from_slice(&0u32.to_le_bytes());
    d.extend_from_slice(&0u32.to_le_bytes());
    d.extend_from_slice(&crc.to_le_bytes());
    d
}

fn chunk_bytes(c: &Chunk) -> Vec<u8> {
    let p = payload(c);
    let mut out = descriptor(c, &p, compute_crc32(&p));
    out.extend_from_slice(&p);
    out
}

/// Raw tail of a directory chunk: entries padded to four-byte names.
fn directory_tail(entries: &[(u32, u32, &[u8])]) -> Vec<u8> {
    let mut t = Vec::new();
    for (id, offset, name) in entries {
        let mut padded = name.to_vec();
        padded.push(0);
        while padded.len() % 4 != 0 {
            padded.push(0);
        }
        t.extend_from_slice(&id.to_le_bytes());
        t.extend_from_slice(&offset.to_le_bytes());
        t.extend_from_slice(&0u32.to_le_bytes());
        t.extend_from_slice(&(padded.len() as u32).to_le_bytes());
        t.extend_from_slice(&padded);
    }
    t
}

/// A container with the given chunks and the directory placed after them.
fn container(chunks: &[Chunk], entries: &[(u32, u32, &[u8])]) -> Vec<u8> {
    let mut body = Vec::new();
    for c in chunks {
        body.extend_from_slice(&chunk_bytes(c));
    }
    let cd_offset = body.len() as u32;
    let dir = plain(b"CDIR", 0, &[entries.len() as u32], &directory_tail(entries));
    body.extend_from_slice(&chunk_bytes(&dir));
    let mut out = Vec::new();
    out.extend_from_slice(b"rres");
    out.extend_from_slice(&100u16.to_le_bytes());
    out.extend_from_slice(&((chunks.len() + 1) as u16).to_le_bytes());
    out.extend_from_slice(&cd_offset.to_le_bytes());
    out.extend_from_slice(&0u32.to_le_bytes());
    out.extend_from_slice(&body);
    out
}

fn reference_container() -> Vec<u8> {
    let text = plain(b"TEXT", TEXT_ID, &[TEXT.len() as u32, 1, 0, 0], TEXT.as_bytes());
    container(&[text], &[(TEXT_ID, 16, TEXT_PATH.as_bytes())])
}

fn descriptor_info(bytes: &[u8], pos: usize) -> ResourceChunkInfo {
    ResourceChunkInfo::from_bytes(bytes, pos).unwrap()
}

#[test]
fn reads_central_dir() {
    let data = reference_container();
    let central_dir_result = load_central_dir(&data);
    match &central_dir_result {
        Ok(central_dir) => assert!(central_dir.entry_count > 0),
        Err(err) => println!("{}", err.message()),
    }
    assert!(central_dir_result.is_ok());
}

#[test]
fn reads_resource_id() {
    let data = reference_container();
    let central_dir = load_central_dir(&data).unwrap();
    let resource_id = central_dir.get_resource_id(TEXT_PATH);
    assert_eq!(resource_id, Some(3342539433));
}

#[test]
fn reads_resource_chunk() {
    let data = reference_container();
    let central_dir = load_central_dir(&data).unwrap();
    let resource_id = central_dir.get_resource_id(TEXT_PATH).unwrap();
    let chunk = load_resource_chunk(&data, resource_id).unwrap();
    let chunk_string = chunk.data.raw_data.iter().map(|&c| c as char).collect::<String>();
    assert_eq!(chunk_string, "Hello World! This is a test!");
}

#[test]
fn checksum_of_empty_input_is_zero() {
    assert_eq!(compute_crc32(&[]), 0);
}

#[test]
fn checksum_matches_standard_check_value() {
    assert_eq!(compute_crc32(b"123456789"), 0xCBF4_3926);
    assert_eq!(compute_crc32(b"123456789"), compute_crc32(b"123456789"));
}

#[test]
fn round_trip_of_several_plain_chunks() {
    let chunks = vec![
        plain(b"RAWD", 0, &[], &[1, 2, 3]),
        plain(b"IMGE", 7, &[64, 32, 7, 1], &[9; 40]),
        plain(b"VRTX", 8, &[5, 0, 4], &[]),
    ];
    let data = container(&chunks, &[]);
    for c in &chunks {
        let got = load_resource_chunk(&data, c.id).unwrap();
        assert_eq!(got.info.chunk_id, c.id);
        assert_eq!(got.data.props, c.props);
        assert_eq!(got.data.prop_count as usize, c.props.len());
        assert_eq!(got.data.raw_data, c.raw);
    }
}

#[test]
fn flipped_payload_byte_is_detected() {
    let data = reference_container();
    let payload_start = 16 + 32;
    for i in payload_start..payload_start + 4 * 5 + TEXT.len() {
        let mut bad = data.clone();
        bad[i] ^= 0x20;
        assert_eq!(load_resource_chunk(&bad, TEXT_ID).err(), Some(RresError::Crc32VerificationFailed));
    }
}

#[test]
fn absent_name_is_none_even_beside_id_zero() {
    let data = container(&[], &[(0, 16, b"zero"), (5, 16, b"five")]);
    let dir = load_central_dir(&data).unwrap();
    assert_eq!(dir.get_resource_id("missing"), None);
    assert_eq!(dir.get_resource_id("zero"), Some(0));
    assert_eq!(dir.get_resource_id(""), None);
}

#[test]
fn names_with_shared_prefix_resolve_exactly() {
    let data = container(
        &[],
        &[(1, 16, b"res/a.txt.bak"), (2, 16, b"res/a.txt"), (3, 16, b"res/a"), (4, 16, b"res/a.txt")],
    );
    let dir = load_central_dir(&data).unwrap();
    assert_eq!(dir.entry_count, 4);
    assert_eq!(dir.get_resource_id("res/a.txt"), Some(2));
    assert_eq!(dir.get_resource_id("res/a"), Some(3));
    assert_eq!(dir.get_resource_id("res/a.txt.bak"), Some(1));
    assert_eq!(dir.get_resource_id("res/"), None);
}

#[test]
fn absent_id_is_not_found() {
    let chunks = vec![plain(b"RAWD", 1, &[], &[1]), plain(b"TEXT", 2, &[0], b"x")];
    let data = container(&chunks, &[]);
    assert_eq!(load_resource_chunk(&data, 99).err(), Some(RresError::ChunkNotFound));
}

#[test]
fn bad_or_short_header_is_refused() {
    let mut data = reference_container();
    assert_eq!(load_resource_chunk(&data[..15], TEXT_ID).err(), Some(RresError::InsufficientData));
    assert_eq!(load_central_dir(&data[..3]).err(), Some(RresError::InsufficientData));
    data[0] = b'x';
    assert_eq!(load_resource_chunk(&data, TEXT_ID).err(), Some(RresError::HeaderVerificationFailed));
    assert_eq!(load_central_dir(&data).err(), Some(RresError::HeaderVerificationFailed));
    let mut old = reference_container();
    old[4] = 99;
    assert_eq!(load_resource_chunk(&old, TEXT_ID).err(), Some(RresError::HeaderVerificationFailed));
}

#[test]
fn header_fields_are_read_and_verified() {
    let data = reference_container();
    let h = RresFileHeader::from_bytes(&data).unwrap();
    assert_eq!(h.id, *b"rres");
    assert_eq!(h.version, 100);
    assert_eq!(h.chunk_count, 2);
    assert!(h.verify());
    assert!(RresFileHeader::from_bytes(&data[..10]).is_err());
}

#[test]
fn truncated_descriptor_or_payload_is_insufficient_data() {
    let data = reference_container();
    assert_eq!(load_resource_chunk(&data[..16 + 20], TEXT_ID).err(), Some(RresError::InsufficientData));
    assert_eq!(load_resource_chunk(&data[..16 + 40], TEXT_ID).err(), Some(RresError::InsufficientData));
    assert_eq!(load_central_dir(&data[..60]).err(), Some(RresError::InsufficientData));
}

#[test]
fn descriptor_fields_are_little_endian() {
    let c = plain(b"TEXT", 0x0102_0304, &[], b"ab");
    let bytes = chunk_bytes(&c);
    let info = descriptor_info(&bytes, 0);
    assert_eq!(info.chunk_type, *b"TEXT");
    assert_eq!(info.chunk_id, 0x0102_0304);
    assert_eq!(info.packed_size, 6);
    assert_eq!(info.base_size, 6);
    assert!(info.is_chunk_type(ResourceDataType::Text));
    assert!(!info.is_compressed_or_encrypted());
    assert_eq!(ResourceChunkInfo::from_bytes(&bytes, 7).err(), Some(RresError::InsufficientData));
    assert_eq!(u32_at_pos(&[1, 2, 3, 4, 5], 1), 0x0504_0302);
    assert_eq!(u16_at_pos(&[1, 2, 3], 1), 0x0302);
}

#[test]
fn null_and_unknown_tags_are_null_resources() {
    for tag in [b"NULL", b"ABCD"] {
        let c = plain(tag, 1, &[], b"x");
        let mut p = payload(&c);
        let info = descriptor_info(&chunk_bytes(&c), 0);
        assert!(info.is_chunk_type(ResourceDataType::Null));
        assert_eq!(ResourceChunkData::from_info_and_data(&info, &mut p).err(), Some(RresError::NullResource));
    }
}

#[test]
fn small_base_size_is_malformed() {
    let c = plain(b"RAWD", 1, &[1, 2], b"abcd");
    let mut p = payload(&c);
    let mut bytes = descriptor(&c, &p, compute_crc32(&p));
    bytes[16..20].copy_from_slice(&11u32.to_le_bytes());
    let info = descriptor_info(&bytes, 0);
    assert_eq!(ResourceChunkData::from_info_and_data(&info, &mut p).err(), Some(RresError::MalformedChunk));
    bytes[16..20].copy_from_slice(&12u32.to_le_bytes());
    let info = descriptor_info(&bytes, 0);
    let d = ResourceChunkData::from_info_and_data(&info, &mut p).unwrap();
    assert_eq!(d.props, vec![1, 2]);
    assert!(d.raw_data.is_empty());
    bytes[28..32].copy_from_slice(&0u32.to_le_bytes());
    let info = descriptor_info(&bytes, 0);
    assert_eq!(ResourceChunkData::from_info_and_data(&info, &mut p).err(), Some(RresError::Crc32VerificationFailed));
}

#[test]
fn transformed_payload_passes_through() {
    let c = Chunk { tag: *b"IMGE", id: 3, compression: 10, cipher: 0, props: vec![], raw: vec![7, 0, 0, 0, 1] };
    let data = container(&[c], &[]);
    let got = load_resource_chunk(&data, 3).unwrap();
    assert!(got.info.is_compressed_or_encrypted());
    assert_eq!(got.data.prop_count, 0);
    assert!(got.data.props.is_empty());
    assert_eq!(got.data.raw_data, vec![7, 0, 0, 0, 1]);
}

#[test]
fn encrypted_directory_is_invalid() {
    let mut data = reference_container();
    let cd = 16 + u32::from_le_bytes([data[8], data[9], data[10], data[11]]) as usize;
    data[cd + 9] = 30;
    assert_eq!(load_central_dir(&data).err(), Some(RresError::InvalidCentralDir));
}

#[test]
fn directory_offset_must_point_to_directory() {
    let mut data = reference_container();
    data[8..12].copy_from_slice(&0u32.to_le_bytes());
    assert_eq!(load_central_dir(&data).err(), Some(RresError::InvalidCentralDir));
}

#[test]
fn directory_entries_keep_ids_offsets_and_names() {
    let data = reference_container();
    let dir: CentralDir = load_central_dir(&data).unwrap();
    let e: &CentralDirEntry = &dir.entries[0];
    assert_eq!(e.id, TEXT_ID);
    assert_eq!(e.offset, 16);
    assert_eq!(&e.file_name[..TEXT_PATH.len()], TEXT_PATH.as_bytes());
    assert_eq!(e.file_name.len(), 24);
}

#[test]
fn tags_and_codes_classify() {
    assert!(ResourceDataType::from(b"CDIR") == ResourceDataType::Directory);
    assert!(ResourceDataType::from(b"FNTG") == ResourceDataType::FontGlyphs);
    assert!(ResourceDataType::from_tag(b"WAVE") == ResourceDataType::Wave);
    assert!(ResourceDataType::from_tag(b"wave") == ResourceDataType::Null);
    assert_eq!(CompressionType::LZ4.code(), 20);
    assert_eq!(EncryptionType::Xchacha20Poly1305.code(), 73);
    assert_eq!(RresError::ChunkNotFound.message(), "RRES: Chunk not found in file!");
}

#[test]
fn numeric_codes_of_classifications_and_properties() {
    assert_eq!(ResourceDataType::Null.code(), 0);
    assert_eq!(ResourceDataType::FontGlyphs.code(), 6);
    assert_eq!(ResourceDataType::Link.code(), 99);
    assert_eq!(ResourceDataType::Directory.code(), 100);
    assert_eq!(TextEncoding::UTF8BOM.code(), 2);
    assert_eq!(TextEncoding::UTF16LE.code(), 10);
    assert_eq!(TextEncoding::UTF16BE.code(), 11);
    assert_eq!(VertexAttribute::Position.code(), 0);
    assert_eq!(VertexAttribute::TexCoord4.code(), 13);
    assert_eq!(VertexAttribute::Color.code(), 40);
    assert_eq!(VertexAttribute::Index.code(), 100);
}

//! Decoder for the chunked `rres` resource-container format: the file
//! header, chunk descriptors, payload decoding with checksum verification,
//! the search for a chunk by id and the central directory of names.
mod bytes;
mod chunks;
mod crc;
mod directory;
mod errors;
mod file;
mod laws;
mod round_trip;
mod types;

pub use crate::bytes::{
    le_bytes_u32, le_u16, le_u32, lemma_le_u32_round_trip, u16_at_pos, u32_at, u32_at_pos,
};
pub use crate::chunks::{
    base_at, crc_at, decode_at, decode_chunk, decode_fields, decode_payload, id_at, info_matches,
    packed_at, props_of, tag_at, transformed, ResourceChunk, ResourceChunkData, ResourceChunkInfo,
    ResourceMulti, CHUNK_INFO_SIZE,
};
pub use crate::crc::{
    compute_crc32, crc32, crc32_table, crc_fold, crc_step, crc_steps, crc_table_entry, crc_update,
    lemma_crc32_detects_byte_change, lemma_crc32_empty, lemma_crc_update_injective_byte,
    lemma_crc_update_injective_register, CRC32_POLY,
};
pub use crate::directory::{
    directory_of, directory_pos, entry_at, lemma_resolve_absent, lemma_resolve_first_match,
    load_central_dir, logical_name, logical_name_eq, name_end, parse_dir_entries, parse_entries,
    prepend, resolve, CentralDir, CentralDirEntry, DirEntryModel, DIR_ENTRY_FIXED_SIZE,
};
pub use crate::errors::RresError;
pub use crate::file::{
    chunk_count_of, desc_pos, fetch, header_error, header_matches, header_valid,
    load_resource_chunk, locate, payload_at, read_verified_header, rres_magic, scan,
    RresFileHeader, HEADER_SIZE, RRES_VERSION,
};
pub use crate::laws::{
    lemma_absent_id_not_found, lemma_bad_header_refused, lemma_payload_change_detected,
};
pub use crate::round_trip::{
    chunk_well_formed, chunks_well_formed, container_of, dir_entries_fit, dir_entry_bytes, dir_tail,
    le_bytes_u16, lemma_dir_tail_absent_name, lemma_dir_tail_first_match, lemma_dir_tail_round_trip,
    lemma_round_trip,
    plain_header, plain_payload, plain_record, record_offset, records, u32s_bytes, ChunkModel,
};
pub use crate::types::{
    data_type_of, CodeLang, CompressionType, EncryptionType, FontGlyphInfo, FontStyle, PixelFormat,
    ResourceDataType, TextEncoding, VertexAttribute, VertexFormat,
};

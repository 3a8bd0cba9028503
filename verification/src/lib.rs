//! Reader and writer for the HSSP v4 archive container: a 128-byte binary
//! header, a variable-length file index, and concatenated file payloads,
//! with optional AES-256-CBC encryption, optional stream compression, a
//! keyed Murmur3 integrity checksum, and optional multi-volume linkage.

mod bytes;
mod create;
mod extract;
mod header;
mod metadata;
mod index;
mod laws;
mod primitives;
mod roundtrip;
mod types;

pub use roundtrip::{spec_decoded_file, spec_decoded_files, spec_perms_in_range, spec_index_bytes_from, spec_roundtrip_ok, lemma_parse_entry_of_encoded, lemma_index_bytes_split, lemma_parse_index_of_encoded, lemma_payload_prefix, lemma_payload_slice, lemma_assign_offsets_of_encoded, lemma_header_fields, lemma_create_parse_roundtrip};
pub use types::Compression;
pub use types::CompressionView;
pub use types::Encryption;
pub use types::EncryptionView;
pub use types::File;
pub use types::FileView;
pub use types::FileWithSource;
pub use types::HsspError;
pub use types::Metadata;
pub use types::MetadataView;
pub use types::Method;
pub use types::Multivol;
pub use create::{create, spec_create, spec_plain_body, spec_index_bytes, spec_payload_bytes, spec_entry_bytes, spec_create_header, spec_enc_view, spec_sources_ok, spec_file_ok, spec_opt_bytes, spec_perm_byte1, spec_perm_byte2, spec_main_flag, spec_flag_bit};
pub use extract::{extract, spec_extract_source};
pub use header::{CHECKSUM_SEED, HEADER_LEN, parse_method, spec_checksum, spec_comment,
    spec_comp_tag, spec_continue_offset, spec_encrypted, spec_file_count, spec_generator,
    spec_iv, spec_method_of_tag, spec_multivol, spec_next_checksum, spec_previous_checksum,
    spec_pwd_hash, spec_tag_of_method, spec_total_files, spec_version, spec_volume_id};
pub use index::{decode_timestamp, spec_assign_offsets, spec_bit, spec_coerce_ts,
    spec_decode_perms, spec_index_with_offsets, spec_parse_entry, spec_parse_index};
pub use primitives::{aes256cbc_decrypt_of, aes256cbc_encrypt_of, decompress_of,
    millis_representable, murmur3_of, sha256_of, spec_compress, spec_decompress,
    spec_method_tag};
pub use laws::{lemma_permission_roundtrip, lemma_integrity_roundtrip, lemma_assign_offsets_props, lemma_parse_index_len, lemma_offset_invariant, lemma_password_diagnosis};
pub use metadata::{metadata, verify_integrity, spec_parse, spec_password, spec_envelope};

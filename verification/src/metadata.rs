use vstd::prelude::*;
use crate::bytes::{bytes_eq, copy_range, nul_trim, range_all_zero, read_u32le_at, read_u64le_at,
    read_u8_at, zero_vec};
use crate::header::{CHECKSUM_SEED, parse_method, spec_checksum, spec_comment, spec_comp_tag,
    spec_encrypted, spec_file_count, spec_generator, spec_iv, spec_method_of_tag, spec_multivol,
    spec_pwd_hash, spec_version};
use crate::index::{parse_index, spec_index_with_offsets};
use crate::primitives::{aes256cbc_decrypt, aes256cbc_decrypt_of, decompress_bytes, murmur3_keyed,
    murmur3_of, sha256_digest, sha256_of, spec_decompress};
use crate::types::{Compression, CompressionView, Encryption, EncryptionView, File, FileView,
    HsspError, Metadata, MetadataView, Method, Multivol};

verus! {

/// The view of an optional password.
pub open spec fn spec_password(p: Option<&Vec<u8>>) -> Option<Seq<u8>> {
    match p {
        Option::Some(v) => Option::Some(v@),
        Option::None => Option::None,
    }
}

/// The metadata envelope shared by every successful parse outcome: the
/// structural header fields, together with the given encryption state,
/// file list, and decompressed buffer.
pub open spec fn spec_envelope(
    data: Seq<u8>,
    method: Method,
    enc: Option<EncryptionView>,
    files: Seq<FileView>,
    decompressed: Option<Seq<u8>>,
) -> MetadataView {
    MetadataView {
        version: spec_version(data),
        checksum: spec_checksum(data),
        encryption: enc,
        files: files,
        compression: if method != Method::NoCompression {
            Option::Some(CompressionView { method: method, decompressed: decompressed })
        } else {
            Option::None
        },
        multivol: spec_multivol(data),
        comment: if spec_comment(data).len() > 0 {
            Option::Some(spec_comment(data))
        } else {
            Option::None
        },
        generator: if spec_generator(data).len() > 0 {
            Option::Some(spec_generator(data))
        } else {
            Option::None
        },
    }
}

/// What parsing an archive yields, for every input and optional password:
/// the header is read, the body is decompressed and (given a verified
/// password) decrypted, and the file index is walked. A missing or wrong
/// password is not an error: it yields the envelope with no files and the
/// diagnostic double-SHA-256 of the supplied password.
pub open spec fn spec_parse(data: Seq<u8>, password: Option<Seq<u8>>) -> Result<
    MetadataView,
    HsspError,
> {
    if data.len() < 5 {
        Result::Err(HsspError::MalformedHeader)
    } else if data[4] != 4 {
        Result::Err(HsspError::UnsupportedVersion)
    } else if data.len() < 128 {
        Result::Err(HsspError::MalformedHeader)
    } else {
        let method = spec_method_of_tag(spec_comp_tag(data));
        match spec_decompress(data.skip(128), method) {
            Option::None => Result::Err(HsspError::CompressionError),
            Option::Some(inter) => {
                if spec_encrypted(data) {
                    match password {
                        Option::None => Result::Ok(
                            spec_envelope(
                                data,
                                method,
                                Option::Some(
                                    EncryptionView {
                                        hash: Seq::new(32, |i: int| 0u8),
                                        hash_expected: spec_pwd_hash(data),
                                        iv: spec_iv(data),
                                        decrypted: Seq::empty(),
                                    },
                                ),
                                Seq::empty(),
                                Option::None,
                            ),
                        ),
                        Option::Some(pw) => {
                            let key = sha256_of(pw);
                            let hash = sha256_of(key);
                            if hash != spec_pwd_hash(data) {
                                Result::Ok(
                                    spec_envelope(
                                        data,
                                        method,
                                        Option::Some(
                                            EncryptionView {
                                                hash: hash,
                                                hash_expected: spec_pwd_hash(data),
                                                iv: spec_iv(data),
                                                decrypted: Seq::empty(),
                                            },
                                        ),
                                        Seq::empty(),
                                        Option::None,
                                    ),
                                )
                            } else {
                                let body = aes256cbc_decrypt_of(inter, key, spec_iv(data));
                                match spec_index_with_offsets(
                                    body,
                                    spec_file_count(data) as int,
                                ) {
                                    Option::None => Result::Err(HsspError::MalformedHeader),
                                    Option::Some(files) => Result::Ok(
                                        spec_envelope(
                                            data,
                                            method,
                                            Option::Some(
                                                EncryptionView {
                                                    hash: hash,
                                                    hash_expected: spec_pwd_hash(data),
                                                    iv: spec_iv(data),
                                                    decrypted: body,
                                                },
                                            ),
                                            files,
                                            Option::Some(inter),
                                        ),
                                    ),
                                }
                            }
                        },
                    }
                } else {
                    match spec_index_with_offsets(inter, spec_file_count(data) as int) {
                        Option::None => Result::Err(HsspError::MalformedHeader),
                        Option::Some(files) => Result::Ok(
                            spec_envelope(data, method, Option::None, files, Option::Some(inter)),
                        ),
                    }
                }
            },
        }
    }
}

/// Builds the structural parts of the metadata from the header fields.
fn build_envelope(
    data: &Vec<u8>,
    method: Method,
    encryption: Option<Encryption>,
    files: Vec<File>,
    decompressed: Option<Vec<u8>>,
) -> (m: Metadata)
    requires
        data@.len() >= 128,
    ensures
        m@ == spec_envelope(
            data@,
            method,
            match encryption {
                Option::Some(e) => Option::Some(e@),
                Option::None => Option::None,
            },
            files@.map_values(|f: File| f@),
            match decompressed {
                Option::Some(d) => Option::Some(d@),
                Option::None => Option::None,
            },
        ),
{
    let slice = data.as_slice();
    let version = read_u8_at(slice, 4);
    let checksum = read_u32le_at(slice, 64);
    let total_files = read_u64le_at(slice, 68);
    let continue_offset = read_u64le_at(slice, 76);
    let previous_checksum = read_u32le_at(slice, 84);
    let next_checksum = read_u32le_at(slice, 88);
    let id = read_u32le_at(slice, 92);
    let comment = nul_trim(slice, 96, 112);
    let generator = nul_trim(slice, 112, 128);
    let multivol = if previous_checksum != 0 || next_checksum != 0 {
        Some(
            Multivol {
                total_files,
                continue_offset,
                previous_checksum: if previous_checksum != 0 {
                    Some(previous_checksum)
                } else {
                    None
                },
                next_checksum: if next_checksum != 0 {
                    Some(next_checksum)
                } else {
                    None
                },
                id,
            },
        )
    } else {
        None
    };
    let ghost fsv = files@.map_values(|f: File| f@);
    let ghost encv: Option<EncryptionView> = match &encryption {
        Option::Some(e) => Option::Some(e@),
        Option::None => Option::None,
    };
    let ghost decv: Option<Seq<u8>> = match &decompressed {
        Option::Some(d) => Option::Some(d@),
        Option::None => Option::None,
    };
    let compression = if !matches!(method, Method::NoCompression) {
        Some(Compression { method, decompressed })
    } else {
        None
    };
    let m = Metadata {
        version,
        checksum,
        encryption,
        files,
        compression,
        multivol,
        comment: if comment.len() > 0 {
            Some(comment)
        } else {
            None
        },
        generator: if generator.len() > 0 {
            Some(generator)
        } else {
            None
        },
    };
    proof {
        assert(m@ =~= spec_envelope(data@, method, encv, fsv, decv));
    }
    m
}

/// Parses an archive given as its full raw byte sequence, with an optional
/// password. Returns the archive's metadata; for an encrypted archive whose
/// password is missing or wrong this is a successful return whose
/// `encryption.hash` diagnoses the attempt and whose `files` are empty.
pub fn metadata(data: &Vec<u8>, password: Option<&Vec<u8>>) -> (r: Result<Metadata, HsspError>)
    ensures
        match r {
            Result::Ok(m) => spec_parse(data@, spec_password(password)) == Result::<
                MetadataView,
                HsspError,
            >::Ok(m@),
            Result::Err(e) => spec_parse(data@, spec_password(password)) == Result::<
                MetadataView,
                HsspError,
            >::Err(e),
        },
{
    let n = data.len();
    if n < 5 {
        return Err(HsspError::MalformedHeader);
    }
    let slice = data.as_slice();
    let version = read_u8_at(slice, 4);
    if version != 4 {
        return Err(HsspError::UnsupportedVersion);
    }
    if n < 128 {
        return Err(HsspError::MalformedHeader);
    }
    let file_count = read_u32le_at(slice, 8);
    let pwd_hash = copy_range(slice, 12, 44);
    let iv = copy_range(slice, 44, 60);
    let method = parse_method(slice);
    let encrypted = !(range_all_zero(slice, 12, 44) && range_all_zero(slice, 44, 60));
    proof {
        assert(pwd_hash@ =~= spec_pwd_hash(data@));
        assert(iv@ =~= spec_iv(data@));
        assert(encrypted == spec_encrypted(data@));
    }
    let raw_body = copy_range(slice, 128, n);
    proof {
        assert(raw_body@ =~= data@.skip(128));
    }
    let inter = match decompress_bytes(&raw_body, method) {
        Some(v) => v,
        None => {
            return Err(HsspError::CompressionError);
        },
    };
    if encrypted {
        match password {
            None => {
                let enc = Encryption {
                    hash: zero_vec(32),
                    hash_expected: pwd_hash,
                    iv,
                    decrypted: Vec::new(),
                };
                proof {
                    assert(enc@.hash =~= Seq::new(32, |i: int| 0u8));
                    assert(enc@.decrypted =~= Seq::<u8>::empty());
                }
                let no_files: Vec<File> = Vec::new();
                proof {
                    assert(no_files@.map_values(|f: File| f@) =~= Seq::<FileView>::empty());
                }
                let m = build_envelope(data, method, Some(enc), no_files, None);
                proof {
                    assert(spec_parse(data@, spec_password(password)) == Result::<
                        MetadataView,
                        HsspError,
                    >::Ok(m@));
                }
                Ok(m)
            },
            Some(pw) => {
                let key = sha256_digest(pw);
                let hash = sha256_digest(&key);
                if !bytes_eq(hash.as_slice(), pwd_hash.as_slice()) {
                    let enc = Encryption {
                        hash,
                        hash_expected: pwd_hash,
                        iv,
                        decrypted: Vec::new(),
                    };
                    proof {
                        assert(enc@.decrypted =~= Seq::<u8>::empty());
                    }
                    let no_files: Vec<File> = Vec::new();
                    proof {
                        assert(no_files@.map_values(|f: File| f@) =~= Seq::<FileView>::empty());
                    }
                    let m = build_envelope(data, method, Some(enc), no_files, None);
                    proof {
                        assert(spec_parse(data@, spec_password(password)) == Result::<
                            MetadataView,
                            HsspError,
                        >::Ok(m@));
                    }
                    Ok(m)
                } else {
                    let body = aes256cbc_decrypt(&inter, &key, &iv);
                    match parse_index(body.as_slice(), file_count) {
                        Ok(files) => {
                            let enc = Encryption {
                                hash,
                                hash_expected: pwd_hash,
                                iv,
                                decrypted: body,
                            };
                            let m = build_envelope(data, method, Some(enc), files, Some(inter));
                            proof {
                                assert(spec_parse(data@, spec_password(password)) == Result::<
                                    MetadataView,
                                    HsspError,
                                >::Ok(m@));
                            }
                            Ok(m)
                        },
                        Err(e) => Err(e),
                    }
                }
            },
        }
    } else {
        match parse_index(inter.as_slice(), file_count) {
            Ok(files) => {
                let m = build_envelope(data, method, None, files, Some(inter));
                proof {
                    assert(spec_parse(data@, spec_password(password)) == Result::<
                        MetadataView,
                        HsspError,
                    >::Ok(m@));
                }
                Ok(m)
            },
            Err(e) => Err(e),
        }
    }
}

/// Recomputes the keyed Murmur3-32 of the raw archive from byte 128 to its
/// end and compares it to the checksum the header declared.
pub fn verify_integrity(data: &Vec<u8>, meta: &Metadata) -> (r: bool)
    requires
        data@.len() >= 128,
    ensures
        r == (murmur3_of(data@.skip(128), CHECKSUM_SEED) == meta.checksum),
{
    let n = data.len();
    let tail = copy_range(data.as_slice(), 128, n);
    proof {
        assert(tail@ =~= data@.skip(128));
    }
    let calculated = murmur3_keyed(&tail, CHECKSUM_SEED);
    calculated == meta.checksum
}

} // verus!

use vstd::prelude::*;
use vstd::bytes::*;
use vstd::slice::slice_index_get;
use crate::bytes::{copy_range, push_bytes, push_u16le, push_u32le, push_u48le, push_u64le,
    spec_all_zero, spec_u48_to_le_bytes, zero_vec};
use crate::header::{CHECKSUM_SEED, spec_checksum, spec_tag_of_method};
use crate::primitives::{aes256cbc_encrypt, aes256cbc_encrypt_of, compress_bytes, murmur3_keyed,
    murmur3_of, sha256_digest, sha256_of, spec_compress};
use crate::types::{Compression, File, FileView, FileWithSource, HsspError, Method};

verus! {

/// The bytes of an optional string field: its bytes, or none at all.
pub open spec fn spec_opt_bytes(o: Option<Seq<u8>>) -> Seq<u8> {
    match o {
        Option::Some(v) => v,
        Option::None => Seq::empty(),
    }
}

/// `mask` when the flag is set, zero otherwise.
pub open spec fn spec_flag_bit(b: bool, mask: u8) -> u8 {
    if b {
        mask
    } else {
        0
    }
}

/// The first permission/flag byte: the first octet in bits 7..5, the second
/// in bits 4..2, the third octet's high two bits in bits 1..0.
pub open spec fn spec_perm_byte1(p: Seq<u8>) -> u8
    recommends
        p.len() == 3,
{
    (p[0] << 5) | (p[1] << 2) | (p[2] >> 1)
}

/// The second permission/flag byte: the third octet's low bit in bit 7,
/// then the six boolean flags and the directory bit.
pub open spec fn spec_perm_byte2(f: FileView, main_eff: bool) -> u8
    recommends
        f.permissions.len() == 3,
{
    ((f.permissions[2] & 1) << 7) | spec_flag_bit(f.directory, 0x40) | spec_flag_bit(
        f.hidden,
        0x20,
    ) | spec_flag_bit(f.system, 0x10) | spec_flag_bit(f.enable_backup, 0x08) | spec_flag_bit(
        f.require_backup,
        0x04,
    ) | spec_flag_bit(f.readonly, 0x02) | spec_flag_bit(main_eff, 0x01)
}

/// The leading part of one index entry: the payload length and the four
/// length-prefixed strings.
pub open spec fn spec_entry_head(f: FileView, content_len: u64) -> Seq<u8> {
    spec_u64_to_le_bytes(content_len) + spec_u16_to_le_bytes(f.path.len() as u16) + f.path
        + spec_u16_to_le_bytes(spec_opt_bytes(f.owner).len() as u16) + spec_opt_bytes(f.owner)
        + spec_u16_to_le_bytes(spec_opt_bytes(f.group).len() as u16) + spec_opt_bytes(f.group)
        + spec_u32_to_le_bytes(spec_opt_bytes(f.weblink).len() as u32) + spec_opt_bytes(f.weblink)
}

/// The trailing part of one index entry: three 48-bit timestamps and the
/// two permission/flag bytes.
pub open spec fn spec_entry_tail(f: FileView, main_eff: bool) -> Seq<u8> {
    spec_u48_to_le_bytes(f.creation) + spec_u48_to_le_bytes(f.modification) + spec_u48_to_le_bytes(
        f.access,
    ) + seq![spec_perm_byte1(f.permissions), spec_perm_byte2(f, main_eff)]
}

/// What one index entry serializes to: the payload length, four
/// length-prefixed strings, three 48-bit timestamps, and the two
/// permission/flag bytes.
pub open spec fn spec_entry_bytes(f: FileView, content_len: u64, main_eff: bool) -> Seq<u8> {
    spec_entry_head(f, content_len) + spec_entry_tail(f, main_eff)
}

/// The `main` flag actually written for the file at position `i`: its own
/// flag, or the caller's designation of a main file.
pub open spec fn spec_main_flag(f: FileView, main_file: Option<u32>, i: int) -> bool {
    f.main || main_file == Option::Some(i as u32)
}

/// The serialized index of the first `n` sources.
pub open spec fn spec_index_bytes(
    sources: Seq<(FileView, Seq<u8>)>,
    main_file: Option<u32>,
    n: int,
) -> Seq<u8>
    decreases n,
{
    if n <= 0 {
        Seq::empty()
    } else {
        spec_index_bytes(sources, main_file, n - 1) + spec_entry_bytes(
            sources[n - 1].0,
            sources[n - 1].1.len() as u64,
            spec_main_flag(sources[n - 1].0, main_file, n - 1),
        )
    }
}

/// The concatenated payloads of the first `n` sources.
pub open spec fn spec_payload_bytes(sources: Seq<(FileView, Seq<u8>)>, n: int) -> Seq<u8>
    decreases n,
{
    if n <= 0 {
        Seq::empty()
    } else {
        spec_payload_bytes(sources, n - 1) + sources[n - 1].1
    }
}

/// The plaintext body of a new archive: the whole index, then the payloads.
pub open spec fn spec_plain_body(
    sources: Seq<(FileView, Seq<u8>)>,
    main_file: Option<u32>,
) -> Seq<u8> {
    spec_index_bytes(sources, main_file, sources.len() as int) + spec_payload_bytes(
        sources,
        sources.len() as int,
    )
}

/// The 128-byte header of a new archive. Multi-volume fields, comment and
/// generator are written as zeroes.
pub open spec fn spec_create_header(
    version: u8,
    count: u32,
    pwd_hash: Seq<u8>,
    iv: Seq<u8>,
    tag: Seq<u8>,
    checksum: u32,
) -> Seq<u8> {
    seq![72u8, 83u8, 83u8, 80u8, version, 0u8, 0u8, 0u8] + spec_u32_to_le_bytes(count) + pwd_hash
        + iv + tag + spec_u32_to_le_bytes(checksum) + Seq::new(28, |i: int| 0u8) + Seq::new(
        32,
        |i: int| 0u8,
    )
}

/// The view of the optional encryption request (password, IV).
pub open spec fn spec_enc_view(e: Option<(&Vec<u8>, &Vec<u8>)>) -> Option<(Seq<u8>, Seq<u8>)> {
    match e {
        Option::Some((p, i)) => Option::Some((p@, i@)),
        Option::None => Option::None,
    }
}

/// The limits the format imposes on one file: its strings must fit their
/// length prefixes and its timestamps their 48-bit fields.
pub open spec fn spec_file_ok(f: FileView) -> bool {
    &&& f.path.len() <= 0xffff
    &&& spec_opt_bytes(f.owner).len() <= 0xffff
    &&& spec_opt_bytes(f.group).len() <= 0xffff
    &&& spec_opt_bytes(f.weblink).len() <= 0xffffffff
    &&& f.creation < 0x1000000000000
    &&& f.modification < 0x1000000000000
    &&& f.access < 0x1000000000000
    &&& f.permissions.len() == 3
}

/// The limits the format imposes on the whole source list.
pub open spec fn spec_sources_ok(s: Seq<(FileView, Seq<u8>)>) -> bool {
    &&& s.len() <= u32::MAX
    &&& forall|i: int| 0 <= i < s.len() ==> spec_file_ok((#[trigger] s[i]).0)
}

/// What a new archive serializes to, or the error when the requested codec
/// cannot compress: the header (with the checksum of the processed body)
/// followed by the body, which is the serialized index and payloads,
/// AES-256-CBC-encrypted under the double-SHA-256 scheme when encryption is
/// requested, then handed to the codec when compression is requested.
pub open spec fn spec_create(
    version: u8,
    sources: Seq<(FileView, Seq<u8>)>,
    enc: Option<(Seq<u8>, Seq<u8>)>,
    comp: Option<Method>,
    main_file: Option<u32>,
) -> Result<Seq<u8>, HsspError> {
    let plain = spec_plain_body(sources, main_file);
    let encd = match enc {
        Option::Some((pw, iv)) => aes256cbc_encrypt_of(plain, sha256_of(pw), iv),
        Option::None => plain,
    };
    let processed = match comp {
        Option::Some(m) => spec_compress(encd, m),
        Option::None => Option::Some(encd),
    };
    match processed {
        Option::None => Result::Err(HsspError::CompressionError),
        Option::Some(b) => {
            let pwd_hash = match enc {
                Option::Some((pw, _)) => sha256_of(sha256_of(pw)),
                Option::None => Seq::new(32, |i: int| 0u8),
            };
            let ivv = match enc {
                Option::Some((_, iv)) => iv,
                Option::None => Seq::new(16, |i: int| 0u8),
            };
            let tag = spec_tag_of_method(
                match comp {
                    Option::Some(m) => m,
                    Option::None => Method::NoCompression,
                },
            );
            Result::Ok(
                spec_create_header(
                    version,
                    sources.len() as u32,
                    pwd_hash,
                    ivv,
                    tag,
                    murmur3_of(b, CHECKSUM_SEED),
                ) + b,
            )
        },
    }
}

/// Serializes the leading part of one index entry.
#[verifier::rlimit(100)]
#[verifier::spinoff_prover]
fn push_entry_head(out: &mut Vec<u8>, f: &File, content_len: u64)
    requires
        spec_file_ok(f@),
    ensures
        final(out)@ == old(out)@ + spec_entry_head(f@, content_len),
{
    let ghost base = out@;
    push_u64le(out, content_len);
    push_u16le(out, f.path.len() as u16);
    push_bytes(out, f.path.as_slice());
    let ghost part_path = spec_u64_to_le_bytes(content_len) + spec_u16_to_le_bytes(
        f@.path.len() as u16,
    ) + f@.path;
    proof {
        assert(out@ =~= base + part_path);
    }
    match &f.owner {
        Some(v) => {
            push_u16le(out, v.len() as u16);
            push_bytes(out, v.as_slice());
        },
        None => {
            push_u16le(out, 0);
        },
    }
    let ghost part_owner = part_path + spec_u16_to_le_bytes(
        spec_opt_bytes(f@.owner).len() as u16,
    ) + spec_opt_bytes(f@.owner);
    proof {
        assert(spec_opt_bytes(Option::<Seq<u8>>::None) =~= Seq::<u8>::empty());
        assert(out@ =~= base + part_owner);
    }
    match &f.group {
        Some(v) => {
            push_u16le(out, v.len() as u16);
            push_bytes(out, v.as_slice());
        },
        None => {
            push_u16le(out, 0);
        },
    }
    let ghost part_group = part_owner + spec_u16_to_le_bytes(
        spec_opt_bytes(f@.group).len() as u16,
    ) + spec_opt_bytes(f@.group);
    proof {
        assert(spec_opt_bytes(Option::<Seq<u8>>::None) =~= Seq::<u8>::empty());
        assert(out@ =~= base + part_group);
    }
    match &f.weblink {
        Some(v) => {
            push_u32le(out, v.len() as u32);
            push_bytes(out, v.as_slice());
        },
        None => {
            push_u32le(out, 0);
        },
    }
    proof {
        assert(spec_opt_bytes(Option::<Seq<u8>>::None) =~= Seq::<u8>::empty());
        assert(out@ =~= base + (part_group + spec_u32_to_le_bytes(
            spec_opt_bytes(f@.weblink).len() as u32,
        ) + spec_opt_bytes(f@.weblink)));
    }
}

/// Serializes the trailing part of one index entry.
#[verifier::rlimit(100)]
#[verifier::spinoff_prover]
fn push_entry_tail(out: &mut Vec<u8>, f: &File, main_eff: bool)
    ensures
        final(out)@ == old(out)@ + spec_entry_tail(f@, main_eff),
{
    let ghost base = out@;
    push_u48le(out, f.creation);
    push_u48le(out, f.modification);
    push_u48le(out, f.access);
    let ghost part_ts = spec_u48_to_le_bytes(f@.creation) + spec_u48_to_le_bytes(f@.modification)
        + spec_u48_to_le_bytes(f@.access);
    proof {
        assert(out@ =~= base + part_ts);
    }
    let p0 = f.permissions[0];
    let p1 = f.permissions[1];
    let p2 = f.permissions[2];
    let b1 = (p0 << 5) | (p1 << 2) | (p2 >> 1);
    let b2 = ((p2 & 1) << 7) | (if f.directory {
        0x40u8
    } else {
        0u8
    }) | (if f.hidden {
        0x20u8
    } else {
        0u8
    }) | (if f.system {
        0x10u8
    } else {
        0u8
    }) | (if f.enable_backup {
        0x08u8
    } else {
        0u8
    }) | (if f.require_backup {
        0x04u8
    } else {
        0u8
    }) | (if f.readonly {
        0x02u8
    } else {
        0u8
    }) | (if main_eff {
        0x01u8
    } else {
        0u8
    });
    out.push(b1);
    out.push(b2);
    proof {
        assert(b1 == spec_perm_byte1(f@.permissions));
        assert(b2 == spec_perm_byte2(f@, main_eff));
        assert(out@ =~= base + (part_ts + seq![
            spec_perm_byte1(f@.permissions),
            spec_perm_byte2(f@, main_eff),
        ]));
    }
}

/// Serializes one index entry.
fn push_entry(out: &mut Vec<u8>, f: &File, content_len: u64, main_eff: bool)
    requires
        spec_file_ok(f@),
    ensures
        final(out)@ == old(out)@ + spec_entry_bytes(f@, content_len, main_eff),
{
    push_entry_head(out, f, content_len);
    push_entry_tail(out, f, main_eff);
    proof {
        assert(out@ =~= old(out)@ + (spec_entry_head(f@, content_len) + spec_entry_tail(
            f@,
            main_eff,
        )));
    }
}

/// Serializes the four-byte compression tag.
fn push_tag(out: &mut Vec<u8>, m: Method)
    ensures
        final(out)@ == old(out)@ + spec_tag_of_method(m),
{
    match m {
        Method::NoCompression => {
            push_bytes(out, &[78, 79, 78, 69]);
        },
        Method::Lzma => {
            push_bytes(out, &[76, 90, 77, 65]);
        },
        Method::Deflate => {
            push_bytes(out, &[68, 69, 70, 76]);
        },
        Method::DeflateZlib => {
            push_bytes(out, &[68, 70, 76, 84]);
        },
        Method::Unsupported => {
            push_bytes(out, &[0, 0, 0, 0]);
        },
    }
    proof {
        assert(out@ =~= old(out)@ + spec_tag_of_method(m));
    }
}

/// Builds a new archive from the given files and options, returning the
/// archive bytes together with the keyed Murmur3 checksum written into its
/// header. Compression is requested by handing a method to the codec layer,
/// which can only pass bytes through unchanged; every other method is
/// refused with `CompressionError`.
pub fn create(
    version: u8,
    sources: Vec<FileWithSource>,
    encryption: Option<(&Vec<u8>, &Vec<u8>)>,
    compression: Option<Compression>,
    main_file: Option<u32>,
) -> (r: Result<(Vec<u8>, u32), HsspError>)
    requires
        spec_sources_ok(sources@.map_values(|s: FileWithSource| s@)),
        encryption matches Some(e) ==> e.1@.len() == 16,
    ensures
        ({
            let srcv = sources@.map_values(|s: FileWithSource| s@);
            let encv = spec_enc_view(encryption);
            let compv = match compression {
                Option::Some(c) => Option::Some(c.method),
                Option::None => Option::None,
            };
            match r {
                Result::Ok(out) => {
                    &&& spec_create(version, srcv, encv, compv, main_file) == Result::<
                        Seq<u8>,
                        HsspError,
                    >::Ok(out.0@)
                    &&& out.0@.len() >= 128
                    &&& out.1 == murmur3_of(out.0@.skip(128), CHECKSUM_SEED)
                    &&& out.1 == spec_checksum(out.0@)
                    &&& (version == 4 && crate::roundtrip::spec_perms_in_range(srcv) && (match encryption {
                        Option::Some(e) => !spec_all_zero(e.1@),
                        Option::None => true,
                    }) && (match compression {
                        Option::Some(c) => c.method == Method::NoCompression,
                        Option::None => true,
                    })) ==> crate::roundtrip::spec_roundtrip_ok(
                        srcv,
                        main_file,
                        match encryption {
                            Option::Some(e) => Option::Some(e.0@),
                            Option::None => Option::None,
                        },
                        out.0@,
                    )
                },
                Result::Err(e) => spec_create(version, srcv, encv, compv, main_file) == Result::<
                    Seq<u8>,
                    HsspError,
                >::Err(e),
            }
        }),
{
    let ghost srcv = sources@.map_values(|s: FileWithSource| s@);
    let count = sources.len();
    let mut body: Vec<u8> = Vec::new();
    let mut i: usize = 0;
    proof {
        assert(body@ =~= spec_index_bytes(srcv, main_file, 0));
    }
    while i < count
        invariant
            i <= count,
            count == srcv.len(),
            srcv == sources@.map_values(|s: FileWithSource| s@),
            spec_sources_ok(srcv),
            body@ == spec_index_bytes(srcv, main_file, i as int),
        decreases count - i,
    {
        let s: &FileWithSource = slice_index_get(sources.as_slice(), i);
        let main_eff = s.0.main || (match main_file {
            Some(mi) => mi == (i as u32),
            None => false,
        });
        let clen = s.1.len() as u64;
        proof {
            assert(srcv[i as int] == s@);
            assert(spec_main_flag(srcv[i as int].0, main_file, i as int) == main_eff);
        }
        push_entry(&mut body, &s.0, clen, main_eff);
        i = i + 1;
    }
    let ghost index_part = body@;
    let mut j: usize = 0;
    while j < count
        invariant
            j <= count,
            count == srcv.len(),
            srcv == sources@.map_values(|s: FileWithSource| s@),
            body@ == index_part + spec_payload_bytes(srcv, j as int),
        decreases count - j,
    {
        let s: &FileWithSource = slice_index_get(sources.as_slice(), j);
        proof {
            assert(srcv[j as int] == s@);
        }
        push_bytes(&mut body, s.1.as_slice());
        proof {
            assert(index_part + spec_payload_bytes(srcv, j as int) + srcv[j as int].1 =~= index_part
                + spec_payload_bytes(srcv, j + 1));
        }
        j = j + 1;
    }
    let plain_len: usize = body.len();
    let ghost plain = body@;
    proof {
        assert(plain == spec_plain_body(srcv, main_file));
        assert(plain.len() == plain_len);
    }
    let (pwd_hash, iv_field, body2): (Vec<u8>, Vec<u8>, Vec<u8>) = match encryption {
        Some((pw, ivv)) => {
            let key = sha256_digest(pw);
            let ph = sha256_digest(&key);
            let encd = aes256cbc_encrypt(&body, &key, ivv);
            let iv_copy = copy_range(ivv.as_slice(), 0, ivv.len());
            proof {
                assert(iv_copy@ =~= ivv@);
            }
            (ph, iv_copy, encd)
        },
        None => (zero_vec(32), zero_vec(16), body),
    };
    let (body3, tag_method): (Vec<u8>, Method) = match &compression {
        Some(c) => {
            match compress_bytes(&body2, c.method) {
                Some(b) => (b, c.method),
                None => {
                    return Err(HsspError::CompressionError);
                },
            }
        },
        None => (body2, Method::NoCompression),
    };
    let checksum = murmur3_keyed(&body3, CHECKSUM_SEED);
    let mut archive: Vec<u8> = Vec::new();
    archive.push(72);
    archive.push(83);
    archive.push(83);
    archive.push(80);
    archive.push(version);
    archive.push(0);
    archive.push(0);
    archive.push(0);
    push_u32le(&mut archive, count as u32);
    push_bytes(&mut archive, pwd_hash.as_slice());
    push_bytes(&mut archive, iv_field.as_slice());
    push_tag(&mut archive, tag_method);
    push_u32le(&mut archive, checksum);
    let zeros = zero_vec(60);
    push_bytes(&mut archive, zeros.as_slice());
    proof {
        lemma_auto_spec_u16_to_from_le_bytes();
        lemma_auto_spec_u32_to_from_le_bytes();
        lemma_auto_spec_u64_to_from_le_bytes();
        assert(archive@ =~= spec_create_header(
            version,
            count as u32,
            pwd_hash@,
            iv_field@,
            spec_tag_of_method(tag_method),
            checksum,
        ));
    }
    let ghost header_part = archive@;
    let ghost processed = body3@;
    let mut payload = body3;
    archive.append(&mut payload);
    proof {
        lemma_auto_spec_u32_to_from_le_bytes();
        assert(header_part.len() == 128);
        assert(archive@.skip(128) =~= processed);
        let encv = spec_enc_view(encryption);
        let compv = match &compression {
            Option::Some(c) => Option::Some(c.method),
            Option::None => Option::None,
        };
        assert(spec_create(version, srcv, encv, compv, main_file) == Result::<
            Seq<u8>,
            HsspError,
        >::Ok(archive@));
        assert(spec_checksum(archive@) == checksum) by {
            assert(archive@.subrange(64, 68) =~= spec_u32_to_le_bytes(checksum));
            lemma_auto_spec_u32_to_from_le_bytes();
        }
        if version == 4 && crate::roundtrip::spec_perms_in_range(srcv) && (match encryption {
            Option::Some(e) => !spec_all_zero(e.1@),
            Option::None => true,
        }) && (match &compression {
            Option::Some(c) => c.method == Method::NoCompression,
            Option::None => true,
        }) {
            assert(plain.len() <= u64::MAX);
            crate::roundtrip::lemma_create_parse_roundtrip(
                srcv,
                encv,
                compv,
                main_file,
                archive@,
            );
        }
    }
    Ok((archive, checksum))
}

} // verus!

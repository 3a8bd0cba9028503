use vstd::prelude::*;
use crate::create::{spec_flag_bit, spec_perm_byte1, spec_perm_byte2};
use crate::extract::spec_extract_source;
use crate::header::{CHECKSUM_SEED, spec_checksum, spec_encrypted, spec_file_count, spec_pwd_hash};
use crate::index::{spec_assign_offsets, spec_bit, spec_decode_perms, spec_parse_entry,
    spec_parse_index};
use crate::metadata::spec_parse;
use crate::primitives::{murmur3_of, sha256_of};
use crate::types::{FileView, HsspError, MetadataView};

verus! {

/// Decoding the two permission/flag bytes written for three octets (each at
/// most 7) and a set of flags gives the octets and the flags back exactly.
pub proof fn lemma_permission_roundtrip(f: FileView, main_eff: bool)
    requires
        f.permissions.len() == 3,
        f.permissions[0] <= 7,
        f.permissions[1] <= 7,
        f.permissions[2] <= 7,
    ensures
        spec_decode_perms(spec_perm_byte1(f.permissions), spec_perm_byte2(f, main_eff))
            == f.permissions,
        spec_bit(spec_perm_byte2(f, main_eff), 0x40) == f.directory,
        spec_bit(spec_perm_byte2(f, main_eff), 0x20) == f.hidden,
        spec_bit(spec_perm_byte2(f, main_eff), 0x10) == f.system,
        spec_bit(spec_perm_byte2(f, main_eff), 0x08) == f.enable_backup,
        spec_bit(spec_perm_byte2(f, main_eff), 0x04) == f.require_backup,
        spec_bit(spec_perm_byte2(f, main_eff), 0x02) == f.readonly,
        spec_bit(spec_perm_byte2(f, main_eff), 0x01) == main_eff,
{
    let a = f.permissions[0];
    let b = f.permissions[1];
    let c = f.permissions[2];
    let d = spec_flag_bit(f.directory, 0x40);
    let h = spec_flag_bit(f.hidden, 0x20);
    let s = spec_flag_bit(f.system, 0x10);
    let e = spec_flag_bit(f.enable_backup, 0x08);
    let q = spec_flag_bit(f.require_backup, 0x04);
    let o = spec_flag_bit(f.readonly, 0x02);
    let m = spec_flag_bit(main_eff, 0x01);
    let b1 = (a << 5) | (b << 2) | (c >> 1);
    let b2 = ((c & 1) << 7) | d | h | s | e | q | o | m;
    assert(b1 == spec_perm_byte1(f.permissions));
    assert(b2 == spec_perm_byte2(f, main_eff));
    assert((b1 >> 5) == a && ((b1 >> 2) & 7) == b && (((b1 & 3) << 1) | (b2 >> 7)) == c && ((b2
        & 0x40 != 0) == (d == 0x40)) && ((b2 & 0x20 != 0) == (h == 0x20)) && ((b2 & 0x10 != 0) == (
    s == 0x10)) && ((b2 & 0x08 != 0) == (e == 0x08)) && ((b2 & 0x04 != 0) == (q == 0x04)) && ((b2
        & 0x02 != 0) == (o == 0x02)) && ((b2 & 0x01 != 0) == (m == 0x01))) by (bit_vector)
        requires
            a <= 7 && b <= 7 && c <= 7 && (d == 0x40 || d == 0) && (h == 0x20 || h == 0) && (s
                == 0x10 || s == 0) && (e == 0x08 || e == 0) && (q == 0x04 || q == 0) && (o == 0x02
                || o == 0) && (m == 0x01 || m == 0) && b1 == ((a << 5) | (b << 2) | (c >> 1)) && b2
                == (((c & 1) << 7) | d | h | s | e | q | o | m),
    ;
    assert(spec_decode_perms(b1, b2) =~= f.permissions);
}

/// The checksum a parsed archive reports is the one stored in its header,
/// so integrity verification succeeds on exactly the archives whose stored
/// checksum equals the keyed Murmur3 of their bytes past the header — among
/// them every archive that `create` wrote, whose contract supplies the
/// second premise.
pub proof fn lemma_integrity_roundtrip(data: Seq<u8>, password: Option<Seq<u8>>, m: MetadataView)
    requires
        spec_parse(data, password) == Result::<MetadataView, HsspError>::Ok(m),
        spec_checksum(data) == murmur3_of(data.skip(128), CHECKSUM_SEED),
    ensures
        murmur3_of(data.skip(128), CHECKSUM_SEED) == m.checksum,
{
}

/// Offsets assigned by the second index walk: the sequence has one entry
/// per parsed file, the first offset is the cursor at the end of the index,
/// each later offset advances by the previous file's declared length, and
/// every other field is kept.
pub proof fn lemma_assign_offsets_props(files: Seq<FileView>, cursor: int, out: Seq<FileView>)
    requires
        spec_assign_offsets(files, cursor) == Option::Some(out),
        0 <= cursor <= u64::MAX,
    ensures
        out.len() == files.len(),
        files.len() > 0 ==> out[0].offset == cursor,
        forall|i: int|
            0 < i < out.len() ==> (#[trigger] out[i]).offset == out[i - 1].offset + out[i
                - 1].length,
        forall|i: int|
            0 <= i < out.len() ==> (#[trigger] out[i]) == (FileView {
                offset: out[i].offset,
                ..files[i]
            }),
    decreases files.len(),
{
    if files.len() > 0 {
        let f = files[0];
        let rest = spec_assign_offsets(files.drop_first(), cursor + f.length).unwrap();
        lemma_assign_offsets_props(files.drop_first(), cursor + f.length, rest);
        assert(out == seq![FileView { offset: cursor as u64, ..f }] + rest);
        assert(out[0] == FileView { offset: cursor as u64, ..f });
        assert forall|i: int| 0 < i < out.len() implies (#[trigger] out[i]).offset == out[i
            - 1].offset + out[i - 1].length by {
            assert(out[i] == rest[i - 1]);
            if i == 1 {
                assert(rest.len() > 0 && rest[0].offset == cursor + f.length);
            } else {
                assert(out[i - 1] == rest[i - 2]);
            }
        }
        assert forall|i: int| 0 <= i < out.len() implies (#[trigger] out[i]) == (FileView {
            offset: out[i].offset,
            ..files[i]
        }) by {
            if i > 0 {
                assert(out[i] == rest[i - 1]);
                assert(files.drop_first()[i - 1] == files[i]);
            }
        }
    }
}

/// A successful index parse yields exactly the declared number of entries,
/// ending no later than the body does.
pub proof fn lemma_parse_index_len(body: Seq<u8>, pos: int, count: int, fs: Seq<FileView>, end: int)
    requires
        spec_parse_index(body, pos, count) == Option::Some((fs, end)),
        0 <= pos <= body.len(),
        count >= 0,
    ensures
        fs.len() == count,
        pos <= end <= body.len(),
    decreases count,
{
    if count > 0 {
        let (f, p) = spec_parse_entry(body, pos).unwrap();
        let (fs2, end2) = spec_parse_index(body, p, count - 1).unwrap();
        lemma_parse_index_len(body, p, count - 1, fs2, end2);
    }
}

/// For every archive and all sequentially assigned offsets: each file's
/// payload region follows the previous one immediately, and when the
/// archive has neither compression nor encryption, extraction reads the raw
/// source with a bias of 128, so `files[i].offset + 128` is the absolute
/// position of the i-th payload in the raw stream.
pub proof fn lemma_offset_invariant(data: Seq<u8>, password: Option<Seq<u8>>, m: MetadataView)
    requires
        spec_parse(data, password) == Result::<MetadataView, HsspError>::Ok(m),
    ensures
        forall|i: int|
            0 < i < m.files.len() ==> (#[trigger] m.files[i]).offset == m.files[i - 1].offset
                + m.files[i - 1].length,
        m.encryption is None && m.compression is None ==> spec_extract_source(m, data) == (
            data,
            128int,
        ),
{
    if m.files.len() > 0 {
        let count = spec_file_count(data) as int;
        if spec_encrypted(data) {
            let pw = password.unwrap();
            let key = sha256_of(pw);
            let hash = sha256_of(key);
            let inter = crate::primitives::spec_decompress(
                data.skip(128),
                crate::header::spec_method_of_tag(crate::header::spec_comp_tag(data)),
            ).unwrap();
            let body = crate::primitives::aes256cbc_decrypt_of(
                inter,
                key,
                crate::header::spec_iv(data),
            );
            let (fs, end) = spec_parse_index(body, 0, count).unwrap();
            lemma_parse_index_len(body, 0, count, fs, end);
            lemma_assign_offsets_props(fs, end, m.files);
        } else {
            let inter = crate::primitives::spec_decompress(
                data.skip(128),
                crate::header::spec_method_of_tag(crate::header::spec_comp_tag(data)),
            ).unwrap();
            let (fs, end) = spec_parse_index(inter, 0, count).unwrap();
            lemma_parse_index_len(inter, 0, count, fs, end);
            lemma_assign_offsets_props(fs, end, m.files);
        }
    }
}

/// Password diagnosis: parsing an encrypted archive with any password
/// reports the double SHA-256 of that password and the expected hash from
/// the header; the file list is non-empty exactly when they match (given
/// the archive declares at least one file).
pub proof fn lemma_password_diagnosis(data: Seq<u8>, pw: Seq<u8>, m: MetadataView)
    requires
        spec_parse(data, Option::Some(pw)) == Result::<MetadataView, HsspError>::Ok(m),
        spec_encrypted(data),
    ensures
        (m.encryption matches Some(e) && e.hash == sha256_of(sha256_of(pw)) && e.hash_expected
            == spec_pwd_hash(data)),
        sha256_of(sha256_of(pw)) != spec_pwd_hash(data) ==> m.files.len() == 0,
        sha256_of(sha256_of(pw)) == spec_pwd_hash(data) ==> m.files.len() == spec_file_count(data),
        sha256_of(sha256_of(pw)) == spec_pwd_hash(data) && spec_file_count(data) > 0
            ==> m.files.len() > 0,
{
    let key = sha256_of(pw);
    let hash = sha256_of(key);
    if hash == spec_pwd_hash(data) {
        let count = spec_file_count(data) as int;
        let inter = crate::primitives::spec_decompress(
            data.skip(128),
            crate::header::spec_method_of_tag(crate::header::spec_comp_tag(data)),
        ).unwrap();
        let body = crate::primitives::aes256cbc_decrypt_of(
            inter,
            key,
            crate::header::spec_iv(data),
        );
        let (fs, end) = spec_parse_index(body, 0, count).unwrap();
        lemma_parse_index_len(body, 0, count, fs, end);
        lemma_assign_offsets_props(fs, end, m.files);
    }
}

} // verus!

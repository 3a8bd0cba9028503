use vstd::prelude::*;
use vstd::bytes::*;
use crate::bytes::{spec_all_zero, spec_nul_trim};
use crate::types::{Method, Multivol};

verus! {

/// Size of the fixed archive header in bytes.
pub const HEADER_LEN: usize = 128;

/// Seed of the keyed Murmur3 integrity checksum.
pub const CHECKSUM_SEED: u32 = 0x31082007;

// Spec accessors for the fixed header fields of a raw archive (data.len()
// must be at least 128 for them to be meaningful).

pub open spec fn spec_version(data: Seq<u8>) -> u8 {
    data[4]
}

pub open spec fn spec_file_count(data: Seq<u8>) -> u32 {
    spec_u32_from_le_bytes(data.subrange(8, 12))
}

pub open spec fn spec_pwd_hash(data: Seq<u8>) -> Seq<u8> {
    data.subrange(12, 44)
}

pub open spec fn spec_iv(data: Seq<u8>) -> Seq<u8> {
    data.subrange(44, 60)
}

pub open spec fn spec_comp_tag(data: Seq<u8>) -> Seq<u8> {
    data.subrange(60, 64)
}

pub open spec fn spec_checksum(data: Seq<u8>) -> u32 {
    spec_u32_from_le_bytes(data.subrange(64, 68))
}

pub open spec fn spec_total_files(data: Seq<u8>) -> u64 {
    spec_u64_from_le_bytes(data.subrange(68, 76))
}

pub open spec fn spec_continue_offset(data: Seq<u8>) -> u64 {
    spec_u64_from_le_bytes(data.subrange(76, 84))
}

pub open spec fn spec_previous_checksum(data: Seq<u8>) -> u32 {
    spec_u32_from_le_bytes(data.subrange(84, 88))
}

pub open spec fn spec_next_checksum(data: Seq<u8>) -> u32 {
    spec_u32_from_le_bytes(data.subrange(88, 92))
}

pub open spec fn spec_volume_id(data: Seq<u8>) -> u32 {
    spec_u32_from_le_bytes(data.subrange(92, 96))
}

pub open spec fn spec_comment(data: Seq<u8>) -> Seq<u8> {
    spec_nul_trim(data.subrange(96, 112))
}

pub open spec fn spec_generator(data: Seq<u8>) -> Seq<u8> {
    spec_nul_trim(data.subrange(112, 128))
}

/// The header marks the body as encrypted unless the password hash and the
/// IV are the all-zero pair.
pub open spec fn spec_encrypted(data: Seq<u8>) -> bool {
    !(spec_all_zero(spec_pwd_hash(data)) && spec_all_zero(spec_iv(data)))
}

/// The four-byte ASCII tag written for each known compression method
/// (`NONE`, `LZMA`, `DEFL`, `DFLT`).
pub open spec fn spec_tag_of_method(m: Method) -> Seq<u8> {
    match m {
        Method::NoCompression => seq![78u8, 79u8, 78u8, 69u8],
        Method::Lzma => seq![76u8, 90u8, 77u8, 65u8],
        Method::Deflate => seq![68u8, 69u8, 70u8, 76u8],
        Method::DeflateZlib => seq![68u8, 70u8, 76u8, 84u8],
        Method::Unsupported => seq![0u8, 0u8, 0u8, 0u8],
    }
}

/// The compression method named by a four-byte tag; tags other than the
/// four known ones are `Unsupported`.
pub open spec fn spec_method_of_tag(tag: Seq<u8>) -> Method {
    if tag == spec_tag_of_method(Method::NoCompression) {
        Method::NoCompression
    } else if tag == spec_tag_of_method(Method::Lzma) {
        Method::Lzma
    } else if tag == spec_tag_of_method(Method::Deflate) {
        Method::Deflate
    } else if tag == spec_tag_of_method(Method::DeflateZlib) {
        Method::DeflateZlib
    } else {
        Method::Unsupported
    }
}

/// The multi-volume linkage of the header: present iff either neighbour
/// checksum is non-zero.
pub open spec fn spec_multivol(data: Seq<u8>) -> Option<Multivol> {
    let prev = spec_previous_checksum(data);
    let next = spec_next_checksum(data);
    if prev != 0 || next != 0 {
        Option::Some(
            Multivol {
                total_files: spec_total_files(data),
                continue_offset: spec_continue_offset(data),
                previous_checksum: if prev != 0 {
                    Option::Some(prev)
                } else {
                    Option::None
                },
                next_checksum: if next != 0 {
                    Option::Some(next)
                } else {
                    Option::None
                },
                id: spec_volume_id(data),
            },
        )
    } else {
        Option::None
    }
}

/// Decides the compression method from the four tag bytes at `data[60..64]`.
pub fn parse_method(data: &[u8]) -> (m: Method)
    requires
        data@.len() >= 64,
    ensures
        m == spec_method_of_tag(spec_comp_tag(data@)),
{
    let ghost tag = spec_comp_tag(data@);
    let b0 = data[60];
    let b1 = data[61];
    let b2 = data[62];
    let b3 = data[63];
    proof {
        assert(tag.len() == 4 && tag[0] == b0 && tag[1] == b1 && tag[2] == b2 && tag[3] == b3);
        assert forall|m: Method| tag =~= spec_tag_of_method(m) <==> (tag[0]
            == spec_tag_of_method(m)[0] && tag[1] == spec_tag_of_method(m)[1] && tag[2]
            == spec_tag_of_method(m)[2] && tag[3] == spec_tag_of_method(m)[3]) by {
        }
    }
    if b0 == 78 && b1 == 79 && b2 == 78 && b3 == 69 {
        Method::NoCompression
    } else if b0 == 76 && b1 == 90 && b2 == 77 && b3 == 65 {
        Method::Lzma
    } else if b0 == 68 && b1 == 69 && b2 == 70 && b3 == 76 {
        Method::Deflate
    } else if b0 == 68 && b1 == 70 && b2 == 76 && b3 == 84 {
        Method::DeflateZlib
    } else {
        Method::Unsupported
    }
}

} // verus!

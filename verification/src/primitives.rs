use vstd::prelude::*;
use crate::types::Method;
use acr::compression::Method as AcrMethod;

verus! {

// The cryptographic and codec primitives live in outside crates. Each is a
// pure function of its byte arguments; their results are named by the
// uninterpreted functions below, and the wrappers' contracts relate the
// calls to those names.

/// The keyed Murmur3-32 hash of `data` under `seed`.
pub uninterp spec fn murmur3_of(data: Seq<u8>, seed: u32) -> u32;

/// The SHA-256 digest (32 bytes) of `data`.
pub uninterp spec fn sha256_of(data: Seq<u8>) -> Seq<u8>;

/// The AES-256-CBC encryption of `data` under a 32-byte key and 16-byte IV,
/// with PKCS7 padding.
pub uninterp spec fn aes256cbc_encrypt_of(data: Seq<u8>, key: Seq<u8>, iv: Seq<u8>) -> Seq<u8>;

/// The AES-256-CBC decryption of `data` under a 32-byte key and 16-byte IV.
/// Undecryptable input yields some byte sequence, never a failure.
pub uninterp spec fn aes256cbc_decrypt_of(data: Seq<u8>, key: Seq<u8>, iv: Seq<u8>) -> Seq<u8>;

/// What the codec chosen by `method_tag` (see `spec_method_tag`) makes of
/// `data`: the decompressed bytes, or nothing when the codec reports failure.
pub uninterp spec fn decompress_of(data: Seq<u8>, method_tag: int) -> Option<Seq<u8>>;

/// Whether `ms` milliseconds since the Unix epoch is representable as a
/// calendar date by the date-time library.
pub uninterp spec fn millis_representable(ms: u64) -> bool;

/// A stable numbering of the compression methods, used only to key
/// `decompress_of`.
pub open spec fn spec_method_tag(m: Method) -> int {
    match m {
        Method::NoCompression => 0,
        Method::Lzma => 1,
        Method::Deflate => 2,
        Method::DeflateZlib => 3,
        Method::Unsupported => 4,
    }
}

/// What decompressing `data` with `m` yields: the input itself for no
/// compression, failure for an unsupported tag, and the codec's verdict
/// otherwise.
pub open spec fn spec_decompress(data: Seq<u8>, m: Method) -> Option<Seq<u8>> {
    match m {
        Method::NoCompression => Option::Some(data),
        Method::Unsupported => Option::None,
        _ => decompress_of(data, spec_method_tag(m)),
    }
}

/// What compressing `data` with `m` yields: the input itself for no
/// compression, failure for everything else (the codec layer implements no
/// other direction).
pub open spec fn spec_compress(data: Seq<u8>, m: Method) -> Option<Seq<u8>> {
    if m == Method::NoCompression {
        Option::Some(data)
    } else {
        Option::None
    }
}

/// Relies on acr::hash::murmur3 over an in-memory reader: the keyed
/// Murmur3-32 of the bytes, a pure function of `data` and `seed`. The full
/// range of an in-memory reader is always readable, so the call cannot fail.
#[verifier::external_body]
pub(crate) fn murmur3_keyed(data: &Vec<u8>, seed: u32) -> (r: u32)
    ensures
        r == murmur3_of(data@, seed),
{
    let mut reader = dh::data::read_ref(data);
    acr::hash::murmur3(&mut reader, 0, data.len() as u64, seed).unwrap()
}

/// Relies on acr::hash::sha256 over an in-memory reader: the 32-byte SHA-256
/// digest of the bytes, a pure function of `data`; infallible in memory.
#[verifier::external_body]
pub(crate) fn sha256_digest(data: &Vec<u8>) -> (r: Vec<u8>)
    ensures
        r@ == sha256_of(data@),
        r@.len() == 32,
{
    let mut reader = dh::data::read_ref(data);
    acr::hash::sha256(&mut reader, 0, data.len() as u64).unwrap().to_vec()
}

/// Relies on acr::encryption::aes256cbc::decrypt (libaes): AES-256-CBC with
/// PKCS7 unpadding, a pure function of the bytes, key and IV that always
/// returns a byte vector (an empty one on undecryptable input).
#[verifier::external_body]
pub(crate) fn aes256cbc_decrypt(data: &Vec<u8>, key: &Vec<u8>, iv: &Vec<u8>) -> (r: Vec<u8>)
    requires
        key@.len() == 32,
        iv@.len() == 16,
    ensures
        r@ == aes256cbc_decrypt_of(data@, key@, iv@),
{
    let mut reader = dh::data::read_ref(data);
    let k: &[u8; 32] = key.as_slice().try_into().unwrap();
    let v: &[u8; 16] = iv.as_slice().try_into().unwrap();
    acr::encryption::aes256cbc::decrypt(&mut reader, k, v, 0, data.len() as u64).unwrap()
}

/// Relies on acr::encryption::aes256cbc::encrypt (libaes): AES-256-CBC with
/// PKCS7 padding, a pure function of the bytes, key and IV. libaes's
/// cbc_decrypt strips exactly the PKCS7 padding that cbc_encrypt adds, so
/// decrypting the result under the same key and IV gives `data` back.
#[verifier::external_body]
pub(crate) fn aes256cbc_encrypt(data: &Vec<u8>, key: &Vec<u8>, iv: &Vec<u8>) -> (r: Vec<u8>)
    requires
        key@.len() == 32,
        iv@.len() == 16,
    ensures
        r@ == aes256cbc_encrypt_of(data@, key@, iv@),
        aes256cbc_decrypt_of(r@, key@, iv@) == data@,
{
    let mut reader = dh::data::read_ref(data);
    let k: &[u8; 32] = key.as_slice().try_into().unwrap();
    let v: &[u8; 16] = iv.as_slice().try_into().unwrap();
    acr::encryption::aes256cbc::encrypt(&mut reader, k, v, 0, data.len() as u64).unwrap()
}

/// Relies on acr::compression::decompressor::decompress: with Method::None
/// it copies the input unchanged; with an unsupported method it reports
/// failure; with LZMA or either DEFLATE flavour the result is a pure
/// function of the input bytes, failing exactly on streams the codec
/// rejects.
#[verifier::external_body]
pub(crate) fn decompress_bytes(data: &Vec<u8>, method: Method) -> (r: Option<Vec<u8>>)
    ensures
        r is Some <==> spec_decompress(data@, method) is Some,
        r matches Some(v) ==> Option::Some(v@) == spec_decompress(data@, method),
        r matches Some(v) ==> (method != Method::NoCompression && method != Method::Unsupported
            ==> Option::Some(v@) == decompress_of(data@, spec_method_tag(method))),
{
    let m = match method {
        Method::NoCompression => AcrMethod::None,
        Method::Lzma => AcrMethod::Lzma,
        Method::Deflate => AcrMethod::Deflate,
        Method::DeflateZlib => AcrMethod::DeflateZlib,
        Method::Unsupported => AcrMethod::Unsupported,
    };
    let mut reader = dh::data::read_ref(data);
    let mut target = dh::data::write_new(data.len() as u64);
    match acr::compression::decompressor::decompress(&mut reader, 0, data.len() as u64, &m, &mut target, 1024) {
        Ok(size) => { let mut out = dh::data::close(target); out.truncate(size as usize); Some(out) }
        Err(_) => None,
    }
}

/// Relies on acr::compression::compressor::compress: it copies the input
/// unchanged for Method::None and reports failure for every other method.
#[verifier::external_body]
pub(crate) fn compress_bytes(data: &Vec<u8>, method: Method) -> (r: Option<Vec<u8>>)
    ensures
        r is Some <==> spec_compress(data@, method) is Some,
        r matches Some(v) ==> Option::Some(v@) == spec_compress(data@, method),
{
    let m = match method {
        Method::NoCompression => AcrMethod::None,
        Method::Lzma => AcrMethod::Lzma,
        Method::Deflate => AcrMethod::Deflate,
        Method::DeflateZlib => AcrMethod::DeflateZlib,
        Method::Unsupported => AcrMethod::Unsupported,
    };
    let mut reader = dh::data::read_ref(data);
    let mut target = dh::data::write_new(0);
    match acr::compression::compressor::compress(&mut reader, 0, data.len() as u64, &m, &mut target, 1024) {
        Ok(size) => { let mut out = dh::data::close(target); out.truncate(size as usize); Some(out) }
        Err(_) => None,
    }
}

/// Relies on chrono::DateTime::<Utc>::from_timestamp_millis: whether a
/// millisecond count is representable as a date, a pure function of `ms`.
#[verifier::external_body]
pub(crate) fn timestamp_representable(ms: u64) -> (r: bool)
    requires
        ms < 0x1000000000000,
    ensures
        r == millis_representable(ms),
{
    chrono::DateTime::<chrono::Utc>::from_timestamp_millis(ms as i64).is_some()
}

} // verus!

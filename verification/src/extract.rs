use vstd::prelude::*;
use crate::bytes::copy_range;
use crate::types::{HsspError, Metadata, MetadataView};

verus! {

/// Which buffer extraction reads from, and the bias added to body-relative
/// offsets: the decrypted plaintext body when the archive was encrypted,
/// else the decompressed buffer when one was materialized, else the raw
/// source past the 128-byte header.
pub open spec fn spec_extract_source(meta: MetadataView, raw: Seq<u8>) -> (Seq<u8>, int) {
    match meta.encryption {
        Option::Some(e) => (e.decrypted, 0),
        Option::None => match meta.compression {
            Option::Some(c) => match c.decompressed {
                Option::Some(d) => (d, 0),
                Option::None => (raw, 128),
            },
            Option::None => (raw, 128),
        },
    }
}

/// Picks the stream that holds payload bytes, per `spec_extract_source`.
fn choose_source<'a>(source: &'a Vec<u8>, meta: &'a Metadata) -> (r: (&'a Vec<u8>, u64))
    ensures
        (r.0@, r.1 as int) == spec_extract_source(meta@, source@),
{
    match &meta.encryption {
        Some(e) => (&e.decrypted, 0),
        None => match &meta.compression {
            Some(c) => match &c.decompressed {
                Some(d) => (d, 0),
                None => (source, 128),
            },
            None => (source, 128),
        },
    }
}

/// Copies the payload of `meta.files[file]` out of whichever layer of the
/// archive holds it: `length` bytes at the file's body-relative offset,
/// biased by 128 when they are read from the raw source. Fails with `Io`
/// when that range lies outside the chosen buffer.
pub fn extract(source: &Vec<u8>, meta: &Metadata, file: usize) -> (r: Result<Vec<u8>, HsspError>)
    requires
        file < meta@.files.len(),
    ensures
        ({
            let (src, bias) = spec_extract_source(meta@, source@);
            let f = meta@.files[file as int];
            match r {
                Result::Ok(v) => f.offset + bias + f.length <= src.len() && v@ == src.subrange(
                    f.offset + bias,
                    f.offset + bias + f.length,
                ),
                Result::Err(e) => e == HsspError::Io && f.offset + bias + f.length > src.len(),
            }
        }),
{
    let f_offset = meta.files[file].offset;
    let f_length = meta.files[file].length;
    proof {
        assert(meta@.files[file as int] == meta.files@[file as int]@);
    }
    let (src, bias) = choose_source(source, meta);
    let n: usize = src.len();
    if (f_offset as u128) + (bias as u128) + (f_length as u128) > (n as u128) {
        return Err(HsspError::Io);
    }
    let start = (f_offset + bias) as usize;
    let end = start + (f_length as usize);
    Ok(copy_range(src.as_slice(), start, end))
}

} // verus!

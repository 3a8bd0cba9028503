use vstd::prelude::*;
use vstd::bytes::*;
use vstd::slice::slice_subrange;

verus! {

/// 48-bit little-endian decoding, zero-extended to 64 bits.
pub open spec fn spec_u48_from_le_bytes(s: Seq<u8>) -> u64
    recommends
        s.len() == 6,
{
    (s[0] as u64) | (s[1] as u64) << 8 | (s[2] as u64) << 16 | (s[3] as u64) << 24 | (
    s[4] as u64) << 32 | (s[5] as u64) << 40
}

/// 48-bit little-endian encoding of the low 48 bits of `x`.
pub open spec fn spec_u48_to_le_bytes(x: u64) -> Seq<u8> {
    seq![
        (x & 0xff) as u8,
        ((x >> 8) & 0xff) as u8,
        ((x >> 16) & 0xff) as u8,
        ((x >> 24) & 0xff) as u8,
        ((x >> 32) & 0xff) as u8,
        ((x >> 40) & 0xff) as u8,
    ]
}

pub proof fn lemma_u48_to_from_le_bytes(x: u64)
    requires
        x < 0x1000000000000,
    ensures
        spec_u48_from_le_bytes(spec_u48_to_le_bytes(x)) == x,
{
    let s = spec_u48_to_le_bytes(x);
    assert(s[0] == (x & 0xff) as u8 && s[1] == ((x >> 8) & 0xff) as u8 && s[2] == ((x >> 16)
        & 0xff) as u8 && s[3] == ((x >> 24) & 0xff) as u8 && s[4] == ((x >> 32) & 0xff) as u8 && s[5]
        == ((x >> 40) & 0xff) as u8);
    assert(((((x & 0xff) as u8) as u64) | (((((x >> 8) & 0xff) as u8) as u64) << 8) | (((((x >> 16)
        & 0xff) as u8) as u64) << 16) | (((((x >> 24) & 0xff) as u8) as u64) << 24) | (((((x >> 32)
        & 0xff) as u8) as u64) << 32) | (((((x >> 40) & 0xff) as u8) as u64) << 40)) == x)
        by (bit_vector)
        requires
            x < 0x1000000000000,
    ;
}

/// The prefix of `s` before its first NUL byte (all of `s` when none occurs).
pub open spec fn spec_nul_trim(s: Seq<u8>) -> Seq<u8>
    decreases s.len(),
{
    if s.len() == 0 {
        Seq::empty()
    } else if s[0] == 0 {
        Seq::empty()
    } else {
        seq![s[0]] + spec_nul_trim(s.skip(1))
    }
}

proof fn lemma_nul_trim_prefix(s: Seq<u8>, j: int)
    requires
        0 <= j <= s.len(),
        forall|k: int| 0 <= k < j ==> s[k] != 0,
    ensures
        spec_nul_trim(s) == s.take(j) + spec_nul_trim(s.skip(j)),
    decreases j,
{
    if j == 0 {
        assert(s.skip(0) =~= s);
        assert(s.take(0) + spec_nul_trim(s.skip(0)) =~= spec_nul_trim(s));
    } else {
        lemma_nul_trim_prefix(s, j - 1);
        assert(s.skip(j - 1).len() > 0 && s.skip(j - 1)[0] == s[j - 1]);
        assert(spec_nul_trim(s.skip(j - 1)) == seq![s[j - 1]] + spec_nul_trim(
            s.skip(j - 1).skip(1),
        ));
        assert(s.skip(j - 1).skip(1) =~= s.skip(j));
        assert(s.take(j - 1) + (seq![s[j - 1]] + spec_nul_trim(s.skip(j))) =~= s.take(j)
            + spec_nul_trim(s.skip(j)));
    }
}

/// Copies `data[start..end]` into a fresh vector.
pub fn copy_range(data: &[u8], start: usize, end: usize) -> (r: Vec<u8>)
    requires
        start <= end <= data@.len(),
    ensures
        r@ == data@.subrange(start as int, end as int),
{
    let mut out: Vec<u8> = Vec::new();
    let mut i: usize = start;
    while i < end
        invariant
            start <= i <= end <= data@.len(),
            out@ == data@.subrange(start as int, i as int),
        decreases end - i,
    {
        out.push(data[i]);
        i = i + 1;
        proof {
            assert(out@ =~= data@.subrange(start as int, i as int));
        }
    }
    out
}

/// True iff every byte of `s` is zero.
pub open spec fn spec_all_zero(s: Seq<u8>) -> bool {
    forall|i: int| 0 <= i < s.len() ==> s[i] == 0
}

/// Tests whether `data[start..end]` is all zero bytes.
pub fn range_all_zero(data: &[u8], start: usize, end: usize) -> (r: bool)
    requires
        start <= end <= data@.len(),
    ensures
        r == spec_all_zero(data@.subrange(start as int, end as int)),
{
    let mut i: usize = start;
    while i < end
        invariant
            start <= i <= end <= data@.len(),
            forall|k: int| start <= k < i ==> data@[k] == 0,
        decreases end - i,
    {
        if data[i] != 0 {
            assert(data@.subrange(start as int, end as int)[i - start] != 0);
            return false;
        }
        i = i + 1;
    }
    proof {
        let s = data@.subrange(start as int, end as int);
        assert forall|k: int| 0 <= k < s.len() implies s[k] == 0 by {
            assert(s[k] == data@[start + k]);
        }
    }
    true
}

/// Returns the bytes of `data[start..end]` up to (and excluding) the first
/// NUL byte of that range.
pub fn nul_trim(data: &[u8], start: usize, end: usize) -> (r: Vec<u8>)
    requires
        start <= end <= data@.len(),
    ensures
        r@ == spec_nul_trim(data@.subrange(start as int, end as int)),
{
    let ghost s = data@.subrange(start as int, end as int);
    let mut j: usize = start;
    while j < end && data[j] != 0
        invariant
            start <= j <= end <= data@.len(),
            s == data@.subrange(start as int, end as int),
            forall|k: int| start <= k < j ==> data@[k] != 0,
        decreases end - j,
    {
        j = j + 1;
    }
    proof {
        assert forall|k: int| 0 <= k < j - start implies s[k] != 0 by {
            assert(s[k] == data@[start + k]);
        }
        lemma_nul_trim_prefix(s, j - start);
        if j == end {
            assert(s.skip(j - start) =~= Seq::<u8>::empty());
            assert(s.take(j - start) + spec_nul_trim(s.skip(j - start)) =~= s.take(j - start));
        } else {
            assert(s.skip(j - start)[0] == data@[j as int]);
            assert(spec_nul_trim(s.skip(j - start)) =~= Seq::<u8>::empty());
            assert(s.take(j - start) + spec_nul_trim(s.skip(j - start)) =~= s.take(j - start));
        }
        assert(s.take(j - start) =~= data@.subrange(start as int, j as int));
    }
    copy_range(data, start, j)
}

/// A vector of `n` zero bytes.
pub fn zero_vec(n: usize) -> (r: Vec<u8>)
    ensures
        r@ == Seq::new(n as nat, |i: int| 0u8),
{
    let mut out: Vec<u8> = Vec::new();
    let mut i: usize = 0;
    while i < n
        invariant
            i <= n,
            out@ == Seq::new(i as nat, |k: int| 0u8),
        decreases n - i,
    {
        out.push(0);
        i = i + 1;
        proof {
            assert(out@ =~= Seq::new(i as nat, |k: int| 0u8));
        }
    }
    out
}

/// Tests two byte vectors for equality.
pub fn bytes_eq(a: &[u8], b: &[u8]) -> (r: bool)
    ensures
        r == (a@ == b@),
{
    if a.len() != b.len() {
        assert(a@.len() != b@.len());
        return false;
    }
    let n: usize = a.len();
    let mut i: usize = 0;
    while i < n
        invariant
            0 <= i <= n,
            n == a@.len() == b@.len(),
            forall|k: int| 0 <= k < i ==> a@[k] == b@[k],
        decreases n - i,
    {
        if a[i] != b[i] {
            return false;
        }
        i = i + 1;
    }
    proof {
        assert(a@ =~= b@);
    }
    true
}

/// Appends all of `data` to `out`.
pub fn push_bytes(out: &mut Vec<u8>, data: &[u8])
    ensures
        final(out)@ == old(out)@ + data@,
{
    let n: usize = data.len();
    let mut i: usize = 0;
    while i < n
        invariant
            i <= n,
            n == data@.len(),
            out@ == old(out)@ + data@.subrange(0, i as int),
        decreases n - i,
    {
        out.push(data[i]);
        i = i + 1;
        proof {
            assert(old(out)@ + data@.subrange(0, i - 1) + seq![data@[i - 1]] =~= old(out)@
                + data@.subrange(0, i as int));
        }
    }
    proof {
        assert(data@.subrange(0, n as int) =~= data@);
    }
}

/// Appends a little-endian u16.
pub fn push_u16le(out: &mut Vec<u8>, x: u16)
    ensures
        final(out)@ == old(out)@ + spec_u16_to_le_bytes(x),
{
    let mut b = u16_to_le_bytes(x);
    out.append(&mut b);
}

/// Appends a little-endian u32.
pub fn push_u32le(out: &mut Vec<u8>, x: u32)
    ensures
        final(out)@ == old(out)@ + spec_u32_to_le_bytes(x),
{
    let mut b = u32_to_le_bytes(x);
    out.append(&mut b);
}

/// Appends a little-endian u64.
pub fn push_u64le(out: &mut Vec<u8>, x: u64)
    ensures
        final(out)@ == old(out)@ + spec_u64_to_le_bytes(x),
{
    let mut b = u64_to_le_bytes(x);
    out.append(&mut b);
}

/// Appends the low 48 bits of `x`, little-endian.
pub fn push_u48le(out: &mut Vec<u8>, x: u64)
    ensures
        final(out)@ == old(out)@ + spec_u48_to_le_bytes(x),
{
    proof {
        assert((x & 0xff) < 256 && ((x >> 8) & 0xff) < 256 && ((x >> 16) & 0xff) < 256 && ((x
            >> 24) & 0xff) < 256 && ((x >> 32) & 0xff) < 256 && ((x >> 40) & 0xff) < 256)
            by (bit_vector);
    }
    out.push((x & 0xff) as u8);
    out.push(((x >> 8) & 0xff) as u8);
    out.push(((x >> 16) & 0xff) as u8);
    out.push(((x >> 24) & 0xff) as u8);
    out.push(((x >> 32) & 0xff) as u8);
    out.push(((x >> 40) & 0xff) as u8);
    proof {
        assert(out@ =~= old(out)@ + spec_u48_to_le_bytes(x));
    }
}

/// Reads the byte at `pos`.
pub fn read_u8_at(data: &[u8], pos: usize) -> (r: u8)
    requires
        pos < data@.len(),
    ensures
        r == data@[pos as int],
{
    data[pos]
}

/// Reads a little-endian u16 at `pos`.
pub fn read_u16le_at(data: &[u8], pos: usize) -> (r: u16)
    requires
        pos + 2 <= data@.len(),
    ensures
        r == spec_u16_from_le_bytes(data@.subrange(pos as int, pos + 2)),
{
    let n: usize = data.len();
    assert(pos + 2 <= n);
    u16_from_le_bytes(slice_subrange(data, pos, pos + 2))
}

/// Reads a little-endian u32 at `pos`.
pub fn read_u32le_at(data: &[u8], pos: usize) -> (r: u32)
    requires
        pos + 4 <= data@.len(),
    ensures
        r == spec_u32_from_le_bytes(data@.subrange(pos as int, pos + 4)),
{
    let n: usize = data.len();
    assert(pos + 4 <= n);
    u32_from_le_bytes(slice_subrange(data, pos, pos + 4))
}

/// Reads a little-endian u64 at `pos`.
pub fn read_u64le_at(data: &[u8], pos: usize) -> (r: u64)
    requires
        pos + 8 <= data@.len(),
    ensures
        r == spec_u64_from_le_bytes(data@.subrange(pos as int, pos + 8)),
{
    let n: usize = data.len();
    assert(pos + 8 <= n);
    u64_from_le_bytes(slice_subrange(data, pos, pos + 8))
}

/// Reads a 48-bit little-endian unsigned value at `pos`, zero-extended.
pub fn read_u48le_at(data: &[u8], pos: usize) -> (r: u64)
    requires
        pos + 6 <= data@.len(),
    ensures
        r == spec_u48_from_le_bytes(data@.subrange(pos as int, pos + 6)),
        r < 0x1000000000000,
{
    let b0 = data[pos] as u64;
    let b1 = data[pos + 1] as u64;
    let b2 = data[pos + 2] as u64;
    let b3 = data[pos + 3] as u64;
    let b4 = data[pos + 4] as u64;
    let b5 = data[pos + 5] as u64;
    let r = b0 | b1 << 8 | b2 << 16 | b3 << 24 | b4 << 32 | b5 << 40;
    proof {
        let s = data@.subrange(pos as int, pos + 6);
        assert(s[0] == b0 && s[1] == b1 && s[2] == b2 && s[3] == b3 && s[4] == b4 && s[5] == b5);
        assert(b0 < 256 && b1 < 256 && b2 < 256 && b3 < 256 && b4 < 256 && b5 < 256 ==> (b0 | b1
            << 8 | b2 << 16 | b3 << 24 | b4 << 32 | b5 << 40) < 0x1000000000000) by (bit_vector);
    }
    r
}

} // verus!

use vstd::prelude::*;
use vstd::bytes::*;
use crate::bytes::{copy_range, read_u16le_at, read_u32le_at, read_u48le_at, read_u64le_at,
    read_u8_at, spec_u48_from_le_bytes};
use crate::primitives::{millis_representable, timestamp_representable};
use crate::types::{File, FileView, HsspError};

verus! {

/// A stored timestamp that the date-time library cannot represent decodes
/// to the Unix epoch; every other one decodes to itself.
pub open spec fn spec_coerce_ts(ms: u64) -> u64 {
    if millis_representable(ms) {
        ms
    } else {
        0
    }
}

/// Decodes a stored 48-bit timestamp, coercing unrepresentable values to
/// the Unix epoch.
pub fn decode_timestamp(ms: u64) -> (r: u64)
    requires
        ms < 0x1000000000000,
    ensures
        r == spec_coerce_ts(ms),
{
    if timestamp_representable(ms) {
        ms
    } else {
        0
    }
}

/// Whether `mask` selects a set bit of `b`.
pub open spec fn spec_bit(b: u8, mask: u8) -> bool {
    b & mask != 0
}

/// The three permission octets packed into the two permission/flag bytes:
/// the first octet sits in bits 7..5 of the first byte, the second in bits
/// 4..2, and the third straddles the boundary (its high two bits are bits
/// 1..0 of the first byte, its low bit is bit 7 of the second).
pub open spec fn spec_decode_perms(b1: u8, b2: u8) -> Seq<u8> {
    seq![b1 >> 5, (b1 >> 2) & 7, ((b1 & 3) << 1) | (b2 >> 7)]
}

/// The result of reading one index entry at `pos`: the file (with `offset`
/// still zero) and the position just past the entry; or nothing when the
/// entry runs past the end of the body.
pub open spec fn spec_parse_entry(body: Seq<u8>, pos: int) -> Option<(FileView, int)> {
    if pos + 10 > body.len() {
        Option::None
    } else {
        let length = spec_u64_from_le_bytes(body.subrange(pos, pos + 8));
        let path_len = spec_u16_from_le_bytes(body.subrange(pos + 8, pos + 10)) as int;
        let p0 = pos + 10;
        if p0 + path_len + 2 > body.len() {
            Option::None
        } else {
            let path = body.subrange(p0, p0 + path_len);
            let owner_len = spec_u16_from_le_bytes(
                body.subrange(p0 + path_len, p0 + path_len + 2),
            ) as int;
            let p1 = p0 + path_len + 2;
            if p1 + owner_len + 2 > body.len() {
                Option::None
            } else {
                let owner = body.subrange(p1, p1 + owner_len);
                let group_len = spec_u16_from_le_bytes(
                    body.subrange(p1 + owner_len, p1 + owner_len + 2),
                ) as int;
                let p2 = p1 + owner_len + 2;
                if p2 + group_len + 4 > body.len() {
                    Option::None
                } else {
                    let group = body.subrange(p2, p2 + group_len);
                    let weblink_len = spec_u32_from_le_bytes(
                        body.subrange(p2 + group_len, p2 + group_len + 4),
                    ) as int;
                    let p3 = p2 + group_len + 4;
                    if p3 + weblink_len + 20 > body.len() {
                        Option::None
                    } else {
                        let weblink = body.subrange(p3, p3 + weblink_len);
                        let p4 = p3 + weblink_len;
                        let creation = spec_u48_from_le_bytes(body.subrange(p4, p4 + 6));
                        let modification = spec_u48_from_le_bytes(body.subrange(p4 + 6, p4 + 12));
                        let access = spec_u48_from_le_bytes(body.subrange(p4 + 12, p4 + 18));
                        let b1 = body[p4 + 18];
                        let b2 = body[p4 + 19];
                        Option::Some(
                            (
                                FileView {
                                    path: path,
                                    directory: spec_bit(b2, 0x40),
                                    offset: 0,
                                    length: length,
                                    owner: Option::Some(owner),
                                    group: Option::Some(group),
                                    weblink: Option::Some(weblink),
                                    creation: spec_coerce_ts(creation),
                                    modification: spec_coerce_ts(modification),
                                    access: spec_coerce_ts(access),
                                    permissions: spec_decode_perms(b1, b2),
                                    hidden: spec_bit(b2, 0x20),
                                    system: spec_bit(b2, 0x10),
                                    enable_backup: spec_bit(b2, 0x08),
                                    require_backup: spec_bit(b2, 0x04),
                                    readonly: spec_bit(b2, 0x02),
                                    main: spec_bit(b2, 0x01),
                                },
                                p4 + 20,
                            ),
                        )
                    }
                }
            }
        }
    }
}

/// The result of reading `count` index entries from `pos` on: the files in
/// order (offsets still zero) and the position just past the index.
pub open spec fn spec_parse_index(body: Seq<u8>, pos: int, count: int) -> Option<
    (Seq<FileView>, int),
>
    decreases count,
{
    if count <= 0 {
        Option::Some((Seq::empty(), pos))
    } else {
        match spec_parse_entry(body, pos) {
            Option::None => Option::None,
            Option::Some((f, p)) => match spec_parse_index(body, p, count - 1) {
                Option::None => Option::None,
                Option::Some((fs, end)) => Option::Some((seq![f] + fs, end)),
            },
        }
    }
}

/// The second walk over the index: each file's offset is the body cursor
/// after the index, advanced by the declared length of every earlier file.
/// Fails when the cursor leaves the 64-bit range.
pub open spec fn spec_assign_offsets(files: Seq<FileView>, cursor: int) -> Option<Seq<FileView>>
    decreases files.len(),
{
    if files.len() == 0 {
        Option::Some(Seq::empty())
    } else {
        let f = files[0];
        if cursor + f.length > u64::MAX {
            Option::None
        } else {
            match spec_assign_offsets(files.drop_first(), cursor + f.length) {
                Option::None => Option::None,
                Option::Some(rest) => Option::Some(
                    seq![FileView { offset: cursor as u64, ..f }] + rest,
                ),
            }
        }
    }
}

/// The fully parsed index of a plaintext body: `count` entries, with
/// offsets assigned sequentially from the end of the index.
pub open spec fn spec_index_with_offsets(body: Seq<u8>, count: int) -> Option<Seq<FileView>> {
    match spec_parse_index(body, 0, count) {
        Option::None => Option::None,
        Option::Some((fs, end)) => spec_assign_offsets(fs, end),
    }
}

/// Reads one index entry at `pos`.
fn parse_entry(body: &[u8], pos: usize) -> (r: Result<(File, usize), HsspError>)
    requires
        pos <= body@.len(),
    ensures
        r matches Ok(fp) ==> {
            &&& spec_parse_entry(body@, pos as int) == Option::Some((fp.0@, fp.1 as int))
            &&& pos <= fp.1 <= body@.len()
        },
        r matches Err(e) ==> e == HsspError::MalformedHeader && spec_parse_entry(
            body@,
            pos as int,
        ) is None,
{
    let len: usize = body.len();
    if len - pos < 10 {
        return Err(HsspError::MalformedHeader);
    }
    let length = read_u64le_at(body, pos);
    let path_len = read_u16le_at(body, pos + 8) as usize;
    let p0 = pos + 10;
    if len - p0 < 2 || len - p0 - 2 < path_len {
        return Err(HsspError::MalformedHeader);
    }
    let path = copy_range(body, p0, p0 + path_len);
    let owner_len = read_u16le_at(body, p0 + path_len) as usize;
    let p1 = p0 + path_len + 2;
    if len - p1 < 2 || len - p1 - 2 < owner_len {
        return Err(HsspError::MalformedHeader);
    }
    let owner = copy_range(body, p1, p1 + owner_len);
    let group_len = read_u16le_at(body, p1 + owner_len) as usize;
    let p2 = p1 + owner_len + 2;
    if len - p2 < 4 || len - p2 - 4 < group_len {
        return Err(HsspError::MalformedHeader);
    }
    let group = copy_range(body, p2, p2 + group_len);
    let weblink_len_32 = read_u32le_at(body, p2 + group_len);
    let p3 = p2 + group_len + 4;
    if len - p3 < 20 {
        return Err(HsspError::MalformedHeader);
    }
    let avail: usize = len - p3 - 20;
    if (weblink_len_32 as u64) > (avail as u64) {
        return Err(HsspError::MalformedHeader);
    }
    let weblink_len = weblink_len_32 as usize;
    let weblink = copy_range(body, p3, p3 + weblink_len);
    let p4 = p3 + weblink_len;
    let creation = decode_timestamp(read_u48le_at(body, p4));
    let modification = decode_timestamp(read_u48le_at(body, p4 + 6));
    let access = decode_timestamp(read_u48le_at(body, p4 + 12));
    let b1 = read_u8_at(body, p4 + 18);
    let b2 = read_u8_at(body, p4 + 19);
    let permissions: [u8; 3] = [b1 >> 5, (b1 >> 2) & 7, ((b1 & 3) << 1) | (b2 >> 7)];
    let f = File {
        path,
        directory: b2 & 0x40 != 0,
        offset: 0,
        length,
        owner: Some(owner),
        group: Some(group),
        weblink: Some(weblink),
        creation,
        modification,
        access,
        permissions,
        hidden: b2 & 0x20 != 0,
        system: b2 & 0x10 != 0,
        enable_backup: b2 & 0x08 != 0,
        require_backup: b2 & 0x04 != 0,
        readonly: b2 & 0x02 != 0,
        main: b2 & 0x01 != 0,
    };
    proof {
        assert(f@.permissions =~= spec_decode_perms(b1, b2));
        let e = spec_parse_entry(body@, pos as int);
        assert(e matches Some(v) && v.0 =~= f@ && v.1 == p4 + 20);
    }
    Ok((f, p4 + 20))
}

/// Reads the whole file index (`count` entries at position 0 of the body)
/// and assigns each file its body-relative offset.
pub(crate) fn parse_index(body: &[u8], count: u32) -> (r: Result<Vec<File>, HsspError>)
    ensures
        r matches Ok(files) ==> spec_index_with_offsets(body@, count as int) == Option::Some(
            files@.map_values(|f: File| f@),
        ),
        r matches Err(e) ==> e == HsspError::MalformedHeader && spec_index_with_offsets(
            body@,
            count as int,
        ) is None,
{
    let ghost total = spec_parse_index(body@, 0, count as int);
    let mut entries: Vec<File> = Vec::new();
    let mut cursor: usize = 0;
    let mut i: u32 = 0;
    proof {
        assert(entries@.map_values(|f: File| f@) =~= Seq::<FileView>::empty());
    }
    while i < count
        invariant
            i <= count,
            cursor <= body@.len(),
            match spec_parse_index(body@, cursor as int, count - i) {
                Option::None => total is None,
                Option::Some((rest, end)) => total == Option::Some(
                    (entries@.map_values(|f: File| f@) + rest, end),
                ),
            },
            total == spec_parse_index(body@, 0, count as int),
        decreases count - i,
    {
        let ghost acc = entries@.map_values(|f: File| f@);
        match parse_entry(body, cursor) {
            Ok((f, p)) => {
                proof {
                    let k = count - i;
                    assert(spec_parse_index(body@, cursor as int, k as int) == (
                    match spec_parse_index(body@, p as int, k - 1) {
                        Option::None => Option::None::<(Seq<FileView>, int)>,
                        Option::Some((fs, end)) => Option::Some((seq![f@] + fs, end)),
                    }));
                }
                entries.push(f);
                proof {
                    assert(entries@.map_values(|g: File| g@) =~= acc + seq![f@]);
                    match spec_parse_index(body@, p as int, count - i - 1) {
                        Option::None => {
                        },
                        Option::Some((fs2, end2)) => {
                            assert(acc + (seq![f@] + fs2) =~= (acc + seq![f@]) + fs2);
                        },
                    }
                }
                cursor = p;
                i = i + 1;
            },
            Err(e) => {
                return Err(e);
            },
        }
    }
    proof {
        assert(spec_parse_index(body@, cursor as int, 0) == Option::Some(
            (Seq::<FileView>::empty(), cursor as int),
        ));
        let acc = entries@.map_values(|f: File| f@);
        assert(acc + Seq::<FileView>::empty() =~= acc);
        assert(total == Option::Some((acc, cursor as int)));
    }
    // Second walk: assign offsets sequentially from the end of the index.
    let ghost parsed = entries@.map_values(|f: File| f@);
    let mut out: Vec<File> = Vec::new();
    let mut cur64: u64 = cursor as u64;
    proof {
        assert(out@.map_values(|f: File| f@) =~= Seq::<FileView>::empty());
    }
    while entries.len() > 0
        invariant
            out@.len() + entries@.len() == parsed.len(),
            cur64 <= u64::MAX,
            entries@.map_values(|f: File| f@) =~= parsed.skip(out@.len() as int),
            match spec_assign_offsets(entries@.map_values(|f: File| f@), cur64 as int) {
                Option::None => spec_assign_offsets(parsed, cursor as int) is None,
                Option::Some(rest) => spec_assign_offsets(parsed, cursor as int)
                    == Option::Some(out@.map_values(|f: File| f@) + rest),
            },
            spec_index_with_offsets(body@, count as int) == spec_assign_offsets(
                parsed,
                cursor as int,
            ),
        decreases entries@.len(),
    {
        let ghost acc = out@.map_values(|f: File| f@);
        let ghost rem = entries@.map_values(|f: File| f@);
        let f = entries.remove(0);
        proof {
            assert(entries@.map_values(|g: File| g@) =~= rem.drop_first());
        }
        proof {
            assert(rem[0] == f@);
        }
        let flen = f.length;
        if flen > u64::MAX - cur64 {
            proof {
                assert(spec_assign_offsets(rem, cur64 as int) is None);
            }
            return Err(HsspError::MalformedHeader);
        }
        let g = File { offset: cur64, ..f };
        out.push(g);
        proof {
            assert(g@ == FileView { offset: cur64, ..f@ });
            assert(out@.map_values(|h: File| h@) =~= acc + seq![g@]);
            match spec_assign_offsets(rem.drop_first(), cur64 + flen) {
                Option::None => {
                },
                Option::Some(rest2) => {
                    assert(acc + (seq![g@] + rest2) =~= (acc + seq![g@]) + rest2);
                },
            }
            assert(entries@.map_values(|h: File| h@) =~= parsed.skip(acc.len() as int + 1));
        }
        cur64 = cur64 + flen;
    }
    proof {
        assert(entries@.map_values(|f: File| f@) =~= Seq::<FileView>::empty());
        assert(spec_assign_offsets(Seq::<FileView>::empty(), cur64 as int) == Option::Some(
            Seq::<FileView>::empty(),
        ));
        let acc = out@.map_values(|f: File| f@);
        assert(acc + Seq::<FileView>::empty() =~= acc);
        assert(spec_assign_offsets(parsed, cursor as int) == Option::Some(acc));
    }
    Ok(out)
}

} // verus!

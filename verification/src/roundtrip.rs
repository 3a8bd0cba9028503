use vstd::prelude::*;
use vstd::bytes::*;
use crate::bytes::{lemma_u48_to_from_le_bytes, spec_all_zero, spec_u48_to_le_bytes};
use crate::create::{spec_create, spec_create_header, spec_entry_bytes, spec_entry_head,
    spec_entry_tail, spec_file_ok, spec_index_bytes, spec_main_flag, spec_opt_bytes,
    spec_payload_bytes, spec_perm_byte1, spec_perm_byte2, spec_plain_body, spec_sources_ok};
use crate::index::{spec_assign_offsets, spec_coerce_ts, spec_parse_entry, spec_parse_index};
use crate::laws::lemma_permission_roundtrip;
use crate::types::{FileView, HsspError, Method};

verus! {

/// What the index parser reconstructs from one encoded entry: the entry's
/// own fields, with absent strings surfacing as present-but-empty ones,
/// timestamps coerced, the payload length recorded, and the `main` flag as
/// written.
pub open spec fn spec_decoded_file(f: FileView, content_len: u64, main_eff: bool) -> FileView {
    FileView {
        path: f.path,
        directory: f.directory,
        offset: 0,
        length: content_len,
        owner: Option::Some(spec_opt_bytes(f.owner)),
        group: Option::Some(spec_opt_bytes(f.group)),
        weblink: Option::Some(spec_opt_bytes(f.weblink)),
        creation: spec_coerce_ts(f.creation),
        modification: spec_coerce_ts(f.modification),
        access: spec_coerce_ts(f.access),
        permissions: f.permissions,
        hidden: f.hidden,
        system: f.system,
        enable_backup: f.enable_backup,
        require_backup: f.require_backup,
        readonly: f.readonly,
        main: main_eff,
    }
}

/// Each permission octet of every source fits in three bits.
pub open spec fn spec_perms_in_range(s: Seq<(FileView, Seq<u8>)>) -> bool {
    forall|i: int|
        0 <= i < s.len() ==> {
            &&& (#[trigger] s[i]).0.permissions[0] <= 7
            &&& s[i].0.permissions[1] <= 7
            &&& s[i].0.permissions[2] <= 7
        }
}

/// A subrange of an identified region of `c` is the region's own subrange.
pub proof fn lemma_subrange_at(c: Seq<u8>, d: Seq<u8>, off: int, a: int, b: int)
    requires
        0 <= off,
        off + d.len() <= c.len(),
        c.subrange(off, off + d.len()) == d,
        0 <= a <= b <= d.len(),
    ensures
        c.subrange(off + a, off + b) == d.subrange(a, b),
{
    assert forall|i: int| 0 <= i < b - a implies c.subrange(off + a, off + b)[i] == d.subrange(
        a,
        b,
    )[i] by {
        assert(d[a + i] == c.subrange(off, off + d.len())[a + i]);
    }
    assert(c.subrange(off + a, off + b) =~= d.subrange(a, b));
}

/// The two halves of a concatenation sit at its two ends.
pub proof fn lemma_concat_parts(a: Seq<u8>, b: Seq<u8>)
    ensures
        (a + b).subrange(0, a.len() as int) == a,
        (a + b).subrange(a.len() as int, (a + b).len() as int) == b,
{
    assert((a + b).subrange(0, a.len() as int) =~= a);
    assert((a + b).subrange(a.len() as int, (a + b).len() as int) =~= b);
}

/// The byte offset where the weblink bytes of an entry start.
pub open spec fn spec_weblink_start(pl: int, ol: int, gl: int) -> int {
    18 + pl + ol + gl
}

/// Reading one encoded index entry back gives the file it was written from.
#[verifier::rlimit(100)]
#[verifier::spinoff_prover]
pub proof fn lemma_parse_entry_of_encoded(
    body: Seq<u8>,
    pos: int,
    f: FileView,
    clen: u64,
    main_eff: bool,
)
    requires
        spec_file_ok(f),
        f.permissions[0] <= 7,
        f.permissions[1] <= 7,
        f.permissions[2] <= 7,
        0 <= pos,
        pos + spec_entry_bytes(f, clen, main_eff).len() <= body.len(),
        body.subrange(pos, pos + spec_entry_bytes(f, clen, main_eff).len()) == spec_entry_bytes(
            f,
            clen,
            main_eff,
        ),
    ensures
        spec_parse_entry(body, pos) == Option::Some(
            (
                spec_decoded_file(f, clen, main_eff),
                pos + spec_entry_bytes(f, clen, main_eff).len(),
            ),
        ),
{
    let e = spec_entry_bytes(f, clen, main_eff);
    let pl = f.path.len() as int;
    let ol = spec_opt_bytes(f.owner).len() as int;
    let gl = spec_opt_bytes(f.group).len() as int;
    let wl = spec_opt_bytes(f.weblink).len() as int;
    assert(spec_u64_to_le_bytes(clen).len() == 8) by {
        lemma_auto_spec_u64_to_from_le_bytes();
    }
    assert(spec_u16_to_le_bytes(f.path.len() as u16).len() == 2) by {
        lemma_auto_spec_u16_to_from_le_bytes();
    }
    assert(spec_u16_to_le_bytes(spec_opt_bytes(f.owner).len() as u16).len() == 2) by {
        lemma_auto_spec_u16_to_from_le_bytes();
    }
    assert(spec_u16_to_le_bytes(spec_opt_bytes(f.group).len() as u16).len() == 2) by {
        lemma_auto_spec_u16_to_from_le_bytes();
    }
    assert(spec_u32_to_le_bytes(spec_opt_bytes(f.weblink).len() as u32).len() == 4) by {
        lemma_auto_spec_u32_to_from_le_bytes();
    }
    let t0 = 18 + pl + ol + gl + wl;
    let su64 = spec_u64_to_le_bytes(clen);
    let sp16 = spec_u16_to_le_bytes(f.path.len() as u16);
    let so16 = spec_u16_to_le_bytes(spec_opt_bytes(f.owner).len() as u16);
    let sg16 = spec_u16_to_le_bytes(spec_opt_bytes(f.group).len() as u16);
    let sw32 = spec_u32_to_le_bytes(spec_opt_bytes(f.weblink).len() as u32);
    let head = spec_entry_head(f, clen);
    let tail = spec_entry_tail(f, main_eff);
    let h2 = su64 + sp16;
    let h3 = h2 + f.path;
    let h4 = h3 + so16;
    let h5 = h4 + spec_opt_bytes(f.owner);
    let h6 = h5 + sg16;
    let h7 = h6 + spec_opt_bytes(f.group);
    let h8 = h7 + sw32;
    assert(head == h8 + spec_opt_bytes(f.weblink));
    assert(e.len() == t0 + 20);
    // Identify every serialized piece inside `e`, peeling the left-nested
    // concatenation one layer at a time.
    lemma_concat_parts(head, tail);
    assert(e.subrange(0, t0) == head);
    lemma_concat_parts(h8, spec_opt_bytes(f.weblink));
    lemma_subrange_at(e, head, 0, 0, spec_weblink_start(pl, ol, gl));
    assert(e.subrange(0, spec_weblink_start(pl, ol, gl)) == h8);
    lemma_concat_parts(h7, sw32);
    lemma_subrange_at(e, h8, 0, 0, 14 + pl + ol + gl);
    assert(e.subrange(0, 14 + pl + ol + gl) == h7);
    lemma_concat_parts(h6, spec_opt_bytes(f.group));
    lemma_subrange_at(e, h7, 0, 0, 14 + pl + ol);
    assert(e.subrange(0, 14 + pl + ol) == h6);
    lemma_concat_parts(h5, sg16);
    lemma_subrange_at(e, h6, 0, 0, 12 + pl + ol);
    assert(e.subrange(0, 12 + pl + ol) == h5);
    lemma_concat_parts(h4, spec_opt_bytes(f.owner));
    lemma_subrange_at(e, h5, 0, 0, 12 + pl);
    assert(e.subrange(0, 12 + pl) == h4);
    lemma_concat_parts(h3, so16);
    lemma_subrange_at(e, h4, 0, 0, 10 + pl);
    assert(e.subrange(0, 10 + pl) == h3);
    lemma_concat_parts(h2, f.path);
    lemma_subrange_at(e, h3, 0, 0, 10);
    assert(e.subrange(0, 10) == h2);
    lemma_concat_parts(su64, sp16);
    lemma_subrange_at(e, h2, 0, 0, 8);
    // The pieces of `e`, by position.
    assert(e.subrange(0, 8) == su64);
    lemma_subrange_at(e, h2, 0, 8, 10);
    assert(e.subrange(8, 10) == sp16);
    lemma_subrange_at(e, h3, 0, 10, 10 + pl);
    assert(e.subrange(10, 10 + pl) == f.path);
    lemma_subrange_at(e, h4, 0, 10 + pl, 12 + pl);
    assert(e.subrange(10 + pl, 12 + pl) == so16);
    lemma_subrange_at(e, h5, 0, 12 + pl, 12 + pl + ol);
    assert(e.subrange(12 + pl, 12 + pl + ol) == spec_opt_bytes(f.owner));
    lemma_subrange_at(e, h6, 0, 12 + pl + ol, 14 + pl + ol);
    assert(e.subrange(12 + pl + ol, 14 + pl + ol) == sg16);
    lemma_subrange_at(e, h7, 0, 14 + pl + ol, 14 + pl + ol + gl);
    assert(e.subrange(14 + pl + ol, 14 + pl + ol + gl) == spec_opt_bytes(f.group));
    lemma_subrange_at(e, h8, 0, 14 + pl + ol + gl, 18 + pl + ol + gl);
    assert(e.subrange(14 + pl + ol + gl, 18 + pl + ol + gl) == sw32);
    lemma_subrange_at(e, head, 0, 18 + pl + ol + gl, t0);
    assert(e.subrange(18 + pl + ol + gl, t0) == spec_opt_bytes(f.weblink));
    // And those of the tail.
    let t2 = spec_u48_to_le_bytes(f.creation) + spec_u48_to_le_bytes(f.modification);
    let t3 = t2 + spec_u48_to_le_bytes(f.access);
    assert(tail == t3 + seq![spec_perm_byte1(f.permissions), spec_perm_byte2(f, main_eff)]);
    assert(e.subrange(t0, e.len() as int) == tail);
    lemma_concat_parts(t3, seq![spec_perm_byte1(f.permissions), spec_perm_byte2(f, main_eff)]);
    lemma_subrange_at(e, tail, t0, 0, 18);
    assert(e.subrange(t0, t0 + 18) == t3);
    lemma_concat_parts(t2, spec_u48_to_le_bytes(f.access));
    lemma_subrange_at(e, t3, t0, 12, 18);
    assert(e.subrange(t0 + 12, t0 + 18) == spec_u48_to_le_bytes(f.access));
    lemma_concat_parts(spec_u48_to_le_bytes(f.creation), spec_u48_to_le_bytes(f.modification));
    lemma_subrange_at(e, t3, t0, 0, 12);
    assert(e.subrange(t0, t0 + 12) == t2);
    lemma_subrange_at(e, t2, t0, 0, 6);
    assert(e.subrange(t0, t0 + 6) == spec_u48_to_le_bytes(f.creation));
    lemma_subrange_at(e, t2, t0, 6, 12);
    assert(e.subrange(t0 + 6, t0 + 12) == spec_u48_to_le_bytes(f.modification));
    lemma_subrange_at(e, tail, t0, 18, 20);
    // Carry each piece over to `body` and decode it.
    assert forall|a: int, b: int| 0 <= a <= b <= e.len() implies body.subrange(pos + a, pos + b)
        =~= e.subrange(a, b) by {
        assert forall|i: int| 0 <= i < b - a implies body.subrange(pos + a, pos + b)[i] == e.subrange(
            a,
            b,
        )[i] by {
            assert(e[a + i] == body.subrange(pos, pos + e.len())[a + i]);
        }
    }
    assert(body.subrange(pos, pos + 8) =~= su64);
    assert(spec_u64_from_le_bytes(su64) == clen) by {
        lemma_auto_spec_u64_to_from_le_bytes();
    }
    assert(body.subrange(pos + 8, pos + 10) =~= sp16);
    assert(spec_u16_from_le_bytes(sp16) == f.path.len() as u16) by {
        lemma_auto_spec_u16_to_from_le_bytes();
    }
    assert(body.subrange(pos + 10, pos + 10 + pl) =~= f.path);
    assert(body.subrange(pos + 10 + pl, pos + 12 + pl) =~= so16);
    assert(spec_u16_from_le_bytes(so16) == spec_opt_bytes(f.owner).len() as u16) by {
        lemma_auto_spec_u16_to_from_le_bytes();
    }
    assert(body.subrange(pos + 12 + pl, pos + 12 + pl + ol) =~= spec_opt_bytes(f.owner));
    assert(body.subrange(pos + 12 + pl + ol, pos + 14 + pl + ol) =~= sg16);
    assert(spec_u16_from_le_bytes(sg16) == spec_opt_bytes(f.group).len() as u16) by {
        lemma_auto_spec_u16_to_from_le_bytes();
    }
    assert(body.subrange(pos + 14 + pl + ol, pos + 14 + pl + ol + gl) =~= spec_opt_bytes(f.group));
    assert(body.subrange(pos + 14 + pl + ol + gl, pos + 18 + pl + ol + gl) =~= sw32);
    assert(spec_u32_from_le_bytes(sw32) == spec_opt_bytes(f.weblink).len() as u32) by {
        lemma_auto_spec_u32_to_from_le_bytes();
    }
    assert(body.subrange(pos + 18 + pl + ol + gl, pos + t0) =~= spec_opt_bytes(f.weblink));
    assert(body.subrange(pos + t0, pos + t0 + 6) =~= spec_u48_to_le_bytes(f.creation));
    assert(body.subrange(pos + t0 + 6, pos + t0 + 12) =~= spec_u48_to_le_bytes(f.modification));
    assert(body.subrange(pos + t0 + 12, pos + t0 + 18) =~= spec_u48_to_le_bytes(f.access));
    lemma_u48_to_from_le_bytes(f.creation);
    lemma_u48_to_from_le_bytes(f.modification);
    lemma_u48_to_from_le_bytes(f.access);
    assert(body[pos + t0 + 18] == e[t0 + 18]);
    assert(body[pos + t0 + 19] == e[t0 + 19]);
    assert(e[t0 + 18] == spec_perm_byte1(f.permissions) && e[t0 + 19] == spec_perm_byte2(
        f,
        main_eff,
    )) by {
        assert(spec_entry_tail(f, main_eff)[18] == spec_perm_byte1(f.permissions));
        assert(spec_entry_tail(f, main_eff)[19] == spec_perm_byte2(f, main_eff));
    }
    lemma_permission_roundtrip(f, main_eff);
    let r = spec_parse_entry(body, pos);
    assert(r matches Some(v) && v.1 == pos + e.len() && v.0 =~= spec_decoded_file(
        f,
        clen,
        main_eff,
    ));
}

/// The serialized index entries from position `j` on.
pub open spec fn spec_index_bytes_from(
    s: Seq<(FileView, Seq<u8>)>,
    main_file: Option<u32>,
    j: int,
) -> Seq<u8>
    decreases s.len() - j,
{
    if j < 0 || j >= s.len() {
        Seq::empty()
    } else {
        spec_entry_bytes(s[j].0, s[j].1.len() as u64, spec_main_flag(s[j].0, main_file, j))
            + spec_index_bytes_from(s, main_file, j + 1)
    }
}

/// The whole serialized index splits at any position into the first `j`
/// entries and the rest.
pub proof fn lemma_index_bytes_split(s: Seq<(FileView, Seq<u8>)>, main_file: Option<u32>, j: int)
    requires
        0 <= j <= s.len(),
    ensures
        spec_index_bytes(s, main_file, s.len() as int) == spec_index_bytes(s, main_file, j)
            + spec_index_bytes_from(s, main_file, j),
    decreases s.len() - j,
{
    if j == s.len() {
        assert(spec_index_bytes_from(s, main_file, j) =~= Seq::<u8>::empty());
        assert(spec_index_bytes(s, main_file, j) + Seq::<u8>::empty() =~= spec_index_bytes(
            s,
            main_file,
            j,
        ));
    } else {
        lemma_index_bytes_split(s, main_file, j + 1);
        assert(spec_index_bytes(s, main_file, j + 1) == spec_index_bytes(s, main_file, j)
            + spec_entry_bytes(
            s[j].0,
            s[j].1.len() as u64,
            spec_main_flag(s[j].0, main_file, j),
        ));
        assert((spec_index_bytes(s, main_file, j) + spec_entry_bytes(
            s[j].0,
            s[j].1.len() as u64,
            spec_main_flag(s[j].0, main_file, j),
        )) + spec_index_bytes_from(s, main_file, j + 1) =~= spec_index_bytes(s, main_file, j) + (
        spec_entry_bytes(s[j].0, s[j].1.len() as u64, spec_main_flag(s[j].0, main_file, j))
            + spec_index_bytes_from(s, main_file, j + 1)));
    }
}

/// The files the index parser reconstructs from the entries `j..` of a
/// serialized index.
pub open spec fn spec_decoded_files(
    s: Seq<(FileView, Seq<u8>)>,
    main_file: Option<u32>,
    j: int,
) -> Seq<FileView> {
    Seq::new(
        (s.len() - j) as nat,
        |k: int|
            spec_decoded_file(
                s[j + k].0,
                s[j + k].1.len() as u64,
                spec_main_flag(s[j + k].0, main_file, j + k),
            ),
    )
}

/// Parsing the serialized entries `j..` of an index back yields the files
/// they were written from, in order.
pub proof fn lemma_parse_index_of_encoded(
    s: Seq<(FileView, Seq<u8>)>,
    main_file: Option<u32>,
    body: Seq<u8>,
    j: int,
    pos: int,
)
    requires
        spec_sources_ok(s),
        spec_perms_in_range(s),
        0 <= j <= s.len(),
        0 <= pos,
        pos + spec_index_bytes_from(s, main_file, j).len() <= body.len(),
        body.subrange(pos, pos + spec_index_bytes_from(s, main_file, j).len())
            == spec_index_bytes_from(s, main_file, j),
    ensures
        spec_parse_index(body, pos, s.len() - j) == Option::Some(
            (
                spec_decoded_files(s, main_file, j),
                pos + spec_index_bytes_from(s, main_file, j).len(),
            ),
        ),
    decreases s.len() - j,
{
    if j == s.len() {
        assert(spec_decoded_files(s, main_file, j) =~= Seq::<FileView>::empty());
    } else {
        let e = spec_entry_bytes(s[j].0, s[j].1.len() as u64, spec_main_flag(s[j].0, main_file, j));
        let rest = spec_index_bytes_from(s, main_file, j + 1);
        let all = spec_index_bytes_from(s, main_file, j);
        assert(all == e + rest);
        assert forall|a: int, b: int| 0 <= a <= b <= all.len() implies body.subrange(
            pos + a,
            pos + b,
        ) =~= all.subrange(a, b) by {
            assert forall|i: int| 0 <= i < b - a implies body.subrange(pos + a, pos + b)[i]
                == all.subrange(a, b)[i] by {
                assert(all[a + i] == body.subrange(pos, pos + all.len())[a + i]);
            }
        }
        lemma_concat_parts(e, rest);
        assert(body.subrange(pos, pos + e.len()) =~= e);
        lemma_parse_entry_of_encoded(
            body,
            pos,
            s[j].0,
            s[j].1.len() as u64,
            spec_main_flag(s[j].0, main_file, j),
        );
        assert(all.subrange(e.len() as int, all.len() as int) == rest);
        assert(body.subrange(pos + e.len(), pos + e.len() + rest.len()) =~= rest);
        lemma_parse_index_of_encoded(s, main_file, body, j + 1, pos + e.len());
        let dec = spec_decoded_file(
            s[j].0,
            s[j].1.len() as u64,
            spec_main_flag(s[j].0, main_file, j),
        );
        assert(seq![dec] + spec_decoded_files(s, main_file, j + 1) =~= spec_decoded_files(
            s,
            main_file,
            j,
        ));
    }
}

/// The payloads of the first `j` sources are a prefix of the whole payload
/// region.
pub proof fn lemma_payload_prefix(s: Seq<(FileView, Seq<u8>)>, j: int)
    requires
        0 <= j <= s.len(),
    ensures
        spec_payload_bytes(s, j) == spec_payload_bytes(s, s.len() as int).subrange(
            0,
            spec_payload_bytes(s, j).len() as int,
        ),
        spec_payload_bytes(s, j).len() <= spec_payload_bytes(s, s.len() as int).len(),
    decreases s.len() - j,
{
    if j == s.len() {
        assert(spec_payload_bytes(s, j).subrange(0, spec_payload_bytes(s, j).len() as int)
            =~= spec_payload_bytes(s, j));
    } else {
        lemma_payload_prefix(s, j + 1);
        assert(spec_payload_bytes(s, j + 1) == spec_payload_bytes(s, j) + s[j].1);
        assert(spec_payload_bytes(s, j) =~= spec_payload_bytes(s, j + 1).subrange(
            0,
            spec_payload_bytes(s, j).len() as int,
        ));
        assert(spec_payload_bytes(s, j) =~= spec_payload_bytes(s, s.len() as int).subrange(
            0,
            spec_payload_bytes(s, j).len() as int,
        ));
    }
}

/// Assigning offsets to the decoded files of a serialized body succeeds,
/// and places file `i` exactly where its payload was written: at the end of
/// the index plus the lengths of the payloads before it.
pub proof fn lemma_assign_offsets_of_encoded(
    s: Seq<(FileView, Seq<u8>)>,
    main_file: Option<u32>,
    j: int,
    lbase: int,
)
    requires
        0 <= j <= s.len(),
        0 <= lbase,
        lbase + spec_payload_bytes(s, j).len() + (spec_payload_bytes(s, s.len() as int).len()
            - spec_payload_bytes(s, j).len()) <= u64::MAX,
    ensures
        spec_assign_offsets(
            spec_decoded_files(s, main_file, j),
            lbase + spec_payload_bytes(s, j).len(),
        ) matches Some(out) && out.len() == s.len() - j && (forall|i: int|
            0 <= i < out.len() ==> (#[trigger] out[i]) == (FileView {
                offset: (lbase + spec_payload_bytes(s, j + i).len()) as u64,
                ..spec_decoded_files(s, main_file, j)[i]
            })),
    decreases s.len() - j,
{
    if j < s.len() {
        let files = spec_decoded_files(s, main_file, j);
        let cursor = lbase + spec_payload_bytes(s, j).len();
        assert(spec_payload_bytes(s, j + 1) == spec_payload_bytes(s, j) + s[j].1);
        lemma_payload_prefix(s, j + 1);
        lemma_payload_prefix(s, j);
        assert(s[j].1.len() <= u64::MAX);
        assert(files[0].length == s[j].1.len());
        assert(cursor + files[0].length <= u64::MAX);
        lemma_assign_offsets_of_encoded(s, main_file, j + 1, lbase);
        let rest_in = spec_decoded_files(s, main_file, j + 1);
        assert(files.drop_first() =~= rest_in);
        let rest = spec_assign_offsets(rest_in, lbase + spec_payload_bytes(s, j + 1).len()).unwrap();
        assert(spec_assign_offsets(files, cursor) == Option::Some(
            seq![FileView { offset: cursor as u64, ..files[0] }] + rest,
        ));
        let out = seq![FileView { offset: cursor as u64, ..files[0] }] + rest;
        assert forall|i: int| 0 <= i < out.len() implies (#[trigger] out[i]) == (FileView {
            offset: (lbase + spec_payload_bytes(s, j + i).len()) as u64,
            ..spec_decoded_files(s, main_file, j)[i]
        }) by {
            if i > 0 {
                assert(out[i] == rest[i - 1]);
                assert(rest_in[i - 1] == spec_decoded_files(s, main_file, j)[i]);
            }
        }
    }
}

/// The fields of a freshly written header, read back out of the archive.
#[verifier::rlimit(100)]
#[verifier::spinoff_prover]
pub proof fn lemma_header_fields(
    data: Seq<u8>,
    version: u8,
    count: u32,
    ph: Seq<u8>,
    ivv: Seq<u8>,
    tag: Seq<u8>,
    ck: u32,
    b: Seq<u8>,
)
    requires
        ph.len() == 32,
        ivv.len() == 16,
        tag.len() == 4,
        data == spec_create_header(version, count, ph, ivv, tag, ck) + b,
    ensures
        data.len() == 128 + b.len(),
        data[4] == version,
        crate::header::spec_file_count(data) == count,
        crate::header::spec_pwd_hash(data) == ph,
        crate::header::spec_iv(data) == ivv,
        crate::header::spec_comp_tag(data) == tag,
        crate::header::spec_checksum(data) == ck,
        data.skip(128) == b,
{
    let g1 = seq![72u8, 83u8, 83u8, 80u8, version, 0u8, 0u8, 0u8];
    let cnt = spec_u32_to_le_bytes(count);
    let ckb = spec_u32_to_le_bytes(ck);
    assert(cnt.len() == 4 && ckb.len() == 4) by {
        lemma_auto_spec_u32_to_from_le_bytes();
    }
    let g2 = g1 + cnt;
    let g3 = g2 + ph;
    let g4 = g3 + ivv;
    let g5 = g4 + tag;
    let g6 = g5 + ckb;
    let g7 = g6 + Seq::new(28, |i: int| 0u8);
    let hd = spec_create_header(version, count, ph, ivv, tag, ck);
    assert(hd == g7 + Seq::new(32, |i: int| 0u8));
    assert(hd.len() == 128);
    lemma_concat_parts(hd, b);
    assert(data.subrange(0, 128) == hd);
    assert(data.subrange(128, data.len() as int) == b);
    assert(data.skip(128) =~= b);
    lemma_concat_parts(g7, Seq::new(32, |i: int| 0u8));
    lemma_subrange_at(data, hd, 0, 0, 96);
    assert(data.subrange(0, 96) == g7);
    lemma_concat_parts(g6, Seq::new(28, |i: int| 0u8));
    lemma_subrange_at(data, g7, 0, 0, 68);
    assert(data.subrange(0, 68) == g6);
    lemma_concat_parts(g5, ckb);
    lemma_subrange_at(data, g6, 0, 0, 64);
    assert(data.subrange(0, 64) == g5);
    lemma_concat_parts(g4, tag);
    lemma_subrange_at(data, g5, 0, 0, 60);
    assert(data.subrange(0, 60) == g4);
    lemma_concat_parts(g3, ivv);
    lemma_subrange_at(data, g4, 0, 0, 44);
    assert(data.subrange(0, 44) == g3);
    lemma_concat_parts(g2, ph);
    lemma_subrange_at(data, g3, 0, 0, 12);
    assert(data.subrange(0, 12) == g2);
    lemma_concat_parts(g1, cnt);
    lemma_subrange_at(data, g2, 0, 0, 8);
    assert(data.subrange(0, 8) == g1);
    assert(data[4] == g1[4]);
    lemma_subrange_at(data, g2, 0, 8, 12);
    assert(data.subrange(8, 12) == cnt);
    assert(crate::header::spec_file_count(data) == count) by {
        lemma_auto_spec_u32_to_from_le_bytes();
    }
    lemma_subrange_at(data, g3, 0, 12, 44);
    assert(data.subrange(12, 44) == ph);
    lemma_subrange_at(data, g4, 0, 44, 60);
    assert(data.subrange(44, 60) == ivv);
    lemma_subrange_at(data, g5, 0, 60, 64);
    assert(data.subrange(60, 64) == tag);
    lemma_subrange_at(data, g6, 0, 64, 68);
    assert(data.subrange(64, 68) == ckb);
    assert(crate::header::spec_checksum(data) == ck) by {
        lemma_auto_spec_u32_to_from_le_bytes();
    }
}

/// Each payload occupies its own slice of the concatenated payload region.
pub proof fn lemma_payload_slice(s: Seq<(FileView, Seq<u8>)>, i: int)
    requires
        0 <= i < s.len(),
    ensures
        spec_payload_bytes(s, i).len() + s[i].1.len() == spec_payload_bytes(s, i + 1).len(),
        spec_payload_bytes(s, i + 1).len() <= spec_payload_bytes(s, s.len() as int).len(),
        spec_payload_bytes(s, s.len() as int).subrange(
            spec_payload_bytes(s, i).len() as int,
            spec_payload_bytes(s, i + 1).len() as int,
        ) == s[i].1,
{
    let pi = spec_payload_bytes(s, i).len() as int;
    let pi1 = spec_payload_bytes(s, i + 1).len() as int;
    lemma_payload_prefix(s, i + 1);
    assert(spec_payload_bytes(s, i + 1) == spec_payload_bytes(s, i) + s[i].1);
    lemma_concat_parts(spec_payload_bytes(s, i), s[i].1);
    lemma_subrange_at(
        spec_payload_bytes(s, s.len() as int),
        spec_payload_bytes(s, i + 1),
        0,
        pi,
        pi1,
    );
}

/// The shared core of the round-trip argument: the index walk over the
/// serialized body returns the source files with sequential offsets, and
/// every payload occupies its own slice of that body.
#[verifier::rlimit(100)]
#[verifier::spinoff_prover]
proof fn lemma_roundtrip_body(sources: Seq<(FileView, Seq<u8>)>, main_file: Option<u32>)
    requires
        spec_sources_ok(sources),
        spec_perms_in_range(sources),
        spec_plain_body(sources, main_file).len() <= u64::MAX,
    ensures
        ({
            let n = sources.len() as int;
            let plain = spec_plain_body(sources, main_file);
            let ilen = spec_index_bytes(sources, main_file, n).len() as int;
            crate::index::spec_index_with_offsets(plain, n) matches Some(out) && {
                &&& out.len() == sources.len()
                &&& (forall|i: int|
                    0 <= i < sources.len() ==> (#[trigger] out[i]) == (FileView {
                        offset: (ilen + spec_payload_bytes(sources, i).len()) as u64,
                        ..spec_decoded_file(
                            sources[i].0,
                            sources[i].1.len() as u64,
                            spec_main_flag(sources[i].0, main_file, i),
                        )
                    }))
                &&& (forall|i: int|
                    0 <= i < sources.len() ==> (#[trigger] plain.subrange(
                        out[i].offset as int,
                        out[i].offset + out[i].length,
                    )) == sources[i].1)
            }
        }),
{
    let n = sources.len() as int;
    let plain = spec_plain_body(sources, main_file);
    let indexbytes = spec_index_bytes(sources, main_file, n);
    let payloads = spec_payload_bytes(sources, n);
    let ilen = indexbytes.len() as int;
    lemma_index_bytes_split(sources, main_file, 0);
    assert(spec_index_bytes(sources, main_file, 0) =~= Seq::<u8>::empty());
    assert(Seq::<u8>::empty() + spec_index_bytes_from(sources, main_file, 0)
        =~= spec_index_bytes_from(sources, main_file, 0));
    assert(spec_index_bytes_from(sources, main_file, 0) == indexbytes);
    assert(plain == indexbytes + payloads);
    lemma_concat_parts(indexbytes, payloads);
    assert(plain.subrange(0, ilen) == spec_index_bytes_from(sources, main_file, 0));
    lemma_parse_index_of_encoded(sources, main_file, plain, 0, 0);
    assert(spec_parse_index(plain, 0, n) == Option::Some(
        (spec_decoded_files(sources, main_file, 0), ilen),
    ));
    assert(spec_payload_bytes(sources, 0) =~= Seq::<u8>::empty());
    assert(plain.len() == ilen + payloads.len());
    lemma_assign_offsets_of_encoded(sources, main_file, 0, ilen);
    let out = spec_assign_offsets(spec_decoded_files(sources, main_file, 0), ilen).unwrap();
    assert(crate::index::spec_index_with_offsets(plain, n) == Option::Some(out));
    assert forall|i: int| 0 <= i < sources.len() implies (#[trigger] out[i]) == (FileView {
        offset: (ilen + spec_payload_bytes(sources, i).len()) as u64,
        ..spec_decoded_file(
            sources[i].0,
            sources[i].1.len() as u64,
            spec_main_flag(sources[i].0, main_file, i),
        )
    }) by {
        assert(spec_decoded_files(sources, main_file, 0)[i] == spec_decoded_file(
            sources[i].0,
            sources[i].1.len() as u64,
            spec_main_flag(sources[i].0, main_file, i),
        ));
    }
    assert forall|i: int| 0 <= i < sources.len() implies (#[trigger] plain.subrange(
        out[i].offset as int,
        out[i].offset + out[i].length,
    )) == sources[i].1 by {
        let pi = spec_payload_bytes(sources, i).len() as int;
        let pi1 = spec_payload_bytes(sources, i + 1).len() as int;
        lemma_payload_slice(sources, i);
        assert(payloads.subrange(pi, pi1) == sources[i].1);
        lemma_subrange_at(plain, payloads, ilen, pi, pi1);
        assert(out[i].offset == ilen + pi);
        assert(out[i].length == sources[i].1.len());
        assert(plain.subrange(ilen + pi, ilen + pi1) == sources[i].1);
    }
}

/// The round-trip conclusion: `data` parses under `password` to metadata
/// that mirrors `sources` file for file — length, strings, timestamps
/// (coerced), permission octets and flags, and sequential offsets — and the
/// extraction source holds every payload at its file's offset.
pub open spec fn spec_roundtrip_ok(
    sources: Seq<(FileView, Seq<u8>)>,
    main_file: Option<u32>,
    password: Option<Seq<u8>>,
    data: Seq<u8>,
) -> bool {
    let ilen = spec_index_bytes(sources, main_file, sources.len() as int).len() as int;
    crate::metadata::spec_parse(data, password) matches Ok(m) && {
        &&& m.version == 4
        &&& m.files.len() == sources.len()
        &&& (forall|i: int|
            0 <= i < sources.len() ==> (#[trigger] m.files[i]) == (FileView {
                offset: (ilen + spec_payload_bytes(sources, i).len()) as u64,
                ..spec_decoded_file(
                    sources[i].0,
                    sources[i].1.len() as u64,
                    spec_main_flag(sources[i].0, main_file, i),
                )
            }))
        &&& (forall|i: int|
            0 <= i < sources.len()
                ==> (#[trigger] crate::extract::spec_extract_source(m, data).0.subrange(
                m.files[i].offset + crate::extract::spec_extract_source(m, data).1,
                m.files[i].offset + crate::extract::spec_extract_source(m, data).1
                    + m.files[i].length,
            )) == sources[i].1)
    }
}

/// Round trip: an archive that `create` wrote parses back, under the same
/// password, to metadata that mirrors the inputs file for file — and
/// extraction reproduces every payload byte for byte. The cipher premises
/// (digest width, decryption inverting encryption) are exactly what the
/// encryption wrappers' contracts supply at every call site, so callers of
/// the wrappers can discharge them.
#[verifier::rlimit(100)]
#[verifier::spinoff_prover]
pub proof fn lemma_create_parse_roundtrip(
    sources: Seq<(FileView, Seq<u8>)>,
    enc: Option<(Seq<u8>, Seq<u8>)>,
    comp: Option<Method>,
    main_file: Option<u32>,
    data: Seq<u8>,
)
    requires
        spec_sources_ok(sources),
        spec_perms_in_range(sources),
        spec_plain_body(sources, main_file).len() <= u64::MAX,
        comp is None || comp == Option::Some(Method::NoCompression),
        (match enc {
            Option::Some((pw, iv)) => {
                &&& iv.len() == 16
                &&& !spec_all_zero(iv)
                &&& crate::primitives::sha256_of(crate::primitives::sha256_of(pw)).len() == 32
                &&& crate::primitives::aes256cbc_decrypt_of(
                    crate::primitives::aes256cbc_encrypt_of(
                        spec_plain_body(sources, main_file),
                        crate::primitives::sha256_of(pw),
                        iv,
                    ),
                    crate::primitives::sha256_of(pw),
                    iv,
                ) == spec_plain_body(sources, main_file)
            },
            Option::None => true,
        }),
        spec_create(4, sources, enc, comp, main_file) == Result::<Seq<u8>, HsspError>::Ok(data),
    ensures
        spec_roundtrip_ok(
            sources,
            main_file,
            match enc {
                Option::Some((pw, _)) => Option::Some(pw),
                Option::None => Option::None,
            },
            data,
        ),
{
    let n = sources.len() as int;
    let plain = spec_plain_body(sources, main_file);
    let indexbytes = spec_index_bytes(sources, main_file, n);
    let ilen = indexbytes.len() as int;
    let key = match enc {
        Option::Some((pw, _)) => crate::primitives::sha256_of(pw),
        Option::None => Seq::<u8>::empty(),
    };
    let ph = match enc {
        Option::Some((pw, _)) => crate::primitives::sha256_of(crate::primitives::sha256_of(pw)),
        Option::None => Seq::new(32, |i: int| 0u8),
    };
    let ivv = match enc {
        Option::Some((_, iv)) => iv,
        Option::None => Seq::new(16, |i: int| 0u8),
    };
    let b = match enc {
        Option::Some((pw, iv)) => crate::primitives::aes256cbc_encrypt_of(plain, key, iv),
        Option::None => plain,
    };
    let ck = crate::primitives::murmur3_of(b, crate::header::CHECKSUM_SEED);
    let tag = crate::header::spec_tag_of_method(Method::NoCompression);
    let hd = spec_create_header(4, sources.len() as u32, ph, ivv, tag, ck);
    assert(data == hd + b);
    lemma_header_fields(data, 4, sources.len() as u32, ph, ivv, tag, ck, b);
    assert(crate::header::spec_method_of_tag(tag) == Method::NoCompression);
    match enc {
        Option::Some((pw, iv)) => {
            assert(!spec_all_zero(crate::header::spec_iv(data)));
            assert(crate::header::spec_encrypted(data));
        },
        Option::None => {
            assert(spec_all_zero(crate::header::spec_pwd_hash(data)));
            assert(spec_all_zero(crate::header::spec_iv(data)));
            assert(!crate::header::spec_encrypted(data));
        },
    }
    assert(crate::primitives::spec_decompress(data.skip(128), Method::NoCompression)
        == Option::Some(data.skip(128)));
    let body = match enc {
        Option::Some((pw, iv)) => crate::primitives::aes256cbc_decrypt_of(
            data.skip(128),
            crate::primitives::sha256_of(pw),
            crate::header::spec_iv(data),
        ),
        Option::None => data.skip(128),
    };
    assert(body == plain);
    lemma_roundtrip_body(sources, main_file);
    let out = crate::index::spec_index_with_offsets(plain, n).unwrap();
    let password = match enc {
        Option::Some((pw, _)) => Option::Some(pw),
        Option::None => Option::None::<Seq<u8>>,
    };
    let parsed = crate::metadata::spec_parse(data, password);
    assert(parsed is Ok);
    let m = parsed.unwrap();
    assert(m.files == out);
    assert(m.version == 4);
    let src = crate::extract::spec_extract_source(m, data);
    match enc {
        Option::Some((pw, iv)) => {
            assert(m.encryption matches Some(e) && e.decrypted == plain);
            assert(src == (plain, 0int));
        },
        Option::None => {
            assert(m.encryption is None && m.compression is None);
            assert(src == (data, 128int));
        },
    }
    assert forall|i: int| 0 <= i < sources.len() implies (#[trigger] src.0.subrange(
        m.files[i].offset + src.1,
        m.files[i].offset + src.1 + m.files[i].length,
    )) == sources[i].1 by {
        lemma_payload_slice(sources, i);
        assert(plain.len() == ilen + spec_payload_bytes(sources, n).len());
        assert(out[i].offset == ilen + spec_payload_bytes(sources, i).len());
        assert(out[i].length == sources[i].1.len());
        assert(out[i].offset + out[i].length <= plain.len());
        assert(plain.subrange(out[i].offset as int, out[i].offset + out[i].length)
            == sources[i].1);
        match enc {
            Option::Some((pw, iv)) => {
                assert(src.0.subrange(
                    m.files[i].offset + src.1,
                    m.files[i].offset + src.1 + m.files[i].length,
                ) == plain.subrange(out[i].offset as int, out[i].offset + out[i].length));
            },
            Option::None => {
                lemma_subrange_at(
                    data,
                    b,
                    128,
                    out[i].offset as int,
                    out[i].offset + out[i].length,
                );
                assert(src.0.subrange(
                    m.files[i].offset + src.1,
                    m.files[i].offset + src.1 + m.files[i].length,
                ) == plain.subrange(out[i].offset as int, out[i].offset + out[i].length));
            },
        }
    }
}

} // verus!

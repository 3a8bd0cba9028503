use hssp::{create, extract, metadata, verify_integrity};
use hssp::{Compression, File, FileWithSource, HsspError, Method};

fn plain_file(path: &[u8]) -> File {
    File {
        path: path.to_vec(),
        directory: false,
        offset: 0,
        length: 0,
        owner: None,
        group: None,
        weblink: None,
        creation: 1_700_000_000_000,
        modification: 1_700_000_100_000,
        access: 1_700_000_200_000,
        permissions: [6, 4, 0],
        hidden: false,
        system: false,
        enable_backup: false,
        require_backup: false,
        readonly: false,
        main: false,
    }
}

fn murmur3_tail(data: &[u8]) -> u32 {
    let owned = data.to_vec();
    let mut reader = dh::data::read(owned);
    acr::hash::murmur3(&mut reader, 128, (data.len() - 128) as u64, 0x31082007).unwrap()
}

fn sha256_bytes(data: &[u8]) -> Vec<u8> {
    let owned = data.to_vec();
    let mut reader = dh::data::read(owned);
    acr::hash::sha256(&mut reader, 0, data.len() as u64)
        .unwrap()
        .to_vec()
}

#[test]
fn roundtrip_normal() {
    let sources = vec![FileWithSource(plain_file(b"test.txt"), b"Hello, world!".to_vec())];
    let (data, checksum) = create(4, sources, None, None, None).unwrap();

    // The checksum written into the header is the keyed Murmur3 of the raw
    // bytes past the header, as the hash crate computes it.
    assert_eq!(checksum, murmur3_tail(&data));

    let meta = metadata(&data, None).unwrap();
    assert!(verify_integrity(&data, &meta));
    assert_eq!(meta.version, 4);
    assert_eq!(meta.checksum, checksum);
    assert!(meta.encryption.is_none());
    assert!(meta.compression.is_none());
    assert!(meta.multivol.is_none());
    assert!(meta.comment.is_none());
    assert!(meta.generator.is_none());
    assert_eq!(meta.files.len(), 1);
    assert_eq!(meta.files[0].path, b"test.txt".to_vec());
    assert!(!meta.files[0].directory);
    // One entry with empty owner/group/weblink takes 46 bytes, so the
    // payload starts at body offset 46.
    assert_eq!(meta.files[0].offset, 46);
    assert_eq!(meta.files[0].length, 13);
    assert!(!meta.files[0].main);
    assert_eq!(meta.files[0].creation, 1_700_000_000_000);
    assert_eq!(meta.files[0].modification, 1_700_000_100_000);
    assert_eq!(meta.files[0].access, 1_700_000_200_000);
    assert_eq!(meta.files[0].permissions, [6, 4, 0]);
    // Empty strings parse as present-but-empty fields.
    assert_eq!(meta.files[0].owner, Some(Vec::new()));
    assert_eq!(meta.files[0].group, Some(Vec::new()));
    assert_eq!(meta.files[0].weblink, Some(Vec::new()));

    let payload = extract(&data, &meta, 0).unwrap();
    assert_eq!(payload, b"Hello, world!".to_vec());

    // With no layers, the payload sits at offset + 128 in the raw stream.
    let off = meta.files[0].offset as usize + 128;
    assert_eq!(&data[off..off + 13], b"Hello, world!");
}

#[test]
fn roundtrip_multiple() {
    let sources = vec![
        FileWithSource(plain_file(b"test.txt"), b"Hello, world!".to_vec()),
        FileWithSource(plain_file(b"test2.txt"), b"Hello, world! 2".to_vec()),
    ];
    let (data, _) = create(4, sources, None, None, None).unwrap();
    let meta = metadata(&data, None).unwrap();
    assert!(verify_integrity(&data, &meta));
    assert_eq!(meta.files.len(), 2);
    assert_eq!(meta.files[0].path, b"test.txt".to_vec());
    assert_eq!(meta.files[1].path, b"test2.txt".to_vec());
    // Entries take 46 and 47 bytes; offsets walk the payloads in order.
    assert_eq!(meta.files[0].offset, 93);
    assert_eq!(meta.files[0].length, 13);
    assert_eq!(meta.files[1].offset, 106);
    assert_eq!(meta.files[1].length, 15);
    assert_eq!(extract(&data, &meta, 0).unwrap(), b"Hello, world!".to_vec());
    assert_eq!(
        extract(&data, &meta, 1).unwrap(),
        b"Hello, world! 2".to_vec()
    );
}

#[test]
fn roundtrip_encrypted() {
    let pw = b"Password".to_vec();
    let iv = vec![9u8; 16];
    let sources = vec![FileWithSource(plain_file(b"test.txt"), b"Hello, world!".to_vec())];
    let (data, checksum) = create(4, sources, Some((&pw, &iv)), None, None).unwrap();
    assert_eq!(checksum, murmur3_tail(&data));

    // The stored body is ciphertext: the plaintext payload must not appear
    // at its plain-layout position.
    assert_ne!(&data[128 + 46..128 + 46 + 13], b"Hello, world!".as_slice());

    let meta = metadata(&data, Some(&pw)).unwrap();
    assert!(verify_integrity(&data, &meta));
    let enc = meta.encryption.as_ref().unwrap();
    let expected_hash = sha256_bytes(&sha256_bytes(b"Password"));
    assert_eq!(enc.hash, expected_hash);
    assert_eq!(enc.hash_expected, expected_hash);
    assert_eq!(enc.iv, iv);
    assert_eq!(meta.files.len(), 1);
    assert_eq!(meta.files[0].offset, 46);
    assert_eq!(meta.files[0].length, 13);
    assert_eq!(extract(&data, &meta, 0).unwrap(), b"Hello, world!".to_vec());
}

#[test]
fn encrypted_without_password() {
    let pw = b"Password".to_vec();
    let iv = vec![9u8; 16];
    let sources = vec![FileWithSource(plain_file(b"test.txt"), b"Hello, world!".to_vec())];
    let (data, _) = create(4, sources, Some((&pw, &iv)), None, None).unwrap();

    let meta = metadata(&data, None).unwrap();
    assert_eq!(meta.files.len(), 0);
    let enc = meta.encryption.as_ref().unwrap();
    assert_eq!(enc.hash, vec![0u8; 32]);
    assert_eq!(enc.hash_expected, sha256_bytes(&sha256_bytes(b"Password")));
    assert!(enc.decrypted.is_empty());
}

#[test]
fn encrypted_with_wrong_password() {
    let pw = b"Password".to_vec();
    let wrong = b"x".to_vec();
    let iv = vec![9u8; 16];
    let sources = vec![FileWithSource(plain_file(b"test.txt"), b"Hello, world!".to_vec())];
    let (data, _) = create(4, sources, Some((&pw, &iv)), None, None).unwrap();

    let meta = metadata(&data, Some(&wrong)).unwrap();
    assert_eq!(meta.files.len(), 0);
    let enc = meta.encryption.as_ref().unwrap();
    assert_eq!(enc.hash, sha256_bytes(&sha256_bytes(b"x")));
    assert_eq!(enc.hash_expected, sha256_bytes(&sha256_bytes(b"Password")));
    assert_ne!(enc.hash, enc.hash_expected);
}

#[test]
fn permission_bits_roundtrip() {
    let mut f = plain_file(b"a");
    f.permissions = [7, 5, 3];
    f.directory = false;
    f.hidden = true;
    f.system = true;
    f.enable_backup = false;
    f.require_backup = true;
    f.readonly = true;
    f.main = false;
    let sources = vec![FileWithSource(f, b"x".to_vec())];
    let (data, _) = create(4, sources, None, None, Some(0)).unwrap();
    let meta = metadata(&data, None).unwrap();
    let g = &meta.files[0];
    assert_eq!(g.permissions, [7, 5, 3]);
    assert!(!g.directory);
    assert!(g.hidden);
    assert!(g.system);
    assert!(!g.enable_backup);
    assert!(g.require_backup);
    assert!(g.readonly);
    // Designated as the main file at creation.
    assert!(g.main);
}

#[test]
fn integrity_detects_corruption() {
    let sources = vec![FileWithSource(plain_file(b"test.txt"), b"Hello, world!".to_vec())];
    let (data, _) = create(4, sources, None, None, None).unwrap();
    let meta = metadata(&data, None).unwrap();
    assert!(verify_integrity(&data, &meta));
    for pos in [128usize, 130, 150, data.len() - 1] {
        let mut corrupted = data.clone();
        corrupted[pos] ^= 0xff;
        assert!(!verify_integrity(&corrupted, &meta));
    }
}

#[test]
fn wrong_version_is_rejected() {
    let sources = vec![FileWithSource(plain_file(b"test.txt"), b"Hello, world!".to_vec())];
    let (mut data, _) = create(4, sources, None, None, None).unwrap();
    data[4] = 5;
    assert!(matches!(metadata(&data, None), Err(HsspError::UnsupportedVersion)));
}

#[test]
fn truncated_archives_are_malformed() {
    assert!(matches!(metadata(&vec![0u8; 3], None), Err(HsspError::MalformedHeader)));
    let sources = vec![FileWithSource(plain_file(b"test.txt"), b"Hello, world!".to_vec())];
    let (data, _) = create(4, sources, None, None, None).unwrap();
    let truncated = data[..100].to_vec();
    assert!(matches!(metadata(&truncated, None), Err(HsspError::MalformedHeader)));
}

#[test]
fn overlong_file_count_is_malformed() {
    let sources = vec![FileWithSource(plain_file(b"test.txt"), b"Hello, world!".to_vec())];
    let (mut data, _) = create(4, sources, None, None, None).unwrap();
    data[8] = 2;
    assert!(matches!(metadata(&data, None), Err(HsspError::MalformedHeader)));
}

#[test]
fn extraction_past_end_is_io_error() {
    let sources = vec![FileWithSource(plain_file(b"test.txt"), b"Hello, world!".to_vec())];
    let (data, _) = create(4, sources, None, None, None).unwrap();
    let meta = metadata(&data, None).unwrap();
    let short = data[..130].to_vec();
    assert_eq!(extract(&short, &meta, 0), Err(HsspError::Io));
}

#[test]
fn compression_request_is_refused() {
    // The codec layer only passes bytes through unchanged; asking it to
    // compress with LZMA is an error.
    let sources = vec![FileWithSource(plain_file(b"test.txt"), b"Hello, world!".to_vec())];
    let r = create(
        4,
        sources,
        None,
        Some(Compression {
            method: Method::Lzma,
            decompressed: None,
        }),
        None,
    );
    assert_eq!(r.map(|_| ()), Err(HsspError::CompressionError));
}

#[test]
fn undecodable_compressed_body_is_an_error() {
    let sources = vec![FileWithSource(plain_file(b"test.txt"), b"Hello, world!".to_vec())];
    let (mut data, _) = create(4, sources, None, None, None).unwrap();
    // Mark the plain body as LZMA; it is not a valid LZMA stream.
    data[60] = b'L';
    data[61] = b'Z';
    data[62] = b'M';
    data[63] = b'A';
    assert!(matches!(metadata(&data, None), Err(HsspError::CompressionError)));
}

#[test]
fn header_fields_parse() {
    // A hand-written header: version 4, no files, a previous-volume
    // checksum, a NUL-padded comment and generator.
    let mut data = vec![0u8; 128];
    data[4] = 4;
    data[60] = b'N';
    data[61] = b'O';
    data[62] = b'N';
    data[63] = b'E';
    data[68] = 7; // total files across volumes
    data[76] = 9; // continue offset
    data[84] = 3; // previous volume checksum
    data[92] = 2; // volume id
    data[96] = b'h';
    data[97] = b'i';
    data[112] = b'g';
    data[113] = b'e';
    data[114] = b'n';
    let meta = metadata(&data, None).unwrap();
    assert_eq!(meta.files.len(), 0);
    let mv = meta.multivol.as_ref().unwrap();
    assert_eq!(mv.total_files, 7);
    assert_eq!(mv.continue_offset, 9);
    assert_eq!(mv.previous_checksum, Some(3));
    assert_eq!(mv.next_checksum, None);
    assert_eq!(mv.id, 2);
    assert_eq!(meta.comment, Some(b"hi".to_vec()));
    assert_eq!(meta.generator, Some(b"gen".to_vec()));
}

#[test]
fn directories_and_empty_payloads() {
    let mut d = plain_file(b"dir");
    d.directory = true;
    let sources = vec![
        FileWithSource(d, Vec::new()),
        FileWithSource(plain_file(b"f"), b"abc".to_vec()),
    ];
    let (data, _) = create(4, sources, None, None, None).unwrap();
    let meta = metadata(&data, None).unwrap();
    assert!(meta.files[0].directory);
    assert_eq!(meta.files[0].length, 0);
    assert_eq!(extract(&data, &meta, 0).unwrap(), Vec::<u8>::new());
    assert_eq!(extract(&data, &meta, 1).unwrap(), b"abc".to_vec());
    // Both payload regions start right after the index; the empty one is
    // zero-width.
    assert_eq!(meta.files[1].offset, meta.files[0].offset);
}

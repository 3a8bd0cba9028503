use vstd::prelude::*;

verus! {

/// Compression codec named by the four-byte tag in the archive header.
#[derive(Clone, Copy, PartialEq, Eq, Structural, Debug)]
pub enum Method {
    /// Tag `NONE`: the body is stored as-is.
    NoCompression,
    /// Tag `DEFL`: raw DEFLATE.
    Deflate,
    /// Tag `DFLT`: zlib-wrapped DEFLATE.
    DeflateZlib,
    /// Tag `LZMA`: raw LZMA.
    Lzma,
    /// Any other tag.
    Unsupported,
}

/// The ways reading or writing an archive can fail. A wrong or missing
/// password is not among them: it yields a metadata value with no files.
#[derive(Clone, Copy, PartialEq, Eq, Structural, Debug)]
pub enum HsspError {
    /// A read or write fell outside the underlying byte range.
    Io,
    /// The header's version byte is not 4.
    UnsupportedVersion,
    /// The header or the file index ends before its declared contents do.
    MalformedHeader,
    /// The compression codec refused the body.
    CompressionError,
}

/// Linkage of one volume of a multi-volume archive to its neighbours.
#[derive(Clone, PartialEq, Eq, Structural, Debug)]
pub struct Multivol {
    pub total_files: u64,
    pub continue_offset: u64,
    pub previous_checksum: Option<u32>,
    pub next_checksum: Option<u32>,
    pub id: u32,
}

/// One entry of the archive's file index. `offset` and `length` are relative
/// to the start of the plaintext body (after any decompression and
/// decryption), not to the raw stream. String fields hold the bytes exactly
/// as stored; timestamps count milliseconds since the Unix epoch, read from
/// 48-bit little-endian fields.
#[derive(Clone, Debug)]
pub struct File {
    pub path: Vec<u8>,
    pub directory: bool,
    pub offset: u64,
    pub length: u64,
    pub owner: Option<Vec<u8>>,
    pub group: Option<Vec<u8>>,
    pub weblink: Option<Vec<u8>>,
    pub creation: u64,
    pub modification: u64,
    pub access: u64,
    pub permissions: [u8; 3],
    pub hidden: bool,
    pub system: bool,
    pub enable_backup: bool,
    pub require_backup: bool,
    pub readonly: bool,
    pub main: bool,
}

/// Mathematical model of a file entry.
#[verifier::ext_equal]
pub ghost struct FileView {
    pub path: Seq<u8>,
    pub directory: bool,
    pub offset: u64,
    pub length: u64,
    pub owner: Option<Seq<u8>>,
    pub group: Option<Seq<u8>>,
    pub weblink: Option<Seq<u8>>,
    pub creation: u64,
    pub modification: u64,
    pub access: u64,
    pub permissions: Seq<u8>,
    pub hidden: bool,
    pub system: bool,
    pub enable_backup: bool,
    pub require_backup: bool,
    pub readonly: bool,
    pub main: bool,
}

impl View for File {
    type V = FileView;

    open spec fn view(&self) -> FileView {
        FileView {
            path: self.path@,
            directory: self.directory,
            offset: self.offset,
            length: self.length,
            owner: match self.owner {
                Option::Some(v) => Option::Some(v@),
                Option::None => Option::None,
            },
            group: match self.group {
                Option::Some(v) => Option::Some(v@),
                Option::None => Option::None,
            },
            weblink: match self.weblink {
                Option::Some(v) => Option::Some(v@),
                Option::None => Option::None,
            },
            creation: self.creation,
            modification: self.modification,
            access: self.access,
            permissions: self.permissions@,
            hidden: self.hidden,
            system: self.system,
            enable_backup: self.enable_backup,
            require_backup: self.require_backup,
            readonly: self.readonly,
            main: self.main,
        }
    }
}

/// Password-verification state of an encrypted archive. `hash` is the double
/// SHA-256 of the supplied password (all zero when none was supplied),
/// `hash_expected` the value stored in the header; `decrypted` holds the
/// plaintext body when they matched, and is empty otherwise.
#[derive(Clone, Debug)]
pub struct Encryption {
    pub hash: Vec<u8>,
    pub hash_expected: Vec<u8>,
    pub iv: Vec<u8>,
    pub decrypted: Vec<u8>,
}

/// Mathematical model of the encryption envelope.
#[verifier::ext_equal]
pub ghost struct EncryptionView {
    pub hash: Seq<u8>,
    pub hash_expected: Seq<u8>,
    pub iv: Seq<u8>,
    pub decrypted: Seq<u8>,
}

impl View for Encryption {
    type V = EncryptionView;

    open spec fn view(&self) -> EncryptionView {
        EncryptionView {
            hash: self.hash@,
            hash_expected: self.hash_expected@,
            iv: self.iv@,
            decrypted: self.decrypted@,
        }
    }
}

/// Compression layer of an archive: the codec tag, and the decompressed body
/// when it was materialized (it is absent when an encrypted archive was
/// opened without its password).
#[derive(Clone, Debug)]
pub struct Compression {
    pub method: Method,
    pub decompressed: Option<Vec<u8>>,
}

/// Mathematical model of the compression layer.
#[verifier::ext_equal]
pub ghost struct CompressionView {
    pub method: Method,
    pub decompressed: Option<Seq<u8>>,
}

impl View for Compression {
    type V = CompressionView;

    open spec fn view(&self) -> CompressionView {
        CompressionView {
            method: self.method,
            decompressed: match self.decompressed {
                Option::Some(v) => Option::Some(v@),
                Option::None => Option::None,
            },
        }
    }
}

/// Everything the parser learns about an archive. Immutable once built.
#[derive(Clone, Debug)]
pub struct Metadata {
    pub version: u8,
    pub checksum: u32,
    pub encryption: Option<Encryption>,
    pub files: Vec<File>,
    pub compression: Option<Compression>,
    pub multivol: Option<Multivol>,
    pub comment: Option<Vec<u8>>,
    pub generator: Option<Vec<u8>>,
}

/// Mathematical model of parsed archive metadata.
#[verifier::ext_equal]
pub ghost struct MetadataView {
    pub version: u8,
    pub checksum: u32,
    pub encryption: Option<EncryptionView>,
    pub files: Seq<FileView>,
    pub compression: Option<CompressionView>,
    pub multivol: Option<Multivol>,
    pub comment: Option<Seq<u8>>,
    pub generator: Option<Seq<u8>>,
}

impl View for Metadata {
    type V = MetadataView;

    open spec fn view(&self) -> MetadataView {
        MetadataView {
            version: self.version,
            checksum: self.checksum,
            encryption: match self.encryption {
                Option::Some(e) => Option::Some(e@),
                Option::None => Option::None,
            },
            files: self.files@.map_values(|f: File| f@),
            compression: match self.compression {
                Option::Some(c) => Option::Some(c@),
                Option::None => Option::None,
            },
            multivol: self.multivol,
            comment: match self.comment {
                Option::Some(v) => Option::Some(v@),
                Option::None => Option::None,
            },
            generator: match self.generator {
                Option::Some(v) => Option::Some(v@),
                Option::None => Option::None,
            },
        }
    }
}

/// A file to be packed into a new archive: its index entry fields (the
/// `offset` and `length` fields are ignored and recomputed) together with its
/// payload bytes.
pub struct FileWithSource(pub File, pub Vec<u8>);

impl View for FileWithSource {
    type V = (FileView, Seq<u8>);

    open spec fn view(&self) -> (FileView, Seq<u8>) {
        (self.0@, self.1@)
    }
}

} // verus!

use vstd::prelude::*;
use flate2::read::DeflateDecoder;
use flate2::write::DeflateEncoder;
use flate2::Compression;
use std::io::{Read, Write};
use crate::chunk::{decrypt_bytes, decrypt_stream, encrypt_bytes, sealed_len, CryptoError, CHUNK_SIZE};
use crate::crypto::{hkdf_sha256, HkdfContext};
use crate::paths::{chars_of, extension, extension_of, range_eq};
use vstd::string::StringSliceAdditionalSpecFns;

verus! {

/// The first four bytes of every vault: `EVFS`.
pub const MAGIC: [u8; 4] = [69, 86, 70, 83];

/// The container format version written into new headers.
pub const FORMAT_VERSION: u8 = 2;

/// Files smaller than this are stored uncompressed.
pub const MIN_COMPRESS_SIZE: u64 = 256;

/// The HKDF context that derives the index key: the bytes of `index_key`.
pub const INDEX_KEY_INFO: [u8; 9] = [105, 110, 100, 101, 120, 95, 107, 101, 121];

/// The vault header: magic, version, the salt of the key derivation, and where
/// the encrypted index lies.
#[derive(Debug)]
pub struct Header {
    pub magic: [u8; 4],
    pub version: u8,
    pub salt: [u8; 16],
    pub index_offset: u64,
    pub index_size: u64,
}

impl Header {
    /// A header for a new vault with `salt`, its index not yet placed.
    pub fn new(salt: &[u8; 16]) -> (r: Self)
        ensures
            r.magic@ == MAGIC@,
            r.version == FORMAT_VERSION,
            r.salt@ == salt@,
            r.index_offset == 0,
            r.index_size == 0,
    {
        Header { magic: MAGIC, version: FORMAT_VERSION, salt: *salt, index_offset: 0, index_size: 0 }
    }
}

/// One stored file: its id, its path inside the vault, where its encrypted
/// data lies and how long it is, its original size, and whether it was
/// compressed before encryption.
#[derive(Debug)]
pub struct FileEntry {
    pub id: [u8; 16],
    pub path: String,
    pub offset: u64,
    pub stored_size: u64,
    pub original_size: u64,
    pub compressed: bool,
}

/// What a `FileEntry` says, with its id as bytes and its path as characters.
pub struct FileEntryView {
    pub id: Seq<u8>,
    pub path: Seq<char>,
    pub offset: u64,
    pub stored_size: u64,
    pub original_size: u64,
    pub compressed: bool,
}

impl View for FileEntry {
    type V = FileEntryView;

    open spec fn view(&self) -> FileEntryView {
        FileEntryView {
            id: self.id@,
            path: self.path@,
            offset: self.offset,
            stored_size: self.stored_size,
            original_size: self.original_size,
            compressed: self.compressed,
        }
    }
}

impl Clone for FileEntry {
    fn clone(&self) -> (r: Self)
        ensures
            r == *self,
    {
        FileEntry {
            id: self.id,
            path: self.path.clone(),
            offset: self.offset,
            stored_size: self.stored_size,
            original_size: self.original_size,
            compressed: self.compressed,
        }
    }
}

/// The index of a vault: every stored file.
#[derive(Debug)]
pub struct ContainerIndex {
    pub entries: Vec<FileEntry>,
}

/// Why the stored bytes of a header or an index do not decode.
#[derive(Debug, Clone, Copy, PartialEq, Eq, Structural)]
pub enum DecodeFailure {
    /// The bytes end inside a number, an id or a flag.
    UnexpectedEnd,
    /// The bytes end inside a path.
    EndInPath,
    /// A path is not UTF-8: how long its valid beginning is, and how long
    /// the bad sequence after it is, unless the path ends inside it.
    InvalidUtf8 { valid_up_to: usize, error_len: Option<usize> },
    /// A compression flag is neither 0 nor 1.
    InvalidBool(u8),
}

/// Failures of reading or writing a vault.
#[derive(Debug, Clone, Copy, PartialEq, Eq, Structural)]
pub enum VaultError {
    /// The header does not start with `EVFS`.
    MagicMismatch,
    /// Encryption or decryption failed.
    Crypto(CryptoError),
    /// Deflate compression failed.
    Compress,
    /// The data is not a valid deflate stream.
    Decompress,
    /// The data ends before its deflate stream does.
    IncompleteStream,
    /// The bytes of a header or an index do not decode, and why.
    Malformed(DecodeFailure),
    /// The vault would be longer than 2^64 bytes.
    TooLarge,
}

/// What flate2's `DeflateEncoder` at `Compression::new(3)` makes of `data`.
pub uninterp spec fn deflate_level3(data: Seq<u8>) -> Seq<u8>;

/// What flate2's `DeflateDecoder` reads out of `data` to its end; where the
/// decoder refuses `data`, whether it did so because the input ended before
/// the stream (`true`) rather than because the stream is corrupt (`false`).
pub uninterp spec fn inflate(data: Seq<u8>) -> Result<Seq<u8>, bool>;

/// The error a refused decompression is answered with.
pub open spec fn inflate_error(incomplete: bool) -> VaultError {
    if incomplete {
        VaultError::IncompleteStream
    } else {
        VaultError::Decompress
    }
}

/// Compresses `data` with flate2's `DeflateEncoder` at level 3 onto the end of
/// `writer`. The contract claims that the call appends the named compressed
/// form, and that flate2's decoder reads that form back as `data`. It also
/// claims success: the encoder writes into a `Vec`, whose writes do not fail,
/// and its codec reports an error only for bad parameters or a broken stream
/// state, which a fresh encoder at a fixed level does not have.
#[verifier::external_body]
pub fn compress(data: &[u8], writer: Vec<u8>) -> (r: Result<Vec<u8>, VaultError>)
    ensures
        r is Ok,
        r matches Ok(v) ==> v@ == writer@ + deflate_level3(data@) && (inflate(deflate_level3(data@)) matches Ok(b) && b == data@),
{
    let mut encoder = DeflateEncoder::new(writer, Compression::new(3));
    if encoder.write_all(data).is_err() {
        return Err(VaultError::Compress);
    }
    match encoder.finish() {
        Ok(v) => Ok(v),
        Err(_) => Err(VaultError::Compress),
    }
}

/// Decompresses `data` with flate2's `DeflateDecoder`, reading to its end. The
/// decoder reads a slice, so what it gives depends on the bytes alone; the
/// contract claims that the call succeeds exactly where the named
/// decompression exists, and gives it. flate2 fails with `UnexpectedEof`
/// ("incomplete deflate stream") where the input ends first, and with
/// "corrupt deflate stream" otherwise; the error says which.
#[verifier::external_body]
pub fn decompress(data: &[u8]) -> (r: Result<Vec<u8>, VaultError>)
    ensures
        r matches Ok(v) ==> (inflate(data@) matches Ok(b) && b == v@),
        r is Ok <==> inflate(data@) is Ok,
        r matches Err(e) ==> inflate(data@) matches Err(incomplete) && e == inflate_error(incomplete),
{
    let mut decompressed = Vec::new();
    match DeflateDecoder::new(data).read_to_end(&mut decompressed) {
        Ok(_) => Ok(decompressed),
        Err(e) if e.kind() == std::io::ErrorKind::UnexpectedEof => Err(VaultError::IncompleteStream),
        Err(_) => Err(VaultError::Decompress),
    }
}

/// What is encrypted of a file's contents: their compressed form if the file
/// is compressed, else the contents themselves.
pub open spec fn packed_form(data: Seq<u8>, compressed: bool) -> Seq<u8> {
    if compressed {
        deflate_level3(data)
    } else {
        data
    }
}

/// Whether `p` has more chunks than the `u32` counter of a stream can number.
pub open spec fn too_long_for_stream(p: Seq<u8>) -> bool {
    p.len() / (CHUNK_SIZE as nat) >= u32::MAX
}

/// The key of the file with id `id` in a vault whose master key is `ikm`.
pub open spec fn file_key(salt: Seq<u8>, ikm: Seq<u8>, id: [u8; 16]) -> Seq<u8> {
    hkdf_sha256(salt, ikm, id@)
}

/// The key of a vault's index.
pub open spec fn index_key(salt: Seq<u8>, ikm: Seq<u8>) -> Seq<u8> {
    hkdf_sha256(salt, ikm, INDEX_KEY_INFO@)
}

/// The contents of a file as stored: decrypted under its key with its id as
/// associated data, then decompressed if it was compressed.
pub open spec fn file_plaintext(salt: Seq<u8>, ikm: Seq<u8>, id: [u8; 16], compressed: bool, stored: Seq<u8>) -> Option<Seq<u8>> {
    match decrypt_stream(file_key(salt, ikm, id), Some(id), stored) {
        Ok(p) => if compressed {
            match inflate(p) {
                Ok(b) => Some(b),
                Err(_) => None,
            }
        } else {
            Some(p)
        },
        Err(_) => None,
    }
}

/// What reading a file's stored bytes gives: the contents, or the first step
/// that fails, decryption or decompression.
pub open spec fn file_read(salt: Seq<u8>, ikm: Seq<u8>, id: [u8; 16], compressed: bool, stored: Seq<u8>) -> Result<Seq<u8>, VaultError> {
    match decrypt_stream(file_key(salt, ikm, id), Some(id), stored) {
        Err(e) => Err(VaultError::Crypto(e)),
        Ok(p) => if compressed {
            match inflate(p) {
                Ok(b) => Ok(b),
                Err(incomplete) => Err(inflate_error(incomplete)),
            }
        } else {
            Ok(p)
        },
    }
}

/// The bytes of an index as stored: decrypted under the index key with no
/// associated prefix, then decompressed.
pub open spec fn index_plaintext(salt: Seq<u8>, ikm: Seq<u8>, stored: Seq<u8>) -> Option<Seq<u8>> {
    match decrypt_stream(index_key(salt, ikm), None, stored) {
        Ok(p) => match inflate(p) {
            Ok(b) => Some(b),
            Err(_) => None,
        },
        Err(_) => None,
    }
}

/// What reading an index's stored bytes gives: the serialized index, or the
/// first step that fails, decryption or decompression.
pub open spec fn index_read(salt: Seq<u8>, ikm: Seq<u8>, stored: Seq<u8>) -> Result<Seq<u8>, VaultError> {
    match decrypt_stream(index_key(salt, ikm), None, stored) {
        Err(e) => Err(VaultError::Crypto(e)),
        Ok(p) => match inflate(p) {
            Ok(b) => Ok(b),
            Err(incomplete) => Err(inflate_error(incomplete)),
        },
    }
}

/// An open vault: its index and the key derivation for its files.
pub struct VaultReader {
    pub index: ContainerIndex,
    pub hkdf: HkdfContext,
}

impl VaultReader {
    /// Checks the header's magic and derives the vault's keys from `password`:
    /// Argon2id over the header's salt, then HKDF extraction.
    pub fn unlock(header: &Header, password: &str) -> (r: Result<HkdfContext, VaultError>)
        ensures
            r is Ok <==> header.magic@ == MAGIC@,
            r matches Err(e) ==> e == VaultError::MagicMismatch,
            r matches Ok(h) ==> h.spec_salt() == header.salt@ && h.spec_ikm() == crate::crypto::argon2id_key(password.spec_bytes(), header.salt@),
    {
        if header.magic[0] != MAGIC[0] || header.magic[1] != MAGIC[1] || header.magic[2] != MAGIC[2] || header.magic[3] != MAGIC[3] {
            assert(header.magic@ != MAGIC@) by {
                if header.magic@ == MAGIC@ {
                    assert(header.magic@[0] == MAGIC@[0] && header.magic@[1] == MAGIC@[1]);
                    assert(header.magic@[2] == MAGIC@[2] && header.magic@[3] == MAGIC@[3]);
                }
            }
            return Err(VaultError::MagicMismatch);
        }
        assert(header.magic@ =~= MAGIC@);
        let salt = header.salt;
        let master_key = match crate::crypto::argon2id(password.as_bytes(), salt) {
            Ok(k) => k,
            Err(_) => return Err(VaultError::MagicMismatch),
        };
        Ok(HkdfContext::new(&salt, master_key.as_slice()))
    }

    /// Where the encrypted index of a vault lies, by its header: its offset and
    /// size. A header without the magic is refused before anything else is
    /// read.
    pub fn index_location(header: &Header) -> (r: Result<(u64, u64), VaultError>)
        ensures
            r is Ok <==> header.magic@ == MAGIC@,
            r matches Ok((offset, size)) ==> offset == header.index_offset && size == header.index_size,
            r matches Err(e) ==> e == VaultError::MagicMismatch,
    {
        if header.magic[0] != MAGIC[0] || header.magic[1] != MAGIC[1] || header.magic[2] != MAGIC[2] || header.magic[3] != MAGIC[3] {
            assert(header.magic@ != MAGIC@) by {
                if header.magic@ == MAGIC@ {
                    assert(header.magic@[0] == MAGIC@[0] && header.magic@[1] == MAGIC@[1]);
                    assert(header.magic@[2] == MAGIC@[2] && header.magic@[3] == MAGIC@[3]);
                }
            }
            return Err(VaultError::MagicMismatch);
        }
        assert(header.magic@ =~= MAGIC@);
        Ok((header.index_offset, header.index_size))
    }

    /// Decrypts and decompresses an encrypted index, giving the serialized index.
    pub fn decrypt_index(hkdf: &HkdfContext, encrypted_index: Vec<u8>) -> (r: Result<Vec<u8>, VaultError>)
        ensures
            match index_read(hkdf.spec_salt(), hkdf.spec_ikm(), encrypted_index@) {
                Ok(b) => r matches Ok(v) && v@ == b,
                Err(e) => r == Err::<Vec<u8>, VaultError>(e),
            },
            r matches Ok(v) ==> index_plaintext(hkdf.spec_salt(), hkdf.spec_ikm(), encrypted_index@) == Some(v@),
            r is Ok <==> index_plaintext(hkdf.spec_salt(), hkdf.spec_ikm(), encrypted_index@) is Some,
    {
        let key = match hkdf.derive(&INDEX_KEY_INFO) {
            Ok(k) => k,
            Err(_) => return Err(VaultError::Crypto(CryptoError::DecryptFailed)),
        };
        let plain = match decrypt_bytes(encrypted_index, &key, None) {
            Ok(p) => p,
            Err(e) => return Err(VaultError::Crypto(e)),
        };
        decompress(plain.as_slice())
    }

    /// Decrypts a file's stored bytes, as `read_file_content` does, onto the
    /// end of `writer`; on failure `writer` is left as it was.
    pub fn extract_file(&self, entry: &FileEntry, stored: Vec<u8>, writer: &mut Vec<u8>) -> (r: Result<(), VaultError>)
        ensures
            r is Ok ==> file_plaintext(self.hkdf.spec_salt(), self.hkdf.spec_ikm(), entry.id, entry.compressed, stored@) == Some(
                final(writer)@.skip(old(writer)@.len() as int),
            ) && final(writer)@.take(old(writer)@.len() as int) == old(writer)@,
            r is Err ==> final(writer)@ == old(writer)@,
            r is Ok <==> file_plaintext(self.hkdf.spec_salt(), self.hkdf.spec_ikm(), entry.id, entry.compressed, stored@) is Some,
            match file_read(self.hkdf.spec_salt(), self.hkdf.spec_ikm(), entry.id, entry.compressed, stored@) {
                Ok(b) => r is Ok && final(writer)@ == old(writer)@ + b,
                Err(e) => r == Err::<(), VaultError>(e),
            },
    {
        match self.read_file_content(entry, stored) {
            Ok(data) => {
                let ghost before = writer@;
                crate::chunk::append_bytes(writer, data.as_slice());
                assert(writer@.skip(before.len() as int) =~= data@);
                assert(writer@.take(before.len() as int) =~= before);
                Ok(())
            },
            Err(e) => Err(e),
        }
    }

    /// Decrypts a file's stored bytes, decompressing them if the entry says so.
    pub fn read_file_content(&self, entry: &FileEntry, stored: Vec<u8>) -> (r: Result<Vec<u8>, VaultError>)
        ensures
            r matches Ok(v) ==> file_plaintext(self.hkdf.spec_salt(), self.hkdf.spec_ikm(), entry.id, entry.compressed, stored@) == Some(v@),
            r is Ok <==> file_plaintext(self.hkdf.spec_salt(), self.hkdf.spec_ikm(), entry.id, entry.compressed, stored@) is Some,
            match file_read(self.hkdf.spec_salt(), self.hkdf.spec_ikm(), entry.id, entry.compressed, stored@) {
                Ok(b) => r matches Ok(v) && v@ == b,
                Err(e) => r == Err::<Vec<u8>, VaultError>(e),
            },
    {
        let file_key = match self.hkdf.derive(&entry.id) {
            Ok(k) => k,
            Err(_) => return Err(VaultError::Crypto(CryptoError::DecryptFailed)),
        };
        let plain = match decrypt_bytes(stored, &file_key, Some(entry.id)) {
            Ok(p) => p,
            Err(e) => return Err(VaultError::Crypto(e)),
        };
        if entry.compressed {
            decompress(plain.as_slice())
        } else {
            Ok(plain)
        }
    }
}

/// Encrypts a file's contents for the vault under the key derived from its
/// id, compressing them first if `compressed`. The stored bytes are appended to
/// `inner`; reading them back with the same key derivation gives `data`.
pub fn seal_file(hkdf: &HkdfContext, id: [u8; 16], data: &[u8], compressed: bool, inner: Vec<u8>) -> (r: Result<Vec<u8>, VaultError>)
    requires
        data@.len() / (CHUNK_SIZE as nat) < u32::MAX,
    ensures
        r matches Ok(v) ==> {
            &&& v@.len() >= inner@.len()
            &&& v@.take(inner@.len() as int) == inner@
            &&& file_plaintext(hkdf.spec_salt(), hkdf.spec_ikm(), id, compressed, v@.skip(inner@.len() as int)) == Some(data@)
            &&& v@.len() == inner@.len() + sealed_len(packed_form(data@, compressed))
        },
        too_long_for_stream(packed_form(data@, compressed)) ==> r == Err::<Vec<u8>, VaultError>(VaultError::Compress),
        r matches Err(e) ==> e == VaultError::Crypto(CryptoError::RngFailed)
            || e == VaultError::Compress && too_long_for_stream(packed_form(data@, compressed)),
{
    let file_key = match hkdf.derive(&id) {
        Ok(k) => k,
        Err(_) => return Err(VaultError::Crypto(CryptoError::EncryptFailed)),
    };
    if compressed {
        let packed = match compress(data, Vec::new()) {
            Ok(p) => p,
            Err(e) => return Err(e),
        };
        assert(packed@ =~= deflate_level3(data@));
        if packed.len() / CHUNK_SIZE >= 4294967295 {
            return Err(VaultError::Compress);
        }
        match encrypt_bytes(inner, &file_key, Some(id), packed.as_slice()) {
            Ok(v) => {
                assert(v@.take(inner@.len() as int) =~= inner@);
                Ok(v)
            },
            Err(e) => Err(VaultError::Crypto(e)),
        }
    } else {
        match encrypt_bytes(inner, &file_key, Some(id), data) {
            Ok(v) => {
                assert(v@.take(inner@.len() as int) =~= inner@);
                Ok(v)
            },
            Err(e) => Err(VaultError::Crypto(e)),
        }
    }
}

/// Compresses and encrypts a serialized index under the index key. Decrypting
/// it with the same key derivation gives `index_bytes` back.
pub fn seal_index(hkdf: &HkdfContext, index_bytes: &[u8]) -> (r: Result<Vec<u8>, VaultError>)
    ensures
        r matches Ok(v) ==> index_plaintext(hkdf.spec_salt(), hkdf.spec_ikm(), v@) == Some(index_bytes@)
            && v@.len() == sealed_len(deflate_level3(index_bytes@)),
        too_long_for_stream(deflate_level3(index_bytes@)) ==> r == Err::<Vec<u8>, VaultError>(VaultError::Compress),
        r matches Err(e) ==> e == VaultError::Crypto(CryptoError::RngFailed)
            || e == VaultError::Compress && too_long_for_stream(deflate_level3(index_bytes@)),
{
    let compressed_index = match compress(index_bytes, Vec::new()) {
        Ok(p) => p,
        Err(e) => return Err(e),
    };
    assert(compressed_index@ =~= deflate_level3(index_bytes@));
    let index_key = match hkdf.derive(&INDEX_KEY_INFO) {
        Ok(k) => k,
        Err(_) => return Err(VaultError::Crypto(CryptoError::EncryptFailed)),
    };
    if compressed_index.len() / CHUNK_SIZE >= 4294967295 {
        return Err(VaultError::Compress);
    }
    match encrypt_bytes(Vec::new(), &index_key, None, compressed_index.as_slice()) {
        Ok(v) => {
            assert(v@.skip(0) =~= v@);
            Ok(v)
        },
        Err(e) => Err(VaultError::Crypto(e)),
    }
}

/// The lowercase ASCII form of `c`.
pub open spec fn ascii_lower(c: char) -> char {
    if 'A' <= c <= 'Z' {
        ((c as u8) + 32) as char
    } else {
        c
    }
}

/// `s` with every ASCII capital lowercased.
pub open spec fn ascii_lowercase(s: Seq<char>) -> Seq<char> {
    s.map_values(|c: char| ascii_lower(c))
}

/// The extensions of formats that are compressed already: images, video,
/// audio, archives and office documents.
pub open spec fn incompressible_exts() -> Seq<Seq<char>> {
    seq![
        "jpg"@, "jpeg"@, "png"@, "gif"@, "webp"@, "bmp"@, "tiff"@, "tif"@, "ico"@, "heic"@, "avif"@,
        "mp4"@, "mkv"@, "avi"@, "mov"@, "wmv"@, "flv"@, "webm"@, "m4v"@,
        "mp3"@, "flac"@, "wav"@, "aac"@, "ogg"@, "wma"@, "m4a"@,
        "zip"@, "rar"@, "7z"@, "tar"@, "gz"@, "bz2"@, "xz"@, "zst"@,
        "pdf"@, "doc"@, "docx"@, "xls"@, "xlsx"@, "ppt"@, "pptx"@,
    ]
}

/// A file is compressed when it is at least `MIN_COMPRESS_SIZE` bytes long and
/// its extension, lowercased, is not one of `incompressible_exts`.
pub open spec fn should_compress_spec(path: Seq<char>, file_size: u64) -> bool {
    file_size >= MIN_COMPRESS_SIZE && match extension_of(path) {
        Some(e) => !incompressible_exts().contains(ascii_lowercase(e)),
        None => true,
    }
}

const INCOMPRESSIBLE: [&'static str; 41] = [
    "jpg", "jpeg", "png", "gif", "webp", "bmp", "tiff", "tif", "ico", "heic", "avif",
    "mp4", "mkv", "avi", "mov", "wmv", "flv", "webm", "m4v",
    "mp3", "flac", "wav", "aac", "ogg", "wma", "m4a",
    "zip", "rar", "7z", "tar", "gz", "bz2", "xz", "zst",
    "pdf", "doc", "docx", "xls", "xlsx", "ppt", "pptx",
];

/// Whether a file at `path` of `file_size` bytes is compressed before
/// encryption.
pub fn should_compress(path: &str, file_size: u64) -> (r: bool)
    ensures
        r == should_compress_spec(path@, file_size),
{
    if file_size < MIN_COMPRESS_SIZE {
        return false;
    }
    let ext = file_ext_lower(path);
    match ext {
        None => true,
        Some(e) => {
            assert(extension_of(path@) is Some);
            let ghost ex = extension_of(path@)->0;
            assert(e@ == ascii_lowercase(ex));
            let lits = INCOMPRESSIBLE;
            assert(lits@.map_values(|l: &str| l@) =~= incompressible_exts());
            let mut i: usize = 0;
            while i < 41
                invariant
                    file_size >= MIN_COMPRESS_SIZE,
                    extension_of(path@) == Some(ex),
                    e@ == ascii_lowercase(ex),
                    lits@.map_values(|l: &str| l@) == incompressible_exts(),
                    lits@.len() == 41,
                    i <= 41,
                    forall|k: int| 0 <= k < i ==> incompressible_exts()[k] != e@,
                decreases 41 - i,
            {
                let lit = chars_of(lits[i]);
                assert(incompressible_exts()[i as int] == lits@[i as int]@);
                if vec_eq(&lit, &e) {
                    assert(incompressible_exts().contains(e@));
                    return false;
                }
                i = i + 1;
            }
            assert(!incompressible_exts().contains(e@)) by {
                if incompressible_exts().contains(e@) {
                    let k = choose|k: int| 0 <= k < 41 && incompressible_exts()[k] == e@;
                    assert(incompressible_exts()[k] != e@);
                }
            }
            true
        },
    }
}

fn vec_eq(a: &Vec<char>, b: &Vec<char>) -> (r: bool)
    ensures
        r == (a@ == b@),
{
    assert(a@.subrange(0, a@.len() as int) =~= a@);
    assert(b@.subrange(0, b@.len() as int) =~= b@);
    range_eq(a, 0, a.len(), b, 0, b.len())
}

/// The extension of `path`, lowercased.
fn file_ext_lower(path: &str) -> (r: Option<Vec<char>>)
    ensures
        match extension_of(path@) {
            Some(e) => r matches Some(v) && v@ == ascii_lowercase(e),
            None => r is None,
        },
{
    let ext = match extension(path) {
        Some(e) => e,
        None => return None,
    };
    let chars = chars_of(ext);
    let mut out: Vec<char> = Vec::new();
    let n = chars.len();
    let mut i: usize = 0;
    while i < n
        invariant
            n == chars@.len(),
            i <= n,
            out@ == ascii_lowercase(chars@.take(i as int)),
        decreases n - i,
    {
        let c = chars[i];
        let l = if 'A' <= c && c <= 'Z' { ((c as u8) + 32) as char } else { c };
        out.push(l);
        assert(ascii_lowercase(chars@.take(i + 1)) =~= ascii_lowercase(chars@.take(i as int)).push(ascii_lower(c)));
        i = i + 1;
    }
    assert(chars@.take(n as int) =~= chars@);
    Some(out)
}

} // verus!

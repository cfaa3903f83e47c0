use vstd::prelude::*;
use vstd::string::{StringExecFns, StringSliceAdditionalSpecFns};
use crate::chunk::{sealed_len, CryptoError, CHUNK_SIZE};
use crate::crypto::{argon2id, argon2id_key, system_random, HkdfContext};
use crate::deflate::{
    deflate_level3, file_plaintext, index_plaintext, index_read, packed_form, seal_file, seal_index, too_long_for_stream, should_compress, should_compress_spec,
    ContainerIndex, FileEntry, FileEntryView, Header, VaultError, VaultReader, FORMAT_VERSION, MAGIC,
};
use crate::format::{
    decode_index, encode_header, encode_index, entries_storable, entry_storable, entry_views, header_bytes,
    header_wire, index_wire, lemma_header_wire_unique, stored_at, HEADER_LEN,
};
use crate::ui::types::ProgressMessage;

verus! {

/// The bytes of the version-4 UUID made from the random bytes `b`, in the
/// order of uuid's `to_bytes_le`: the first three fields byte-swapped, the
/// version nibble 4 in byte 6 of the UUID and the variant bits `10` in byte 8.
pub open spec fn v4_bytes_le(b: Seq<u8>) -> Seq<u8> {
    seq![
        b[3], b[2], b[1], b[0], b[5], b[4], b[7], (b[6] & 0x0f) | 0x40,
        (b[8] & 0x3f) | 0x80, b[9], b[10], b[11], b[12], b[13], b[14], b[15],
    ]
}

/// Lays out random bytes as a version-4 UUID in `to_bytes_le` order.
pub fn uuid_v4_le(b: [u8; 16]) -> (r: [u8; 16])
    ensures
        r@ == v4_bytes_le(b@),
        r[7] & 0xf0 == 0x40,
        r[8] & 0xc0 == 0x80,
{
    let b6 = b[6];
    let b8 = b[8];
    let version = (b6 & 0x0f) | 0x40;
    let variant = (b8 & 0x3f) | 0x80;
    assert(version & 0xf0 == 0x40) by (bit_vector)
        requires version == (b6 & 0x0f) | 0x40;
    assert(variant & 0xc0 == 0x80) by (bit_vector)
        requires variant == (b8 & 0x3f) | 0x80;
    let r = [b[3], b[2], b[1], b[0], b[5], b[4], b[7], version, variant, b[9], b[10], b[11], b[12], b[13], b[14], b[15]];
    assert(r@ =~= v4_bytes_le(b@));
    r
}

/// A fresh file id: a random version-4 UUID, drawn from the system's random
/// generator, in `to_bytes_le` order.
fn new_file_id() -> (r: Result<[u8; 16], CryptoError>)
    ensures
        r matches Ok(id) ==> id[7] & 0xf0 == 0x40 && id[8] & 0xc0 == 0x80,
        r matches Err(e) ==> e == CryptoError::RngFailed,
{
    match system_random::<16>() {
        Ok(b) => Ok(uuid_v4_le(b)),
        Err(_) => Err(CryptoError::RngFailed),
    }
}

/// The keys of a vault: Argon2id over the password and the salt, then HKDF
/// extraction with the same salt.
pub fn vault_keys(password: &str, salt: [u8; 16]) -> (r: HkdfContext)
    ensures
        r.spec_salt() == salt@,
        r.spec_ikm() == argon2id_key(password.spec_bytes(), salt@),
{
    let master_key = match argon2id(password.as_bytes(), salt) {
        Ok(k) => k,
        Err(_) => Vec::new(),
    };
    HkdfContext::new(&salt, master_key.as_slice())
}

/// Whether the entries `es` lie one after the other from `start` to `end`.
pub open spec fn tiles(es: Seq<FileEntry>, start: int, end: int) -> bool {
    &&& es.len() == 0 ==> start == end
    &&& es.len() > 0 ==> es[0].offset == start && es.last().offset + es.last().stored_size == end
    &&& forall|k: int| 0 <= k < es.len() - 1 ==> #[trigger] es[k].offset + es[k].stored_size == es[k + 1].offset
}

/// Whether `c` is a vault with the keys of `salt` and `ikm` that stores
/// `contents` under the entries `es`: its header names the index that ends
/// the vault, the index decrypts to the stored form of `es`, the entries lie
/// one after the other between the header and the index, and each decrypts to
/// its contents.
pub open spec fn vault_holds(c: Seq<u8>, salt: Seq<u8>, ikm: Seq<u8>, es: Seq<FileEntry>, contents: Seq<Seq<u8>>, index_offset: u64, index_size: u64) -> bool {
    &&& c.len() == index_offset + index_size
    &&& c.len() >= HEADER_LEN
    &&& c.take(HEADER_LEN as int) == header_wire(MAGIC@, FORMAT_VERSION, salt, index_offset, index_size)
    &&& index_plaintext(salt, ikm, c.subrange(index_offset as int, c.len() as int)) == Some(index_wire(entry_views(es)))
    &&& entries_storable(entry_views(es))
    &&& es.len() == contents.len()
    &&& tiles(es, HEADER_LEN as int, index_offset as int)
    &&& forall|k: int|
        0 <= k < es.len() ==> {
            &&& #[trigger] file_plaintext(salt, ikm, es[k].id, es[k].compressed, c.subrange(es[k].offset as int, es[k].offset + es[k].stored_size))
                == Some(contents[k])
            &&& es[k].original_size == contents[k].len()
        }
}

/// A file sealed for a vault and waiting to be placed: its stored bytes, id,
/// path and original size, and whether it was compressed.
pub struct FileWork {
    data: Vec<u8>,
    id: [u8; 16],
    path: String,
    original_size: u64,
    compressed: bool,
    salt: Ghost<Seq<u8>>,
    ikm: Ghost<Seq<u8>>,
    content: Ghost<Seq<u8>>,
}

impl FileWork {
    /// The contents the stored bytes hold.
    pub closed spec fn content(&self) -> Seq<u8> {
        self.content@
    }

    /// The path of the file inside the vault.
    pub closed spec fn spec_path(&self) -> Seq<char> {
        self.path@
    }

    /// Whether the file was compressed before encryption.
    pub closed spec fn spec_compressed(&self) -> bool {
        self.compressed
    }

    /// The stored bytes: the file sealed under its key.
    pub closed spec fn stored(&self) -> Seq<u8> {
        self.data@
    }

    /// Whether the stored bytes decrypt, under the keys of `salt` and `ikm`,
    /// to the contents.
    pub closed spec fn sealed_for(&self, salt: Seq<u8>, ikm: Seq<u8>) -> bool {
        &&& self.salt@ == salt
        &&& self.ikm@ == ikm
        &&& file_plaintext(salt, ikm, self.id, self.compressed, self.data@) == Some(self.content@)
        &&& self.original_size == self.content@.len()
        &&& entry_storable(FileEntry { id: self.id, path: self.path, offset: 0, stored_size: 0, original_size: 0, compressed: false }@)
    }
}

/// Seals one file of a folder for its vault: draws its id, decides whether to
/// compress it, and encrypts it under the key derived from its id.
pub fn prepare_file(hkdf: &HkdfContext, path: String, content: &[u8]) -> (r: Result<FileWork, VaultError>)
    requires
        content@.len() / (CHUNK_SIZE as nat) < u32::MAX,
    ensures
        r matches Ok(w) ==> {
            &&& w.sealed_for(hkdf.spec_salt(), hkdf.spec_ikm())
            &&& w.content() == content@
            &&& w.spec_path() == path@
            &&& w.spec_compressed() == should_compress_spec(path@, content@.len() as u64)
            &&& w.stored().len() == sealed_len(packed_form(content@, w.spec_compressed()))
        },
        too_long_for_stream(packed_form(content@, should_compress_spec(path@, content@.len() as u64)))
            ==> r is Err,
        r matches Err(e) ==> e == VaultError::Crypto(CryptoError::RngFailed)
            || e == VaultError::Compress && too_long_for_stream(packed_form(content@, should_compress_spec(path@, content@.len() as u64))),
{
    let id = match new_file_id() {
        Ok(id) => id,
        Err(e) => return Err(VaultError::Crypto(e)),
    };
    let size = content.len() as u64;
    let compressed = should_compress(path.as_str(), size);
    let data = match seal_file(hkdf, id, content, compressed, Vec::new()) {
        Ok(d) => d,
        Err(e) => return Err(e),
    };
    // The path's bytes are in memory, so they number fewer than 2^64, as an
    // entry must.
    let ps = path.as_str();
    let _path_len = ps.as_bytes().len();
    assert(data@.skip(0) =~= data@);
    Ok(FileWork {
        data,
        id,
        path,
        original_size: size,
        compressed,
        salt: Ghost(hkdf.spec_salt()),
        ikm: Ghost(hkdf.spec_ikm()),
        content: Ghost(content@),
    })
}

/// Whether the entries `es`, with the files `contents`, lie one after the
/// other behind the header in `written`, which ends at `pos`, and each
/// decrypts to its contents under the keys of `salt` and `ikm`.
#[verifier::opaque]
pub open spec fn layout_ok(salt: Seq<u8>, ikm: Seq<u8>, es: Seq<FileEntry>, written: Seq<u8>, contents: Seq<Seq<u8>>, pos: u64) -> bool {
    &&& pos == HEADER_LEN + written.len()
    &&& es.len() == contents.len()
    &&& entries_storable(entry_views(es))
    &&& tiles(es, HEADER_LEN as int, pos as int)
    &&& forall|k: int|
        0 <= k < es.len() ==> {
            &&& HEADER_LEN <= #[trigger] es[k].offset
            &&& es[k].offset + es[k].stored_size <= pos
            &&& file_plaintext(salt, ikm, es[k].id, es[k].compressed, written.subrange(es[k].offset - HEADER_LEN, es[k].offset + es[k].stored_size - HEADER_LEN))
                == Some(contents[k])
            &&& es[k].original_size == contents[k].len()
        }
}

/// Placing a sealed file where the layout ends keeps the layout.
proof fn lemma_place(salt: Seq<u8>, ikm: Seq<u8>, es: Seq<FileEntry>, written: Seq<u8>, contents: Seq<Seq<u8>>, pos: u64, e: FileEntry, data: Seq<u8>, content: Seq<u8>)
    requires
        layout_ok(salt, ikm, es, written, contents, pos),
        e.offset == pos,
        e.stored_size == data.len(),
        pos + data.len() <= u64::MAX,
        file_plaintext(salt, ikm, e.id, e.compressed, data) == Some(content),
        e.original_size == content.len(),
        entry_storable(e@),
        es.len() + 1 < 18446744073709551616,
    ensures
        layout_ok(salt, ikm, es.push(e), written + data, contents.push(content), (pos + data.len()) as u64),
{
    reveal(layout_ok);
    let nes = es.push(e);
    let nw = written + data;
    let npos = (pos + data.len()) as u64;
    assert(entry_views(nes) =~= entry_views(es).push(e@));
    assert forall|k: int| 0 <= k < nes.len() implies {
        &&& HEADER_LEN <= #[trigger] nes[k].offset
        &&& nes[k].offset + nes[k].stored_size <= npos
        &&& file_plaintext(salt, ikm, nes[k].id, nes[k].compressed, nw.subrange(nes[k].offset - HEADER_LEN, nes[k].offset + nes[k].stored_size - HEADER_LEN))
            == Some(contents.push(content)[k])
        &&& nes[k].original_size == contents.push(content)[k].len()
    } by {
        if k < es.len() {
            assert(nes[k] == es[k]);
            assert(HEADER_LEN <= es[k].offset);
            assert(nw.subrange(es[k].offset - HEADER_LEN, es[k].offset + es[k].stored_size - HEADER_LEN) =~= written.subrange(
                es[k].offset - HEADER_LEN,
                es[k].offset + es[k].stored_size - HEADER_LEN,
            ));
        } else {
            assert(nw.subrange(nes[k].offset - HEADER_LEN, nes[k].offset + nes[k].stored_size - HEADER_LEN) =~= data);
        }
    }
    assert forall|k: int| 0 <= k < nes.len() implies entry_storable(#[trigger] entry_views(nes)[k]) by {
        if k < es.len() {
            assert(entry_views(nes)[k] == entry_views(es)[k]);
        }
    }
    assert forall|k: int| 0 <= k < nes.len() - 1 implies #[trigger] nes[k].offset + nes[k].stored_size == nes[k + 1].offset by {
        if k < es.len() - 1 {
            assert(nes[k] == es[k] && nes[k + 1] == es[k + 1]);
        } else {
            assert(nes[k] == es.last());
        }
    }
}

/// Lays out a new vault: a header, the sealed files one after the other, and
/// at the end the sealed index, which the final header points to.
pub struct ContainerBuilder {
    salt: [u8; 16],
    total: usize,
    entries: Vec<FileEntry>,
    pos: u64,
    ikm: Ghost<Seq<u8>>,
    written: Ghost<Seq<u8>>,
    contents: Ghost<Seq<Seq<u8>>>,
}

impl ContainerBuilder {
    /// The salt of the vault.
    pub closed spec fn spec_salt(&self) -> Seq<u8> {
        self.salt@
    }

    /// The master key the vault's keys are derived from.
    pub closed spec fn spec_ikm(&self) -> Seq<u8> {
        self.ikm@
    }

    /// What has been laid out after the header so far.
    pub closed spec fn written(&self) -> Seq<u8> {
        self.written@
    }

    /// The entries placed so far.
    pub closed spec fn spec_entries(&self) -> Seq<FileEntry> {
        self.entries@
    }

    /// The contents of the files placed so far.
    pub closed spec fn contents(&self) -> Seq<Seq<u8>> {
        self.contents@
    }

    /// How many files the folder has.
    pub closed spec fn spec_total(&self) -> usize {
        self.total
    }

    /// Where the next file goes.
    pub closed spec fn position(&self) -> u64 {
        self.pos
    }

    /// The files placed so far lie one after the other behind the header,
    /// and each decrypts to its contents.
    pub closed spec fn wf(&self) -> bool {
        layout_ok(self.salt@, self.ikm@, self.entries@, self.written@, self.contents@, self.pos)
    }

    /// A builder for a vault of `total` files under the keys of `hkdf`, whose
    /// salt is `salt`.
    pub fn new(hkdf: &HkdfContext, salt: [u8; 16], total: usize) -> (r: Self)
        requires
            hkdf.spec_salt() == salt@,
        ensures
            r.wf(),
            r.spec_salt() == salt@,
            r.spec_ikm() == hkdf.spec_ikm(),
            r.written().len() == 0,
            r.spec_entries().len() == 0,
            r.spec_total() == total,
    {
        proof {
            reveal(layout_ok);
        }
        ContainerBuilder {
            salt,
            total,
            entries: Vec::new(),
            pos: HEADER_LEN as u64,
            ikm: Ghost(hkdf.spec_ikm()),
            written: Ghost(Seq::empty()),
            contents: Ghost(Seq::empty()),
        }
    }

    /// The header written first, before the index is placed: the magic, the
    /// version and the salt, with offset and size zero.
    pub fn header_placeholder(&self) -> (r: Vec<u8>)
        ensures
            r@ == header_wire(MAGIC@, FORMAT_VERSION, self.spec_salt(), 0, 0),
            r@.len() == HEADER_LEN,
    {
        let h = Header::new(&self.salt);
        encode_header(&h)
    }

    /// The progress reported before any file is placed.
    pub fn initial_progress(&self) -> (r: ProgressMessage)
        ensures
            r matches ProgressMessage::Progress { current, total, message } && current == 0 && total == self.spec_total()
                && message@ == "Processing files..."@,
    {
        ProgressMessage::Progress { current: 0, total: self.total, message: String::from_str("Processing files...") }
    }

    /// Places a sealed file after those placed before: gives the bytes to
    /// write and the progress to report. A vault that would pass 2^64 bytes
    /// is refused, and nothing is placed.
    pub fn append(&mut self, work: FileWork) -> (r: Result<(Vec<u8>, ProgressMessage), VaultError>)
        requires
            old(self).wf(),
            work.sealed_for(old(self).spec_salt(), old(self).spec_ikm()),
        ensures
            final(self).wf(),
            final(self).spec_salt() == old(self).spec_salt(),
            final(self).spec_ikm() == old(self).spec_ikm(),
            final(self).spec_total() == old(self).spec_total(),
            r is Err <==> work.stored().len() > u64::MAX - old(self).position(),
            r is Err ==> r == Err::<(Vec<u8>, ProgressMessage), VaultError>(VaultError::TooLarge) && *final(self) == *old(self),
            r matches Ok((bytes, msg)) ==> {
                &&& bytes@ == work.stored()
                &&& final(self).position() == old(self).position() + bytes@.len()
                &&& final(self).written() == old(self).written() + bytes@
                &&& final(self).contents() == old(self).contents().push(work.content())
                &&& final(self).spec_entries().len() == old(self).spec_entries().len() + 1
                &&& final(self).spec_entries().drop_last() == old(self).spec_entries()
                &&& final(self).spec_entries().last().offset == old(self).position()
                &&& final(self).spec_entries().last().path@ == work.spec_path()
                &&& final(self).spec_entries().last().compressed == work.spec_compressed()
                &&& msg matches ProgressMessage::Progress { current, total, message } && current == final(self).spec_entries().len()
                    && total == old(self).spec_total() && message@ == "Writing file: "@ + work.spec_path()
            },
    {
        let stored = work.data.len() as u64;
        if stored > u64::MAX - self.pos {
            return Err(VaultError::TooLarge);
        }
        let offset = self.pos;
        let mut message = String::from_str("Writing file: ");
        message.append(work.path.as_str());
        let entry = FileEntry {
            id: work.id,
            path: work.path,
            offset,
            stored_size: stored,
            original_size: work.original_size,
            compressed: work.compressed,
        };
        let ghost old_entries = self.entries@;
        let ghost old_written = self.written@;
        let ghost placed = entry;
        self.entries.push(entry);
        let count = self.entries.len();
        self.pos = offset + stored;
        proof {
            lemma_place(self.salt@, self.ikm@, old_entries, old_written, self.contents@, offset, placed, work.data@, work.content@);
            self.written@ = old_written + work.data@;
            self.contents@ = self.contents@.push(work.content@);
            assert(self.entries@.drop_last() =~= old_entries);
        }
        Ok((work.data, ProgressMessage::Progress { current: count, total: self.total, message }))
    }

    /// Seals the index of the placed files and gives it, to be written after
    /// them, and the final header, to be written over the placeholder. The
    /// vault they make with what was laid out holds every placed file.
    #[verifier::rlimit(50)]
    #[verifier::spinoff_prover]
    pub fn finish(self, hkdf: &HkdfContext) -> (r: Result<(Vec<u8>, Vec<u8>), VaultError>)
        requires
            self.wf(),
            hkdf.spec_salt() == self.spec_salt(),
            hkdf.spec_ikm() == self.spec_ikm(),
        ensures
            r matches Ok((index, header)) ==> {
                &&& header@.len() == HEADER_LEN
                &&& vault_holds(
                    header@ + self.written() + index@,
                    self.spec_salt(),
                    self.spec_ikm(),
                    self.spec_entries(),
                    self.contents(),
                    self.position(),
                    index@.len() as u64,
                )
                &&& index@.len() == sealed_len(deflate_level3(index_wire(entry_views(self.spec_entries()))))
            },
            too_long_for_stream(deflate_level3(index_wire(entry_views(self.spec_entries()))))
                ==> r == Err::<(Vec<u8>, Vec<u8>), VaultError>(VaultError::Compress),
            !too_long_for_stream(deflate_level3(index_wire(entry_views(self.spec_entries()))))
                && sealed_len(deflate_level3(index_wire(entry_views(self.spec_entries())))) > u64::MAX - self.position() ==> r is Err,
            r matches Err(e) ==> {
                ||| e == VaultError::Crypto(CryptoError::RngFailed)
                ||| e == VaultError::Compress && too_long_for_stream(deflate_level3(index_wire(entry_views(self.spec_entries()))))
                ||| e == VaultError::TooLarge && sealed_len(deflate_level3(index_wire(entry_views(self.spec_entries())))) > u64::MAX - self.position()
            },
    {
        let index_bytes = encode_index(&self.entries);
        let sealed = match seal_index(hkdf, index_bytes.as_slice()) {
            Ok(s) => s,
            Err(e) => return Err(e),
        };
        let size = sealed.len() as u64;
        if size > u64::MAX - self.pos {
            return Err(VaultError::TooLarge);
        }
        let header = Header { magic: MAGIC, version: FORMAT_VERSION, salt: self.salt, index_offset: self.pos, index_size: size };
        let hb = encode_header(&header);
        proof {
            reveal(layout_ok);
            let c = hb@ + self.written@ + sealed@;
            let es = self.entries@;
            assert(header.magic@ =~= MAGIC@);
            assert(c.take(HEADER_LEN as int) =~= hb@);
            assert(c.subrange(self.pos as int, c.len() as int) =~= sealed@);
            assert forall|k: int| 0 <= k < es.len() implies {
                &&& #[trigger] file_plaintext(self.salt@, self.ikm@, es[k].id, es[k].compressed, c.subrange(es[k].offset as int, es[k].offset + es[k].stored_size))
                    == Some(self.contents@[k])
                &&& es[k].original_size == self.contents@[k].len()
            } by {
                assert(HEADER_LEN <= es[k].offset);
                assert(c.subrange(es[k].offset as int, es[k].offset + es[k].stored_size) =~= self.written@.subrange(
                    es[k].offset - HEADER_LEN,
                    es[k].offset + es[k].stored_size - HEADER_LEN,
                ));
            }
        }
        Ok((sealed, hb))
    }
}

/// Whether `encrypted_index`, under the keys that `password` derives with
/// `salt`, decrypts to bytes that begin with the stored form of `es`.
pub open spec fn index_reads_as(salt: Seq<u8>, password: Seq<u8>, encrypted_index: Seq<u8>, es: Seq<FileEntryView>) -> bool {
    index_plaintext(salt, argon2id_key(password, salt), encrypted_index) matches Some(p) && stored_at(p, 0, index_wire(es))
}

impl VaultReader {
    /// Opens a vault from its header and the bytes of its encrypted index:
    /// checks the magic, derives the keys from `password`, decrypts and
    /// decompresses the index and reads its entries. What it gives is the
    /// index stored there; where none is stored, it fails.
    pub fn open(header: &Header, password: &str, encrypted_index: Vec<u8>) -> (r: Result<VaultReader, VaultError>)
        ensures
            header.magic@ != MAGIC@ ==> r == Err::<VaultReader, VaultError>(VaultError::MagicMismatch),
            r matches Ok(v) ==> {
                &&& v.hkdf.spec_salt() == header.salt@
                &&& v.hkdf.spec_ikm() == argon2id_key(password.spec_bytes(), header.salt@)
                &&& index_plaintext(header.salt@, argon2id_key(password.spec_bytes(), header.salt@), encrypted_index@) matches Some(p)
                    && stored_at(p, 0, index_wire(entry_views(v.index.entries@)))
            },
            header.magic@ == MAGIC@ && index_plaintext(header.salt@, argon2id_key(password.spec_bytes(), header.salt@), encrypted_index@) is None
                ==> r is Err,
            forall|es: Seq<FileEntryView>|
                #![trigger index_reads_as(header.salt@, password.spec_bytes(), encrypted_index@, es)]
                header.magic@ == MAGIC@ && entries_storable(es) && index_reads_as(header.salt@, password.spec_bytes(), encrypted_index@, es)
                    ==> (r matches Ok(v) && entry_views(v.index.entries@) == es),
            r matches Err(e) ==> {
                ||| header.magic@ != MAGIC@ && e == VaultError::MagicMismatch
                ||| header.magic@ == MAGIC@ && index_read(header.salt@, argon2id_key(password.spec_bytes(), header.salt@), encrypted_index@) == Err::<Seq<u8>, VaultError>(e)
                ||| header.magic@ == MAGIC@ && index_read(header.salt@, argon2id_key(password.spec_bytes(), header.salt@), encrypted_index@) is Ok && e is Malformed
            },
            header.magic@ == MAGIC@ && index_read(header.salt@, argon2id_key(password.spec_bytes(), header.salt@), encrypted_index@) is Err
                ==> r == Err::<VaultReader, VaultError>(index_read(header.salt@, argon2id_key(password.spec_bytes(), header.salt@), encrypted_index@)->Err_0),
    {
        let hkdf = match VaultReader::unlock(header, password) {
            Ok(h) => h,
            Err(e) => return Err(e),
        };
        let index_bytes = match VaultReader::decrypt_index(&hkdf, encrypted_index) {
            Ok(b) => b,
            Err(e) => return Err(e),
        };
        let entries = match decode_index(index_bytes.as_slice()) {
            Ok(es) => es,
            Err(e) => return Err(e),
        };
        Ok(VaultReader { index: ContainerIndex { entries }, hkdf })
    }
}

/// A vault that holds files reads back as it was written: its header, read
/// from its first bytes, has the magic and the salt and points at the index;
/// the index there decrypts to the stored form of the entries; and each
/// entry's bytes decrypt to the file's contents.
pub proof fn lemma_vault_reads_back(
    c: Seq<u8>,
    salt: Seq<u8>,
    ikm: Seq<u8>,
    es: Seq<FileEntry>,
    contents: Seq<Seq<u8>>,
    index_offset: u64,
    index_size: u64,
    g: &Header,
)
    requires
        salt.len() == 16,
        vault_holds(c, salt, ikm, es, contents, index_offset, index_size),
        header_bytes(g) == c.take(HEADER_LEN as int),
    ensures
        g.magic@ == MAGIC@,
        g.salt@ == salt,
        g.index_offset == index_offset,
        g.index_size == index_size,
        index_plaintext(g.salt@, ikm, c.subrange(g.index_offset as int, g.index_offset + g.index_size)) matches Some(p)
            && stored_at(p, 0, index_wire(entry_views(es))),
        forall|k: int|
            0 <= k < es.len() ==> #[trigger] file_plaintext(g.salt@, ikm, es[k].id, es[k].compressed, c.subrange(es[k].offset as int, es[k].offset + es[k].stored_size))
                == Some(contents[k]),
{
    lemma_header_wire_unique(g.magic@, g.version, g.salt@, g.index_offset, g.index_size, MAGIC@, FORMAT_VERSION, salt, index_offset, index_size);
    assert(index_wire(entry_views(es)).subrange(0, index_wire(entry_views(es)).len() as int) =~= index_wire(entry_views(es)));
}

/// A vault written with a password opens again with that password: its
/// header, read from its first bytes, has the magic and the salt; the bytes it
/// points to as the index decrypt, under the keys the password derives, to
/// the stored form of the entries, which can all be stored, so `open` gives
/// those entries back; and each entry's bytes decrypt to the file's contents.
pub proof fn lemma_vault_reopens(
    c: Seq<u8>,
    salt: Seq<u8>,
    password: Seq<u8>,
    es: Seq<FileEntry>,
    contents: Seq<Seq<u8>>,
    index_offset: u64,
    index_size: u64,
    g: &Header,
)
    requires
        salt.len() == 16,
        vault_holds(c, salt, argon2id_key(password, salt), es, contents, index_offset, index_size),
        header_bytes(g) == c.take(HEADER_LEN as int),
    ensures
        g.magic@ == MAGIC@,
        g.salt@ == salt,
        entries_storable(entry_views(es)),
        index_reads_as(g.salt@, password, c.subrange(g.index_offset as int, g.index_offset + g.index_size), entry_views(es)),
        forall|k: int|
            0 <= k < es.len() ==> #[trigger] file_plaintext(g.salt@, argon2id_key(password, g.salt@), es[k].id, es[k].compressed, c.subrange(es[k].offset as int, es[k].offset + es[k].stored_size))
                == Some(contents[k]),
{
    lemma_vault_reads_back(c, salt, argon2id_key(password, salt), es, contents, index_offset, index_size, g);
}

} // verus!

use vstd::prelude::*;
use vstd::string::StringExecFns;
use crate::chunk::CryptoError;
use crate::deflate::{file_plaintext, file_read, DecodeFailure, ContainerIndex, FileEntry, VaultError, VaultReader};
use crate::handler::{find_path, is_first_path, no_path, remove_path, without_path};
use crate::paths::{file_name_of, file_name_opt};
use crate::text::{decimal, push_decimal};
use crate::format::HEADER_LEN;

verus! {

/// What the client asks of the vault worker.
#[derive(Debug)]
pub enum WorkerCommand {
    OpenVault { path: String, password: String },
    ReadFile { entry: FileEntry },
    EncryptFolder { source_dir: String, output_path: String, password: String },
    RenameFile { old_path: String, new_path: String },
    DeleteFile { entry: FileEntry },
    GarbageCollect,
    CloseVault,
}

/// What the vault worker answers.
#[derive(Debug)]
pub enum WorkerResponse {
    VaultOpened { index: ContainerIndex },
    FileDecryptedToTemp { temp_path: String },
    FileUpdated { entry: FileEntry },
    FileRenamed { old_path: String, new_path: String },
    FileDeleted { path: String },
    GarbageCollected,
    EncryptionDone,
    Error { message: String },
}

/// The text of a decoding failure, as bincode words its errors: running out
/// of bytes inside a fixed-size field or inside a path, a path that is not
/// UTF-8 (in the words of std's `Utf8Error`), and a bad flag.
pub open spec fn decode_failure_text(f: DecodeFailure) -> Seq<char> {
    match f {
        DecodeFailure::UnexpectedEnd => "io error: unexpected end of file"@,
        DecodeFailure::EndInPath => "io error: "@,
        DecodeFailure::InvalidUtf8 { valid_up_to, error_len } => "string is not valid utf8: "@ + match error_len {
            Some(n) => "invalid utf-8 sequence of "@ + decimal(n as nat) + " bytes from index "@ + decimal(valid_up_to as nat),
            None => "incomplete utf-8 byte sequence from index "@ + decimal(valid_up_to as nat),
        },
        DecodeFailure::InvalidBool(b) => "invalid u8 while decoding bool, expected 0 or 1, found "@ + decimal(b as nat),
    }
}

/// The text of each vault error.
pub open spec fn vault_error_text(e: VaultError) -> Seq<char> {
    match e {
        VaultError::MagicMismatch => "Magic mismatch"@,
        VaultError::Crypto(CryptoError::RngFailed) => "rng failed"@,
        VaultError::Crypto(CryptoError::EncryptFailed) => "encrypt chunk failed"@,
        VaultError::Crypto(CryptoError::DecryptFailed) => "decrypt chunk failed"@,
        VaultError::Crypto(CryptoError::UnexpectedEof) => "failed to fill whole buffer"@,
        VaultError::Compress => "deflate compression failed"@,
        VaultError::Decompress => "corrupt deflate stream"@,
        VaultError::IncompleteStream => "incomplete deflate stream"@,
        VaultError::Malformed(f) => decode_failure_text(f),
        VaultError::TooLarge => "vault too large"@,
    }
}

impl VaultError {
    /// What the error says to the user.
    pub fn message(&self) -> (r: String)
        ensures
            r@ == vault_error_text(*self),
    {
        match self {
            VaultError::MagicMismatch => String::from_str("Magic mismatch"),
            VaultError::Crypto(CryptoError::RngFailed) => String::from_str("rng failed"),
            VaultError::Crypto(CryptoError::EncryptFailed) => String::from_str("encrypt chunk failed"),
            VaultError::Crypto(CryptoError::DecryptFailed) => String::from_str("decrypt chunk failed"),
            VaultError::Crypto(CryptoError::UnexpectedEof) => String::from_str("failed to fill whole buffer"),
            VaultError::Compress => String::from_str("deflate compression failed"),
            VaultError::Decompress => String::from_str("corrupt deflate stream"),
            VaultError::IncompleteStream => String::from_str("incomplete deflate stream"),
            VaultError::Malformed(f) => decode_failure_message(*f),
            VaultError::TooLarge => String::from_str("vault too large"),
        }
    }
}

fn decode_failure_message(f: DecodeFailure) -> (r: String)
    ensures
        r@ == decode_failure_text(f),
{
    match f {
        DecodeFailure::UnexpectedEnd => String::from_str("io error: unexpected end of file"),
        DecodeFailure::EndInPath => String::from_str("io error: "),
        DecodeFailure::InvalidUtf8 { valid_up_to, error_len } => {
            let mut s = String::from_str("string is not valid utf8: ");
            match error_len {
                Some(n) => {
                    s.append("invalid utf-8 sequence of ");
                    push_decimal(&mut s, n);
                    s.append(" bytes from index ");
                },
                None => {
                    s.append("incomplete utf-8 byte sequence from index ");
                },
            }
            push_decimal(&mut s, valid_up_to);
            s
        },
        DecodeFailure::InvalidBool(b) => {
            let mut s = String::from_str("invalid u8 while decoding bool, expected 0 or 1, found ");
            push_decimal(&mut s, b as usize);
            s
        },
    }
}

/// An error response: `prefix` followed by `detail`.
fn error_response(prefix: &str, detail: &str) -> (r: WorkerResponse)
    ensures
        r matches WorkerResponse::Error { message } && message@ == prefix@ + detail@,
{
    let mut message = String::from_str(prefix);
    message.append(detail);
    WorkerResponse::Error { message }
}

/// The answer to a command that needs an open vault when none is.
pub open spec fn no_vault(r: WorkerResponse) -> bool {
    r matches WorkerResponse::Error { message } && message@ == "No vault is open"@
}

/// A copy of an index.
pub fn clone_index(index: &ContainerIndex) -> (r: ContainerIndex)
    ensures
        r.entries@ == index.entries@,
{
    let mut entries: Vec<FileEntry> = Vec::new();
    let n = index.entries.len();
    for i in 0..n
        invariant
            n == index.entries@.len(),
            entries@ == index.entries@.take(i as int),
    {
        entries.push(index.entries[i].clone());
        assert(entries@ =~= index.entries@.take(i + 1));
    }
    assert(index.entries@.take(n as int) =~= index.entries@);
    ContainerIndex { entries }
}

/// The name of the temporary file a vault file is decrypted into: `evfs_`
/// and its file name, or `unknown`.
pub open spec fn temp_file_name(path: Seq<char>) -> Seq<char> {
    "evfs_"@ + match file_name_of(path) {
        Some(n) => n,
        None => "unknown"@,
    }
}

/// The decisions of the vault worker: which vault is open, and where its
/// data ends.
pub struct VaultWorker {
    vault: Option<VaultReader>,
    data_end: u64,
}

impl VaultWorker {
    /// The entries of the open vault, if one is.
    pub closed spec fn open_entries(&self) -> Option<Seq<FileEntry>> {
        match self.vault {
            Some(v) => Some(v.index.entries@),
            None => None,
        }
    }

    /// Where the data of the open vault ends: the offset of its index.
    pub closed spec fn spec_data_end(&self) -> u64 {
        self.data_end
    }

    /// The open vault, if one is.
    pub closed spec fn spec_vault(&self) -> Option<VaultReader> {
        self.vault
    }

    /// A worker with no vault open.
    pub fn new() -> (r: Self)
        ensures
            r.open_entries() is None,
    {
        VaultWorker { vault: None, data_end: 0 }
    }

    /// Whether a vault is open.
    pub fn has_vault(&self) -> (r: bool)
        ensures
            r == self.open_entries() is Some,
    {
        self.vault.is_some()
    }

    /// The open vault, to read files of.
    pub fn vault(&self) -> (r: Option<&VaultReader>)
        ensures
            r == (match self.spec_vault() {
                Some(v) => Some(&v),
                None => None::<&VaultReader>,
            }),
    {
        match &self.vault {
            Some(v) => Some(v),
            None => None,
        }
    }

    /// Takes in how opening a vault went, with the offset of its index: an
    /// opened vault becomes the open one and its index is answered; a failure
    /// is answered with its reason.
    pub fn open_vault_done(&mut self, outcome: Result<VaultReader, String>, index_offset: u64) -> (r: WorkerResponse)
        ensures
            match outcome {
                Ok(v) => final(self).spec_vault() == Some(v) && final(self).spec_data_end() == index_offset && (r matches WorkerResponse::VaultOpened {
                    index,
                } && index.entries@ == v.index.entries@),
                Err(d) => *final(self) == *old(self) && (r matches WorkerResponse::Error { message } && message@ == "Failed to open vault: "@
                    + d@),
            },
    {
        match outcome {
            Ok(reader) => {
                let index = clone_index(&reader.index);
                self.vault = Some(reader);
                self.data_end = index_offset;
                WorkerResponse::VaultOpened { index }
            },
            Err(d) => error_response("Failed to open vault: ", d.as_str()),
        }
    }

    /// The first step of reading a file out of the vault: the name of the
    /// temporary file to decrypt it into, or the answer that no vault is
    /// open.
    pub fn read_target(&self, entry: &FileEntry) -> (r: Result<String, WorkerResponse>)
        ensures
            self.open_entries() is None ==> (r matches Err(e) && no_vault(e)),
            self.open_entries() is Some ==> (r matches Ok(n) && n@ == temp_file_name(entry.path@)),
    {
        if self.vault.is_none() {
            return Err(WorkerResponse::Error { message: String::from_str("No vault is open") });
        }
        let mut name = String::from_str("evfs_");
        match file_name_opt(entry.path.as_str()) {
            Some(n) => name.append(n),
            None => name.append("unknown"),
        }
        Ok(name)
    }

    /// The second step: decrypting the file's stored bytes with the open
    /// vault's keys; a failure is answered with its reason.
    pub fn decrypt(&self, entry: &FileEntry, stored: Vec<u8>) -> (r: Result<Vec<u8>, WorkerResponse>)
        ensures
            self.open_entries() is None ==> (r matches Err(e) && no_vault(e)),
            self.spec_vault() matches Some(v) ==> {
                &&& r matches Ok(d) ==> file_plaintext(v.hkdf.spec_salt(), v.hkdf.spec_ikm(), entry.id, entry.compressed, stored@) == Some(d@)
                &&& r is Ok <==> file_plaintext(v.hkdf.spec_salt(), v.hkdf.spec_ikm(), entry.id, entry.compressed, stored@) is Some
                &&& file_read(v.hkdf.spec_salt(), v.hkdf.spec_ikm(), entry.id, entry.compressed, stored@) matches Err(e)
                    ==> (r matches Err(WorkerResponse::Error { message }) && message@ == "Failed to decrypt file: "@ + vault_error_text(e))
            },
    {
        match &self.vault {
            None => Err(WorkerResponse::Error { message: String::from_str("No vault is open") }),
            Some(v) => match v.read_file_content(entry, stored) {
                Ok(d) => Ok(d),
                Err(e) => {
                    proof {
                        reveal_strlit("Failed to decrypt file: ");
                    }
                    let text = e.message();
                    Err(error_response("Failed to decrypt file: ", text.as_str()))
                },
            },
        }
    }

    /// Renames the first entry at `old_path` in the open vault's index and
    /// answers with the rename; without a vault, answers that none is open.
    pub fn rename(&mut self, old_path: String, new_path: String) -> (r: WorkerResponse)
        ensures
            old(self).open_entries() is None ==> no_vault(r) && *final(self) == *old(self),
            old(self).open_entries() matches Some(es) ==> {
                &&& r == WorkerResponse::FileRenamed { old_path, new_path }
                &&& final(self).spec_data_end() == old(self).spec_data_end()
                &&& final(self).open_entries() matches Some(nes) && nes.len() == es.len() && (if no_path(es, old_path@) {
                    nes == es
                } else {
                    exists|i: int|
                        is_first_path(es, old_path@, i) && (forall|j: int| 0 <= j < es.len() && j != i ==> nes[j] == es[j]) && nes[i]@
                            == (FileEntry { path: nes[i].path, ..es[i] })@ && nes[i].path@ == new_path@
                })
            },
    {
        match self.vault.take() {
            None => WorkerResponse::Error { message: String::from_str("No vault is open") },
            Some(mut v) => {
                match find_path(&v.index.entries, &old_path) {
                    Some(i) => {
                        let mut e = v.index.entries[i].clone();
                        e.path = new_path.clone();
                        v.index.entries.set(i, e);
                    },
                    None => {},
                }
                self.vault = Some(v);
                WorkerResponse::FileRenamed { old_path, new_path }
            },
        }
    }

    /// Removes the entries at the path of `entry` from the open vault's index
    /// and answers with the deletion; without a vault, answers that none is
    /// open.
    pub fn delete(&mut self, entry: FileEntry) -> (r: WorkerResponse)
        ensures
            old(self).open_entries() is None ==> no_vault(r) && *final(self) == *old(self),
            old(self).open_entries() matches Some(es) ==> {
                &&& r matches WorkerResponse::FileDeleted { path } && path@ == entry.path@
                &&& final(self).spec_data_end() == old(self).spec_data_end()
                &&& final(self).open_entries() == Some(without_path(es, entry.path@))
            },
    {
        match self.vault.take() {
            None => WorkerResponse::Error { message: String::from_str("No vault is open") },
            Some(mut v) => {
                let kept = remove_path(&v.index.entries, &entry.path);
                v.index = ContainerIndex { entries: kept };
                self.vault = Some(v);
                WorkerResponse::FileDeleted { path: entry.path }
            },
        }
    }

    /// Answers a request to collect garbage: the bytes of the data region
    /// that no entry of the open vault's index uses. Below a tenth of the
    /// region there is nothing to collect; above it, collecting would rewrite
    /// the vault, which this worker does not do.
    pub fn garbage_collect(&self) -> (r: WorkerResponse)
        ensures
            self.open_entries() is None ==> no_vault(r),
            self.open_entries() matches Some(es) ==> (r matches WorkerResponse::Error { message } && message@ == (if garbage_below_tenth(
                self.spec_data_end(),
                es,
            ) {
                "Garbage is below 10% threshold, no collection needed"@
            } else {
                "Garbage collection failed: not supported"@
            })),
    {
        match &self.vault {
            None => WorkerResponse::Error { message: String::from_str("No vault is open") },
            Some(v) => {
                let live = live_bytes(&v.index.entries);
                let region: u128 = if self.data_end >= 37 { (self.data_end - 37) as u128 } else { 0 };
                let garbage: u128 = if live <= region { region - live } else { 0 };
                if garbage * 10 < region {
                    WorkerResponse::Error { message: String::from_str("Garbage is below 10% threshold, no collection needed") }
                } else {
                    WorkerResponse::Error { message: String::from_str("Garbage collection failed: not supported") }
                }
            },
        }
    }

    /// Closes the open vault.
    pub fn close(&mut self)
        ensures
            final(self).open_entries() is None,
    {
        self.vault = None;
    }
}

/// A request to the vault worker together with what the file I/O it needed
/// gave: how opening the vault went and where its index lies, the stored
/// bytes of a file to read, or how creating a vault went.
pub enum WorkerEvent {
    Opened { outcome: Result<VaultReader, String>, index_offset: u64 },
    Read { entry: FileEntry, stored: Result<Vec<u8>, String> },
    Encrypted { outcome: Result<(), String> },
    Rename { old_path: String, new_path: String },
    Delete { entry: FileEntry },
    GarbageCollect,
    Close,
}

/// What the worker does after a request: answer it, write a decrypted file to
/// a temporary file named `name` and then answer with `temp_written`, or
/// answer nothing.
pub enum WorkerStep {
    Reply(WorkerResponse),
    WriteTemp { name: String, bytes: Vec<u8> },
    Silent,
}

impl VaultWorker {
    /// Takes in one request. Every request is answered exactly once, right
    /// away or after its temporary file is written, except a close, which is
    /// answered by nothing.
    pub fn step(&mut self, ev: WorkerEvent) -> (r: WorkerStep)
        ensures
            r is Silent <==> ev is Close,
            ev is Close ==> final(self).open_entries() is None,
            ev matches WorkerEvent::Opened { outcome, index_offset } ==> match outcome {
                Ok(v) => final(self).spec_vault() == Some(v) && final(self).spec_data_end() == index_offset
                    && (r matches WorkerStep::Reply(WorkerResponse::VaultOpened { index }) && index.entries@ == v.index.entries@),
                Err(d) => *final(self) == *old(self) && (r matches WorkerStep::Reply(WorkerResponse::Error { message })
                    && message@ == "Failed to open vault: "@ + d@),
            },
            ev matches WorkerEvent::Read { entry, stored } ==> {
                &&& *final(self) == *old(self)
                &&& match old(self).spec_vault() {
                    None => r matches WorkerStep::Reply(resp) && no_vault(resp),
                    Some(v) => match stored {
                        Err(d) => r matches WorkerStep::Reply(WorkerResponse::Error { message }) && message@ == "Failed to decrypt file: "@ + d@,
                        Ok(b) => match file_read(v.hkdf.spec_salt(), v.hkdf.spec_ikm(), entry.id, entry.compressed, b@) {
                            Ok(p) => r matches WorkerStep::WriteTemp { name, bytes } && name@ == temp_file_name(entry.path@) && bytes@ == p,
                            Err(e) => r matches WorkerStep::Reply(WorkerResponse::Error { message }) && message@ == "Failed to decrypt file: "@
                                + vault_error_text(e),
                        },
                    },
                }
            },
            ev matches WorkerEvent::Encrypted { outcome } ==> *final(self) == *old(self) && match outcome {
                Ok(()) => r == WorkerStep::Reply(WorkerResponse::EncryptionDone),
                Err(d) => r matches WorkerStep::Reply(WorkerResponse::Error { message }) && message@ == "Encryption failed: "@ + d@,
            },
            ev matches WorkerEvent::Rename { old_path, new_path } ==> match old(self).open_entries() {
                None => r matches WorkerStep::Reply(resp) && no_vault(resp),
                Some(es) => r == WorkerStep::Reply(WorkerResponse::FileRenamed { old_path, new_path })
                    && final(self).spec_data_end() == old(self).spec_data_end()
                    && (final(self).open_entries() matches Some(nes) && nes.len() == es.len() && (if no_path(es, old_path@) {
                    nes == es
                } else {
                    exists|i: int|
                        is_first_path(es, old_path@, i) && (forall|j: int| 0 <= j < es.len() && j != i ==> nes[j] == es[j]) && nes[i]@
                            == (FileEntry { path: nes[i].path, ..es[i] })@ && nes[i].path@ == new_path@
                })),
            },
            ev matches WorkerEvent::Delete { entry } ==> match old(self).open_entries() {
                None => r matches WorkerStep::Reply(resp) && no_vault(resp),
                Some(es) => (r matches WorkerStep::Reply(WorkerResponse::FileDeleted { path }) && path@ == entry.path@)
                    && final(self).open_entries() == Some(without_path(es, entry.path@)),
            },
            ev is GarbageCollect ==> *final(self) == *old(self) && match old(self).open_entries() {
                None => r matches WorkerStep::Reply(resp) && no_vault(resp),
                Some(es) => r matches WorkerStep::Reply(WorkerResponse::Error { message }) && message@ == (if garbage_below_tenth(
                    old(self).spec_data_end(),
                    es,
                ) {
                    "Garbage is below 10% threshold, no collection needed"@
                } else {
                    "Garbage collection failed: not supported"@
                }),
            },
    {
        match ev {
            WorkerEvent::Opened { outcome, index_offset } => WorkerStep::Reply(self.open_vault_done(outcome, index_offset)),
            WorkerEvent::Read { entry, stored } => {
                let name = match self.read_target(&entry) {
                    Ok(n) => n,
                    Err(answer) => return WorkerStep::Reply(answer),
                };
                match stored {
                    Err(d) => WorkerStep::Reply(io_failure("Failed to decrypt file: ", d.as_str())),
                    Ok(b) => match self.decrypt(&entry, b) {
                        Ok(bytes) => WorkerStep::WriteTemp { name, bytes },
                        Err(answer) => WorkerStep::Reply(answer),
                    },
                }
            },
            WorkerEvent::Encrypted { outcome } => WorkerStep::Reply(encryption_done(outcome)),
            WorkerEvent::Rename { old_path, new_path } => WorkerStep::Reply(self.rename(old_path, new_path)),
            WorkerEvent::Delete { entry } => WorkerStep::Reply(self.delete(entry)),
            WorkerEvent::GarbageCollect => WorkerStep::Reply(self.garbage_collect()),
            WorkerEvent::Close => {
                self.close();
                WorkerStep::Silent
            },
        }
    }
}

/// The answer once a decrypted file's temporary file is written, or failed
/// to be: its path, or the reason.
pub fn temp_written(outcome: Result<String, String>) -> (r: WorkerResponse)
    ensures
        match outcome {
            Ok(p) => r == WorkerResponse::FileDecryptedToTemp { temp_path: p },
            Err(d) => r matches WorkerResponse::Error { message } && message@ == "Failed to write temp file: "@ + d@,
        },
{
    match outcome {
        Ok(p) => WorkerResponse::FileDecryptedToTemp { temp_path: p },
        Err(d) => error_response("Failed to write temp file: ", d.as_str()),
    }
}

/// The stored bytes the entries `es` use.
pub open spec fn used_bytes(es: Seq<FileEntry>) -> nat
    decreases es.len(),
{
    if es.len() == 0 {
        0
    } else {
        used_bytes(es.drop_last()) + es.last().stored_size as nat
    }
}

/// Whether the bytes of the data region before `data_end` that the entries do
/// not use are less than a tenth of the region.
pub open spec fn garbage_below_tenth(data_end: u64, es: Seq<FileEntry>) -> bool {
    let region: int = if data_end >= 37 { data_end - 37 } else { 0 };
    let garbage: int = if used_bytes(es) <= region { region - used_bytes(es) } else { 0 };
    garbage * 10 < region
}

/// The stored bytes the entries use, summed.
fn live_bytes(entries: &Vec<FileEntry>) -> (r: u128)
    ensures
        r == used_bytes(entries@),
{
    let mut sum: u128 = 0;
    let n = entries.len();
    for i in 0..n
        invariant
            n == entries@.len(),
            sum == used_bytes(entries@.take(i as int)),
            sum <= i * 18446744073709551615,
    {
        assert(entries@.take(i + 1).drop_last() =~= entries@.take(i as int));
        assert(sum + entries@[i as int].stored_size <= (i + 1) * 18446744073709551615 && (i + 1) * 18446744073709551615 < 340282366920938463463374607431768211455) by (nonlinear_arith)
            requires
                sum <= i * 18446744073709551615,
                entries@[i as int].stored_size <= 18446744073709551615,
                i < 18446744073709551615,
        ;
        sum = sum + entries[i].stored_size as u128;
    }
    assert(entries@.take(n as int) =~= entries@);
    sum
}

/// How the creation of a vault went, as answered: done, or failed with its
/// reason.
pub fn encryption_done(outcome: Result<(), String>) -> (r: WorkerResponse)
    ensures
        match outcome {
            Ok(()) => r == WorkerResponse::EncryptionDone,
            Err(d) => r matches WorkerResponse::Error { message } && message@ == "Encryption failed: "@ + d@,
        },
{
    match outcome {
        Ok(()) => WorkerResponse::EncryptionDone,
        Err(d) => error_response("Encryption failed: ", d.as_str()),
    }
}

/// The answer when reading a file's stored bytes, or writing it out, failed:
/// `prefix` names the step and `detail` the reason.
pub fn io_failure(prefix: &str, detail: &str) -> (r: WorkerResponse)
    ensures
        r matches WorkerResponse::Error { message } && message@ == prefix@ + detail@,
{
    error_response(prefix, detail)
}

/// The garbage check answers "below the threshold" exactly when the entries
/// use more than nine tenths of the data region, the bytes between the
/// header and the index (or, where they claim more than the region, when the
/// region is not empty): 30 unused bytes of 100 are not below it.
pub proof fn lemma_garbage_threshold(data_end: u64, es: Seq<FileEntry>)
    ensures
        garbage_below_tenth(data_end, es) <==> {
            let region: int = if data_end >= HEADER_LEN { data_end - HEADER_LEN } else { 0 };
            if used_bytes(es) <= region {
                9 * region < 10 * used_bytes(es)
            } else {
                region > 0
            }
        },
{
}

/// The bytes the entries use are their stored sizes added up: one entry uses
/// its stored size, and two runs of entries use what each uses.
pub proof fn lemma_used_bytes_sum(a: Seq<FileEntry>, b: Seq<FileEntry>, e: FileEntry)
    ensures
        used_bytes(seq![e]) == e.stored_size,
        used_bytes(Seq::<FileEntry>::empty()) == 0,
        used_bytes(a + b) == used_bytes(a) + used_bytes(b),
    decreases b.len(),
{
    assert(seq![e].drop_last() =~= Seq::<FileEntry>::empty());
    assert(used_bytes(Seq::<FileEntry>::empty()) == 0);
    assert(used_bytes(seq![e].drop_last()) == 0);
    assert(seq![e].last() == e);
    if b.len() == 0 {
        assert(a + b =~= a);
    } else {
        lemma_used_bytes_sum(a, b.drop_last(), e);
        assert((a + b).drop_last() =~= a + b.drop_last());
        assert((a + b).last() == b.last());
    }
}

} // verus!

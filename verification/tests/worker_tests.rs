use evfs::deflate::{ContainerIndex, DecodeFailure, FileEntry, VaultError, VaultReader};
use evfs::chunk::CryptoError;
use evfs::deflate::seal_file;
use evfs::vault::vault_keys;
use evfs::worker::{encryption_done, io_failure, VaultWorker, WorkerResponse};

fn entry(path: &str, offset: u64, stored: u64) -> FileEntry {
    FileEntry { id: [2; 16], path: path.to_string(), offset, stored_size: stored, original_size: 0, compressed: false }
}

fn reader(entries: Vec<FileEntry>) -> VaultReader {
    VaultReader { index: ContainerIndex { entries }, hkdf: vault_keys("pw", [3; 16]) }
}

fn message(r: WorkerResponse) -> String {
    match r {
        WorkerResponse::Error { message } => message,
        other => panic!("not an error: {:?}", other),
    }
}

#[test]
fn no_vault_answers() {
    let mut w = VaultWorker::new();
    assert!(!w.has_vault());
    assert_eq!(message(w.read_target(&entry("a", 37, 0)).unwrap_err()), "No vault is open");
    assert_eq!(message(w.decrypt(&entry("a", 37, 0), Vec::new()).unwrap_err()), "No vault is open");
    assert_eq!(message(w.garbage_collect()), "No vault is open");
    assert_eq!(message(w.rename("a".into(), "b".into())), "No vault is open");
    assert_eq!(message(w.delete(entry("a", 37, 0))), "No vault is open");
}

#[test]
fn open_and_close() {
    let mut w = VaultWorker::new();
    let r = w.open_vault_done(Err("Magic mismatch".to_string()), 0);
    assert_eq!(message(r), "Failed to open vault: Magic mismatch");
    assert!(!w.has_vault());
    let r = w.open_vault_done(Ok(reader(vec![entry("a.txt", 37, 10)])), 47);
    match r {
        WorkerResponse::VaultOpened { index } => assert_eq!(index.entries[0].path, "a.txt"),
        other => panic!("{:?}", other),
    }
    assert!(w.has_vault());
    assert_eq!(w.vault().unwrap().index.entries.len(), 1);
    w.close();
    assert!(!w.has_vault());
}

#[test]
fn temp_names() {
    let mut w = VaultWorker::new();
    w.open_vault_done(Ok(reader(vec![])), 37);
    assert_eq!(w.read_target(&entry("dir/report.pdf", 37, 0)).unwrap(), "evfs_report.pdf");
    assert_eq!(w.read_target(&entry("..", 37, 0)).unwrap(), "evfs_unknown");
}

#[test]
fn decrypt_with_open_vault() {
    let mut w = VaultWorker::new();
    w.open_vault_done(Ok(reader(vec![])), 37);
    let stored = seal_file(&w.vault().unwrap().hkdf, [2; 16], b"plain", false, Vec::new()).unwrap();
    let e = entry("f", 37, stored.len() as u64);
    assert_eq!(w.decrypt(&e, stored.clone()).unwrap(), b"plain".to_vec());
    let mut bad = stored;
    let last = bad.len() - 1;
    bad[last] ^= 1;
    assert_eq!(message(w.decrypt(&e, bad).unwrap_err()), "Failed to decrypt file: decrypt chunk failed");
}

#[test]
fn rename_and_delete_in_open_vault() {
    let mut w = VaultWorker::new();
    w.open_vault_done(Ok(reader(vec![entry("a", 37, 10), entry("b", 47, 10), entry("a", 57, 10)])), 67);
    assert!(matches!(w.rename("a".into(), "c".into()), WorkerResponse::FileRenamed { old_path, new_path } if old_path == "a" && new_path == "c"));
    let paths: Vec<_> = w.vault().unwrap().index.entries.iter().map(|e| e.path.clone()).collect();
    assert_eq!(paths, vec!["c", "b", "a"]);
    assert!(matches!(w.delete(entry("a", 0, 0)), WorkerResponse::FileDeleted { path } if path == "a"));
    let paths: Vec<_> = w.vault().unwrap().index.entries.iter().map(|e| e.path.clone()).collect();
    assert_eq!(paths, vec!["c", "b"]);
}

#[test]
fn garbage_threshold() {
    let mut w = VaultWorker::new();
    w.open_vault_done(Ok(reader(vec![entry("a", 37, 95)])), 137);
    assert_eq!(message(w.garbage_collect()), "Garbage is below 10% threshold, no collection needed");
    w.delete(entry("a", 0, 0));
    assert_eq!(message(w.garbage_collect()), "Garbage collection failed: not supported");
}

#[test]
fn task_answers() {
    assert!(matches!(encryption_done(Ok(())), WorkerResponse::EncryptionDone));
    assert_eq!(message(encryption_done(Err("disk full".into()))), "Encryption failed: disk full");
    assert_eq!(message(io_failure("Failed to write temp file: ", "denied")), "Failed to write temp file: denied");
}

#[test]
fn error_texts() {
    assert_eq!(VaultError::MagicMismatch.message(), "Magic mismatch");
    assert_eq!(VaultError::Crypto(CryptoError::UnexpectedEof).message(), "failed to fill whole buffer");
    assert_eq!(VaultError::Malformed(DecodeFailure::EndInPath).message(), "io error: ");
    assert_eq!(
        VaultError::Malformed(DecodeFailure::InvalidUtf8 { valid_up_to: 3, error_len: None }).message(),
        "string is not valid utf8: incomplete utf-8 byte sequence from index 3"
    );
}

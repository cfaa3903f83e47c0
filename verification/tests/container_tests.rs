use evfs::crypto::argon2id;
use evfs::deflate::{Header, VaultError, VaultReader, MAGIC};
use evfs::format::{decode_header, HEADER_LEN};
use evfs::ui::types::ProgressMessage;
use evfs::vault::{prepare_file, vault_keys, ContainerBuilder};

fn build(password: &str, salt: [u8; 16], files: &[(&str, Vec<u8>)]) -> Vec<u8> {
    let hkdf = vault_keys(password, salt);
    let mut builder = ContainerBuilder::new(&hkdf, salt, files.len());
    let mut out = builder.header_placeholder();
    for (path, data) in files {
        let work = prepare_file(&hkdf, path.to_string(), data).unwrap();
        let (bytes, _msg) = builder.append(work).unwrap();
        out.extend_from_slice(&bytes);
    }
    let (index, header) = builder.finish(&hkdf).unwrap();
    out.extend_from_slice(&index);
    out[..HEADER_LEN].copy_from_slice(&header);
    out
}

fn open(c: &[u8], password: &str) -> Result<VaultReader, VaultError> {
    let h = decode_header(c)?;
    let start = h.index_offset as usize;
    let end = start + h.index_size as usize;
    VaultReader::open(&h, password, c[start..end].to_vec())
}

#[test]
fn vault_reads_back_what_was_written() {
    let files = vec![
        ("notes/a.txt", b"short".to_vec()),
        ("notes/b.txt", vec![b'z'; 10_000]),
        ("img/p.png", (0..3000u32).map(|i| (i * 7 % 256) as u8).collect()),
        ("empty", Vec::new()),
    ];
    let c = build("hunter2", [4u8; 16], &files);
    let reader = open(&c, "hunter2").unwrap();
    assert_eq!(reader.index.entries.len(), files.len());
    for e in &reader.index.entries {
        assert_eq!(e.id[7] & 0xf0, 0x40);
        assert_eq!(e.id[8] & 0xc0, 0x80);
    }
    for (e, (path, data)) in reader.index.entries.iter().zip(files.iter()) {
        assert_eq!(&e.path, path);
        assert_eq!(e.original_size, data.len() as u64);
        let stored = c[e.offset as usize..(e.offset + e.stored_size) as usize].to_vec();
        assert_eq!(&reader.read_file_content(e, stored).unwrap(), data);
    }
}

#[test]
fn entries_tile_the_data_region() {
    let files = vec![("a", vec![1u8; 10]), ("b", vec![2u8; 300]), ("c", vec![3u8; 1])];
    let c = build("pw", [1u8; 16], &files);
    let h = decode_header(&c).unwrap();
    let reader = open(&c, "pw").unwrap();
    let mut pos = HEADER_LEN as u64;
    for e in &reader.index.entries {
        assert_eq!(e.offset, pos);
        pos += e.stored_size;
    }
    assert_eq!(pos, h.index_offset);
    assert_eq!(h.index_offset + h.index_size, c.len() as u64);
    assert_eq!(h.magic, MAGIC);
    assert_eq!(h.salt, [1u8; 16]);
}

#[test]
fn compression_follows_the_rule() {
    let files = vec![("big.txt", vec![b'a'; 1000]), ("small.txt", vec![b'a'; 10]), ("pic.JPEG", vec![b'a'; 1000])];
    let c = build("pw", [2u8; 16], &files);
    let reader = open(&c, "pw").unwrap();
    let flags: Vec<bool> = reader.index.entries.iter().map(|e| e.compressed).collect();
    assert_eq!(flags, vec![true, false, false]);
    assert!(reader.index.entries[0].stored_size < 1000);
}

#[test]
fn wrong_password_is_refused() {
    let c = build("right", [5u8; 16], &[("f", b"data".to_vec())]);
    assert!(matches!(open(&c, "wrong"), Err(VaultError::Crypto(_))));
}

#[test]
fn bad_magic_is_refused() {
    let mut c = build("pw", [5u8; 16], &[("f", b"data".to_vec())]);
    c[0] = b'X';
    assert!(matches!(open(&c, "pw"), Err(VaultError::MagicMismatch)));
}

#[test]
fn progress_reports_count_files() {
    let salt = [9u8; 16];
    let hkdf = vault_keys("pw", salt);
    let mut builder = ContainerBuilder::new(&hkdf, salt, 2);
    match builder.initial_progress() {
        ProgressMessage::Progress { current, total, message } => {
            assert_eq!((current, total), (0, 2));
            assert_eq!(message, "Processing files...");
        }
    }
    let w = prepare_file(&hkdf, "x/y.txt".to_string(), b"abc").unwrap();
    let (_, msg) = builder.append(w).unwrap();
    match msg {
        ProgressMessage::Progress { current, total, message } => {
            assert_eq!((current, total), (1, 2));
            assert_eq!(message, "Writing file: x/y.txt");
        }
    }
}

#[test]
fn placeholder_header_points_nowhere() {
    let salt = [7u8; 16];
    let hkdf = vault_keys("pw", salt);
    let builder = ContainerBuilder::new(&hkdf, salt, 0);
    let h: Header = decode_header(&builder.header_placeholder()).unwrap();
    assert_eq!((h.index_offset, h.index_size), (0, 0));
    assert_eq!(h.version, 2);
}

#[test]
fn master_key_is_derived() {
    let k = argon2id(b"password", [1u8; 16]).unwrap();
    assert_eq!(k.len(), 32);
    assert_ne!(&k[..8], b"password");
    let k2 = argon2id(b"password", [2u8; 16]).unwrap();
    assert_ne!(k, k2);
}

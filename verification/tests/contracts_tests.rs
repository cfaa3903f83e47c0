use evfs::chunk::{decrypt_bytes, encrypt_bytes, encrypt_with_nonce_prefix, ChunkDecryptReader, ChunkEncryptWriter, CryptoError, CHUNK_SIZE};
use evfs::deflate::Header;
use evfs::format::{decode_header, HEADER_LEN};
use evfs::crypto::HkdfContext;
use evfs::deflate::{compress, decompress, seal_file, seal_index, ContainerIndex, FileEntry, VaultError, VaultReader};
use evfs::gif_player::GifAnimation;
use evfs::vault::{prepare_file, uuid_v4_le, vault_keys, ContainerBuilder};
use evfs::worker::{temp_written, VaultWorker, WorkerEvent, WorkerResponse, WorkerStep};

#[test]
fn uuid_bytes_are_version_four_in_le_order() {
    let b: [u8; 16] = [0, 1, 2, 3, 4, 5, 0xff, 7, 0xff, 9, 10, 11, 12, 13, 14, 15];
    let r = uuid_v4_le(b);
    assert_eq!(r, [3, 2, 1, 0, 5, 4, 7, 0x4f, 0xbf, 9, 10, 11, 12, 13, 14, 15]);
    let u = uuid::Builder::from_random_bytes(b).into_uuid();
    assert_eq!(r, u.to_bytes_le());
}

#[test]
fn prepared_files_get_version_four_ids() {
    let hkdf = HkdfContext::new(&[1u8; 16], &[2u8; 32]);
    let w = prepare_file(&hkdf, "a.txt".to_string(), b"abc").unwrap();
    let mut b = ContainerBuilder::new(&hkdf, [1u8; 16], 1);
    let (bytes, _) = b.append(w).unwrap();
    assert!(!bytes.is_empty());
}

#[test]
fn stream_length_is_prefix_frames_and_tags() {
    let key = [3u8; 32];
    let data: Vec<u8> = vec![1u8; CHUNK_SIZE + 1];
    let enc = encrypt_bytes(vec![0, 0, 0], &key, Some([1u8; 16]), &data).unwrap();
    assert_eq!(enc.len(), 3 + 8 + data.len() + 2 * 20);
    let empty = encrypt_bytes(Vec::new(), &key, None, &[]).unwrap();
    assert_eq!(empty.len(), 8);
}

#[test]
fn writer_seals_every_chunk() {
    let mut w = ChunkEncryptWriter::new(Vec::new(), &[5u8; 32], None).unwrap();
    assert_eq!(w.write(b"abc").unwrap(), 3);
    assert!(w.flush().is_ok());
    assert_eq!(w.write(b"de").unwrap(), 2);
    let out = w.finish().unwrap();
    assert_eq!(out.len(), 8 + (4 + 3 + 16) + (4 + 2 + 16));
}

#[test]
fn compression_never_fails() {
    assert!(compress(&[], Vec::new()).is_ok());
    assert!(compress(&[7u8; 3000], vec![1, 2]).unwrap().starts_with(&[1, 2]));
}

#[test]
fn truncated_deflate_is_incomplete() {
    let data: Vec<u8> = (0..4000u32).map(|i| (i % 13) as u8).collect();
    let c = compress(&data, Vec::new()).unwrap();
    let half = &c[..c.len() / 2];
    assert_eq!(decompress(half), Err(VaultError::IncompleteStream));
    assert_eq!(VaultError::IncompleteStream.message(), "incomplete deflate stream");
    assert_eq!(VaultError::Decompress.message(), "corrupt deflate stream");
}

#[test]
fn sealed_index_reads_back() {
    let hkdf = HkdfContext::new(&[9u8; 16], &[8u8; 32]);
    let sealed = seal_index(&hkdf, b"index bytes").unwrap();
    assert_eq!(VaultReader::decrypt_index(&hkdf, sealed).unwrap(), b"index bytes".to_vec());
}

#[test]
fn corrupt_compressed_file_reports_decompression() {
    let hkdf = HkdfContext::new(&[5u8; 16], &[6u8; 32]);
    // stored uncompressed, read back as if compressed: the plaintext is no deflate stream
    let stored = seal_file(&hkdf, [8u8; 16], &[0xff, 0xff, 0xff, 0xff], false, Vec::new()).unwrap();
    let entry = FileEntry { id: [8u8; 16], path: "x".to_string(), offset: 0, stored_size: stored.len() as u64, original_size: 4, compressed: true };
    let reader = VaultReader { index: ContainerIndex { entries: vec![] }, hkdf };
    assert_eq!(reader.read_file_content(&entry, stored), Err(VaultError::Decompress));
}

#[test]
fn worker_decrypts_with_open_vault() {
    let hkdf = vault_keys("pw", [4u8; 16]);
    let stored = seal_file(&hkdf, [2u8; 16], b"content", false, Vec::new()).unwrap();
    let entry = FileEntry { id: [2u8; 16], path: "d/f.txt".to_string(), offset: 37, stored_size: stored.len() as u64, original_size: 7, compressed: false };
    let mut worker = VaultWorker::new();
    assert!(worker.decrypt(&entry, stored.clone()).is_err());
    let reader = VaultReader { index: ContainerIndex { entries: vec![entry.clone()] }, hkdf };
    let _ = worker.open_vault_done(Ok(reader), 37 + stored.len() as u64);
    assert_eq!(worker.decrypt(&entry, stored).unwrap(), b"content".to_vec());
}

#[test]
fn appended_bytes_are_the_sealed_file() {
    let hkdf = HkdfContext::new(&[1u8; 16], &[2u8; 32]);
    let mut b = ContainerBuilder::new(&hkdf, [1u8; 16], 2);
    let w = prepare_file(&hkdf, "a.txt".to_string(), b"abc").unwrap();
    let (bytes, _) = b.append(w).unwrap();
    assert_eq!(bytes.len(), 8 + 4 + 3 + 16);
}

const ONE_PIXEL_GIF: [u8; 43] = [
    0x47, 0x49, 0x46, 0x38, 0x39, 0x61, 0x01, 0x00, 0x01, 0x00, 0x80, 0x00, 0x00, 0x00, 0x00, 0x00,
    0xff, 0xff, 0xff, 0x21, 0xf9, 0x04, 0x01, 0x00, 0x00, 0x00, 0x00, 0x2c, 0x00, 0x00, 0x00, 0x00,
    0x01, 0x00, 0x01, 0x00, 0x00, 0x02, 0x02, 0x44, 0x01, 0x00, 0x3b,
];

#[test]
fn gif_frames_decode() {
    let a = GifAnimation::from_gif(&ONE_PIXEL_GIF).unwrap();
    assert_eq!(a.images.len(), 1);
    assert_eq!(a.delays.len(), 1);
    assert_eq!((a.images[0].0, a.images[0].1), (1, 1));
    assert_eq!(a.images[0].2.len(), 4);
    assert_eq!(a.delays[0], 0);
}

#[test]
fn gif_garbage_is_refused() {
    assert!(GifAnimation::from_gif(b"not a gif at all").is_none());
    assert!(GifAnimation::from_gif(&[]).is_none());
}

#[test]
fn reader_hands_out_good_chunks_before_a_bad_one() {
    let key = [6u8; 32];
    let data: Vec<u8> = (0..(CHUNK_SIZE + 5)).map(|i| (i % 7) as u8).collect();
    let mut enc = encrypt_bytes(Vec::new(), &key, None, &data).unwrap();
    let second = 8 + 4 + CHUNK_SIZE + 16 + 4;
    enc[second] ^= 1;
    let mut rd = ChunkDecryptReader::new(enc.clone(), &key, None).unwrap();
    let first = rd.read(CHUNK_SIZE).unwrap();
    assert_eq!(first, data[..CHUNK_SIZE].to_vec());
    assert_eq!(rd.read(CHUNK_SIZE), Err(CryptoError::DecryptFailed));
    let mut rd2 = ChunkDecryptReader::new(enc, &key, None).unwrap();
    assert_eq!(rd2.read_to_end(), Err(CryptoError::DecryptFailed));
}

#[test]
fn reopening_a_written_vault_with_its_password() {
    let salt = [3u8; 16];
    let hkdf = vault_keys("secret", salt);
    let mut b = ContainerBuilder::new(&hkdf, salt, 1);
    let mut out = b.header_placeholder();
    let w = prepare_file(&hkdf, "notes/a.txt".to_string(), b"hello").unwrap();
    let (bytes, _) = b.append(w).unwrap();
    out.extend_from_slice(&bytes);
    let (index, header) = b.finish(&hkdf).unwrap();
    out.extend_from_slice(&index);
    out[..HEADER_LEN].copy_from_slice(&header);
    let h: Header = decode_header(&out).unwrap();
    let enc = out[h.index_offset as usize..(h.index_offset + h.index_size) as usize].to_vec();
    let reader = VaultReader::open(&h, "secret", enc.clone()).unwrap();
    assert_eq!(reader.index.entries.len(), 1);
    let e = &reader.index.entries[0];
    let stored = out[e.offset as usize..(e.offset + e.stored_size) as usize].to_vec();
    assert_eq!(reader.read_file_content(e, stored).unwrap(), b"hello".to_vec());
    assert!(VaultReader::open(&h, "wrong", enc).is_err());
}

#[test]
fn stream_with_a_given_prefix_is_determined() {
    let key = [2u8; 32];
    let a = encrypt_with_nonce_prefix(vec![9], &key, Some([4u8; 16]), b"payload", [1, 2, 3, 4, 5, 6, 7, 8]);
    let b = encrypt_with_nonce_prefix(vec![9], &key, Some([4u8; 16]), b"payload", [1, 2, 3, 4, 5, 6, 7, 8]);
    assert_eq!(a, b);
    assert_eq!(&a[..9], &[9, 1, 2, 3, 4, 5, 6, 7, 8]);
    assert_eq!(a.len(), 1 + 8 + 4 + 7 + 16);
    assert_eq!(decrypt_bytes(a[1..].to_vec(), &key, Some([4u8; 16])).unwrap(), b"payload".to_vec());
    let w = ChunkEncryptWriter::with_nonce_prefix(Vec::new(), &key, None, [0u8; 8]);
    assert_eq!(w.finish().unwrap(), vec![0u8; 8]);
}

#[test]
fn reads_in_any_pieces_give_back_what_was_written() {
    let key = [8u8; 32];
    let data: Vec<u8> = (0..(CHUNK_SIZE + 300)).map(|i| (i % 253) as u8).collect();
    let mut w = ChunkEncryptWriter::new(Vec::new(), &key, Some([1u8; 16])).unwrap();
    w.write(&data[..10]).unwrap();
    w.flush().unwrap();
    w.write(&data[10..CHUNK_SIZE + 100]).unwrap();
    w.flush().unwrap();
    w.write(&data[CHUNK_SIZE + 100..]).unwrap();
    let out = w.finish().unwrap();
    let mut rd = ChunkDecryptReader::new(out, &key, Some([1u8; 16])).unwrap();
    let mut got = Vec::new();
    let sizes = [3usize, 1, 70000, 5, CHUNK_SIZE, 17];
    let mut k = 0;
    loop {
        let piece = rd.read(sizes[k % sizes.len()]).unwrap();
        k += 1;
        if piece.is_empty() {
            break;
        }
        assert!(piece.len() <= sizes[(k - 1) % sizes.len()]);
        got.extend_from_slice(&piece);
    }
    assert_eq!(got, data);
    for _ in 0..3 {
        assert_eq!(rd.read(10).unwrap(), Vec::<u8>::new());
    }
}

#[test]
fn worker_answers_each_request_once_and_close_not_at_all() {
    let mut worker = VaultWorker::new();
    let entry = FileEntry { id: [2u8; 16], path: "d/f.txt".to_string(), offset: 37, stored_size: 1, original_size: 1, compressed: false };
    assert!(matches!(worker.step(WorkerEvent::Read { entry: entry.clone(), stored: Ok(vec![]) }), WorkerStep::Reply(WorkerResponse::Error { .. })));
    assert!(matches!(worker.step(WorkerEvent::GarbageCollect), WorkerStep::Reply(_)));
    assert!(matches!(worker.step(WorkerEvent::Encrypted { outcome: Ok(()) }), WorkerStep::Reply(WorkerResponse::EncryptionDone)));
    assert!(matches!(worker.step(WorkerEvent::Close), WorkerStep::Silent));
    let hkdf = vault_keys("pw", [4u8; 16]);
    let stored = seal_file(&hkdf, [2u8; 16], b"content", false, Vec::new()).unwrap();
    let reader = VaultReader { index: ContainerIndex { entries: vec![entry.clone()] }, hkdf };
    assert!(matches!(worker.step(WorkerEvent::Opened { outcome: Ok(reader), index_offset: 99 }), WorkerStep::Reply(WorkerResponse::VaultOpened { .. })));
    match worker.step(WorkerEvent::Read { entry: entry.clone(), stored: Ok(stored) }) {
        WorkerStep::WriteTemp { name, bytes } => {
            assert_eq!(name, "evfs_f.txt");
            assert_eq!(bytes, b"content".to_vec());
        }
        _ => panic!("expected a temp file to write"),
    }
    assert!(matches!(worker.step(WorkerEvent::Read { entry, stored: Err("gone".to_string()) }),
        WorkerStep::Reply(WorkerResponse::Error { message }) if message == "Failed to decrypt file: gone"));
    assert!(matches!(temp_written(Ok("/tmp/x".to_string())), WorkerResponse::FileDecryptedToTemp { temp_path } if temp_path == "/tmp/x"));
    assert!(matches!(temp_written(Err("disk full".to_string())), WorkerResponse::Error { message } if message == "Failed to write temp file: disk full"));
}

#[test]
fn index_location_checks_the_magic_first() {
    let good = Header::new(&[1u8; 16]);
    let h = Header { index_offset: 100, index_size: 50, ..good };
    assert_eq!(VaultReader::index_location(&h), Ok((100, 50)));
    let bad = Header { magic: *b"ZZZZ", ..h };
    assert_eq!(VaultReader::index_location(&bad), Err(VaultError::MagicMismatch));
}

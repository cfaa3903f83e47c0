use evfs::chunk::{decrypt_bytes, encrypt_bytes, CryptoError, CHUNK_SIZE};
use evfs::crypto::HkdfContext;
use evfs::deflate::{compress, decompress, seal_file, should_compress, FileEntry, VaultReader, ContainerIndex};

#[test]
fn stream_roundtrip_small() {
    let key = [7u8; 32];
    let data = b"hello vault".to_vec();
    let enc = encrypt_bytes(Vec::new(), &key, None, &data).unwrap();
    // nonce prefix, one frame: 4-byte length, ciphertext and tag
    assert_eq!(enc.len(), 8 + 4 + data.len() + 16);
    let dec = decrypt_bytes(enc, &key, None).unwrap();
    assert_eq!(dec, data);
}

#[test]
fn stream_roundtrip_multi_chunk() {
    let key = [1u8; 32];
    let data: Vec<u8> = (0..(CHUNK_SIZE * 2 + 5)).map(|i| (i % 251) as u8).collect();
    let enc = encrypt_bytes(vec![9, 9], &key, Some([3u8; 16]), &data).unwrap();
    assert_eq!(&enc[..2], &[9, 9]);
    assert_eq!(enc.len(), 2 + 8 + 3 * (4 + 16) + data.len());
    let dec = decrypt_bytes(enc[2..].to_vec(), &key, Some([3u8; 16])).unwrap();
    assert_eq!(dec, data);
}

#[test]
fn stream_wrong_key_fails() {
    let enc = encrypt_bytes(Vec::new(), &[1u8; 32], None, b"secret").unwrap();
    assert_eq!(decrypt_bytes(enc, &[2u8; 32], None), Err(CryptoError::DecryptFailed));
}

#[test]
fn compress_roundtrip() {
    let data = vec![b'a'; 1000];
    let c = compress(&data, Vec::new()).unwrap();
    assert!(c.len() < data.len());
    assert_eq!(decompress(&c).unwrap(), data);
}

#[test]
fn file_roundtrip() {
    let hkdf = HkdfContext::new(&[5u8; 16], &[6u8; 32]);
    let data = vec![b'x'; 5000];
    let stored = seal_file(&hkdf, [8u8; 16], &data, true, Vec::new()).unwrap();
    let entry = FileEntry { id: [8u8; 16], path: "a/b.txt".to_string(), offset: 0, stored_size: stored.len() as u64, original_size: 5000, compressed: true };
    let reader = VaultReader { index: ContainerIndex { entries: vec![entry.clone()] }, hkdf };
    assert_eq!(reader.read_file_content(&entry, stored).unwrap(), data);
}

#[test]
fn should_compress_rules() {
    assert!(!should_compress("a.txt", 10));
    assert!(should_compress("a.txt", 256));
    assert!(!should_compress("dir/photo.JPG", 10000));
    assert!(should_compress("dir/.jpg", 10000));
    assert!(should_compress("dir/archive", 10000));
}

#[test]
fn truncated_stream_is_unexpected_eof() {
    let enc = encrypt_bytes(Vec::new(), &[4u8; 32], None, b"some secret data").unwrap();
    assert_eq!(decrypt_bytes(enc[..enc.len() - 3].to_vec(), &[4u8; 32], None), Err(CryptoError::UnexpectedEof));
    assert_eq!(decrypt_bytes(enc[..5].to_vec(), &[4u8; 32], None), Err(CryptoError::UnexpectedEof));
}

#[test]
fn garbage_does_not_inflate() {
    assert!(matches!(decompress(&[0xff, 0xff, 0xff, 0xff]), Err(evfs::deflate::VaultError::Decompress)));
}

#[test]
fn salts_are_random() {
    let a = evfs::crypto::rand_salt().unwrap();
    let b = evfs::crypto::rand_salt().unwrap();
    assert_ne!(a, b);
}

#[test]
fn ciphertext_hides_plaintext() {
    let data = vec![b'p'; 64];
    let enc = encrypt_bytes(Vec::new(), &[9u8; 32], None, &data).unwrap();
    assert!(!enc.windows(16).any(|w| w == &data[..16]));
}

#[test]
fn extract_appends_content() {
    let hkdf = HkdfContext::new(&[5u8; 16], &[6u8; 32]);
    let stored = seal_file(&hkdf, [8u8; 16], b"body", false, Vec::new()).unwrap();
    let entry = FileEntry { id: [8u8; 16], path: "x".to_string(), offset: 0, stored_size: stored.len() as u64, original_size: 4, compressed: false };
    let reader = VaultReader { index: ContainerIndex { entries: vec![] }, hkdf };
    let mut out = b"head:".to_vec();
    reader.extract_file(&entry, stored.clone(), &mut out).unwrap();
    assert_eq!(out, b"head:body".to_vec());
    let mut bad = stored;
    bad[10] ^= 0x55;
    let mut out2 = b"keep".to_vec();
    assert!(reader.extract_file(&entry, bad, &mut out2).is_err());
    assert_eq!(out2, b"keep".to_vec());
}

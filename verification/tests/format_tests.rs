use evfs::deflate::{DecodeFailure, FileEntry, Header, VaultError, FORMAT_VERSION, MAGIC};
use evfs::format::{decode_header, decode_index, encode_header, encode_index, HEADER_LEN};

fn entry(id: u8, path: &str, offset: u64, stored: u64, original: u64, compressed: bool) -> FileEntry {
    FileEntry { id: [id; 16], path: path.to_string(), offset, stored_size: stored, original_size: original, compressed }
}

fn as_tuple(e: &FileEntry) -> ([u8; 16], String, u64, u64, u64, bool) {
    (e.id, e.path.clone(), e.offset, e.stored_size, e.original_size, e.compressed)
}

#[test]
fn header_has_fixed_layout() {
    let h = Header { magic: MAGIC, version: FORMAT_VERSION, salt: [0xAB; 16], index_offset: 0x0102030405060708, index_size: 300 };
    let b = encode_header(&h);
    assert_eq!(b.len(), HEADER_LEN);
    assert_eq!(&b[0..4], b"EVFS");
    assert_eq!(b[4], 2);
    assert_eq!(&b[5..21], &[0xAB; 16]);
    assert_eq!(&b[21..29], &[8, 7, 6, 5, 4, 3, 2, 1]);
    assert_eq!(&b[29..37], &[44, 1, 0, 0, 0, 0, 0, 0]);
}

#[test]
fn header_matches_bincode() {
    let h = Header { magic: MAGIC, version: FORMAT_VERSION, salt: [3; 16], index_offset: 12345, index_size: 678 };
    let expected = bincode::serialize(&(h.magic, h.version, h.salt, h.index_offset, h.index_size)).unwrap();
    assert_eq!(encode_header(&h), expected);
}

#[test]
fn header_roundtrip() {
    let h = Header { magic: *b"XXXX", version: 9, salt: [1; 16], index_offset: u64::MAX, index_size: 0 };
    let mut b = encode_header(&h);
    b.extend_from_slice(b"trailing bytes are not read");
    let g = decode_header(&b).unwrap();
    assert_eq!(g.magic, h.magic);
    assert_eq!(g.version, h.version);
    assert_eq!(g.salt, h.salt);
    assert_eq!(g.index_offset, h.index_offset);
    assert_eq!(g.index_size, h.index_size);
}

#[test]
fn short_header_is_malformed() {
    let b = vec![0u8; HEADER_LEN - 1];
    assert!(matches!(decode_header(&b), Err(VaultError::Malformed(_))));
    assert!(matches!(decode_header(&[]), Err(VaultError::Malformed(_))));
}

#[test]
fn index_matches_bincode() {
    let es = vec![entry(1, "a.txt", 37, 40, 12, false), entry(2, "dir/ü.bin", 77, 100, 5000, true)];
    let tuples: Vec<_> = es.iter().map(as_tuple).collect();
    let expected = bincode::serialize(&tuples).unwrap();
    let ours = encode_index(&es);
    assert_eq!(ours, expected);
    let back: Vec<([u8; 16], String, u64, u64, u64, bool)> = bincode::deserialize(&ours).unwrap();
    assert_eq!(back, tuples);
}

#[test]
fn index_roundtrip() {
    let es = vec![entry(1, "a.txt", 37, 40, 12, false), entry(2, "b/c/d.png", 77, 1, 0, true), entry(3, "", 78, 0, 0, false)];
    let mut b = encode_index(&es);
    b.extend_from_slice(&[0xFF, 0xFF]);
    let back = decode_index(&b).unwrap();
    assert_eq!(back.len(), 3);
    for (x, y) in back.iter().zip(es.iter()) {
        assert_eq!(as_tuple(x), as_tuple(y));
    }
}

#[test]
fn empty_index_roundtrip() {
    let b = encode_index(&Vec::new());
    assert_eq!(b, vec![0u8; 8]);
    assert!(decode_index(&b).unwrap().is_empty());
}

#[test]
fn truncated_index_is_malformed() {
    let es = vec![entry(1, "a.txt", 37, 40, 12, false)];
    let b = encode_index(&es);
    for cut in [0, 7, 8, 20, b.len() - 1] {
        assert!(matches!(decode_index(&b[..cut]), Err(VaultError::Malformed(_))), "cut {}", cut);
    }
}

#[test]
fn bad_flag_byte_is_malformed() {
    let es = vec![entry(1, "a.txt", 37, 40, 12, true)];
    let mut b = encode_index(&es);
    let last = b.len() - 1;
    assert_eq!(b[last], 1);
    b[last] = 2;
    assert!(matches!(decode_index(&b), Err(VaultError::Malformed(_))));
}

#[test]
fn invalid_utf8_path_is_malformed() {
    let es = vec![entry(1, "ab", 37, 40, 12, false)];
    let mut b = encode_index(&es);
    // The path bytes follow the count (8), the id (16) and the length (8).
    b[32] = 0xC3;
    b[33] = 0x28;
    assert!(matches!(decode_index(&b), Err(VaultError::Malformed(_))));
}

type Row = ([u8; 16], String, u64, u64, u64, bool);

fn bincode_text(b: &[u8]) -> String {
    bincode::deserialize::<Vec<Row>>(b).unwrap_err().to_string()
}

fn our_text(b: &[u8]) -> String {
    decode_index(b).unwrap_err().message()
}

#[test]
fn decode_failures_read_as_bincode_words_them() {
    let es = vec![entry(1, "abcd", 37, 40, 12, true)];
    let b = encode_index(&es);
    for cut in [0, 7, 8, 20, 31, 33, 40, b.len() - 1] {
        assert_eq!(our_text(&b[..cut]), bincode_text(&b[..cut]), "cut {}", cut);
    }
    assert_eq!(decode_index(&b[..33]).unwrap_err(), VaultError::Malformed(DecodeFailure::EndInPath));
    assert_eq!(our_text(&b[..20]), "io error: unexpected end of file");
    let mut bad_flag = b.clone();
    let last = bad_flag.len() - 1;
    bad_flag[last] = 7;
    assert_eq!(our_text(&bad_flag), bincode_text(&bad_flag));
    assert_eq!(our_text(&bad_flag), "invalid u8 while decoding bool, expected 0 or 1, found 7");
    let mut bad_utf8 = b.clone();
    bad_utf8[33] = 0xC3;
    bad_utf8[34] = 0x28;
    assert_eq!(our_text(&bad_utf8), bincode_text(&bad_utf8));
    assert_eq!(
        decode_index(&bad_utf8).unwrap_err(),
        VaultError::Malformed(DecodeFailure::InvalidUtf8 { valid_up_to: 1, error_len: Some(1) })
    );
    let mut cut_utf8 = b.clone();
    cut_utf8[35] = 0xE2;
    assert_eq!(our_text(&cut_utf8), bincode_text(&cut_utf8));
}

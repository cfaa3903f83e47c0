use vstd::prelude::*;
use vstd::string::StringSliceAdditionalSpecFns;
use vstd::utf8::{decode_utf8, decode_utf8_encode_utf8, encode_utf8, encode_utf8_decode_utf8, encode_utf8_valid_utf8, valid_utf8};
use crate::bytes::{le_u64, lemma_le64_bytes, lemma_le64_roundtrip, u64_from_le, u64_le, u64_to_le};
use crate::chunk::append_bytes;
use crate::deflate::{DecodeFailure, FileEntry, FileEntryView, Header, VaultError};

verus! {

/// How many bytes a header takes at the start of a vault.
pub const HEADER_LEN: usize = 37;

/// The byte that stands for a flag.
pub open spec fn bool_byte(b: bool) -> u8 {
    if b { 1 } else { 0 }
}

/// The header as stored: magic, version, salt, then the index's offset and
/// size, each little-endian.
pub open spec fn header_wire(magic: Seq<u8>, version: u8, salt: Seq<u8>, index_offset: u64, index_size: u64) -> Seq<u8> {
    magic + seq![version] + salt + u64_le(index_offset) + u64_le(index_size)
}

/// The stored form of `h`.
pub open spec fn header_bytes(h: &Header) -> Seq<u8> {
    header_wire(h.magic@, h.version, h.salt@, h.index_offset, h.index_size)
}

/// An entry as stored: its id, the length of its path's UTF-8 bytes and those
/// bytes, its offset, stored and original sizes, and its compression flag.
pub open spec fn entry_wire(e: FileEntryView) -> Seq<u8> {
    e.id + u64_le(encode_utf8(e.path).len() as u64) + encode_utf8(e.path) + u64_le(e.offset) + u64_le(e.stored_size) + u64_le(
        e.original_size,
    ) + seq![bool_byte(e.compressed)]
}

/// The stored forms of `es`, one after the other.
pub open spec fn entries_wire(es: Seq<FileEntryView>) -> Seq<u8>
    decreases es.len(),
{
    if es.len() == 0 {
        Seq::empty()
    } else {
        entries_wire(es.drop_last()) + entry_wire(es.last())
    }
}

/// An index as stored: the number of entries, then the entries.
pub open spec fn index_wire(es: Seq<FileEntryView>) -> Seq<u8> {
    u64_le(es.len() as u64) + entries_wire(es)
}

/// Whether `e` can be stored: a 16-byte id, and a path whose bytes fit a
/// 64-bit length.
pub open spec fn entry_storable(e: FileEntryView) -> bool {
    e.id.len() == 16 && encode_utf8(e.path).len() < 18446744073709551616
}

/// Whether every entry of `es` can be stored, and there are fewer than 2^64.
pub open spec fn entries_storable(es: Seq<FileEntryView>) -> bool {
    es.len() < 18446744073709551616 && forall|k: int| 0 <= k < es.len() ==> entry_storable(#[trigger] es[k])
}

/// Whether `w` begins `s` at `pos`.
pub open spec fn stored_at(s: Seq<u8>, pos: int, w: Seq<u8>) -> bool {
    0 <= pos && pos + w.len() <= s.len() && s.subrange(pos, pos + w.len()) == w
}

/// The views of the entries of `v`.
pub open spec fn entry_views(v: Seq<FileEntry>) -> Seq<FileEntryView> {
    v.map_values(|e: FileEntry| e@)
}

/// Where `String::from_utf8` finds bytes not to be UTF-8: its error's
/// `valid_up_to` and `error_len`.
pub uninterp spec fn utf8_failure(bytes: Seq<u8>) -> (usize, Option<usize>);

/// A `String` from UTF-8 bytes with `String::from_utf8`, which the standard
/// library documents as failing exactly on bytes that are not UTF-8 and as
/// keeping the bytes as they are otherwise. The contract says so over vstd's
/// UTF-8 model; of a failure it gives the error's `valid_up_to`, which std
/// documents as at most the input's length, and `error_len`, by name.
#[verifier::external_body]
fn string_from_utf8(bytes: Vec<u8>) -> (r: Result<String, (usize, Option<usize>)>)
    ensures
        r is Ok <==> valid_utf8(bytes@),
        r matches Ok(s) ==> s@ == decode_utf8(bytes@),
        r matches Err(f) ==> f == utf8_failure(bytes@) && f.0 <= bytes@.len(),
{
    String::from_utf8(bytes).map_err(|e| (e.utf8_error().valid_up_to(), e.utf8_error().error_len()))
}

/// The stored form of a header.
pub fn encode_header(h: &Header) -> (r: Vec<u8>)
    ensures
        r@ == header_bytes(h),
        r@.len() == HEADER_LEN,
{
    let mut out: Vec<u8> = Vec::new();
    append_bytes(&mut out, &h.magic);
    out.push(h.version);
    append_bytes(&mut out, &h.salt);
    append_bytes(&mut out, &u64_to_le(h.index_offset));
    append_bytes(&mut out, &u64_to_le(h.index_size));
    assert(out@ =~= header_bytes(h));
    out
}

/// Reads a header from the first bytes of a vault. Any 37 bytes spell a
/// header; fewer are refused.
pub fn decode_header(bytes: &[u8]) -> (r: Result<Header, VaultError>)
    ensures
        bytes@.len() < HEADER_LEN ==> r == Err::<Header, VaultError>(VaultError::Malformed(DecodeFailure::UnexpectedEnd)),
        bytes@.len() >= HEADER_LEN ==> (r matches Ok(h) && header_bytes(&h) == bytes@.take(HEADER_LEN as int)),
{
    if bytes.len() < HEADER_LEN {
        return Err(VaultError::Malformed(DecodeFailure::UnexpectedEnd));
    }
    let magic = [bytes[0], bytes[1], bytes[2], bytes[3]];
    let version = bytes[4];
    let salt = [
        bytes[5], bytes[6], bytes[7], bytes[8], bytes[9], bytes[10], bytes[11], bytes[12],
        bytes[13], bytes[14], bytes[15], bytes[16], bytes[17], bytes[18], bytes[19], bytes[20],
    ];
    let index_offset = u64_from_le(bytes, 21);
    let index_size = u64_from_le(bytes, 29);
    let h = Header { magic, version, salt, index_offset, index_size };
    proof {
        lemma_le64_bytes(bytes@.subrange(21, 29));
        lemma_le64_bytes(bytes@.subrange(29, 37));
        assert(magic@ =~= bytes@.subrange(0, 4));
        assert(salt@ =~= bytes@.subrange(5, 21));
        assert(header_bytes(&h) =~= bytes@.take(HEADER_LEN as int));
    }
    Ok(h)
}

/// The stored form of a header determines its fields.
pub proof fn lemma_header_wire_unique(
    m1: Seq<u8>,
    v1: u8,
    s1: Seq<u8>,
    o1: u64,
    z1: u64,
    m2: Seq<u8>,
    v2: u8,
    s2: Seq<u8>,
    o2: u64,
    z2: u64,
)
    requires
        m1.len() == 4,
        m2.len() == 4,
        s1.len() == 16,
        s2.len() == 16,
        header_wire(m1, v1, s1, o1, z1) == header_wire(m2, v2, s2, o2, z2),
    ensures
        m1 == m2,
        v1 == v2,
        s1 == s2,
        o1 == o2,
        z1 == z2,
{
    let w1 = header_wire(m1, v1, s1, o1, z1);
    let w2 = header_wire(m2, v2, s2, o2, z2);
    lemma_le64_roundtrip(o1);
    lemma_le64_roundtrip(z1);
    lemma_le64_roundtrip(o2);
    lemma_le64_roundtrip(z2);
    assert(w1.subrange(0, 4) =~= m1);
    assert(w2.subrange(0, 4) =~= m2);
    assert(w1[4] == v1 && w2[4] == v2);
    assert(w1.subrange(5, 21) =~= s1);
    assert(w2.subrange(5, 21) =~= s2);
    assert(w1.subrange(21, 29) =~= u64_le(o1));
    assert(w2.subrange(21, 29) =~= u64_le(o2));
    assert(w1.subrange(29, 37) =~= u64_le(z1));
    assert(w2.subrange(29, 37) =~= u64_le(z2));
}

/// Reading back a stored header gives its fields.
pub proof fn lemma_header_roundtrip(h: &Header, g: &Header)
    requires
        header_bytes(g) == header_bytes(h),
    ensures
        g.magic@ == h.magic@,
        g.version == h.version,
        g.salt@ == h.salt@,
        g.index_offset == h.index_offset,
        g.index_size == h.index_size,
{
    lemma_header_wire_unique(g.magic@, g.version, g.salt@, g.index_offset, g.index_size, h.magic@, h.version, h.salt@, h.index_offset, h.index_size);
}

proof fn lemma_entries_wire_push(es: Seq<FileEntryView>, e: FileEntryView)
    ensures
        entries_wire(es.push(e)) == entries_wire(es) + entry_wire(e),
{
    assert(es.push(e).drop_last() =~= es);
}

/// The stored form of one entry, appended to `out`.
fn encode_entry(e: &FileEntry, out: &mut Vec<u8>)
    ensures
        final(out)@ == old(out)@ + entry_wire(e@),
{
    let ps = e.path.as_str();
    let pb = ps.as_bytes();
    append_bytes(out, &e.id);
    append_bytes(out, &u64_to_le(pb.len() as u64));
    append_bytes(out, pb);
    append_bytes(out, &u64_to_le(e.offset));
    append_bytes(out, &u64_to_le(e.stored_size));
    append_bytes(out, &u64_to_le(e.original_size));
    out.push(if e.compressed { 1 } else { 0 });
    assert(final(out)@ =~= old(out)@ + entry_wire(e@));
}

/// The stored form of an index of `entries`.
pub fn encode_index(entries: &Vec<FileEntry>) -> (r: Vec<u8>)
    ensures
        r@ == index_wire(entry_views(entries@)),
{
    let mut out: Vec<u8> = Vec::new();
    append_bytes(&mut out, &u64_to_le(entries.len() as u64));
    let n = entries.len();
    for i in 0..n
        invariant
            n == entries@.len(),
            out@ == u64_le(n as u64) + entries_wire(entry_views(entries@).take(i as int)),
    {
        proof {
            lemma_entries_wire_push(entry_views(entries@).take(i as int), entries@[i as int]@);
            assert(entry_views(entries@).take(i + 1) =~= entry_views(entries@).take(i as int).push(entries@[i as int]@));
        }
        encode_entry(&entries[i], &mut out);
        assert(out@ =~= u64_le(n as u64) + entries_wire(entry_views(entries@).take(i + 1)));
    }
    assert(entry_views(entries@).take(n as int) =~= entry_views(entries@));
    out
}

/// A copy of `s[a..b]`.
fn copy_range(s: &[u8], a: usize, b: usize) -> (r: Vec<u8>)
    requires
        a <= b <= s@.len(),
    ensures
        r@ == s@.subrange(a as int, b as int),
{
    let mut out: Vec<u8> = Vec::new();
    let mut i = a;
    while i < b
        invariant
            a <= i <= b,
            b <= s@.len(),
            out@ == s@.subrange(a as int, i as int),
        decreases b - i,
    {
        out.push(s[i]);
        assert(s@.subrange(a as int, i + 1) =~= s@.subrange(a as int, i as int).push(s@[i as int]));
        i = i + 1;
    }
    out
}

/// What an entry stored at `pos` says of each of its fields' bytes.
proof fn lemma_entry_at(s: Seq<u8>, pos: int, ev: FileEntryView)
    requires
        entry_storable(ev),
        stored_at(s, pos, entry_wire(ev)),
    ensures
        ({
            let l = encode_utf8(ev.path).len() as int;
            let q = pos + 24 + l;
            &&& s.subrange(pos, pos + 16) == ev.id
            &&& le_u64(s.subrange(pos + 16, pos + 24)) == l
            &&& q + 25 <= s.len()
            &&& s.subrange(pos + 24, q) == encode_utf8(ev.path)
            &&& le_u64(s.subrange(q, q + 8)) == ev.offset
            &&& le_u64(s.subrange(q + 8, q + 16)) == ev.stored_size
            &&& le_u64(s.subrange(q + 16, q + 24)) == ev.original_size
            &&& s[q + 24] == bool_byte(ev.compressed)
        }),
{
    let w = entry_wire(ev);
    let l = encode_utf8(ev.path).len() as int;
    let q = 24 + l;
    lemma_le64_roundtrip(l as u64);
    lemma_le64_roundtrip(ev.offset);
    lemma_le64_roundtrip(ev.stored_size);
    lemma_le64_roundtrip(ev.original_size);
    assert(s.subrange(pos, pos + w.len()) == w);
    assert(s.subrange(pos, pos + 16) =~= w.subrange(0, 16));
    assert(w.subrange(0, 16) =~= ev.id);
    assert(s.subrange(pos + 16, pos + 24) =~= w.subrange(16, 24));
    assert(w.subrange(16, 24) =~= u64_le(l as u64));
    assert(s.subrange(pos + 24, pos + q) =~= w.subrange(24, q));
    assert(w.subrange(24, q) =~= encode_utf8(ev.path));
    assert(s.subrange(pos + q, pos + q + 8) =~= w.subrange(q, q + 8));
    assert(w.subrange(q, q + 8) =~= u64_le(ev.offset));
    assert(s.subrange(pos + q + 8, pos + q + 16) =~= w.subrange(q + 8, q + 16));
    assert(w.subrange(q + 8, q + 16) =~= u64_le(ev.stored_size));
    assert(s.subrange(pos + q + 16, pos + q + 24) =~= w.subrange(q + 16, q + 24));
    assert(w.subrange(q + 16, q + 24) =~= u64_le(ev.original_size));
    assert(w[q + 24] == bool_byte(ev.compressed));
    assert(s[pos + q + 24] == w[q + 24]);
}

/// How the entry at `pos` of `s` fails to decode, if it does, its fields read
/// in order: the id and the path's length, then the path, which must be
/// UTF-8, then the three numbers and the flag, which must be 0 or 1.
pub open spec fn entry_failure(s: Seq<u8>, pos: int) -> Option<DecodeFailure> {
    if s.len() - pos < 24 {
        Some(DecodeFailure::UnexpectedEnd)
    } else {
        let plen = le_u64(s.subrange(pos + 16, pos + 24));
        let p0 = pos + 24;
        if plen > s.len() - p0 {
            Some(DecodeFailure::EndInPath)
        } else if !valid_utf8(s.subrange(p0, p0 + plen)) {
            Some(DecodeFailure::InvalidUtf8 {
                valid_up_to: utf8_failure(s.subrange(p0, p0 + plen)).0,
                error_len: utf8_failure(s.subrange(p0, p0 + plen)).1,
            })
        } else if s.len() - (p0 + plen) < 25 {
            Some(DecodeFailure::UnexpectedEnd)
        } else if s[p0 + plen + 24] > 1 {
            Some(DecodeFailure::InvalidBool(s[p0 + plen + 24]))
        } else {
            None
        }
    }
}

/// Where the entry at `pos` of `s` ends, when it decodes.
pub open spec fn entry_end(s: Seq<u8>, pos: int) -> int {
    pos + 24 + le_u64(s.subrange(pos + 16, pos + 24)) + 25
}

/// How `count` entries stored one after the other from `pos` fail to decode,
/// if they do: the first one that fails, as it fails.
pub open spec fn entries_failure(s: Seq<u8>, pos: int, count: nat) -> Option<DecodeFailure>
    decreases count,
{
    if count == 0 {
        None
    } else {
        match entry_failure(s, pos) {
            Some(f) => Some(f),
            None => entries_failure(s, entry_end(s, pos), (count - 1) as nat),
        }
    }
}

/// How the bytes of an index fail to decode, if they do: too short for the
/// count, or as its entries fail.
pub open spec fn index_failure(s: Seq<u8>) -> Option<DecodeFailure> {
    if s.len() < 8 {
        Some(DecodeFailure::UnexpectedEnd)
    } else {
        entries_failure(s, 8, le_u64(s.subrange(0, 8)) as nat)
    }
}

/// Reads the entry stored at `pos`: the entry and where it ends. An entry is
/// read exactly when one is stored there.
#[verifier::spinoff_prover]
fn decode_entry(bytes: &[u8], pos: usize) -> (r: Result<(FileEntry, usize), DecodeFailure>)
    requires
        pos <= bytes@.len(),
    ensures
        r matches Ok((e, end)) ==> end == pos + entry_wire(e@).len() && stored_at(bytes@, pos as int, entry_wire(e@)),
        r matches Ok((e, end)) ==> entry_failure(bytes@, pos as int) is None && end == entry_end(bytes@, pos as int),
        r matches Err(f) ==> entry_failure(bytes@, pos as int) == Some(f),
        forall|ev: FileEntryView|
            #![trigger entry_wire(ev)]
            entry_storable(ev) && stored_at(bytes@, pos as int, entry_wire(ev)) ==> (r matches Ok((e, end)) && e@ == ev),
{
    let ghost s = bytes@;
    if bytes.len() - pos < 24 {
        proof {
            assert forall|ev: FileEntryView| #![trigger entry_wire(ev)] entry_storable(ev) implies !stored_at(s, pos as int, entry_wire(ev)) by {
                if stored_at(s, pos as int, entry_wire(ev)) {
                    lemma_entry_at(s, pos as int, ev);
                }
            }
        }
        return Err(DecodeFailure::UnexpectedEnd);
    }
    let id = [
        bytes[pos], bytes[pos + 1], bytes[pos + 2], bytes[pos + 3], bytes[pos + 4], bytes[pos + 5], bytes[pos + 6], bytes[pos + 7],
        bytes[pos + 8], bytes[pos + 9], bytes[pos + 10], bytes[pos + 11], bytes[pos + 12], bytes[pos + 13], bytes[pos + 14], bytes[pos + 15],
    ];
    assert(id@ =~= s.subrange(pos as int, pos + 16));
    let plen = u64_from_le(bytes, pos + 16);
    proof {
        lemma_le64_bytes(s.subrange(pos + 16, pos + 24));
    }
    let p0 = pos + 24;
    if plen > (bytes.len() - p0) as u64 {
        proof {
            assert forall|ev: FileEntryView| #![trigger entry_wire(ev)] entry_storable(ev) implies !stored_at(s, pos as int, entry_wire(ev)) by {
                if stored_at(s, pos as int, entry_wire(ev)) {
                    lemma_entry_at(s, pos as int, ev);
                }
            }
        }
        return Err(DecodeFailure::EndInPath);
    }
    let pl = plen as usize;
    let pbytes = copy_range(bytes, p0, p0 + pl);
    let path = match string_from_utf8(pbytes) {
        Ok(p) => p,
        Err(f) => {
            proof {
                assert forall|ev: FileEntryView| #![trigger entry_wire(ev)] entry_storable(ev) implies !stored_at(s, pos as int, entry_wire(ev)) by {
                    if stored_at(s, pos as int, entry_wire(ev)) {
                        lemma_entry_at(s, pos as int, ev);
                        encode_utf8_valid_utf8(ev.path);
                    }
                }
            }
            return Err(DecodeFailure::InvalidUtf8 { valid_up_to: f.0, error_len: f.1 });
        },
    };
    proof {
        decode_utf8_encode_utf8(s.subrange(p0 as int, p0 + pl));
    }
    let q = p0 + pl;
    if bytes.len() - q < 25 {
        proof {
            assert forall|ev: FileEntryView| #![trigger entry_wire(ev)] entry_storable(ev) implies !stored_at(s, pos as int, entry_wire(ev)) by {
                if stored_at(s, pos as int, entry_wire(ev)) {
                    lemma_entry_at(s, pos as int, ev);
                }
            }
        }
        return Err(DecodeFailure::UnexpectedEnd);
    }
    let offset = u64_from_le(bytes, q);
    let stored_size = u64_from_le(bytes, q + 8);
    let original_size = u64_from_le(bytes, q + 16);
    let flag = bytes[q + 24];
    proof {
        lemma_le64_bytes(s.subrange(q as int, q + 8));
        lemma_le64_bytes(s.subrange(q + 8, q + 16));
        lemma_le64_bytes(s.subrange(q + 16, q + 24));
    }
    if flag > 1 {
        proof {
            assert forall|ev: FileEntryView| #![trigger entry_wire(ev)] entry_storable(ev) implies !stored_at(s, pos as int, entry_wire(ev)) by {
                if stored_at(s, pos as int, entry_wire(ev)) {
                    lemma_entry_at(s, pos as int, ev);
                }
            }
        }
        return Err(DecodeFailure::InvalidBool(flag));
    }
    let e = FileEntry { id, path, offset, stored_size, original_size, compressed: flag == 1 };
    let end = q + 25;
    proof {
        lemma_le64_roundtrip(pl as u64);
        assert(entry_wire(e@) =~= s.subrange(pos as int, end as int));
        assert forall|ev: FileEntryView| #![trigger entry_wire(ev)] entry_storable(ev) && stored_at(s, pos as int, entry_wire(ev)) implies e@ == ev by {
            lemma_entry_at(s, pos as int, ev);
            encode_utf8_decode_utf8(ev.path);
        }
    }
    Ok((e, end))
}

/// The `k`th entry of a stored index lies right after the count and the
/// entries before it.
proof fn lemma_index_entry_at(s: Seq<u8>, es: Seq<FileEntryView>, k: int)
    requires
        0 <= k < es.len(),
        stored_at(s, 0, index_wire(es)),
    ensures
        stored_at(s, 8 + entries_wire(es.take(k)).len() as int, entry_wire(es[k])),
{
    let w = index_wire(es);
    lemma_le64_roundtrip(es.len() as u64);
    lemma_entries_wire_prefix(es, k + 1);
    lemma_entries_wire_push(es.take(k), es[k]);
    assert(es.take(k + 1) =~= es.take(k).push(es[k]));
    let a = entries_wire(es.take(k)).len() as int;
    let pos = 8 + a;
    let ew = entry_wire(es[k]);
    let all = entries_wire(es);
    let b = entries_wire(es.take(k + 1));
    assert(b == entries_wire(es.take(k)) + ew);
    assert(all.take(b.len() as int) == b);
    assert(all.subrange(a, a + ew.len()) =~= b.subrange(a, a + ew.len()));
    assert(b.subrange(a, a + ew.len()) =~= ew);
    assert(w.subrange(pos, pos + ew.len()) =~= all.subrange(a, a + ew.len()));
    assert(s.subrange(0, w.len() as int) == w);
    assert(s.subrange(pos, pos + ew.len()) =~= w.subrange(pos, pos + ew.len()));
}

/// Reads an index from its stored form: the number of entries, then each
/// entry. The index is read exactly when the bytes begin with a stored index;
/// what follows it is ignored.
#[verifier::spinoff_prover]
pub fn decode_index(bytes: &[u8]) -> (r: Result<Vec<FileEntry>, VaultError>)
    ensures
        r matches Ok(v) ==> stored_at(bytes@, 0, index_wire(entry_views(v@))),
        r matches Err(e) ==> (index_failure(bytes@) matches Some(f) && e == VaultError::Malformed(f)),
        r is Ok ==> index_failure(bytes@) is None,
        forall|es: Seq<FileEntryView>|
            #![trigger index_wire(es)]
            entries_storable(es) && stored_at(bytes@, 0, index_wire(es)) ==> (r matches Ok(v) && entry_views(v@) == es),
{
    let ghost s = bytes@;
    if bytes.len() < 8 {
        assert forall|es: Seq<FileEntryView>| #![trigger index_wire(es)] entries_storable(es) implies !stored_at(s, 0, index_wire(es)) by {
            lemma_le64_roundtrip(es.len() as u64);
        }
        return Err(VaultError::Malformed(DecodeFailure::UnexpectedEnd));
    }
    let n = u64_from_le(bytes, 0);
    proof {
        lemma_le64_bytes(s.subrange(0, 8));
    }
    assert forall|es: Seq<FileEntryView>| #![trigger index_wire(es)] entries_storable(es) && stored_at(s, 0, index_wire(es)) implies es.len() == n by {
        lemma_le64_roundtrip(es.len() as u64);
        assert(index_wire(es).subrange(0, 8) =~= u64_le(es.len() as u64));
        assert(s.subrange(0, 8) =~= index_wire(es).subrange(0, 8));
    }
    let mut out: Vec<FileEntry> = Vec::new();
    let mut pos: usize = 8;
    let mut k: u64 = 0;
    assert(s.subrange(0, 8) =~= u64_le(n) + entries_wire(entry_views(out@)));
    while k < n
        invariant
            s == bytes@,
            k <= n,
            out@.len() == k,
            stored_at(s, 0, u64_le(n) + entries_wire(entry_views(out@))),
            pos == 8 + entries_wire(entry_views(out@)).len(),
            forall|es: Seq<FileEntryView>|
                #![trigger index_wire(es)]
                entries_storable(es) && stored_at(s, 0, index_wire(es)) ==> es.len() == n && entry_views(out@) == es.take(k as int),
            index_failure(s) == entries_failure(s, pos as int, (n - k) as nat),
        decreases n - k,
    {
        let ghost before = out@;
        proof {
            assert(u64_le(n).len() == 8) by { lemma_le64_roundtrip(n); }
        }
        match decode_entry(bytes, pos) {
            Ok((e, end)) => {
                proof {
                    lemma_entries_wire_push(entry_views(before), e@);
                    assert(entry_views(before.push(e)) =~= entry_views(before).push(e@));
                    assert(s.subrange(0, end as int) =~= s.subrange(0, pos as int) + s.subrange(pos as int, end as int));
                    assert(u64_le(n) + entries_wire(entry_views(before.push(e))) =~= s.subrange(0, end as int));
                    assert forall|es: Seq<FileEntryView>| #![trigger index_wire(es)] entries_storable(es) && stored_at(s, 0, index_wire(es)) implies es.len() == n
                        && entry_views(before.push(e)) == es.take(k + 1) by {
                        lemma_index_entry_at(s, es, k as int);
                        assert(entry_storable(es[k as int]));
                        assert(es.take(k + 1) =~= es.take(k as int).push(es[k as int]));
                    }
                }
                out.push(e);
                pos = end;
                k = k + 1;
            },
            Err(f) => {
                proof {
                    assert forall|es: Seq<FileEntryView>| #![trigger index_wire(es)] entries_storable(es) implies !stored_at(s, 0, index_wire(es)) by {
                        if stored_at(s, 0, index_wire(es)) {
                            lemma_index_entry_at(s, es, k as int);
                            assert(entry_storable(es[k as int]));
                        }
                    }
                }
                return Err(VaultError::Malformed(f));
            },
        }
    }
    proof {
        assert forall|es: Seq<FileEntryView>| #![trigger index_wire(es)] entries_storable(es) && stored_at(s, 0, index_wire(es)) implies entry_views(out@) == es by {
            assert(es.take(k as int) =~= es);
        }
    }
    Ok(out)
}

/// The stored forms of the first `k` entries begin the stored index, right
/// after the count.
proof fn lemma_entries_wire_prefix(es: Seq<FileEntryView>, k: int)
    requires
        0 <= k <= es.len(),
    ensures
        entries_wire(es.take(k)).len() <= entries_wire(es).len(),
        entries_wire(es).take(entries_wire(es.take(k)).len() as int) == entries_wire(es.take(k)),
    decreases es.len() - k,
{
    if k == es.len() {
        assert(es.take(k) =~= es);
        assert(entries_wire(es).take(entries_wire(es).len() as int) =~= entries_wire(es));
    } else {
        lemma_entries_wire_prefix(es, k + 1);
        lemma_entries_wire_push(es.take(k), es[k]);
        assert(es.take(k + 1) =~= es.take(k).push(es[k]));
        let a = entries_wire(es.take(k));
        let b = entries_wire(es.take(k + 1));
        assert(entries_wire(es).take(a.len() as int) =~= b.take(a.len() as int));
        assert(b.take(a.len() as int) =~= a);
    }
}

} // verus!

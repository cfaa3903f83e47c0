use vstd::prelude::*;

verus! {

/// The four bytes of `x`, least significant first.
pub open spec fn u32_le(x: u32) -> Seq<u8> {
    seq![
        (x % 256) as u8,
        ((x / 256) % 256) as u8,
        ((x / 65536) % 256) as u8,
        ((x / 16777216) % 256) as u8,
    ]
}

/// The four bytes of `x`, most significant first.
pub open spec fn u32_be(x: u32) -> Seq<u8> {
    seq![
        ((x / 16777216) % 256) as u8,
        ((x / 65536) % 256) as u8,
        ((x / 256) % 256) as u8,
        (x % 256) as u8,
    ]
}

/// The number whose little-endian bytes are the first four of `s`.
pub open spec fn le_u32(s: Seq<u8>) -> int
    recommends
        s.len() >= 4,
{
    s[0] + 256 * s[1] + 65536 * s[2] + 16777216 * s[3]
}

/// Reading back the little-endian bytes of a number gives the number.
pub proof fn lemma_le_roundtrip(x: u32)
    ensures
        u32_le(x).len() == 4,
        le_u32(u32_le(x)) == x,
{
    let b0 = x % 256;
    let b1 = (x / 256) % 256;
    let b2 = (x / 65536) % 256;
    let b3 = (x / 16777216) % 256;
    assert(x == b0 + 256 * b1 + 65536 * b2 + 16777216 * b3) by (nonlinear_arith)
        requires
            b0 == x % 256,
            b1 == (x / 256) % 256,
            b2 == (x / 65536) % 256,
            b3 == (x / 16777216) % 256,
            x < 4294967296,
    ;
}

/// Little-endian encoding of a `u32`.
pub fn u32_to_le(x: u32) -> (r: [u8; 4])
    ensures
        r@ == u32_le(x),
{
    let r = [(x % 256) as u8, ((x / 256) % 256) as u8, ((x / 65536) % 256) as u8, ((x / 16777216) % 256) as u8];
    assert(r@ =~= u32_le(x));
    r
}

/// Big-endian encoding of a `u32`.
pub fn u32_to_be(x: u32) -> (r: [u8; 4])
    ensures
        r@ == u32_be(x),
{
    let r = [((x / 16777216) % 256) as u8, ((x / 65536) % 256) as u8, ((x / 256) % 256) as u8, (x % 256) as u8];
    assert(r@ =~= u32_be(x));
    r
}

/// The number whose little-endian bytes are `b`.
pub fn u32_from_le(b: [u8; 4]) -> (r: u32)
    ensures
        r == le_u32(b@),
{
    b[0] as u32 + (b[1] as u32) * 256 + (b[2] as u32) * 65536 + (b[3] as u32) * 16777216
}

/// The eight bytes of `x`, least significant first.
#[verifier::opaque]
pub open spec fn u64_le(x: u64) -> Seq<u8> {
    u32_le((x % 4294967296) as u32) + u32_le((x / 4294967296) as u32)
}

/// The number whose little-endian bytes are the first eight of `s`.
#[verifier::opaque]
pub open spec fn le_u64(s: Seq<u8>) -> int
    recommends
        s.len() >= 8,
{
    le_u32(s.take(4)) + 4294967296 * le_u32(s.subrange(4, 8))
}

/// Reading back the little-endian bytes of a `u64` gives the number.
pub proof fn lemma_le64_roundtrip(x: u64)
    ensures
        u64_le(x).len() == 8,
        le_u64(u64_le(x)) == x,
{
    reveal(u64_le);
    reveal(le_u64);
    let lo = (x % 4294967296) as u32;
    let hi = (x / 4294967296) as u32;
    lemma_le_roundtrip(lo);
    lemma_le_roundtrip(hi);
    assert(u64_le(x).take(4) =~= u32_le(lo));
    assert(u64_le(x).subrange(4, 8) =~= u32_le(hi));
}

/// Little-endian encoding of a `u64`.
pub fn u64_to_le(x: u64) -> (r: [u8; 8])
    ensures
        r@ == u64_le(x),
{
    reveal(u64_le);
    let lo = u32_to_le((x % 4294967296) as u32);
    let hi = u32_to_le((x / 4294967296) as u32);
    let r = [lo[0], lo[1], lo[2], lo[3], hi[0], hi[1], hi[2], hi[3]];
    assert(r@ =~= u64_le(x));
    r
}

/// The number whose little-endian bytes are `s[at..at + 8]`.
pub fn u64_from_le(s: &[u8], at: usize) -> (r: u64)
    requires
        at + 8 <= s@.len(),
    ensures
        r == le_u64(s@.subrange(at as int, at + 8)),
{
    reveal(le_u64);
    let lo = u32_from_le([s[at], s[at + 1], s[at + 2], s[at + 3]]);
    let hi = u32_from_le([s[at + 4], s[at + 5], s[at + 6], s[at + 7]]);
    let ghost w = s@.subrange(at as int, at + 8);
    assert(w.take(4) =~= seq![s@[at as int], s@[at + 1], s@[at + 2], s@[at + 3]]);
    assert(w.subrange(4, 8) =~= seq![s@[at + 4], s@[at + 5], s@[at + 6], s@[at + 7]]);
    assert(le_u32(w.take(4)) == lo);
    assert(le_u32(w.subrange(4, 8)) == hi);
    (lo as u64) + (hi as u64) * 4294967296
}

/// Any four bytes are the little-endian encoding of the number they spell.
pub proof fn lemma_le_bytes(w: Seq<u8>)
    requires
        w.len() == 4,
    ensures
        0 <= le_u32(w) < 4294967296,
        u32_le(le_u32(w) as u32) == w,
{
    let x = le_u32(w);
    let (b0, b1, b2, b3) = (w[0] as int, w[1] as int, w[2] as int, w[3] as int);
    assert(0 <= x < 4294967296 && x % 256 == b0 && (x / 256) % 256 == b1 && (x / 65536) % 256 == b2 && (x / 16777216) % 256 == b3) by (nonlinear_arith)
        requires
            x == b0 + 256 * b1 + 65536 * b2 + 16777216 * b3,
            0 <= b0 < 256,
            0 <= b1 < 256,
            0 <= b2 < 256,
            0 <= b3 < 256,
    ;
    assert(u32_le(x as u32) =~= w);
}

/// Any eight bytes are the little-endian encoding of the number they spell.
pub proof fn lemma_le64_bytes(w: Seq<u8>)
    requires
        w.len() == 8,
    ensures
        0 <= le_u64(w) < 18446744073709551616,
        u64_le(le_u64(w) as u64) == w,
{
    reveal(u64_le);
    reveal(le_u64);
    let lo = le_u32(w.take(4));
    let hi = le_u32(w.subrange(4, 8));
    lemma_le_bytes(w.take(4));
    lemma_le_bytes(w.subrange(4, 8));
    let x = le_u64(w);
    assert(0 <= x < 18446744073709551616 && x % 4294967296 == lo && x / 4294967296 == hi) by (nonlinear_arith)
        requires
            x == lo + 4294967296 * hi,
            0 <= lo < 4294967296,
            0 <= hi < 4294967296,
    ;
    assert(u64_le(x as u64) =~= w.take(4) + w.subrange(4, 8));
    assert(w.take(4) + w.subrange(4, 8) =~= w);
}

} // verus!

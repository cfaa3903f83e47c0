use vstd::prelude::*;
use crate::bytes::{le_u32, lemma_le_roundtrip, u32_be, u32_from_le, u32_le, u32_to_be, u32_to_le};
use crate::crypto::{aes256_gcm_open, aes256_gcm_seal, open_in_place, seal_in_place, system_random, TAG_LEN};

verus! {

/// Plaintext is sealed in pieces of this many bytes; only the last piece of a
/// stream, or one cut short by a flush, is shorter.
pub const CHUNK_SIZE: usize = 1048576;

/// Failures of the chunked encryption and decryption.
#[derive(Debug, Clone, Copy, PartialEq, Eq, Structural)]
pub enum CryptoError {
    /// The system random generator failed.
    RngFailed,
    /// Sealing a chunk failed.
    EncryptFailed,
    /// A chunk did not authenticate under its key, nonce and associated data.
    DecryptFailed,
    /// The stream ended inside its nonce prefix or inside a chunk.
    UnexpectedEof,
}

/// The nonce of chunk `counter`: the stream's 8-byte prefix, then the counter
/// big-endian.
pub open spec fn nonce_of(prefix: Seq<u8>, counter: u32) -> Seq<u8> {
    prefix + u32_be(counter)
}

/// The associated data of chunk `index`: the optional 16-byte prefix (a file's
/// id), then the index big-endian.
pub open spec fn aad_of(prefix: Option<[u8; 16]>, index: u32) -> Seq<u8> {
    match prefix {
        Some(p) => p@ + u32_be(index),
        None => u32_be(index),
    }
}

/// Chunk `index` sealed under its nonce and associated data.
pub open spec fn sealed_chunk(key: Seq<u8>, np: Seq<u8>, aadp: Option<[u8; 16]>, index: nat, chunk: Seq<u8>) -> Seq<u8> {
    aes256_gcm_seal(key, nonce_of(np, index as u32), aad_of(aadp, index as u32), chunk)
}

/// A frame: the sealed chunk's length as four little-endian bytes, then the
/// sealed chunk.
pub open spec fn frame(key: Seq<u8>, np: Seq<u8>, aadp: Option<[u8; 16]>, index: nat, chunk: Seq<u8>) -> Seq<u8> {
    let s = sealed_chunk(key, np, aadp, index, chunk);
    u32_le(s.len() as u32) + s
}

/// The frames of `chunks`, numbered from `start`.
pub open spec fn frames(key: Seq<u8>, np: Seq<u8>, aadp: Option<[u8; 16]>, start: nat, chunks: Seq<Seq<u8>>) -> Seq<u8>
    decreases chunks.len(),
{
    if chunks.len() == 0 {
        Seq::empty()
    } else {
        frame(key, np, aadp, start, chunks[0]) + frames(key, np, aadp, start + 1, chunks.drop_first())
    }
}

/// A whole encrypted stream: the nonce prefix, then the frames of the chunks
/// numbered from zero.
pub open spec fn sealed_stream(key: Seq<u8>, np: Seq<u8>, aadp: Option<[u8; 16]>, chunks: Seq<Seq<u8>>) -> Seq<u8> {
    np + frames(key, np, aadp, 0, chunks)
}

/// What a successful sealing of chunk `index` guarantees: the chunk is non-empty
/// and at most `CHUNK_SIZE` long, the sealing is one tag longer, and opening it
/// gives the chunk back.
pub open spec fn chunk_sealed_ok(key: Seq<u8>, np: Seq<u8>, aadp: Option<[u8; 16]>, index: nat, chunk: Seq<u8>) -> bool {
    &&& 0 < chunk.len() <= CHUNK_SIZE
    &&& sealed_chunk(key, np, aadp, index, chunk).len() == chunk.len() + TAG_LEN
    &&& aes256_gcm_open(key, nonce_of(np, index as u32), aad_of(aadp, index as u32), sealed_chunk(key, np, aadp, index, chunk)) == Some(chunk)
}

/// Every chunk of `chunks`, numbered from `start`, was sealed successfully.
pub open spec fn all_sealed_ok(key: Seq<u8>, np: Seq<u8>, aadp: Option<[u8; 16]>, start: nat, chunks: Seq<Seq<u8>>) -> bool {
    forall|i: int| 0 <= i < chunks.len() ==> chunk_sealed_ok(key, np, aadp, (start + i) as nat, #[trigger] chunks[i])
}

/// The consecutive `CHUNK_SIZE` pieces at the front of `s`.
pub open spec fn full_chunks(s: Seq<u8>) -> Seq<Seq<u8>>
    decreases s.len(),
{
    if s.len() < CHUNK_SIZE {
        Seq::empty()
    } else {
        seq![s.take(CHUNK_SIZE as int)] + full_chunks(s.skip(CHUNK_SIZE as int))
    }
}

/// What is left of `s` after its full pieces.
pub open spec fn chunk_remainder(s: Seq<u8>) -> Seq<u8>
    decreases s.len(),
{
    if s.len() < CHUNK_SIZE {
        s
    } else {
        chunk_remainder(s.skip(CHUNK_SIZE as int))
    }
}

/// The chunks a stream of `s` is cut into when nothing flushes early: its full
/// pieces, then the non-empty remainder if there is one.
pub open spec fn chunks_of(s: Seq<u8>) -> Seq<Seq<u8>> {
    if chunk_remainder(s).len() == 0 {
        full_chunks(s)
    } else {
        full_chunks(s).push(chunk_remainder(s))
    }
}

/// The plaintext of the frames in `rest`, numbered from `index`, as a reader
/// takes it: fewer than four bytes end the stream, a frame whose body is cut
/// short or does not authenticate is an error, so is a frame past the last
/// number a `u32` counter can step from, and an empty plaintext ends the
/// stream.
pub open spec fn decode_frames(key: Seq<u8>, np: Seq<u8>, aadp: Option<[u8; 16]>, index: nat, rest: Seq<u8>) -> Result<Seq<u8>, CryptoError>
    decreases rest.len(),
{
    if rest.len() < 4 {
        Ok(Seq::empty())
    } else {
        let len = le_u32(rest);
        if rest.len() - 4 < len {
            Err(CryptoError::UnexpectedEof)
        } else {
            if index >= u32::MAX {
                Err(CryptoError::DecryptFailed)
            } else {
                match aes256_gcm_open(key, nonce_of(np, index as u32), aad_of(aadp, index as u32), rest.subrange(4, 4 + len)) {
                    None => Err(CryptoError::DecryptFailed),
                    Some(p) => if p.len() == 0 {
                        Ok(Seq::empty())
                    } else {
                        match decode_frames(key, np, aadp, index + 1, rest.skip(4 + len)) {
                            Ok(q) => Ok(p + q),
                            Err(e) => Err(e),
                        }
                    },
                }
            }
        }
    }
}

/// How the next frame of `rest`, numbered `index`, fails to be taken in, if it
/// does: cut short, past the last number a `u32` counter can step from, or not
/// authenticating. Fewer than four bytes are no frame and do not fail.
pub open spec fn next_frame_error(key: Seq<u8>, np: Seq<u8>, aadp: Option<[u8; 16]>, index: nat, rest: Seq<u8>) -> Option<CryptoError> {
    if rest.len() < 4 {
        None
    } else if rest.len() - 4 < le_u32(rest) {
        Some(CryptoError::UnexpectedEof)
    } else if index >= u32::MAX {
        Some(CryptoError::DecryptFailed)
    } else {
        match aes256_gcm_open(key, nonce_of(np, index as u32), aad_of(aadp, index as u32), rest.subrange(4, 4 + le_u32(rest))) {
            None => Some(CryptoError::DecryptFailed),
            Some(_) => None,
        }
    }
}

/// The plaintext a reader hands out from the frames in `rest`, numbered from
/// `index`, before the stream ends or a frame fails.
pub open spec fn decode_prefix(key: Seq<u8>, np: Seq<u8>, aadp: Option<[u8; 16]>, index: nat, rest: Seq<u8>) -> Seq<u8>
    decreases rest.len(),
{
    if rest.len() < 4 || rest.len() - 4 < le_u32(rest) || index >= u32::MAX {
        Seq::empty()
    } else {
        match aes256_gcm_open(key, nonce_of(np, index as u32), aad_of(aadp, index as u32), rest.subrange(4, 4 + le_u32(rest))) {
            None => Seq::empty(),
            Some(p) => if p.len() == 0 {
                Seq::empty()
            } else {
                p + decode_prefix(key, np, aadp, index + 1, rest.skip(4 + le_u32(rest)))
            },
        }
    }
}

/// Where the frames decode without error, what a reader hands out before the
/// end is all of their plaintext.
pub proof fn lemma_decode_prefix(key: Seq<u8>, np: Seq<u8>, aadp: Option<[u8; 16]>, index: nat, rest: Seq<u8>)
    ensures
        decode_frames(key, np, aadp, index, rest) matches Ok(q) ==> decode_prefix(key, np, aadp, index, rest) == q,
    decreases rest.len(),
{
    if rest.len() >= 4 && rest.len() - 4 >= le_u32(rest) && index < u32::MAX {
        lemma_decode_prefix(key, np, aadp, index + 1, rest.skip(4 + le_u32(rest)));
    }
}

/// Whether no frame of `rest`, numbered from `index`, that a reader takes in
/// opens to an empty plaintext, up to the first that fails.
pub open spec fn no_empty_frames(key: Seq<u8>, np: Seq<u8>, aadp: Option<[u8; 16]>, index: nat, rest: Seq<u8>) -> bool
    decreases rest.len(),
{
    if rest.len() < 4 || rest.len() - 4 < le_u32(rest) || index >= u32::MAX {
        true
    } else {
        match aes256_gcm_open(key, nonce_of(np, index as u32), aad_of(aadp, index as u32), rest.subrange(4, 4 + le_u32(rest))) {
            None => true,
            Some(p) => p.len() > 0 && no_empty_frames(key, np, aadp, index + 1, rest.skip(4 + le_u32(rest))),
        }
    }
}

/// Where no frame ahead is empty, frames that decode to nothing are fewer
/// than four bytes: the stream has ended.
pub proof fn lemma_nothing_left(key: Seq<u8>, np: Seq<u8>, aadp: Option<[u8; 16]>, index: nat, rest: Seq<u8>)
    requires
        no_empty_frames(key, np, aadp, index, rest),
        decode_frames(key, np, aadp, index, rest) == Ok::<Seq<u8>, CryptoError>(Seq::empty()),
    ensures
        rest.len() < 4,
{
    if rest.len() >= 4 && rest.len() - 4 >= le_u32(rest) && index < u32::MAX {
        let len = le_u32(rest);
        if let Some(p) = aes256_gcm_open(key, nonce_of(np, index as u32), aad_of(aadp, index as u32), rest.subrange(4, 4 + len)) {
            if let Ok(q) = decode_frames(key, np, aadp, index + 1, rest.skip(4 + len)) {
                assert((p + q).len() > 0);
            }
        }
    }
}

/// The frames of successfully sealed chunks, which are never empty, hold no
/// empty frame.
pub proof fn lemma_sealed_frames_not_empty(key: Seq<u8>, np: Seq<u8>, aadp: Option<[u8; 16]>, start: nat, chunks: Seq<Seq<u8>>)
    requires
        all_sealed_ok(key, np, aadp, start, chunks),
        start + chunks.len() <= u32::MAX,
    ensures
        no_empty_frames(key, np, aadp, start, frames(key, np, aadp, start, chunks)),
    decreases chunks.len(),
{
    let rest = frames(key, np, aadp, start, chunks);
    if chunks.len() > 0 {
        let c = chunks[0];
        assert(chunk_sealed_ok(key, np, aadp, (start + 0) as nat, chunks[0]));
        let s = sealed_chunk(key, np, aadp, start, c);
        let tail = frames(key, np, aadp, start + 1, chunks.drop_first());
        assert(all_sealed_ok(key, np, aadp, start + 1, chunks.drop_first())) by {
            assert forall|i: int| 0 <= i < chunks.drop_first().len() implies chunk_sealed_ok(key, np, aadp, (start + 1 + i) as nat, #[trigger] chunks.drop_first()[i]) by {
                assert(chunks.drop_first()[i] == chunks[i + 1]);
                assert(chunk_sealed_ok(key, np, aadp, (start + (i + 1)) as nat, chunks[i + 1]));
            }
        }
        lemma_sealed_frames_not_empty(key, np, aadp, start + 1, chunks.drop_first());
        let l: int = s.len() as int;
        lemma_le_roundtrip(l as u32);
        assert(rest =~= u32_le(l as u32) + s + tail);
        assert(le_u32(rest) == le_u32(u32_le(l as u32)));
        assert(rest.subrange(4, 4 + l) =~= s);
        assert(rest.skip(4 + l) =~= tail);
    }
}

/// The plaintext of a whole encrypted stream: its first eight bytes are the
/// nonce prefix, the frames follow.
pub open spec fn decrypt_stream(key: Seq<u8>, aadp: Option<[u8; 16]>, bytes: Seq<u8>) -> Result<Seq<u8>, CryptoError> {
    if bytes.len() < 8 {
        Err(CryptoError::UnexpectedEof)
    } else {
        decode_frames(key, bytes.take(8), aadp, 0, bytes.skip(8))
    }
}

/// Appending a chunk appends its frame.
pub proof fn lemma_frames_push(key: Seq<u8>, np: Seq<u8>, aadp: Option<[u8; 16]>, start: nat, chunks: Seq<Seq<u8>>, c: Seq<u8>)
    ensures
        frames(key, np, aadp, start, chunks.push(c)) == frames(key, np, aadp, start, chunks) + frame(key, np, aadp, start + chunks.len(), c),
    decreases chunks.len(),
{
    if chunks.len() == 0 {
        assert(chunks.push(c).drop_first() =~= Seq::<Seq<u8>>::empty());
        assert(frames(key, np, aadp, start + 1, Seq::<Seq<u8>>::empty()) == Seq::<u8>::empty());
        assert(frames(key, np, aadp, start, chunks.push(c)) =~= frame(key, np, aadp, start, c));
    } else {
        lemma_frames_push(key, np, aadp, start + 1, chunks.drop_first(), c);
        assert(chunks.push(c).drop_first() =~= chunks.drop_first().push(c));
        assert(chunks.push(c)[0] == chunks[0]);
        assert(frames(key, np, aadp, start, chunks.push(c)) =~= frames(key, np, aadp, start, chunks) + frame(key, np, aadp, start + chunks.len(), c));
    }
}

/// Decoding the frames of successfully sealed chunks gives back the chunks,
/// concatenated.
pub proof fn lemma_decode_frames(key: Seq<u8>, np: Seq<u8>, aadp: Option<[u8; 16]>, start: nat, chunks: Seq<Seq<u8>>)
    requires
        all_sealed_ok(key, np, aadp, start, chunks),
        start + chunks.len() <= u32::MAX,
    ensures
        decode_frames(key, np, aadp, start, frames(key, np, aadp, start, chunks)) == Ok::<Seq<u8>, CryptoError>(chunks.flatten()),
    decreases chunks.len(),
{
    let rest = frames(key, np, aadp, start, chunks);
    if chunks.len() == 0 {
        assert(rest.len() == 0);
    } else {
        let c = chunks[0];
        assert(chunk_sealed_ok(key, np, aadp, (start + 0) as nat, chunks[0]));
        let s = sealed_chunk(key, np, aadp, start, c);
        let tail = frames(key, np, aadp, start + 1, chunks.drop_first());
        assert(all_sealed_ok(key, np, aadp, start + 1, chunks.drop_first())) by {
            assert forall|i: int| 0 <= i < chunks.drop_first().len() implies chunk_sealed_ok(key, np, aadp, (start + 1 + i) as nat, #[trigger] chunks.drop_first()[i]) by {
                assert(chunks.drop_first()[i] == chunks[i + 1]);
                assert(chunk_sealed_ok(key, np, aadp, (start + (i + 1)) as nat, chunks[i + 1]));
            }
        }
        lemma_decode_frames(key, np, aadp, start + 1, chunks.drop_first());
        let l: int = s.len() as int;
        assert(l < 4294967296);
        lemma_le_roundtrip(l as u32);
        assert(rest =~= u32_le(l as u32) + s + tail);
        assert(rest.take(4) =~= u32_le(l as u32));
        assert(le_u32(rest) == le_u32(u32_le(l as u32)));
        assert(rest.subrange(4, 4 + l) =~= s);
        assert(rest.skip(4 + l) =~= tail);
        assert(chunks.flatten() == c + chunks.drop_first().flatten());
    }
}

/// The length of the sealed stream of `data`: the nonce prefix, then for each
/// chunk of `chunks_of(data)` its length field, its bytes and its tag.
pub open spec fn sealed_len(data: Seq<u8>) -> int {
    8 + data.len() + (4 + TAG_LEN) * chunks_of(data).len()
}

/// The frames of successfully sealed chunks are as long as the chunks together,
/// plus a length field and a tag for each.
pub proof fn lemma_frames_len(key: Seq<u8>, np: Seq<u8>, aadp: Option<[u8; 16]>, start: nat, chunks: Seq<Seq<u8>>)
    requires
        all_sealed_ok(key, np, aadp, start, chunks),
    ensures
        frames(key, np, aadp, start, chunks).len() == chunks.flatten().len() + (4 + TAG_LEN) * chunks.len(),
    decreases chunks.len(),
{
    if chunks.len() > 0 {
        assert(chunk_sealed_ok(key, np, aadp, (start + 0) as nat, chunks[0]));
        assert(all_sealed_ok(key, np, aadp, start + 1, chunks.drop_first())) by {
            assert forall|i: int| 0 <= i < chunks.drop_first().len() implies chunk_sealed_ok(key, np, aadp, (start + 1 + i) as nat, #[trigger] chunks.drop_first()[i]) by {
                assert(chunks.drop_first()[i] == chunks[i + 1]);
                assert(chunk_sealed_ok(key, np, aadp, (start + (i + 1)) as nat, chunks[i + 1]));
            }
        }
        lemma_frames_len(key, np, aadp, start + 1, chunks.drop_first());
        assert(chunks.flatten() == chunks[0] + chunks.drop_first().flatten());
    }
}

/// Every sealed chunk reads back: decrypting the sealed stream of successfully
/// sealed chunks gives their concatenation.
pub proof fn lemma_stream_roundtrip(key: Seq<u8>, np: Seq<u8>, aadp: Option<[u8; 16]>, chunks: Seq<Seq<u8>>)
    requires
        np.len() == 8,
        all_sealed_ok(key, np, aadp, 0, chunks),
        chunks.len() <= u32::MAX,
    ensures
        decrypt_stream(key, aadp, sealed_stream(key, np, aadp, chunks)) == Ok::<Seq<u8>, CryptoError>(chunks.flatten()),
{
    let b = sealed_stream(key, np, aadp, chunks);
    assert(b.take(8) =~= np);
    assert(b.skip(8) =~= frames(key, np, aadp, 0, chunks));
    lemma_decode_frames(key, np, aadp, 0, chunks);
}

/// The full pieces and the remainder make up the whole, every full piece is
/// `CHUNK_SIZE` long, and there are as many as `CHUNK_SIZE` goes into the length.
pub proof fn lemma_full_chunks(s: Seq<u8>)
    ensures
        full_chunks(s).flatten() + chunk_remainder(s) == s,
        full_chunks(s).len() == s.len() / (CHUNK_SIZE as nat),
        chunk_remainder(s).len() < CHUNK_SIZE,
        forall|i: int| 0 <= i < full_chunks(s).len() ==> (#[trigger] full_chunks(s)[i]).len() == CHUNK_SIZE,
    decreases s.len(),
{
    if s.len() >= CHUNK_SIZE {
        let t = s.skip(CHUNK_SIZE as int);
        lemma_full_chunks(t);
        let h = s.take(CHUNK_SIZE as int);
        assert(full_chunks(s) == seq![h] + full_chunks(t));
        assert((seq![h] + full_chunks(t)).drop_first() =~= full_chunks(t));
        assert(full_chunks(s).flatten() == h + full_chunks(t).flatten());
        assert(s =~= h + t);
        assert forall|i: int| 0 <= i < full_chunks(s).len() implies (#[trigger] full_chunks(s)[i]).len() == CHUNK_SIZE by {
            if i > 0 {
                assert(full_chunks(s)[i] == full_chunks(t)[i - 1]);
            }
        }
    } else {
        assert(full_chunks(s).flatten() =~= Seq::<u8>::empty());
        assert(s + Seq::<u8>::empty() =~= s);
    }
}

/// The chunks of a stream that nothing flushed early make up its plaintext,
/// and each is non-empty and at most `CHUNK_SIZE` long.
pub proof fn lemma_chunks_of(s: Seq<u8>)
    ensures
        chunks_of(s).flatten() == s,
        forall|i: int| 0 <= i < chunks_of(s).len() ==> 0 < (#[trigger] chunks_of(s)[i]).len() <= CHUNK_SIZE,
{
    lemma_full_chunks(s);
    broadcast use Seq::lemma_flatten_push;
    if chunk_remainder(s).len() == 0 {
        assert(full_chunks(s).flatten() + chunk_remainder(s) =~= full_chunks(s).flatten());
    } else {
        assert(chunks_of(s).flatten() =~= full_chunks(s).flatten() + chunk_remainder(s));
    }
    assert forall|i: int| 0 <= i < chunks_of(s).len() implies 0 < (#[trigger] chunks_of(s)[i]).len() <= CHUNK_SIZE by {
        if i < full_chunks(s).len() {
            assert(chunks_of(s)[i] == full_chunks(s)[i]);
        }
    }
}

fn build_nonce(prefix: &[u8; 8], counter: u32) -> (r: [u8; 12])
    ensures
        r@ == nonce_of(prefix@, counter),
{
    let c = u32_to_be(counter);
    let r = [prefix[0], prefix[1], prefix[2], prefix[3], prefix[4], prefix[5], prefix[6], prefix[7], c[0], c[1], c[2], c[3]];
    assert(r@ =~= nonce_of(prefix@, counter));
    r
}

fn build_aad(aad_prefix: Option<[u8; 16]>, chunk_index: u32) -> (r: Vec<u8>)
    ensures
        r@ == aad_of(aad_prefix, chunk_index),
{
    let mut aad: Vec<u8> = Vec::with_capacity(20);
    if let Some(prefix) = aad_prefix {
        for i in 0..16
            invariant
                aad@ == prefix@.take(i as int),
        {
            aad.push(prefix[i]);
        }
        assert(aad@ =~= prefix@);
    }
    let c = u32_to_be(chunk_index);
    aad.push(c[0]);
    aad.push(c[1]);
    aad.push(c[2]);
    aad.push(c[3]);
    assert(aad@ =~= aad_of(aad_prefix, chunk_index));
    aad
}

/// Appends the bytes of `src` to `dst`.
pub fn append_bytes(dst: &mut Vec<u8>, src: &[u8])
    ensures
        final(dst)@ == old(dst)@ + src@,
{
    let n = src.len();
    for i in 0..n
        invariant
            n == src@.len(),
            dst@ == old(dst)@ + src@.take(i as int),
    {
        dst.push(src[i]);
        assert(src@.take(i + 1) =~= src@.take(i as int).push(src@[i as int]));
    }
    assert(src@.take(n as int) =~= src@);
}

/// Encrypts what is written to it in chunks of `CHUNK_SIZE` bytes with
/// AES-256-GCM, appending the stream to an output buffer: a random 8-byte nonce
/// prefix first, then one frame per chunk.
pub struct ChunkEncryptWriter {
    inner: Vec<u8>,
    key: [u8; 32],
    nonce_prefix: [u8; 8],
    chunk_counter: u32,
    buf: Vec<u8>,
    aad_prefix: Option<[u8; 16]>,
    base: Ghost<Seq<u8>>,
    chunks: Ghost<Seq<Seq<u8>>>,
}

impl ChunkEncryptWriter {
    /// The output buffer's contents.
    pub closed spec fn output(&self) -> Seq<u8> {
        self.inner@
    }

    /// What the output buffer held before the stream began.
    pub closed spec fn base(&self) -> Seq<u8> {
        self.base@
    }

    pub closed spec fn spec_key(&self) -> Seq<u8> {
        self.key@
    }

    pub closed spec fn spec_nonce_prefix(&self) -> Seq<u8> {
        self.nonce_prefix@
    }

    pub closed spec fn spec_aad_prefix(&self) -> Option<[u8; 16]> {
        self.aad_prefix
    }

    /// The chunks sealed so far, in order.
    pub closed spec fn sealed(&self) -> Seq<Seq<u8>> {
        self.chunks@
    }

    /// The bytes written but not yet sealed.
    pub closed spec fn buffered(&self) -> Seq<u8> {
        self.buf@
    }

    /// Everything written so far.
    pub open spec fn written(&self) -> Seq<u8> {
        self.sealed().flatten() + self.buffered()
    }

    /// The chunks the stream will hold once the buffer is flushed.
    pub open spec fn final_chunks(&self) -> Seq<Seq<u8>> {
        if self.buffered().len() == 0 {
            self.sealed()
        } else {
            self.sealed().push(self.buffered())
        }
    }

    /// Key, nonce prefix, associated data and the output's original contents are
    /// those of `other`.
    pub open spec fn same_stream(&self, other: &Self) -> bool {
        &&& self.spec_key() == other.spec_key()
        &&& self.spec_nonce_prefix() == other.spec_nonce_prefix()
        &&& self.spec_aad_prefix() == other.spec_aad_prefix()
        &&& self.base() == other.base()
    }

    /// The output is the original contents, then the sealed stream of the chunks
    /// sealed so far, each of which was sealed successfully.
    pub closed spec fn frames_ok(&self) -> bool {
        &&& self.chunk_counter as nat == self.chunks@.len()
        &&& all_sealed_ok(self.key@, self.nonce_prefix@, self.aad_prefix, 0, self.chunks@)
        &&& self.inner@ == self.base@ + sealed_stream(self.key@, self.nonce_prefix@, self.aad_prefix, self.chunks@)
    }

    /// The writer's invariant: `frames_ok` and a buffer shorter than a chunk.
    pub closed spec fn wf(&self) -> bool {
        &&& self.frames_ok()
        &&& self.buf@.len() < CHUNK_SIZE
    }

    /// The number of chunks sealed so far.
    pub closed spec fn chunk_count(&self) -> nat {
        self.chunk_counter as nat
    }

    /// Starts a stream on `inner`: draws a random nonce prefix and appends it.
    pub fn new(inner: Vec<u8>, key: &[u8; 32], aad_prefix: Option<[u8; 16]>) -> (r: Result<Self, CryptoError>)
        ensures
            r matches Ok(w) ==> {
                &&& w.wf()
                &&& w.base() == inner@
                &&& w.spec_key() == key@
                &&& w.spec_aad_prefix() == aad_prefix
                &&& w.spec_nonce_prefix().len() == 8
                &&& w.sealed().len() == 0
                &&& w.chunk_count() == 0
                &&& w.buffered().len() == 0
                &&& w.output() == inner@ + w.spec_nonce_prefix()
            },
            r matches Err(e) ==> e == CryptoError::RngFailed,
    {
        match system_random::<8>() {
            Ok(p) => Ok(ChunkEncryptWriter::with_nonce_prefix(inner, key, aad_prefix, p)),
            Err(_) => Err(CryptoError::RngFailed),
        }
    }

    /// Starts a stream on `inner` with the nonce prefix `nonce_prefix`, and
    /// appends the prefix.
    pub fn with_nonce_prefix(inner: Vec<u8>, key: &[u8; 32], aad_prefix: Option<[u8; 16]>, nonce_prefix: [u8; 8]) -> (w: Self)
        ensures
            w.wf(),
            w.base() == inner@,
            w.spec_key() == key@,
            w.spec_aad_prefix() == aad_prefix,
            w.spec_nonce_prefix() == nonce_prefix@,
            w.sealed().len() == 0,
            w.chunk_count() == 0,
            w.buffered().len() == 0,
            w.output() == inner@ + nonce_prefix@,
    {
        let ghost base = inner@;
        let mut inner = inner;
        append_bytes(&mut inner, &nonce_prefix);
        let w = ChunkEncryptWriter {
            inner,
            key: *key,
            nonce_prefix,
            chunk_counter: 0,
            buf: Vec::with_capacity(CHUNK_SIZE),
            aad_prefix,
            base: Ghost(base),
            chunks: Ghost(Seq::empty()),
        };
        assert(frames(key@, nonce_prefix@, aad_prefix, 0, Seq::<Seq<u8>>::empty()) == Seq::<u8>::empty());
        assert(w.inner@ =~= base + sealed_stream(key@, nonce_prefix@, aad_prefix, Seq::<Seq<u8>>::empty()));
        w
    }

    fn encrypt_and_write_chunk(&mut self, chunk: Vec<u8>) -> (r: Result<(), CryptoError>)
        requires
            old(self).frames_ok(),
            0 < chunk@.len() <= CHUNK_SIZE,
            old(self).chunk_counter < u32::MAX,
        ensures
            final(self).same_stream(old(self)),
            final(self).buf == old(self).buf,
            r is Ok,
            final(self).frames_ok() && final(self).chunks@ == old(self).chunks@.push(chunk@),
    {
        let nonce = build_nonce(&self.nonce_prefix, self.chunk_counter);
        let aad = build_aad(self.aad_prefix, self.chunk_counter);
        let ghost index = self.chunk_counter as nat;
        self.chunk_counter = self.chunk_counter + 1;
        let mut sealed = chunk;
        match seal_in_place(&self.key, nonce, aad.as_slice(), &mut sealed) {
            Ok(()) => {},
            Err(_) => return Err(CryptoError::EncryptFailed),
        }
        proof {
            assert(index as u32 == (self.chunk_counter - 1) as u32);
            assert(sealed@ == sealed_chunk(self.key@, self.nonce_prefix@, self.aad_prefix, index, chunk@));
        }
        let len_bytes = u32_to_le(sealed.len() as u32);
        append_bytes(&mut self.inner, &len_bytes);
        append_bytes(&mut self.inner, sealed.as_slice());
        proof {
            lemma_frames_push(self.key@, self.nonce_prefix@, self.aad_prefix, 0, self.chunks@, chunk@);
            let old_chunks = self.chunks@;
            let new_chunks = old_chunks.push(chunk@);
            assert forall|i: int| 0 <= i < new_chunks.len() implies chunk_sealed_ok(self.key@, self.nonce_prefix@, self.aad_prefix, (0 + i) as nat, #[trigger] new_chunks[i]) by {
                if i < old_chunks.len() {
                    assert(new_chunks[i] == old_chunks[i]);
                }
            }
        }
        self.chunks = Ghost(self.chunks@.push(chunk@));
        proof {
            assert(self.inner@ =~= self.base@ + sealed_stream(self.key@, self.nonce_prefix@, self.aad_prefix, self.chunks@));
        }
        Ok(())
    }

    /// Buffers `data` and seals every full chunk of the buffer.
    pub fn write(&mut self, data: &[u8]) -> (r: Result<usize, CryptoError>)
        requires
            old(self).wf(),
            old(self).chunk_count() + (old(self).buffered().len() + data@.len()) / (CHUNK_SIZE as nat) <= u32::MAX,
        ensures
            final(self).same_stream(old(self)),
            r is Ok ==> {
                &&& r == Ok::<usize, CryptoError>(data@.len() as usize)
                &&& final(self).wf()
                &&& final(self).sealed() == old(self).sealed() + full_chunks(old(self).buffered() + data@)
                &&& final(self).buffered() == chunk_remainder(old(self).buffered() + data@)
                &&& final(self).chunk_count() == final(self).sealed().len()
                &&& final(self).output() == final(self).base() + sealed_stream(final(self).spec_key(), final(self).spec_nonce_prefix(), final(self).spec_aad_prefix(), final(self).sealed())
                &&& final(self).written() == old(self).written() + data@
            },
            r is Ok,
    {
        let ghost all = old(self).buf@ + data@;
        append_bytes(&mut self.buf, data);
        proof {
            lemma_full_chunks(all);
        }
        while self.buf.len() >= CHUNK_SIZE
            invariant
                self.frames_ok(),
                self.same_stream(old(self)),
                self.chunks@ + full_chunks(self.buf@) == old(self).chunks@ + full_chunks(all),
                chunk_remainder(self.buf@) == chunk_remainder(all),
                self.chunks@.len() + full_chunks(self.buf@).len() <= u32::MAX,
            decreases self.buf@.len(),
        {
            let ghost b = self.buf@;
            let tail = self.buf.split_off(CHUNK_SIZE);
            let mut chunk = tail;
            std::mem::swap(&mut chunk, &mut self.buf);
            proof {
                assert(chunk@ == b.take(CHUNK_SIZE as int));
                assert(self.buf@ == b.skip(CHUNK_SIZE as int));
                assert(full_chunks(b) == seq![chunk@] + full_chunks(self.buf@));
                assert(chunk_remainder(b) == chunk_remainder(self.buf@));
            }
            match self.encrypt_and_write_chunk(chunk) {
                Ok(()) => {},
                Err(e) => return Err(e),
            }
            proof {
                assert(self.chunks@ + full_chunks(self.buf@) =~= old(self).chunks@ + full_chunks(all)) by {
                    assert(self.chunks@ + full_chunks(self.buf@) =~= (self.chunks@.drop_last() + seq![self.chunks@.last()]) + full_chunks(self.buf@));
                }
            }
        }
        proof {
            assert(full_chunks(self.buf@) == Seq::<Seq<u8>>::empty());
            assert(self.chunks@ =~= old(self).chunks@ + full_chunks(all));
            lemma_full_chunks(self.buf@);
            vstd::seq_lib::lemma_flatten_concat(old(self).chunks@, full_chunks(all));
            assert(self.written() =~= old(self).chunks@.flatten() + (full_chunks(all).flatten() + chunk_remainder(all)));
            assert(old(self).written() + data@ =~= old(self).chunks@.flatten() + all);
        }
        Ok(data.len())
    }

    /// Seals what is buffered, if anything, as a chunk of its own.
    pub fn flush(&mut self) -> (r: Result<(), CryptoError>)
        requires
            old(self).wf(),
            old(self).buffered().len() > 0 ==> old(self).chunk_count() < u32::MAX,
        ensures
            final(self).same_stream(old(self)),
            r is Ok ==> {
                &&& final(self).wf()
                &&& final(self).sealed() == old(self).final_chunks()
                &&& final(self).buffered().len() == 0
                &&& final(self).chunk_count() == final(self).sealed().len()
                &&& final(self).output() == final(self).base() + sealed_stream(final(self).spec_key(), final(self).spec_nonce_prefix(), final(self).spec_aad_prefix(), final(self).sealed())
                &&& final(self).written() == old(self).written()
            },
            r is Ok,
    {
        broadcast use Seq::lemma_flatten_push;
        if self.buf.len() > 0 {
            let mut chunk: Vec<u8> = Vec::new();
            std::mem::swap(&mut chunk, &mut self.buf);
            match self.encrypt_and_write_chunk(chunk) {
                Ok(()) => {},
                Err(e) => return Err(e),
            }
            assert(self.written() =~= old(self).written());
        } else {
            assert(self.written() =~= old(self).written());
        }
        Ok(())
    }

    /// Flushes and hands back the output buffer. What it holds after its
    /// original contents decrypts to everything written.
    pub fn finish(self) -> (r: Result<Vec<u8>, CryptoError>)
        requires
            self.wf(),
            self.buffered().len() > 0 ==> self.chunk_count() < u32::MAX,
        ensures
            r matches Ok(v) ==> {
                &&& v@ == self.base() + sealed_stream(self.spec_key(), self.spec_nonce_prefix(), self.spec_aad_prefix(), self.final_chunks())
                &&& decrypt_stream(self.spec_key(), self.spec_aad_prefix(), v@.skip(self.base().len() as int)) == Ok::<Seq<u8>, CryptoError>(self.written())
                &&& v@.len() == self.base().len() + 8 + self.written().len() + (4 + TAG_LEN) * self.final_chunks().len()
                &&& no_empty_frames(
                    self.spec_key(),
                    v@.skip(self.base().len() as int).take(8),
                    self.spec_aad_prefix(),
                    0,
                    v@.skip(self.base().len() as int).skip(8),
                )
            },
            r is Ok,
    {
        let mut w = self;
        match w.flush() {
            Ok(()) => {},
            Err(e) => return Err(e),
        }
        proof {
            let s = sealed_stream(w.key@, w.nonce_prefix@, w.aad_prefix, w.chunks@);
            assert(w.inner@.skip(w.base@.len() as int) =~= s);
            lemma_stream_roundtrip(w.key@, w.nonce_prefix@, w.aad_prefix, w.chunks@);
            lemma_frames_len(w.key@, w.nonce_prefix@, w.aad_prefix, 0, w.chunks@);
            lemma_sealed_frames_not_empty(w.key@, w.nonce_prefix@, w.aad_prefix, 0, w.chunks@);
            assert(s.take(8) =~= w.nonce_prefix@);
            assert(s.skip(8) =~= frames(w.key@, w.nonce_prefix@, w.aad_prefix, 0, w.chunks@));
            assert(w.chunks@.flatten() + Seq::<u8>::empty() =~= w.chunks@.flatten());
        }
        Ok(w.inner)
    }
}

/// Decrypts a stream made by `ChunkEncryptWriter`, held in memory, chunk by
/// chunk.
pub struct ChunkDecryptReader {
    inner: Vec<u8>,
    in_pos: usize,
    key: [u8; 32],
    nonce_prefix: [u8; 8],
    chunk_counter: u32,
    buf: Vec<u8>,
    pos: usize,
    aad_prefix: Option<[u8; 16]>,
    exhausted: bool,
}

impl ChunkDecryptReader {
    pub closed spec fn wf(&self) -> bool {
        &&& self.in_pos <= self.inner@.len()
        &&& self.pos <= self.buf@.len()
    }

    pub closed spec fn spec_key(&self) -> Seq<u8> {
        self.key@
    }

    pub closed spec fn spec_aad_prefix(&self) -> Option<[u8; 16]> {
        self.aad_prefix
    }

    /// Bytes of the stream not yet taken in.
    pub closed spec fn input_left(&self) -> nat {
        (self.inner@.len() - self.in_pos) as nat
    }

    /// Decrypted bytes not yet handed out.
    pub closed spec fn buffer_left(&self) -> nat {
        (self.buf@.len() - self.pos) as nat
    }

    /// What the reader has still to give: the rest of the current chunk, then
    /// the plaintext of the frames not yet read, or the error they run into.
    pub closed spec fn unread(&self) -> Result<Seq<u8>, CryptoError> {
        let cur = self.buf@.skip(self.pos as int);
        if self.exhausted {
            Ok(cur)
        } else {
            match decode_frames(self.key@, self.nonce_prefix@, self.aad_prefix, self.chunk_counter as nat, self.inner@.skip(self.in_pos as int)) {
                Ok(q) => Ok(cur + q),
                Err(e) => Err(e),
            }
        }
    }

    /// The plaintext the reader still hands out before the stream ends or a
    /// frame fails: the rest of the current chunk, then what the frames not
    /// yet read give.
    pub closed spec fn readable(&self) -> Seq<u8> {
        let cur = self.buf@.skip(self.pos as int);
        if self.exhausted {
            cur
        } else {
            cur + decode_prefix(self.key@, self.nonce_prefix@, self.aad_prefix, self.chunk_counter as nat, self.inner@.skip(self.in_pos as int))
        }
    }

    /// Whether the stream has ended: its end was reached and nothing of the
    /// last chunk is left to hand out.
    pub closed spec fn at_end(&self) -> bool {
        self.exhausted && self.pos >= self.buf@.len()
    }

    /// Whether no frame ahead opens to an empty plaintext, as in every stream
    /// the writer makes.
    pub closed spec fn no_empty_ahead(&self) -> bool {
        self.exhausted || no_empty_frames(self.key@, self.nonce_prefix@, self.aad_prefix, self.chunk_counter as nat, self.inner@.skip(self.in_pos as int))
    }

    /// How taking in the next frame fails, if it does.
    pub closed spec fn next_error(&self) -> Option<CryptoError> {
        if self.exhausted {
            None
        } else {
            next_frame_error(self.key@, self.nonce_prefix@, self.aad_prefix, self.chunk_counter as nat, self.inner@.skip(self.in_pos as int))
        }
    }

    /// Whatever the frames hold, what the reader hands out is what remains
    /// unread when they decode without error.
    pub proof fn lemma_readable(&self)
        ensures
            self.unread() matches Ok(t) ==> self.readable() == t,
    {
        if !self.exhausted {
            lemma_decode_prefix(self.key@, self.nonce_prefix@, self.aad_prefix, self.chunk_counter as nat, self.inner@.skip(self.in_pos as int));
        }
    }

    /// Starts reading `inner`: takes its first eight bytes as the nonce prefix.
    pub fn new(inner: Vec<u8>, key: &[u8; 32], aad_prefix: Option<[u8; 16]>) -> (r: Result<Self, CryptoError>)
        ensures
            r is Ok <==> inner@.len() >= 8,
            r matches Err(e) ==> e == CryptoError::UnexpectedEof,
            r matches Ok(rd) ==> {
                &&& rd.wf()
                &&& rd.spec_key() == key@
                &&& rd.spec_aad_prefix() == aad_prefix
                &&& rd.unread() == decrypt_stream(key@, aad_prefix, inner@)
                &&& rd.no_empty_ahead() == no_empty_frames(key@, inner@.take(8), aad_prefix, 0, inner@.skip(8))
            },
    {
        if inner.len() < 8 {
            return Err(CryptoError::UnexpectedEof);
        }
        let nonce_prefix = [inner[0], inner[1], inner[2], inner[3], inner[4], inner[5], inner[6], inner[7]];
        let rd = ChunkDecryptReader {
            inner,
            in_pos: 8,
            key: *key,
            nonce_prefix,
            chunk_counter: 0,
            buf: Vec::new(),
            pos: 0,
            aad_prefix,
            exhausted: false,
        };
        proof {
            assert(nonce_prefix@ =~= rd.inner@.take(8));
            assert(rd.buf@.skip(0) =~= Seq::<u8>::empty());
            match decode_frames(key@, nonce_prefix@, aad_prefix, 0, rd.inner@.skip(8)) {
                Ok(q) => { assert(Seq::<u8>::empty() + q =~= q); },
                Err(e) => {},
            }
        }
        Ok(rd)
    }

    /// Takes in the next frame: its plaintext becomes the buffer. Fewer than
    /// four bytes left end the stream.
    #[verifier::rlimit(80)]
    #[verifier::spinoff_prover]
    fn refill(&mut self) -> (r: Result<(), CryptoError>)
        requires
            old(self).wf(),
            old(self).pos >= old(self).buf@.len(),
        ensures
            final(self).wf(),
            final(self).spec_key() == old(self).spec_key(),
            final(self).spec_aad_prefix() == old(self).spec_aad_prefix(),
            r is Ok ==> {
                ||| final(self).buffer_left() == 0 && old(self).unread() == Ok::<Seq<u8>, CryptoError>(Seq::empty())
                    && old(self).readable().len() == 0
                ||| final(self).buffer_left() > 0 && final(self).unread() == old(self).unread()
                    && final(self).readable() == old(self).readable()
                    && final(self).input_left() < old(self).input_left()
            },
            r is Err <==> old(self).next_error() is Some,
            old(self).at_end() ==> *final(self) == *old(self),
            old(self).input_left() < 4 ==> r is Ok && final(self).at_end(),
            r is Ok && old(self).no_empty_ahead() ==> final(self).no_empty_ahead(),
            r is Ok && old(self).no_empty_ahead() && final(self).buffer_left() == 0 ==> final(self).at_end(),
            r matches Err(e) ==> old(self).unread() == Err::<Seq<u8>, CryptoError>(e) && old(self).next_error() == Some(e)
                && old(self).readable().len() == 0,
    {
        if self.exhausted {
            proof {
                assert(self.buf@.skip(self.pos as int) =~= Seq::<u8>::empty());
            }
            return Ok(());
        }
        let ghost rest = self.inner@.skip(self.in_pos as int);
        let ghost cur = self.buf@.skip(self.pos as int);
        assert(cur =~= Seq::<u8>::empty());
        if self.inner.len() - self.in_pos < 4 {
            self.exhausted = true;
            return Ok(());
        }
        let len_buf = [self.inner[self.in_pos], self.inner[self.in_pos + 1], self.inner[self.in_pos + 2], self.inner[self.in_pos + 3]];
        let chunk_len = u32_from_le(len_buf) as usize;
        proof {
            assert(len_buf@ =~= rest.take(4));
            assert(le_u32(len_buf@) == le_u32(rest));
        }
        if self.inner.len() - self.in_pos - 4 < chunk_len {
            self.in_pos = self.inner.len();
            return Err(CryptoError::UnexpectedEof);
        }
        let start = self.in_pos + 4;
        let mut encrypted: Vec<u8> = Vec::with_capacity(chunk_len);
        let mut i: usize = 0;
        while i < chunk_len
            invariant
                i <= chunk_len,
                start + chunk_len <= self.inner@.len(),
                self.inner@.len() <= usize::MAX,
                encrypted@ == self.inner@.subrange(start as int, start + i),
            decreases chunk_len - i,
        {
            encrypted.push(self.inner[start + i]);
            assert(self.inner@.subrange(start as int, start + i + 1) =~= self.inner@.subrange(start as int, start + i).push(self.inner@[start + i]));
            i = i + 1;
        }
        proof {
            assert(encrypted@ =~= rest.subrange(4, 4 + chunk_len));
        }
        self.in_pos = start + chunk_len;
        if self.chunk_counter == u32::MAX {
            return Err(CryptoError::DecryptFailed);
        }
        let nonce = build_nonce(&self.nonce_prefix, self.chunk_counter);
        let aad = build_aad(self.aad_prefix, self.chunk_counter);
        let ghost index = self.chunk_counter as nat;
        self.chunk_counter = self.chunk_counter + 1;
        match open_in_place(&self.key, nonce, aad.as_slice(), &mut encrypted) {
            Ok(()) => {},
            Err(_) => return Err(CryptoError::DecryptFailed),
        }
        proof {
            assert(rest.skip(4 + chunk_len) =~= self.inner@.skip(self.in_pos as int));
            assert(index as u32 == (self.chunk_counter - 1) as u32);
        }
        self.buf = encrypted;
        self.pos = 0;
        proof {
            assert(self.buf@.skip(0) =~= self.buf@);
        }
        Ok(())
    }

    /// Reads at most `max` bytes of plaintext. An empty result with `max > 0`
    /// means the stream has ended.
    #[verifier::rlimit(40)]
    pub fn read(&mut self, max: usize) -> (r: Result<Vec<u8>, CryptoError>)
        requires
            old(self).wf(),
        ensures
            final(self).wf(),
            final(self).spec_key() == old(self).spec_key(),
            final(self).spec_aad_prefix() == old(self).spec_aad_prefix(),
            r matches Ok(v) ==> v@.len() <= max,
            r matches Ok(v) ==> v@.len() == 0 && max > 0 ==> old(self).unread() == Ok::<Seq<u8>, CryptoError>(Seq::empty()),
            r matches Ok(v) ==> v@.len() <= old(self).readable().len() && v@ == old(self).readable().take(v@.len() as int),
            r matches Ok(v) ==> v@.len() > 0 ==> final(self).readable() == old(self).readable().skip(v@.len() as int),
            r matches Ok(v) ==> max > 0 && old(self).readable().len() > 0 ==> v@.len() > 0,
            r is Err ==> old(self).readable().len() == 0,
            old(self).at_end() ==> (r matches Ok(v) && v@.len() == 0) && *final(self) == *old(self),
            r matches Ok(v) ==> v@.len() == 0 && old(self).buffer_left() == 0 && old(self).input_left() < 4 ==> final(self).at_end(),
            r is Ok && old(self).no_empty_ahead() ==> final(self).no_empty_ahead(),
            r matches Ok(v) ==> v@.len() == 0 && max > 0 && old(self).no_empty_ahead() ==> final(self).at_end(),
            r matches Ok(v) ==> v@.len() > 0 ==> {
                &&& final(self).unread() == match old(self).unread() {
                    Ok(t) => Ok(t.skip(v@.len() as int)),
                    Err(e) => Err(e),
                }
                &&& old(self).unread() matches Ok(t) ==> t.len() >= v@.len() && t.take(v@.len() as int) == v@
                &&& final(self).input_left() < old(self).input_left()
                    || final(self).input_left() == old(self).input_left() && final(self).buffer_left() < old(self).buffer_left()
            },
            r matches Err(e) ==> old(self).unread() == Err::<Seq<u8>, CryptoError>(e),
    {
        if self.pos >= self.buf.len() {
            match self.refill() {
                Ok(()) => {},
                Err(e) => return Err(e),
            }
            if self.pos >= self.buf.len() {
                return Ok(Vec::new());
            }
        }
        let ghost mid = *self;
        let available = self.buf.len() - self.pos;
        let to_copy = if max < available { max } else { available };
        let mut out: Vec<u8> = Vec::with_capacity(to_copy);
        let start = self.pos;
        let mut i: usize = 0;
        while i < to_copy
            invariant
                i <= to_copy,
                start + to_copy <= self.buf@.len(),
                self.buf@.len() <= usize::MAX,
                out@ == self.buf@.subrange(start as int, start + i),
            decreases to_copy - i,
        {
            out.push(self.buf[start + i]);
            assert(self.buf@.subrange(start as int, start + i + 1) =~= self.buf@.subrange(start as int, start + i).push(self.buf@[start + i]));
            i = i + 1;
        }
        self.pos = self.pos + to_copy;
        proof {
            let cur = mid.buf@.skip(mid.pos as int);
            assert(out@ =~= cur.take(to_copy as int));
            assert(self.buf@.skip(self.pos as int) =~= cur.skip(to_copy as int));
            let dp = if mid.exhausted {
                Seq::<u8>::empty()
            } else {
                decode_prefix(mid.key@, mid.nonce_prefix@, mid.aad_prefix, mid.chunk_counter as nat, mid.inner@.skip(mid.in_pos as int))
            };
            assert(mid.readable() =~= cur + dp);
            assert(self.readable() =~= (cur + dp).skip(to_copy as int));
            assert((cur + dp).take(to_copy as int) =~= cur.take(to_copy as int));
            if !mid.exhausted {
                match decode_frames(mid.key@, mid.nonce_prefix@, mid.aad_prefix, mid.chunk_counter as nat, mid.inner@.skip(mid.in_pos as int)) {
                    Ok(q) => {
                        assert(cur.skip(to_copy as int) + q =~= (cur + q).skip(to_copy as int));
                        assert((cur + q).take(to_copy as int) =~= cur.take(to_copy as int));
                    },
                    Err(e) => {},
                }
            } else {
                assert(cur.take(to_copy as int) =~= cur.take(to_copy as int));
            }
        }
        Ok(out)
    }

    /// Reads everything that is left.
    pub fn read_to_end(&mut self) -> (r: Result<Vec<u8>, CryptoError>)
        requires
            old(self).wf(),
        ensures
            final(self).wf(),
            r matches Ok(v) ==> old(self).unread() == Ok::<Seq<u8>, CryptoError>(v@),
            old(self).unread() is Err ==> r is Err,
            old(self).unread() is Ok ==> r is Ok,
            r matches Err(e) ==> old(self).unread() == Err::<Seq<u8>, CryptoError>(e),
    {
        let mut out: Vec<u8> = Vec::new();
        proof {
            if let Ok(t) = old(self).unread() {
                assert(t.skip(0) =~= t);
                assert(t.take(0) =~= out@);
            }
        }
        loop
            invariant
                self.wf(),
                self.spec_key() == old(self).spec_key(),
                self.spec_aad_prefix() == old(self).spec_aad_prefix(),
                match old(self).unread() {
                    Ok(t) => t.len() >= out@.len() && t.take(out@.len() as int) == out@ && self.unread() == Ok::<Seq<u8>, CryptoError>(t.skip(out@.len() as int)),
                    Err(e) => self.unread() == Err::<Seq<u8>, CryptoError>(e),
                },
            decreases self.input_left(), self.buffer_left(),
        {
            let ghost pre = *self;
            let chunk = match self.read(CHUNK_SIZE) {
                Ok(c) => c,
                Err(e) => return Err(e),
            };
            if chunk.len() == 0 {
                proof {
                    match old(self).unread() {
                        Ok(t) => {
                            assert(pre.unread() == Ok::<Seq<u8>, CryptoError>(t.skip(out@.len() as int)));
                            assert(t.skip(out@.len() as int).len() == 0);
                            assert(t =~= t.take(out@.len() as int));
                        },
                        Err(e) => {},
                    }
                }
                return Ok(out);
            }
            let ghost before = out@;
            append_bytes(&mut out, chunk.as_slice());
            proof {
                match old(self).unread() {
                    Ok(t) => {
                        assert(t.take(out@.len() as int) =~= before + chunk@) by {
                            assert(t.take(before.len() as int) == before);
                            assert(t.skip(before.len() as int).take(chunk@.len() as int) == chunk@);
                        }
                        assert(t.skip(before.len() as int).skip(chunk@.len() as int) =~= t.skip(out@.len() as int));
                    },
                    Err(e) => {},
                }
            }
        }
    }
}

/// Reads hand a stream out in order. Where `lefts[i]` is what is left to
/// read before the `i`th read, and each read gives a beginning `pieces[i]` of
/// it and leaves the rest, as `read` states of a stream that decodes, the
/// pieces read one after the other, followed by what is left, are all that
/// was left at first.
pub proof fn lemma_reads_concatenate(pieces: Seq<Seq<u8>>, lefts: Seq<Seq<u8>>)
    requires
        lefts.len() == pieces.len() + 1,
        forall|i: int|
            0 <= i < pieces.len() ==> {
                &&& (#[trigger] pieces[i]).len() <= lefts[i].len()
                &&& pieces[i] == lefts[i].take(pieces[i].len() as int)
                &&& lefts[i + 1] == lefts[i].skip(pieces[i].len() as int)
            },
    ensures
        pieces.flatten() + lefts.last() == lefts[0],
    decreases pieces.len(),
{
    if pieces.len() > 0 {
        let p = pieces.drop_last();
        let l = lefts.drop_last();
        assert forall|i: int| 0 <= i < p.len() implies {
            &&& (#[trigger] p[i]).len() <= l[i].len()
            &&& p[i] == l[i].take(p[i].len() as int)
            &&& l[i + 1] == l[i].skip(p[i].len() as int)
        } by {
            assert(p[i] == pieces[i]);
            assert(l[i] == lefts[i] && l[i + 1] == lefts[i + 1]);
        }
        lemma_reads_concatenate(p, l);
        let k = pieces.len() - 1;
        assert(pieces[k].len() <= lefts[k].len());
        assert(lefts[k] =~= pieces[k] + lefts[k + 1]);
        assert(pieces.flatten() =~= p.flatten() + pieces.last()) by {
            Seq::lemma_flatten_push(p, pieces.last());
            assert(p.push(pieces.last()) =~= pieces);
        }
        assert(l.last() == lefts[k]);
        assert(pieces.flatten() + lefts.last() =~= p.flatten() + l.last());
    }
}

/// Encrypts `data` as one stream appended to `inner`, under `key` and
/// `aad_prefix`, with a fresh random nonce prefix.
pub fn encrypt_bytes(inner: Vec<u8>, key: &[u8; 32], aad_prefix: Option<[u8; 16]>, data: &[u8]) -> (r: Result<Vec<u8>, CryptoError>)
    requires
        data@.len() / (CHUNK_SIZE as nat) < u32::MAX,
    ensures
        r matches Ok(v) ==> {
            &&& v@.len() >= inner@.len() + 8
            &&& v@ == inner@ + sealed_stream(key@, v@.subrange(inner@.len() as int, inner@.len() + 8int), aad_prefix, chunks_of(data@))
            &&& decrypt_stream(key@, aad_prefix, v@.skip(inner@.len() as int)) == Ok::<Seq<u8>, CryptoError>(data@)
            &&& v@.len() == inner@.len() + sealed_len(data@)
        },
        r matches Err(e) ==> e == CryptoError::RngFailed,
{
    match system_random::<8>() {
        Ok(p) => {
            let v = encrypt_with_nonce_prefix(inner, key, aad_prefix, data, p);
            assert(v@.subrange(inner@.len() as int, inner@.len() + 8int) =~= p@) by {
                assert(sealed_stream(key@, p@, aad_prefix, chunks_of(data@)).take(8) =~= p@);
            }
            Ok(v)
        },
        Err(_) => Err(CryptoError::RngFailed),
    }
}

/// Encrypts `data` as one stream appended to `inner`, under `key` and
/// `aad_prefix`, with the nonce prefix `nonce_prefix`: the prefix, then a
/// frame for each chunk of `chunks_of(data)`.
pub fn encrypt_with_nonce_prefix(inner: Vec<u8>, key: &[u8; 32], aad_prefix: Option<[u8; 16]>, data: &[u8], nonce_prefix: [u8; 8]) -> (v: Vec<u8>)
    requires
        data@.len() / (CHUNK_SIZE as nat) < u32::MAX,
    ensures
        v@ == inner@ + sealed_stream(key@, nonce_prefix@, aad_prefix, chunks_of(data@)),
        decrypt_stream(key@, aad_prefix, v@.skip(inner@.len() as int)) == Ok::<Seq<u8>, CryptoError>(data@),
        v@.len() == inner@.len() + sealed_len(data@),
{
    let mut w = ChunkEncryptWriter::with_nonce_prefix(inner, key, aad_prefix, nonce_prefix);
    proof {
        assert(Seq::<u8>::empty() + data@ =~= data@);
    }
    let _ = w.write(data);
    proof {
        lemma_full_chunks(data@);
        assert(Seq::<Seq<u8>>::empty() + full_chunks(data@) =~= full_chunks(data@));
        assert(Seq::<u8>::empty() + data@ =~= data@);
        assert(w.final_chunks() == chunks_of(data@));
        assert(Seq::<Seq<u8>>::empty().flatten() + data@ =~= data@);
    }
    w.finish().unwrap()
}

/// Decrypts a whole stream.
pub fn decrypt_bytes(data: Vec<u8>, key: &[u8; 32], aad_prefix: Option<[u8; 16]>) -> (r: Result<Vec<u8>, CryptoError>)
    ensures
        r matches Ok(v) ==> decrypt_stream(key@, aad_prefix, data@) == Ok::<Seq<u8>, CryptoError>(v@),
        r is Ok <==> decrypt_stream(key@, aad_prefix, data@) is Ok,
        r matches Err(e) ==> decrypt_stream(key@, aad_prefix, data@) == Err::<Seq<u8>, CryptoError>(e),
{
    let mut rd = match ChunkDecryptReader::new(data, key, aad_prefix) {
        Ok(rd) => rd,
        Err(e) => return Err(e),
    };
    rd.read_to_end()
}

} // verus!

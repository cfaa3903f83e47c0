use vstd::prelude::*;
use argon2::Argon2;
use ring::aead::{Aad, LessSafeKey, Nonce, UnboundKey, AES_256_GCM};
use ring::error::Unspecified;
use ring::hkdf::{Prk, Salt, HKDF_SHA256};
use ring::rand::{SecureRandom, SystemRandom};

verus! {

#[verifier::external_type_specification]
#[verifier::external_body]
pub struct ExUnspecified(ring::error::Unspecified);

#[verifier::external_type_specification]
#[verifier::external_body]
pub struct ExPrk(ring::hkdf::Prk);

/// Length of the authentication tag that AES-GCM appends to each sealed chunk.
pub const TAG_LEN: usize = 16;

/// The output length of an HKDF expansion, as a value of its own.
#[derive(Clone, Copy)]
pub struct OkmLength(pub usize);

impl OkmLength {
    /// The number of bytes this length stands for.
    pub fn len(&self) -> (r: usize)
        ensures
            r == self.0,
    {
        self.0
    }
}

/// What AES-256-GCM sealing with `key` under `nonce` and `aad` makes of
/// `plaintext`: the ciphertext followed by the tag.
pub uninterp spec fn aes256_gcm_seal(key: Seq<u8>, nonce: Seq<u8>, aad: Seq<u8>, plaintext: Seq<u8>) -> Seq<u8>;

/// What ring's AES-256-GCM opening with `key` under `nonce` and `aad` makes
/// of `sealed`: the plaintext, or `None` where ring refuses it (a tag that
/// does not authenticate, an input shorter than a tag or past ring's length
/// limit).
pub uninterp spec fn aes256_gcm_open(key: Seq<u8>, nonce: Seq<u8>, aad: Seq<u8>, sealed: Seq<u8>) -> Option<Seq<u8>>;

/// The 32 bytes that Argon2id with the crate's default parameters derives from
/// `password` and `salt`.
pub uninterp spec fn argon2id_key(password: Seq<u8>, salt: Seq<u8>) -> Seq<u8>;

/// The 32 bytes of HKDF-SHA256 output for `salt`, input key material `ikm`
/// and context `info`.
pub uninterp spec fn hkdf_sha256(salt: Seq<u8>, ikm: Seq<u8>, info: Seq<u8>) -> Seq<u8>;

/// Seals `data` in place with ring's `LessSafeKey::seal_in_place_append_tag`,
/// the key built by `UnboundKey::new(&AES_256_GCM, key)`. The contract claims
/// that a successful call leaves the named sealing of the old contents, which is
/// 16 bytes longer, and that ring's opening of it gives the old contents back.
/// It also claims success below ring's limits: a 32-byte key always builds,
/// and ring's GCM context refuses only a plaintext longer than its
/// `MAX_IN_OUT_LEN`, (2^32 - 2) blocks of 16 bytes, or associated data whose
/// length in bits does not fit 64 bits.
#[verifier::external_body]
pub(crate) fn seal_in_place(key: &[u8; 32], nonce: [u8; 12], aad: &[u8], data: &mut Vec<u8>) -> (r: Result<(), Unspecified>)
    ensures
        old(data)@.len() <= 68719476704 && aad@.len() < 2305843009213693952 ==> r is Ok,
        r is Ok ==> final(data)@ == aes256_gcm_seal(key@, nonce@, aad@, old(data)@),
        r is Ok ==> final(data)@.len() == old(data)@.len() + TAG_LEN,
        r is Ok ==> aes256_gcm_open(key@, nonce@, aad@, final(data)@) == Some(old(data)@),
{
    let k = LessSafeKey::new(UnboundKey::new(&AES_256_GCM, key)?);
    k.seal_in_place_append_tag(Nonce::assume_unique_for_key(nonce), Aad::from(aad), data)
}

/// Opens `data` in place with ring's `LessSafeKey::open_in_place` under an
/// AES-256-GCM key built from `key`, and truncates it to the plaintext. Ring's
/// `UnboundKey::new` takes any 32-byte key for AES-256-GCM: its key schedule
/// fails only for key lengths other than 128 or 256 bits. So the contract
/// claims that the call succeeds exactly where the named opening gives a
/// plaintext, and leaves that plaintext.
#[verifier::external_body]
pub(crate) fn open_in_place(key: &[u8; 32], nonce: [u8; 12], aad: &[u8], data: &mut Vec<u8>) -> (r: Result<(), Unspecified>)
    ensures
        r is Ok ==> aes256_gcm_open(key@, nonce@, aad@, old(data)@) == Some(final(data)@),
        r is Ok <==> aes256_gcm_open(key@, nonce@, aad@, old(data)@) is Some,
{
    let k = LessSafeKey::new(UnboundKey::new(&AES_256_GCM, key)?);
    let n = k.open_in_place(Nonce::assume_unique_for_key(nonce), Aad::from(aad), data)?.len();
    data.truncate(n);
    Ok(())
}

/// Fills `N` bytes from ring's `SystemRandom`. Nothing is claimed of the bytes;
/// the call fails where the operating system's generator does.
#[verifier::external_body]
pub(crate) fn system_random<const N: usize>() -> (r: Result<[u8; N], Unspecified>) {
    let mut s = [0u8; N];
    SystemRandom::new().fill(&mut s)?;
    Ok(s)
}

/// Runs `Argon2::default().hash_password_into` into a 32-byte buffer that
/// starts zeroed, ignoring its error as the vault does. The contract claims
/// that the result is the named derivation of the password and the salt.
#[verifier::external_body]
fn argon2id_hash(password: &[u8], salt: &[u8; 16]) -> (r: [u8; 32])
    ensures
        r@ == argon2id_key(password@, salt@),
{
    let mut out = [0u8; 32];
    let _ = Argon2::default().hash_password_into(password, salt, &mut out);
    out
}

/// A fresh random salt of 16 bytes.
pub fn rand_salt() -> (r: Result<[u8; 16], Unspecified>) {
    system_random::<16>()
}

/// The 32-byte master key that Argon2id derives from `password` and `salt`.
pub fn argon2id(password: &[u8], salt: [u8; 16]) -> (r: Result<Vec<u8>, Unspecified>)
    ensures
        r matches Ok(k) && k@ == argon2id_key(password@, salt@),
{
    let key = argon2id_hash(password, &salt);
    let mut v: Vec<u8> = Vec::new();
    for i in 0..32
        invariant
            v@ == key@.take(i as int),
    {
        v.push(key[i]);
    }
    assert(v@ =~= key@);
    Ok(v)
}

/// An HKDF-SHA256 pseudorandom key extracted from a salt and a master key,
/// from which per-purpose keys are expanded.
pub struct HkdfContext {
    prk: Prk,
    salt: Ghost<Seq<u8>>,
    ikm: Ghost<Seq<u8>>,
}

impl HkdfContext {
    /// The salt this context was extracted with.
    pub closed spec fn spec_salt(&self) -> Seq<u8> {
        self.salt@
    }

    /// The input key material this context was extracted from.
    pub closed spec fn spec_ikm(&self) -> Seq<u8> {
        self.ikm@
    }

    /// Runs ring's `Salt::new(HKDF_SHA256, salt).extract(ikm)` and keeps the
    /// resulting `Prk`. The contract claims only that the context remembers
    /// which salt and key material it came from.
    #[verifier::external_body]
    pub fn new(salt: &[u8], ikm: &[u8]) -> (r: Self)
        ensures
            r.spec_salt() == salt@,
            r.spec_ikm() == ikm@,
    {
        let prk = Salt::new(HKDF_SHA256, salt).extract(ikm);
        Self { prk, salt: Ghost(salt@), ikm: Ghost(ikm@) }
    }

    /// Runs ring's `Prk::expand(&[info], HKDF_SHA256)` and fills 32 bytes. Ring
    /// fails there only for lengths above 255 digests, so the contract claims
    /// success, with the named HKDF output of this context's salt and key
    /// material for `info`.
    #[verifier::external_body]
    pub fn derive(&self, info: &[u8]) -> (r: Result<[u8; 32], Unspecified>)
        ensures
            r is Ok,
            r is Ok ==> r->Ok_0@ == hkdf_sha256(self.spec_salt(), self.spec_ikm(), info@),
    {
        let mut okm = [0u8; 32];
        let info_slice = &[info];
        self.prk.expand(info_slice, HKDF_SHA256)?.fill(&mut okm)?;
        Ok(okm)
    }
}

} // verus!

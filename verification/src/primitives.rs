//! Trusted boundary to the cryptographic primitives and the entropy sources.
//!
//! Every function here is a thin wrapper whose body makes one call into an
//! outside crate; its contract states only what that crate's source shows.
//! Deterministic results are given names (uninterpreted spec functions) that
//! the rest of the library reasons with.

use vstd::prelude::*;

use crate::errors::CryptoError;
use chacha20poly1305::aead::Aead;
use chacha20poly1305::KeyInit;
use hmac::Mac;
use rand::RngCore;
use rand::SeedableRng;

verus! {

/// The HMAC-SHA256 tag of a message under a key, as computed by the hmac crate.
pub uninterp spec fn hmac_of(key: Seq<u8>, data: Seq<u8>) -> Seq<u8>;

/// The BLAKE3 digest of a byte string, as computed by the blake3 crate.
pub uninterp spec fn blake3_of(data: Seq<u8>) -> Seq<u8>;

/// The Curve25519 public key derived from 32 secret bytes.
pub uninterp spec fn x25519_public_of(sk: Seq<u8>) -> Seq<u8>;

/// The X25519 shared secret computed from our secret bytes and the peer's
/// public key bytes.
pub uninterp spec fn x25519_shared_of(sk: Seq<u8>, pk: Seq<u8>) -> Seq<u8>;

/// The ChaCha20-Poly1305 sealing of a plaintext: ciphertext followed by the
/// 16-byte authentication tag, determined by key, nonce, associated data and
/// plaintext.
pub uninterp spec fn aead_seal(key: Seq<u8>, nonce: Seq<u8>, aad: Seq<u8>, pt: Seq<u8>) -> Seq<u8>;

/// Relies on hmac::Hmac with sha2::Sha256: the 32-byte tag depends on the key
/// and message bytes alone; new_from_slice accepts every key length.
#[verifier::external_body]
pub(crate) fn hmac_sha256(key: &Vec<u8>, data: &Vec<u8>) -> (r: Vec<u8>)
    ensures
        r@ == hmac_of(key@, data@),
        r@.len() == 32,
{
    let mut mac = <hmac::Hmac<sha2::Sha256> as Mac>::new_from_slice(key.as_slice())
        .expect("HMAC accepts any key length");
    mac.update(data.as_slice());
    mac.finalize().into_bytes().to_vec()
}

/// Relies on blake3::hash: the 32-byte digest depends on the input bytes alone.
#[verifier::external_body]
pub(crate) fn blake3_hash32(data: &Vec<u8>) -> (r: Vec<u8>)
    ensures
        r@ == blake3_of(data@),
        r@.len() == 32,
{
    blake3::hash(data.as_slice()).as_bytes().to_vec()
}

/// Relies on x25519_dalek::PublicKey::from(&StaticSecret): the public key is a
/// function of the 32 secret bytes alone.
#[verifier::external_body]
pub(crate) fn x25519_public(sk: &Vec<u8>) -> (r: Vec<u8>)
    requires
        sk@.len() == 32,
    ensures
        r@ == x25519_public_of(sk@),
        r@.len() == 32,
{
    let mut s = [0u8; 32];
    s.copy_from_slice(sk.as_slice());
    let secret = x25519_dalek::StaticSecret::from(s);
    x25519_dalek::PublicKey::from(&secret).as_bytes().to_vec()
}

/// Relies on x25519_dalek::StaticSecret::diffie_hellman: the shared secret is a
/// function of the secret bytes and the peer public key bytes alone, and the
/// two parties to a Diffie-Hellman exchange compute the same bytes.
#[verifier::external_body]
pub(crate) fn x25519_shared(sk: &Vec<u8>, pk: &Vec<u8>) -> (r: Vec<u8>)
    requires
        sk@.len() == 32,
        pk@.len() == 32,
    ensures
        r@ == x25519_shared_of(sk@, pk@),
        r@.len() == 32,
        forall|peer: Seq<u8>|
            pk@ == x25519_public_of(peer) ==> r@ == x25519_shared_of(
                peer,
                x25519_public_of(sk@),
            ),
{
    let mut s = [0u8; 32];
    s.copy_from_slice(sk.as_slice());
    let mut p = [0u8; 32];
    p.copy_from_slice(pk.as_slice());
    let secret = x25519_dalek::StaticSecret::from(s);
    let public = x25519_dalek::PublicKey::from(p);
    secret.diffie_hellman(&public).as_bytes().to_vec()
}

/// Relies on chacha20poly1305::ChaCha20Poly1305 encryption with associated
/// data: the output is ciphertext followed by the 16-byte tag, a function of
/// key, nonce, associated data and plaintext; it fails only when the plaintext
/// exceeds the cipher's block-counter limit.
#[verifier::external_body]
pub(crate) fn aead_encrypt_raw(
    key: &Vec<u8>,
    nonce: &Vec<u8>,
    aad: &Vec<u8>,
    plaintext: &Vec<u8>,
) -> (r: Result<Vec<u8>, CryptoError>)
    requires
        key@.len() == 32,
        nonce@.len() == 12,
    ensures
        r matches Ok(ct) ==> ct@ == aead_seal(key@, nonce@, aad@, plaintext@) && ct@.len()
            == plaintext@.len() + 16,
        (r is Ok) <==> plaintext@.len() < 274877906880,
{
    let cipher = chacha20poly1305::ChaCha20Poly1305::new(chacha20poly1305::Key::from_slice(
        key.as_slice(),
    ));
    let payload = chacha20poly1305::aead::Payload { msg: plaintext.as_slice(), aad: aad.as_slice() };
    match cipher.encrypt(chacha20poly1305::Nonce::from_slice(nonce.as_slice()), payload) {
        Ok(ct) => Ok(ct),
        Err(_) => Err(CryptoError::EncryptionFailed),
    }
}

/// Relies on chacha20poly1305::ChaCha20Poly1305 decryption with associated
/// data: it returns exactly the plaintext whose sealing under the same key,
/// nonce and associated data produced this ciphertext, and fails on every
/// other input.
#[verifier::external_body]
pub(crate) fn aead_decrypt_raw(
    key: &Vec<u8>,
    nonce: &Vec<u8>,
    aad: &Vec<u8>,
    ciphertext: &Vec<u8>,
) -> (r: Result<Vec<u8>, CryptoError>)
    requires
        key@.len() == 32,
        nonce@.len() == 12,
    ensures
        r matches Ok(pt) ==> ciphertext@ == aead_seal(key@, nonce@, aad@, pt@) && pt@.len() + 16
            == ciphertext@.len(),
        r is Err ==> (forall|pt: Seq<u8>|
            pt.len() < 274877906880 ==> ciphertext@ != aead_seal(key@, nonce@, aad@, pt)),
        r matches Ok(p) ==> (forall|pt: Seq<u8>|
            pt.len() < 274877906880 && ciphertext@ == aead_seal(key@, nonce@, aad@, pt) ==> pt
                == p@),
{
    let cipher = chacha20poly1305::ChaCha20Poly1305::new(chacha20poly1305::Key::from_slice(
        key.as_slice(),
    ));
    let payload = chacha20poly1305::aead::Payload {
        msg: ciphertext.as_slice(),
        aad: aad.as_slice(),
    };
    match cipher.decrypt(chacha20poly1305::Nonce::from_slice(nonce.as_slice()), payload) {
        Ok(pt) => Ok(pt),
        Err(_) => Err(CryptoError::DecryptionFailed),
    }
}

/// Relies on rand_core::OsRng::try_fill_bytes: operating-system entropy, or a
/// reported failure; nothing is assumed of the bytes drawn.
#[verifier::external_body]
pub(crate) fn os_random_bytes(n: usize) -> (r: Result<Vec<u8>, CryptoError>)
    ensures
        r matches Ok(b) ==> b@.len() == n,
        r matches Err(e) ==> e == CryptoError::RandomFailed,
{
    let mut buf = vec![0u8; n];
    match rand_core::OsRng.try_fill_bytes(&mut buf) {
        Ok(()) => Ok(buf),
        Err(_) => Err(CryptoError::RandomFailed),
    }
}

/// Relies on std::time::SystemTime::now and duration_since: nanoseconds since
/// the Unix epoch; fails when the clock reads before the epoch. The value
/// depends on the moment of the call, so nothing is assumed of it.
#[verifier::external_body]
pub(crate) fn unix_nanos() -> (r: Result<u64, CryptoError>)
    ensures
        r matches Err(e) ==> e == CryptoError::RandomFailed,
{
    match std::time::SystemTime::now().duration_since(std::time::UNIX_EPOCH) {
        Ok(d) => Ok(d.as_nanos() as u64),
        Err(_) => Err(CryptoError::RandomFailed),
    }
}

#[verifier::external_type_specification]
#[verifier::external_body]
pub struct ExStdRng(rand::rngs::StdRng);

/// Relies on rand::rngs::StdRng::from_seed: builds the deterministic generator
/// from a 32-byte seed.
#[verifier::external_body]
pub(crate) fn stdrng_from_seed(seed: &Vec<u8>) -> (r: rand::rngs::StdRng)
    requires
        seed@.len() == 32,
{
    let mut s = [0u8; 32];
    s.copy_from_slice(seed.as_slice());
    rand::rngs::StdRng::from_seed(s)
}

/// Relies on rand::RngCore::fill_bytes on StdRng: pseudo-random bytes from the
/// generator's current state; the generator does not fail.
#[verifier::external_body]
pub(crate) fn stdrng_fill(rng: &mut rand::rngs::StdRng, n: usize) -> (r: Vec<u8>)
    ensures
        r@.len() == n,
{
    let mut buf = vec![0u8; n];
    rng.fill_bytes(&mut buf);
    buf
}

} // verus!

//! ChaCha20-Poly1305 authenticated encryption with explicit nonce handling.

use vstd::prelude::*;

use crate::bytesutil::concat_bytes;
use crate::bytesutil::copy_range;
use crate::chain::clone_bytes;
use crate::errors::CryptoError;
use crate::primitives::aead_decrypt_raw;
use crate::primitives::aead_encrypt_raw;
use crate::primitives::aead_seal;
use crate::random::SecureRandom;

verus! {

/// Key length in bytes.
pub const KEY_LENGTH: usize = 32;

/// Nonce length in bytes.
pub const NONCE_LENGTH: usize = 12;

/// Authentication tag length in bytes.
pub const TAG_LENGTH: usize = 16;

/// Nonce length of the ChaCha20 stream cipher, in bytes.
pub const CHACHA20_NONCE_LENGTH: usize = 12;

/// Plaintexts at or above this length are rejected by the cipher (its 32-bit
/// block counter would overflow).
pub const MAX_PLAINTEXT_LENGTH: u64 = 274877906880;

/// General encryption handler: one 32-byte key, ChaCha20-Poly1305 payloads of
/// the form nonce, then ciphertext, then tag.
pub struct CryptoHandler {
    key: Vec<u8>,
}

impl CryptoHandler {
    /// The key this handler encrypts and decrypts with.
    pub closed spec fn key_view(&self) -> Seq<u8> {
        self.key@
    }

    /// The key is 32 bytes.
    pub open spec fn wf(&self) -> bool {
        self.key_view().len() == 32
    }

    /// Create a handler from a 32-byte key; any other length is rejected.
    pub fn new(key: &Vec<u8>) -> (r: Result<CryptoHandler, CryptoError>)
        ensures
            r matches Ok(h) ==> h.wf() && h.key_view() == key@,
            (r is Ok) <==> key@.len() == 32,
            r is Err ==> r == Err::<CryptoHandler, CryptoError>(CryptoError::InvalidKeyLength),
    {
        if key.len() != KEY_LENGTH {
            return Err(CryptoError::InvalidKeyLength);
        }
        Ok(CryptoHandler { key: clone_bytes(key) })
    }

    /// Encrypt under a caller-supplied 12-byte nonce. The result is the nonce
    /// followed by the sealed payload (ciphertext and tag).
    pub fn encrypt_with_nonce(&self, plaintext: &Vec<u8>, associated_data: &Vec<u8>, nonce: &Vec<
        u8,
    >) -> (r: Result<Vec<u8>, CryptoError>)
        requires
            self.wf(),
        ensures
            r matches Ok(ct) ==> nonce@.len() == 12 && ct@ == nonce@ + aead_seal(
                self.key_view(),
                nonce@,
                associated_data@,
                plaintext@,
            ) && ct@.len() == plaintext@.len() + 28,
            r is Ok ==> plaintext@.len() < MAX_PLAINTEXT_LENGTH,
            (r is Err && nonce@.len() == 12) ==> plaintext@.len() >= MAX_PLAINTEXT_LENGTH,
            (r == Err::<Vec<u8>, CryptoError>(CryptoError::InvalidNonceLength)) <==> nonce@.len()
                != 12,
            r is Err ==> (r == Err::<Vec<u8>, CryptoError>(CryptoError::InvalidNonceLength) || r
                == Err::<Vec<u8>, CryptoError>(CryptoError::EncryptionFailed)),
    {
        if nonce.len() != NONCE_LENGTH {
            return Err(CryptoError::InvalidNonceLength);
        }
        let sealed = match aead_encrypt_raw(&self.key, nonce, associated_data, plaintext) {
            Ok(ct) => ct,
            Err(e) => {
                return Err(CryptoError::EncryptionFailed);
            },
        };
        Ok(concat_bytes(nonce, &sealed))
    }

    /// Encrypt under a freshly drawn random nonce. The result is the nonce
    /// followed by the sealed payload.
    pub fn encrypt(&self, plaintext: &Vec<u8>, associated_data: &Vec<u8>) -> (r: Result<
        Vec<u8>,
        CryptoError,
    >)
        requires
            self.wf(),
        ensures
            r matches Ok(ct) ==> ct@.len() == plaintext@.len() + 28 && ct@.skip(12) == aead_seal(
                self.key_view(),
                ct@.subrange(0, 12),
                associated_data@,
                plaintext@,
            ),
            r is Ok ==> plaintext@.len() < MAX_PLAINTEXT_LENGTH,
            r is Err ==> (r == Err::<Vec<u8>, CryptoError>(CryptoError::RandomFailed) || r == Err::<
                Vec<u8>,
                CryptoError,
            >(CryptoError::EncryptionFailed)),
            (r is Err && r != Err::<Vec<u8>, CryptoError>(CryptoError::RandomFailed))
                ==> plaintext@.len() >= MAX_PLAINTEXT_LENGTH,
    {
        let mut rng = match SecureRandom::new() {
            Ok(r) => r,
            Err(_) => {
                return Err(CryptoError::RandomFailed);
            },
        };
        let mut nonce: Vec<u8> = Vec::new();
        let mut i: usize = 0;
        while i < NONCE_LENGTH
            invariant
                nonce@.len() == i,
                i <= 12,
                rng.wf(),
            decreases 12 - i,
        {
            nonce.push(0u8);
            i = i + 1;
        }
        if rng.fill_bytes(&mut nonce).is_err() {
            return Err(CryptoError::RandomFailed);
        }
        let out = self.encrypt_with_nonce(plaintext, associated_data, &nonce)?;
        proof {
            assert(out@.subrange(0, 12) =~= nonce@);
            assert(out@.skip(12) =~= aead_seal(
                self.key_view(),
                nonce@,
                associated_data@,
                plaintext@,
            ));
        }
        Ok(out)
    }

    /// Decrypt a payload of the form nonce, ciphertext, tag. Succeeds exactly
    /// on payloads whose sealed part was produced under this handler's key,
    /// the leading nonce and the same associated data, and then returns that
    /// unique plaintext.
    pub fn decrypt(&self, ciphertext: &Vec<u8>, associated_data: &Vec<u8>) -> (r: Result<
        Vec<u8>,
        CryptoError,
    >)
        requires
            self.wf(),
        ensures
            r matches Ok(pt) ==> ciphertext@.len() >= 12 && ciphertext@.skip(12) == aead_seal(
                self.key_view(),
                ciphertext@.subrange(0, 12),
                associated_data@,
                pt@,
            ),
            r is Err ==> r == Err::<Vec<u8>, CryptoError>(CryptoError::DecryptionFailed),
            r is Err ==> ciphertext@.len() < 12 || (forall|pt: Seq<u8>|
                pt.len() < MAX_PLAINTEXT_LENGTH ==> ciphertext@.skip(12) != aead_seal(
                    self.key_view(),
                    ciphertext@.subrange(0, 12),
                    associated_data@,
                    pt,
                )),
            r matches Ok(p) ==> (forall|pt: Seq<u8>|
                pt.len() < MAX_PLAINTEXT_LENGTH && ciphertext@.skip(12) == aead_seal(
                    self.key_view(),
                    ciphertext@.subrange(0, 12),
                    associated_data@,
                    pt,
                ) ==> pt == p@),
    {
        if ciphertext.len() < NONCE_LENGTH {
            return Err(CryptoError::DecryptionFailed);
        }
        let nonce = copy_range(ciphertext, 0, NONCE_LENGTH);
        let body = copy_range(ciphertext, NONCE_LENGTH, ciphertext.len());
        proof {
            assert(body@ =~= ciphertext@.skip(12));
        }
        match aead_decrypt_raw(&self.key, &nonce, associated_data, &body) {
            Ok(pt) => Ok(pt),
            Err(_) => Err(CryptoError::DecryptionFailed),
        }
    }
}

} // verus!

//! Counter-bounded encryptor: reserves a message number per encryption and
//! refuses to run once the configured maximum is reached.

use vstd::prelude::*;
use vstd::bytes::spec_u64_to_le_bytes;
use vstd::bytes::u64_to_le_bytes;

use crate::aead::CryptoHandler;
use crate::aead::NONCE_LENGTH;
use crate::bytesutil::concat_bytes;
use crate::errors::CryptoError;
use crate::primitives::aead_seal;
use crate::primitives::unix_nanos;
use crate::random::counter_next;

verus! {

/// Associated data of the counter-bounded encryptor: the caller's context,
/// then the message number and the wall-clock second, both little-endian.
pub open spec fn aead_context_data(context: Seq<u8>, num: u64, ts: u64) -> Seq<u8> {
    context + spec_u64_to_le_bytes(num) + spec_u64_to_le_bytes(ts)
}

/// Encryptor with message counter tracking.
pub struct Encryptor {
    handler: CryptoHandler,
    message_counter: u64,
    max_message_count: u64,
}

impl Encryptor {
    /// The key this encryptor seals with.
    pub closed spec fn key_view(&self) -> Seq<u8> {
        self.handler.key_view()
    }

    /// Messages encrypted so far.
    pub closed spec fn count_view(&self) -> u64 {
        self.message_counter
    }

    /// The configured maximum message count.
    pub closed spec fn max_view(&self) -> u64 {
        self.max_message_count
    }

    /// The key is 32 bytes.
    pub open spec fn wf(&self) -> bool {
        self.key_view().len() == 32
    }

    /// Create an encryptor from a 32-byte key; any other length is rejected.
    pub fn new(key: &Vec<u8>, max_message_count: u64) -> (r: Result<Encryptor, CryptoError>)
        ensures
            r matches Ok(e) ==> e.wf() && e.key_view() == key@ && e.count_view() == 0
                && e.max_view() == max_message_count,
            (r is Ok) <==> key@.len() == 32,
            r is Err ==> r == Err::<Encryptor, CryptoError>(CryptoError::InvalidKeyLength),
    {
        let handler = CryptoHandler::new(key)?;
        Ok(Encryptor { handler, message_counter: 0, max_message_count })
    }

    /// Encrypt one message. A message number is reserved first, whether or not
    /// encryption then succeeds; the number and the wall-clock second are
    /// appended to the caller's context to form the associated data. At or
    /// beyond the maximum the underlying cipher is not called and the
    /// encryption fails; a clock or entropy failure surfaces as
    /// `RandomFailed`.
    pub fn encrypt_message(&mut self, plaintext: &Vec<u8>, context: &Vec<u8>) -> (r: Result<
        Vec<u8>,
        CryptoError,
    >)
        requires
            old(self).wf(),
        ensures
            final(self).wf(),
            final(self).key_view() == old(self).key_view(),
            final(self).max_view() == old(self).max_view(),
            final(self).count_view() == counter_next(old(self).count_view()),
            r matches Ok(ct) ==> old(self).count_view() < old(self).max_view() && (exists|ts: u64|
                ct@.len() == plaintext@.len() + 28 && ct@.skip(12) == aead_seal(
                    old(self).key_view(),
                    ct@.subrange(0, 12),
                    aead_context_data(context@, old(self).count_view(), ts),
                    plaintext@,
                )),
            r is Err ==> (r == Err::<Vec<u8>, CryptoError>(CryptoError::EncryptionFailed) || r
                == Err::<Vec<u8>, CryptoError>(CryptoError::RandomFailed)),
            old(self).count_view() >= old(self).max_view() ==> r == Err::<Vec<u8>, CryptoError>(
                CryptoError::EncryptionFailed,
            ),
            (old(self).count_view() < old(self).max_view() && plaintext@.len()
                < crate::aead::MAX_PLAINTEXT_LENGTH) ==> (r is Ok || r == Err::<Vec<u8>, CryptoError>(
                CryptoError::RandomFailed,
            )),
    {
        let message_num = self.message_counter;
        if self.message_counter == u64::MAX {
            self.message_counter = 0;
        } else {
            self.message_counter = self.message_counter + 1;
        }
        if message_num >= self.max_message_count {
            return Err(CryptoError::EncryptionFailed);
        }
        let ts = match unix_nanos() {
            Ok(n) => n / 1000000000,
            Err(_) => {
                return Err(CryptoError::RandomFailed);
            },
        };
        let num_bytes = u64_to_le_bytes(message_num);
        let ts_bytes = u64_to_le_bytes(ts);
        let with_num = concat_bytes(context, &num_bytes);
        let associated_data = concat_bytes(&with_num, &ts_bytes);
        proof {
            assert(associated_data@ =~= aead_context_data(context@, message_num, ts));
        }
        match self.handler.encrypt(plaintext, &associated_data) {
            Ok(ct) => Ok(ct),
            Err(CryptoError::RandomFailed) => Err(CryptoError::RandomFailed),
            Err(_) => Err(CryptoError::EncryptionFailed),
        }
    }

    /// Decrypt a message; the caller's context alone is the associated data.
    pub fn decrypt_message(&self, ciphertext: &Vec<u8>, context: &Vec<u8>) -> (r: Result<
        Vec<u8>,
        CryptoError,
    >)
        requires
            self.wf(),
        ensures
            r matches Ok(pt) ==> ciphertext@.len() >= 12 && ciphertext@.skip(12) == aead_seal(
                self.key_view(),
                ciphertext@.subrange(0, 12),
                context@,
                pt@,
            ),
            (r is Err && ciphertext@.len() < 12) ==> r == Err::<Vec<u8>, CryptoError>(
                CryptoError::InvalidCiphertext,
            ),
            (r is Err && ciphertext@.len() >= 12) ==> r == Err::<Vec<u8>, CryptoError>(
                CryptoError::DecryptionFailed,
            ) && (forall|pt: Seq<u8>|
                pt.len() < crate::aead::MAX_PLAINTEXT_LENGTH ==> ciphertext@.skip(12) != aead_seal(
                    self.key_view(),
                    ciphertext@.subrange(0, 12),
                    context@,
                    pt,
                )),
    {
        if ciphertext.len() < NONCE_LENGTH {
            return Err(CryptoError::InvalidCiphertext);
        }
        self.handler.decrypt(ciphertext, context)
    }

    /// The number of messages encrypted so far.
    pub fn message_count(&self) -> (r: u64)
        ensures
            r == self.count_view(),
    {
        self.message_counter
    }

    /// Reset the message counter to zero.
    pub fn reset_counter(&mut self)
        ensures
            final(self).count_view() == 0,
            final(self).key_view() == old(self).key_view(),
            final(self).max_view() == old(self).max_view(),
            final(self).wf() == old(self).wf(),
    {
        self.message_counter = 0;
    }
}

} // verus!

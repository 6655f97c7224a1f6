//! Unified failure kinds across the protocol layers.

use vstd::prelude::*;

verus! {

/// Failure kinds of the cryptographic primitives.
#[derive(Debug, Clone, PartialEq, Eq, Structural)]
pub enum CryptoError {
    InvalidKeyLength,
    InvalidNonceLength,
    EncryptionFailed,
    DecryptionFailed,
    AuthenticationFailed,
    RandomFailed,
    KeyDerivationFailed,
    InvalidCiphertext,
}

/// Caller-visible failure kinds of the whole protocol.
#[derive(Debug, Clone)]
pub enum ProtocolError {
    InvalidKeyLength,
    EncryptionFailed,
    DecryptionFailed,
    AuthenticationFailed,
    InvalidNonce,
    SessionNotFound,
    InvalidState,
    KeyDerivationFailed,
    InvalidMessage,
    InvalidSignature,
    HandshakeFailed,
    OutOfMemory,
    InternalError(String),
    InvalidCiphertext,
    InvalidNonceLength,
    RandomFailed,
    KeyNotFound,
}

impl PartialEq for ProtocolError {
    fn eq(&self, other: &ProtocolError) -> (r: bool) {
        match (self, other) {
            (ProtocolError::InvalidKeyLength, ProtocolError::InvalidKeyLength) => true,
            (ProtocolError::EncryptionFailed, ProtocolError::EncryptionFailed) => true,
            (ProtocolError::DecryptionFailed, ProtocolError::DecryptionFailed) => true,
            (ProtocolError::AuthenticationFailed, ProtocolError::AuthenticationFailed) => true,
            (ProtocolError::InvalidNonce, ProtocolError::InvalidNonce) => true,
            (ProtocolError::SessionNotFound, ProtocolError::SessionNotFound) => true,
            (ProtocolError::InvalidState, ProtocolError::InvalidState) => true,
            (ProtocolError::KeyDerivationFailed, ProtocolError::KeyDerivationFailed) => true,
            (ProtocolError::InvalidMessage, ProtocolError::InvalidMessage) => true,
            (ProtocolError::InvalidSignature, ProtocolError::InvalidSignature) => true,
            (ProtocolError::HandshakeFailed, ProtocolError::HandshakeFailed) => true,
            (ProtocolError::OutOfMemory, ProtocolError::OutOfMemory) => true,
            (ProtocolError::InternalError(a), ProtocolError::InternalError(b)) => *a == *b,
            (ProtocolError::InvalidCiphertext, ProtocolError::InvalidCiphertext) => true,
            (ProtocolError::InvalidNonceLength, ProtocolError::InvalidNonceLength) => true,
            (ProtocolError::RandomFailed, ProtocolError::RandomFailed) => true,
            (ProtocolError::KeyNotFound, ProtocolError::KeyNotFound) => true,
            _ => false,
        }
    }
}

impl vstd::std_specs::cmp::PartialEqSpecImpl for ProtocolError {
    open spec fn obeys_eq_spec() -> bool {
        true
    }

    open spec fn eq_spec(&self, other: &ProtocolError) -> bool {
        match (self, other) {
            (ProtocolError::InvalidKeyLength, ProtocolError::InvalidKeyLength) => true,
            (ProtocolError::EncryptionFailed, ProtocolError::EncryptionFailed) => true,
            (ProtocolError::DecryptionFailed, ProtocolError::DecryptionFailed) => true,
            (ProtocolError::AuthenticationFailed, ProtocolError::AuthenticationFailed) => true,
            (ProtocolError::InvalidNonce, ProtocolError::InvalidNonce) => true,
            (ProtocolError::SessionNotFound, ProtocolError::SessionNotFound) => true,
            (ProtocolError::InvalidState, ProtocolError::InvalidState) => true,
            (ProtocolError::KeyDerivationFailed, ProtocolError::KeyDerivationFailed) => true,
            (ProtocolError::InvalidMessage, ProtocolError::InvalidMessage) => true,
            (ProtocolError::InvalidSignature, ProtocolError::InvalidSignature) => true,
            (ProtocolError::HandshakeFailed, ProtocolError::HandshakeFailed) => true,
            (ProtocolError::OutOfMemory, ProtocolError::OutOfMemory) => true,
            (ProtocolError::InternalError(a), ProtocolError::InternalError(b)) => a@ == b@,
            (ProtocolError::InvalidCiphertext, ProtocolError::InvalidCiphertext) => true,
            (ProtocolError::InvalidNonceLength, ProtocolError::InvalidNonceLength) => true,
            (ProtocolError::RandomFailed, ProtocolError::RandomFailed) => true,
            (ProtocolError::KeyNotFound, ProtocolError::KeyNotFound) => true,
            _ => false,
        }
    }
}

impl Eq for ProtocolError {}

/// Result of an operation of a cryptographic primitive.
pub type CryptoResult<T> = Result<T, CryptoError>;

/// Result of a protocol operation.
pub type ProtocolResult<T> = Result<T, ProtocolError>;

impl From<CryptoError> for ProtocolError {
    fn from(err: CryptoError) -> (r: ProtocolError) {
        match err {
            CryptoError::InvalidKeyLength => ProtocolError::InvalidKeyLength,
            CryptoError::EncryptionFailed => ProtocolError::EncryptionFailed,
            CryptoError::DecryptionFailed => ProtocolError::DecryptionFailed,
            CryptoError::AuthenticationFailed => ProtocolError::AuthenticationFailed,
            CryptoError::InvalidNonceLength => ProtocolError::InvalidNonceLength,
            CryptoError::RandomFailed => ProtocolError::RandomFailed,
            CryptoError::KeyDerivationFailed => ProtocolError::KeyDerivationFailed,
            CryptoError::InvalidCiphertext => ProtocolError::InvalidCiphertext,
        }
    }
}

impl vstd::std_specs::convert::FromSpecImpl<CryptoError> for ProtocolError {
    open spec fn obeys_from_spec() -> bool {
        true
    }

    open spec fn from_spec(err: CryptoError) -> ProtocolError {
        match err {
            CryptoError::InvalidKeyLength => ProtocolError::InvalidKeyLength,
            CryptoError::EncryptionFailed => ProtocolError::EncryptionFailed,
            CryptoError::DecryptionFailed => ProtocolError::DecryptionFailed,
            CryptoError::AuthenticationFailed => ProtocolError::AuthenticationFailed,
            CryptoError::InvalidNonceLength => ProtocolError::InvalidNonceLength,
            CryptoError::RandomFailed => ProtocolError::RandomFailed,
            CryptoError::KeyDerivationFailed => ProtocolError::KeyDerivationFailed,
            CryptoError::InvalidCiphertext => ProtocolError::InvalidCiphertext,
        }
    }
}

} // verus!

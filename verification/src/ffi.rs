//! Types of the foreign-call boundary: a flat configuration record and the
//! byte-sized error enumeration the bridge reports. The bridge itself (raw
//! pointers, panic catching) lives outside the library.

use vstd::prelude::*;

use crate::errors::ProtocolError;
use crate::Config;

verus! {

/// Flat configuration record as the foreign caller hands it over: booleans as
/// bytes, everything else plain integers.
#[derive(Clone, Copy, Debug, PartialEq, Eq, Structural)]
pub struct ConfigFFI {
    /// Non-zero to require a chain advance on every message.
    pub enable_forward_secrecy: u8,
    /// Non-zero to require a DH ratchet step on every received key change.
    pub enable_post_compromise_security: u8,
    /// Upper bound on cached skipped message keys.
    pub max_skipped_messages: usize,
    /// Advisory signed-prekey rotation interval, in seconds.
    pub key_rotation_interval: u64,
    /// Timeout handed to the handshake collaborator, in seconds.
    pub handshake_timeout: u64,
    /// Advisory buffer sizing for callers.
    pub message_buffer_size: usize,
}

impl From<ConfigFFI> for Config {
    /// Lift the flat record into the library configuration; any non-zero flag
    /// byte means enabled.
    fn from(config: ConfigFFI) -> (r: Config) {
        Config {
            enable_forward_secrecy: config.enable_forward_secrecy != 0,
            enable_post_compromise_security: config.enable_post_compromise_security != 0,
            max_skipped_messages: config.max_skipped_messages,
            key_rotation_interval: config.key_rotation_interval,
            handshake_timeout: config.handshake_timeout,
            message_buffer_size: config.message_buffer_size,
        }
    }
}

impl vstd::std_specs::convert::FromSpecImpl<ConfigFFI> for Config {
    open spec fn obeys_from_spec() -> bool {
        true
    }

    open spec fn from_spec(config: ConfigFFI) -> Config {
        Config {
            enable_forward_secrecy: config.enable_forward_secrecy != 0,
            enable_post_compromise_security: config.enable_post_compromise_security != 0,
            max_skipped_messages: config.max_skipped_messages,
            key_rotation_interval: config.key_rotation_interval,
            handshake_timeout: config.handshake_timeout,
            message_buffer_size: config.message_buffer_size,
        }
    }
}

/// Error codes of the foreign-call boundary.
#[derive(Clone, Copy, Debug, PartialEq, Eq, Structural)]
pub enum FFIError {
    Success,
    NullPointer,
    InvalidArgument,
    EncryptionFailed,
    DecryptionFailed,
    SessionNotFound,
    OutOfMemory,
    UnknownError,
}

impl FFIError {
    /// The byte value reported over the boundary.
    pub open spec fn spec_code(self) -> u8 {
        match self {
            FFIError::Success => 0,
            FFIError::NullPointer => 1,
            FFIError::InvalidArgument => 2,
            FFIError::EncryptionFailed => 3,
            FFIError::DecryptionFailed => 4,
            FFIError::SessionNotFound => 5,
            FFIError::OutOfMemory => 6,
            FFIError::UnknownError => 255,
        }
    }

    /// The byte value reported over the boundary.
    pub fn code(self) -> (r: u8)
        ensures
            r == self.spec_code(),
    {
        match self {
            FFIError::Success => 0,
            FFIError::NullPointer => 1,
            FFIError::InvalidArgument => 2,
            FFIError::EncryptionFailed => 3,
            FFIError::DecryptionFailed => 4,
            FFIError::SessionNotFound => 5,
            FFIError::OutOfMemory => 6,
            FFIError::UnknownError => 255,
        }
    }
}

impl From<ProtocolError> for FFIError {
    /// Collapse a protocol error onto the boundary's error codes.
    fn from(err: ProtocolError) -> (r: FFIError) {
        match err {
            ProtocolError::InvalidKeyLength => FFIError::InvalidArgument,
            ProtocolError::EncryptionFailed => FFIError::EncryptionFailed,
            ProtocolError::DecryptionFailed => FFIError::DecryptionFailed,
            ProtocolError::SessionNotFound => FFIError::SessionNotFound,
            ProtocolError::OutOfMemory => FFIError::OutOfMemory,
            _ => FFIError::UnknownError,
        }
    }
}

impl vstd::std_specs::convert::FromSpecImpl<ProtocolError> for FFIError {
    open spec fn obeys_from_spec() -> bool {
        true
    }

    open spec fn from_spec(err: ProtocolError) -> FFIError {
        match err {
            ProtocolError::InvalidKeyLength => FFIError::InvalidArgument,
            ProtocolError::EncryptionFailed => FFIError::EncryptionFailed,
            ProtocolError::DecryptionFailed => FFIError::DecryptionFailed,
            ProtocolError::SessionNotFound => FFIError::SessionNotFound,
            ProtocolError::OutOfMemory => FFIError::OutOfMemory,
            _ => FFIError::UnknownError,
        }
    }
}

} // verus!

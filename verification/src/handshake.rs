//! Handshake orchestration. The cryptographic handshake itself is an outside
//! collaborator; this builder collects its inputs and emits the versioned
//! handshake message for it.

use vstd::prelude::*;

use crate::bytesutil::concat_bytes;
use crate::chain::clone_bytes;
use crate::errors::ProtocolError;
use crate::keystore::KeyStore;
use crate::random::SecureRandom;
use crate::Config;

verus! {

/// ASCII of the handshake version marker.
pub open spec fn handshake_tag() -> Seq<u8> {
    seq![72u8, 65u8, 78u8, 68u8, 83u8, 72u8, 65u8, 75u8, 69u8, 95u8, 86u8, 49u8]
}

/// ASCII of the initiator marker.
pub open spec fn initiator_tag() -> Seq<u8> {
    seq![95u8, 73u8, 78u8, 73u8, 84u8]
}

/// ASCII of the responder marker.
pub open spec fn responder_tag() -> Seq<u8> {
    seq![95u8, 82u8, 69u8, 83u8, 80u8]
}

/// The handshake message: the version marker, the role marker, and (for an
/// initiator that knows it) the peer's public key.
pub open spec fn handshake_message(initiator: bool, peer_public_key: Option<Seq<u8>>) -> Seq<u8> {
    if initiator {
        match peer_public_key {
            Option::Some(pk) => handshake_tag() + initiator_tag() + pk,
            Option::None => handshake_tag() + initiator_tag(),
        }
    } else {
        handshake_tag() + responder_tag()
    }
}

/// Collects the inputs of a handshake.
pub struct HandshakeBuilder<'a> {
    config: Option<Config>,
    keystore: Option<&'a KeyStore>,
    random: Option<&'a SecureRandom>,
    initiator: bool,
    peer_public_key: Option<Vec<u8>>,
    prologue: Option<Vec<u8>>,
}

impl<'a> HandshakeBuilder<'a> {
    /// The configuration collected so far.
    pub closed spec fn config_view(&self) -> Option<Config> {
        self.config
    }

    /// The role collected so far.
    pub closed spec fn initiator_view(&self) -> bool {
        self.initiator
    }

    /// The peer public key collected so far.
    pub closed spec fn peer_key_view(&self) -> Option<Seq<u8>> {
        match self.peer_public_key {
            Option::Some(ref k) => Option::Some(k@),
            Option::None => Option::None,
        }
    }

    /// The prologue collected so far.
    pub closed spec fn prologue_view(&self) -> Option<Seq<u8>> {
        match self.prologue {
            Option::Some(ref p) => Option::Some(p@),
            Option::None => Option::None,
        }
    }

    /// An empty builder.
    pub fn new() -> (r: HandshakeBuilder<'a>)
        ensures
            r.config_view() is None,
            !r.initiator_view(),
            r.peer_key_view() is None,
            r.prologue_view() is None,
    {
        HandshakeBuilder {
            config: Option::None,
            keystore: Option::None,
            random: Option::None,
            initiator: false,
            peer_public_key: Option::None,
            prologue: Option::None,
        }
    }

    /// Record the configuration.
    pub fn with_config(self, config: Config) -> (r: HandshakeBuilder<'a>)
        ensures
            r.config_view() == Option::Some(config),
            r.initiator_view() == self.initiator_view(),
            r.peer_key_view() == self.peer_key_view(),
            r.prologue_view() == self.prologue_view(),
    {
        HandshakeBuilder { config: Option::Some(config), ..self }
    }

    /// Record the key store to draw identity material from.
    pub fn with_keystore(self, keystore: &'a KeyStore) -> (r: HandshakeBuilder<'a>)
        ensures
            r.config_view() == self.config_view(),
            r.initiator_view() == self.initiator_view(),
            r.peer_key_view() == self.peer_key_view(),
            r.prologue_view() == self.prologue_view(),
    {
        HandshakeBuilder { keystore: Option::Some(keystore), ..self }
    }

    /// Record the random source.
    pub fn with_random(self, random: &'a SecureRandom) -> (r: HandshakeBuilder<'a>)
        ensures
            r.config_view() == self.config_view(),
            r.initiator_view() == self.initiator_view(),
            r.peer_key_view() == self.peer_key_view(),
            r.prologue_view() == self.prologue_view(),
    {
        HandshakeBuilder { random: Option::Some(random), ..self }
    }

    /// Record the role.
    pub fn with_initiator(self, initiator: bool) -> (r: HandshakeBuilder<'a>)
        ensures
            r.config_view() == self.config_view(),
            r.initiator_view() == initiator,
            r.peer_key_view() == self.peer_key_view(),
            r.prologue_view() == self.prologue_view(),
    {
        HandshakeBuilder { initiator, ..self }
    }

    /// Record the peer's public key; any length but 32 is rejected.
    pub fn with_peer_public_key(self, key: &Vec<u8>) -> (r: Result<
        HandshakeBuilder<'a>,
        ProtocolError,
    >)
        ensures
            (r is Ok) <==> key@.len() == 32,
            r matches Ok(b) ==> b.peer_key_view() == Option::Some(key@) && b.config_view()
                == self.config_view() && b.initiator_view() == self.initiator_view()
                && b.prologue_view() == self.prologue_view(),
            r is Err ==> r == Err::<HandshakeBuilder<'a>, ProtocolError>(
                ProtocolError::InvalidKeyLength,
            ),
    {
        if key.len() != 32 {
            return Err(ProtocolError::InvalidKeyLength);
        }
        Ok(HandshakeBuilder { peer_public_key: Option::Some(clone_bytes(key)), ..self })
    }

    /// Record the prologue bytes.
    pub fn with_prologue(self, prologue: &Vec<u8>) -> (r: HandshakeBuilder<'a>)
        ensures
            r.config_view() == self.config_view(),
            r.initiator_view() == self.initiator_view(),
            r.peer_key_view() == self.peer_key_view(),
            r.prologue_view() == Option::Some(prologue@),
    {
        HandshakeBuilder { prologue: Option::Some(clone_bytes(prologue)), ..self }
    }

    /// Assemble the handshake; a configuration must have been recorded.
    pub fn build(self) -> (r: Result<Handshake, ProtocolError>)
        ensures
            (r is Ok) <==> self.config_view() is Some,
            r matches Ok(h) ==> h.initiator_view() == self.initiator_view() && h.peer_key_view()
                == self.peer_key_view() && h.prologue_view() == self.prologue_view(),
            r is Err ==> r == Err::<Handshake, ProtocolError>(ProtocolError::InvalidState),
    {
        match self.config {
            Option::Some(config) => Ok(
                Handshake {
                    config,
                    initiator: self.initiator,
                    peer_public_key: self.peer_public_key,
                    prologue: self.prologue,
                },
            ),
            Option::None => Err(ProtocolError::InvalidState),
        }
    }
}

/// A handshake ready to run.
pub struct Handshake {
    config: Config,
    initiator: bool,
    peer_public_key: Option<Vec<u8>>,
    prologue: Option<Vec<u8>>,
}

impl Handshake {
    /// The role this handshake runs as.
    pub closed spec fn initiator_view(&self) -> bool {
        self.initiator
    }

    /// The peer public key handed to the collaborator.
    pub closed spec fn peer_key_view(&self) -> Option<Seq<u8>> {
        match self.peer_public_key {
            Option::Some(ref k) => Option::Some(k@),
            Option::None => Option::None,
        }
    }

    /// The prologue handed to the collaborator.
    pub closed spec fn prologue_view(&self) -> Option<Seq<u8>> {
        match self.prologue {
            Option::Some(ref p) => Option::Some(p@),
            Option::None => Option::None,
        }
    }

    /// Emit the versioned handshake message for the role and, when the
    /// initiator knows it, the peer's public key.
    pub fn perform(&self) -> (r: Result<Vec<u8>, ProtocolError>)
        ensures
            r is Ok,
            r matches Ok(msg) ==> msg@ == handshake_message(
                self.initiator_view(),
                self.peer_key_view(),
            ),
    {
        let tag: Vec<u8> = vec![72u8, 65u8, 78u8, 68u8, 83u8, 72u8, 65u8, 75u8, 69u8, 95u8, 86u8, 49u8];
        proof {
            assert(tag@ =~= handshake_tag());
        }
        if self.initiator {
            let role: Vec<u8> = vec![95u8, 73u8, 78u8, 73u8, 84u8];
            proof {
                assert(role@ =~= initiator_tag());
            }
            let base = concat_bytes(&tag, &role);
            match &self.peer_public_key {
                Option::Some(pk) => {
                    let msg = concat_bytes(&base, pk);
                    Ok(msg)
                },
                Option::None => Ok(base),
            }
        } else {
            let role: Vec<u8> = vec![95u8, 82u8, 69u8, 83u8, 80u8];
            proof {
                assert(role@ =~= responder_tag());
            }
            Ok(concat_bytes(&tag, &role))
        }
    }
}

} // verus!

//! Durable key store: identity key pair, one-time prekeys and signed prekeys,
//! kept in a dedicated keyspace of the embedded database.

use vstd::prelude::*;
use vstd::bytes::lemma_auto_spec_u64_to_from_le_bytes;
use vstd::bytes::spec_u64_to_le_bytes;
use vstd::bytes::u64_to_le_bytes;

use crate::bytesutil::concat_bytes;
use crate::bytesutil::copy_range;
use crate::chain::clone_bytes;
use crate::codec::read_u64_at;
use crate::errors::ProtocolError;
use crate::primitives::os_random_bytes;
use crate::primitives::x25519_public;
use crate::primitives::x25519_public_of;
use crate::storage::kv_contents;
use crate::storage::tree_get;
use crate::storage::tree_insert;
use crate::storage::tree_remove;
use vstd::string::StringExecFns;

verus! {

/// Long-lived identity key pair: a Curve25519 static secret and its public
/// key, each 32 bytes.
pub struct IdentityKeyPair {
    pub private: Vec<u8>,
    pub public: Vec<u8>,
}

impl IdentityKeyPair {
    /// Both halves are 32 bytes.
    pub open spec fn wf(&self) -> bool {
        self.private@.len() == 32 && self.public@.len() == 32
    }

    /// Generate a fresh identity: random secret bytes and the derived public
    /// key.
    pub fn generate() -> (r: Result<IdentityKeyPair, ProtocolError>)
        ensures
            r matches Ok(k) ==> k.wf() && k.public@ == x25519_public_of(k.private@),
            r is Err ==> r == Err::<IdentityKeyPair, ProtocolError>(ProtocolError::RandomFailed),
    {
        let private = match os_random_bytes(32) {
            Ok(b) => b,
            Err(_) => {
                return Err(ProtocolError::RandomFailed);
            },
        };
        let public = x25519_public(&private);
        Ok(IdentityKeyPair { private, public })
    }

    /// Assemble an identity from its two 32-byte halves.
    pub fn from_bytes(public: &Vec<u8>, secret: &Vec<u8>) -> (r: IdentityKeyPair)
        requires
            public@.len() == 32,
            secret@.len() == 32,
        ensures
            r.wf(),
            r.public@ == public@,
            r.private@ == secret@,
    {
        IdentityKeyPair { private: clone_bytes(secret), public: clone_bytes(public) }
    }
}

/// One-time prekey pair.
pub struct PreKeyPair {
    pub private: Vec<u8>,
    pub public: Vec<u8>,
}

impl PreKeyPair {
    /// Both halves are 32 bytes.
    pub open spec fn wf(&self) -> bool {
        self.private@.len() == 32 && self.public@.len() == 32
    }
}

/// Signed prekey pair: a prekey with a signature over its public key.
pub struct SignedPreKeyPair {
    pub private: Vec<u8>,
    pub public: Vec<u8>,
    pub signature: Vec<u8>,
}

impl SignedPreKeyPair {
    /// The key halves are 32 bytes; the signature length is the signer's
    /// business.
    pub open spec fn wf(&self) -> bool {
        self.private@.len() == 32 && self.public@.len() == 32
    }
}

/// Encoding of a key pair: the private half, then the public half.
pub open spec fn enc_keypair(private: Seq<u8>, public: Seq<u8>) -> Seq<u8> {
    private + public
}

/// Encoding of a signed prekey: both halves, the signature length and the
/// signature.
pub open spec fn enc_signed(private: Seq<u8>, public: Seq<u8>, signature: Seq<u8>) -> Seq<u8> {
    private + public + spec_u64_to_le_bytes(signature.len() as u64) + signature
}

/// Serialize a key pair.
fn encode_keypair(private: &Vec<u8>, public: &Vec<u8>) -> (r: Vec<u8>)
    ensures
        r@ == enc_keypair(private@, public@),
{
    concat_bytes(private, public)
}

/// Restore a key pair; succeeds exactly on 64-byte strings.
fn decode_keypair(data: &Vec<u8>) -> (r: Result<(Vec<u8>, Vec<u8>), ProtocolError>)
    ensures
        r matches Ok(p) ==> p.0@.len() == 32 && p.1@.len() == 32 && data@ == enc_keypair(
            p.0@,
            p.1@,
        ),
        (r is Ok) <==> data@.len() == 64,
        r is Err ==> r == Err::<(Vec<u8>, Vec<u8>), ProtocolError>(ProtocolError::InvalidMessage),
{
    if data.len() != 64 {
        return Err(ProtocolError::InvalidMessage);
    }
    let private = copy_range(data, 0, 32);
    let public = copy_range(data, 32, 64);
    proof {
        assert(data@ =~= private@ + public@);
    }
    Ok((private, public))
}

/// Serialize a signed prekey.
fn encode_signed(private: &Vec<u8>, public: &Vec<u8>, signature: &Vec<u8>) -> (r: Vec<u8>)
    ensures
        r@ == enc_signed(private@, public@, signature@),
{
    let keys = concat_bytes(private, public);
    let len_bytes = u64_to_le_bytes(signature.len() as u64);
    let with_len = concat_bytes(&keys, &len_bytes);
    let out = concat_bytes(&with_len, signature);
    proof {
        assert(out@ =~= enc_signed(private@, public@, signature@));
    }
    out
}

/// Restore a signed prekey; succeeds exactly on strings with both 32-byte
/// halves and a correctly announced signature length.
fn decode_signed(data: &Vec<u8>) -> (r: Result<(Vec<u8>, Vec<u8>, Vec<u8>), ProtocolError>)
    ensures
        r matches Ok(p) ==> p.0@.len() == 32 && p.1@.len() == 32 && data@ == enc_signed(
            p.0@,
            p.1@,
            p.2@,
        ),
        r is Err ==> r == Err::<(Vec<u8>, Vec<u8>, Vec<u8>), ProtocolError>(
            ProtocolError::InvalidMessage,
        ),
{
    let total: usize = data.len();
    if total < 72 {
        return Err(ProtocolError::InvalidMessage);
    }
    let announced = read_u64_at(data, 64);
    if announced != (total - 72) as u64 {
        return Err(ProtocolError::InvalidMessage);
    }
    let private = copy_range(data, 0, 32);
    let public = copy_range(data, 32, 64);
    let signature = copy_range(data, 72, total);
    proof {
        lemma_auto_spec_u64_to_from_le_bytes();
        assert(data@.subrange(64, 72) =~= spec_u64_to_le_bytes(announced));
        assert(data@ =~= private@ + public@ + spec_u64_to_le_bytes(signature@.len() as u64)
            + signature@);
    }
    Ok((private, public, signature))
}

/// Decimal digits of a number, most significant first.
pub open spec fn dec_digits(n: nat) -> Seq<u8>
    decreases n,
{
    if n < 10 {
        seq![(48 + n) as u8]
    } else {
        dec_digits(n / 10).push((48 + n % 10) as u8)
    }
}

/// Append the decimal digits of `id`.
fn push_decimal(out: &mut Vec<u8>, id: u32)
    ensures
        final(out)@ == old(out)@ + dec_digits(id as nat),
    decreases id,
{
    if id < 10 {
        out.push(48 + id as u8);
        proof {
            assert(final(out)@ =~= old(out)@ + dec_digits(id as nat));
        }
    } else {
        push_decimal(out, id / 10);
        out.push(48 + (id % 10) as u8);
        proof {
            assert((id / 10) as nat == (id as nat) / 10) by (nonlinear_arith);
            assert((id % 10) as nat == (id as nat) % 10) by (nonlinear_arith);
            assert(final(out)@ =~= old(out)@ + dec_digits(id as nat));
        }
    }
}

/// ASCII of the identity record's storage key.
pub open spec fn identity_db_key() -> Seq<u8> {
    seq![105u8, 100u8, 101u8, 110u8, 116u8, 105u8, 116u8, 121u8]
}

/// The storage key of prekey `id`: the prekey prefix and the decimal id.
pub open spec fn prekey_db_key(id: u32) -> Seq<u8> {
    seq![112u8, 114u8, 101u8, 107u8, 101u8, 121u8, 58u8] + dec_digits(id as nat)
}

/// The storage key of signed prekey `id`.
pub open spec fn signed_prekey_db_key(id: u32) -> Seq<u8> {
    seq![
        115u8,
        105u8,
        103u8,
        110u8,
        101u8,
        100u8,
        95u8,
        112u8,
        114u8,
        101u8,
        107u8,
        101u8,
        121u8,
        58u8,
    ] + dec_digits(id as nat)
}

/// The identity storage key bytes.
fn identity_db_key_bytes() -> (r: Vec<u8>)
    ensures
        r@ == identity_db_key(),
{
    let r: Vec<u8> = vec![105u8, 100u8, 101u8, 110u8, 116u8, 105u8, 116u8, 121u8];
    proof {
        assert(r@ =~= identity_db_key());
    }
    r
}

/// The prekey storage key bytes for `id`.
fn prekey_db_key_bytes(id: u32) -> (r: Vec<u8>)
    ensures
        r@ == prekey_db_key(id),
{
    let mut r: Vec<u8> = vec![112u8, 114u8, 101u8, 107u8, 101u8, 121u8, 58u8];
    proof {
        assert(r@ =~= seq![112u8, 114u8, 101u8, 107u8, 101u8, 121u8, 58u8]);
    }
    push_decimal(&mut r, id);
    r
}

/// The signed-prekey storage key bytes for `id`.
fn signed_prekey_db_key_bytes(id: u32) -> (r: Vec<u8>)
    ensures
        r@ == signed_prekey_db_key(id),
{
    let mut r: Vec<u8> = vec![
        115u8,
        105u8,
        103u8,
        110u8,
        101u8,
        100u8,
        95u8,
        112u8,
        114u8,
        101u8,
        107u8,
        101u8,
        121u8,
        58u8,
    ];
    proof {
        assert(r@ =~= seq![
            115u8,
            105u8,
            103u8,
            110u8,
            101u8,
            100u8,
            95u8,
            112u8,
            114u8,
            101u8,
            107u8,
            101u8,
            121u8,
            58u8,
        ]);
    }
    push_decimal(&mut r, id);
    r
}

/// Secure key store: the identity key pair and the prekey records, backed by
/// one keyspace of the embedded database.
pub struct KeyStore {
    identity_key: Option<IdentityKeyPair>,
    db: sled::Tree,
}

impl KeyStore {
    /// The identity held in memory, as its (private, public) byte values.
    pub closed spec fn identity_view(&self) -> Option<(Seq<u8>, Seq<u8>)> {
        match self.identity_key {
            Option::Some(ref k) => Option::Some((k.private@, k.public@)),
            Option::None => Option::None,
        }
    }

    /// The stored records.
    pub closed spec fn tree_view(&self) -> Map<Seq<u8>, Seq<u8>> {
        kv_contents(self.db)
    }

    /// A held identity has 32-byte halves.
    pub open spec fn wf(&self) -> bool {
        self.identity_view() matches Some(k) ==> k.0.len() == 32 && k.1.len() == 32
    }

    /// Open a key store over the given keyspace, keeping exactly one identity
    /// per store: a decodable stored identity record is loaded as it is and
    /// the keyspace is untouched — this branch is forced whenever the record
    /// is held, so two opens of one store observe equal identities; only when
    /// no decodable record is held is a fresh pair generated and persisted
    /// under the identity key. A storage read fault surfaces as an error
    /// rather than regenerating over a record that may exist.
    pub fn new(tree: sled::Tree) -> (r: Result<KeyStore, ProtocolError>)
        ensures
            r matches Ok(ks) ==> ks.wf() && (ks.identity_view() matches Some(k) && ({
                ||| (kv_contents(tree).contains_key(identity_db_key()) && enc_keypair(k.0, k.1)
                    == kv_contents(tree)[identity_db_key()] && ks.tree_view() == kv_contents(tree))
                ||| (k.1 == x25519_public_of(k.0) && ks.tree_view() == kv_contents(tree).insert(
                    identity_db_key(),
                    enc_keypair(k.0, k.1),
                ))
            })),
            r matches Ok(ks) ==> ((kv_contents(tree).contains_key(identity_db_key())
                && kv_contents(tree)[identity_db_key()].len() == 64) ==> (ks.identity_view()
                matches Some(k) && enc_keypair(k.0, k.1) == kv_contents(tree)[identity_db_key()]
                && ks.tree_view() == kv_contents(tree))),
            r matches Err(e) ==> (e == ProtocolError::RandomFailed || e matches
                ProtocolError::InternalError(_)),
    {
        let key = identity_db_key_bytes();
        let mut tree = tree;
        let loaded: Option<IdentityKeyPair> = match tree_get(&tree, &key)? {
            Some(bytes) => match decode_keypair(&bytes) {
                Ok((private, public)) => Option::Some(IdentityKeyPair { private, public }),
                Err(_) => Option::None,
            },
            None => Option::None,
        };
        match loaded {
            Option::Some(identity) => Ok(
                KeyStore { identity_key: Option::Some(identity), db: tree },
            ),
            Option::None => {
                let identity = IdentityKeyPair::generate()?;
                let bytes = encode_keypair(&identity.private, &identity.public);
                tree_insert(&mut tree, &key, &bytes)?;
                Ok(KeyStore { identity_key: Option::Some(identity), db: tree })
            },
        }
    }

    /// Install an identity key pair, replacing any held one.
    pub fn set_identity(&mut self, keypair: IdentityKeyPair)
        requires
            keypair.wf(),
        ensures
            final(self).wf() == old(self).wf() || final(self).wf(),
            final(self).identity_view() == Option::Some((keypair.private@, keypair.public@)),
            final(self).tree_view() == old(self).tree_view(),
    {
        self.identity_key = Option::Some(keypair);
    }

    /// A copy of the held identity key pair; fails when none is held.
    pub fn get_identity_keypair(&self) -> (r: Result<IdentityKeyPair, ProtocolError>)
        ensures
            (r is Ok) <==> self.identity_view() is Some,
            r matches Ok(k) ==> self.identity_view() == Option::Some((k.private@, k.public@)),
            r is Err ==> r == Err::<IdentityKeyPair, ProtocolError>(ProtocolError::InvalidState),
    {
        match &self.identity_key {
            Option::Some(k) => Ok(
                IdentityKeyPair {
                    private: clone_bytes(&k.private),
                    public: clone_bytes(&k.public),
                },
            ),
            Option::None => Err(ProtocolError::InvalidState),
        }
    }

    /// Persist a one-time prekey under its id.
    pub fn save_prekey(&mut self, id: u32, keypair: &PreKeyPair) -> (r: Result<(), ProtocolError>)
        ensures
            final(self).identity_view() == old(self).identity_view(),
            final(self).wf() == old(self).wf(),
            r is Ok ==> final(self).tree_view() == old(self).tree_view().insert(
                prekey_db_key(id),
                enc_keypair(keypair.private@, keypair.public@),
            ),
    {
        let bytes = encode_keypair(&keypair.private, &keypair.public);
        let key = prekey_db_key_bytes(id);
        tree_insert(&mut self.db, &key, &bytes)
    }

    /// Fetch the one-time prekey stored under `id`; `KeyNotFound` when absent.
    pub fn get_prekey(&self, id: u32) -> (r: Result<PreKeyPair, ProtocolError>)
        ensures
            r matches Ok(k) ==> k.wf() && self.tree_view().contains_key(prekey_db_key(id))
                && self.tree_view()[prekey_db_key(id)] == enc_keypair(k.private@, k.public@),
            r == Err::<PreKeyPair, ProtocolError>(ProtocolError::KeyNotFound)
                ==> !self.tree_view().contains_key(prekey_db_key(id)),
            !self.tree_view().contains_key(prekey_db_key(id)) ==> (r == Err::<
                PreKeyPair,
                ProtocolError,
            >(ProtocolError::KeyNotFound) || (r matches Err(e) && e matches
                ProtocolError::InternalError(_))),
    {
        let key = prekey_db_key_bytes(id);
        match tree_get(&self.db, &key)? {
            Option::Some(bytes) => {
                let (private, public) = match decode_keypair(&bytes) {
                    Ok(p) => p,
                    Err(_) => {
                        return Err(ProtocolError::InternalError(decode_error_text()));
                    },
                };
                Ok(PreKeyPair { private, public })
            },
            Option::None => Err(ProtocolError::KeyNotFound),
        }
    }

    /// Remove the one-time prekey stored under `id`; removing an absent id
    /// succeeds.
    pub fn remove_prekey(&mut self, id: u32) -> (r: Result<(), ProtocolError>)
        ensures
            final(self).identity_view() == old(self).identity_view(),
            final(self).wf() == old(self).wf(),
            r is Ok ==> final(self).tree_view() == old(self).tree_view().remove(prekey_db_key(id)),
    {
        let key = prekey_db_key_bytes(id);
        tree_remove(&mut self.db, &key)
    }

    /// Persist a signed prekey under its id.
    pub fn save_signed_prekey(&mut self, id: u32, keypair: &SignedPreKeyPair) -> (r: Result<
        (),
        ProtocolError,
    >)
        ensures
            final(self).identity_view() == old(self).identity_view(),
            final(self).wf() == old(self).wf(),
            r is Ok ==> final(self).tree_view() == old(self).tree_view().insert(
                signed_prekey_db_key(id),
                enc_signed(keypair.private@, keypair.public@, keypair.signature@),
            ),
    {
        let bytes = encode_signed(&keypair.private, &keypair.public, &keypair.signature);
        let key = signed_prekey_db_key_bytes(id);
        tree_insert(&mut self.db, &key, &bytes)
    }

    /// Fetch the signed prekey stored under `id`; `KeyNotFound` when absent.
    pub fn get_signed_prekey(&self, id: u32) -> (r: Result<SignedPreKeyPair, ProtocolError>)
        ensures
            r matches Ok(k) ==> k.wf() && self.tree_view().contains_key(signed_prekey_db_key(id))
                && self.tree_view()[signed_prekey_db_key(id)] == enc_signed(
                k.private@,
                k.public@,
                k.signature@,
            ),
            r == Err::<SignedPreKeyPair, ProtocolError>(ProtocolError::KeyNotFound)
                ==> !self.tree_view().contains_key(signed_prekey_db_key(id)),
            !self.tree_view().contains_key(signed_prekey_db_key(id)) ==> (r == Err::<
                SignedPreKeyPair,
                ProtocolError,
            >(ProtocolError::KeyNotFound) || (r matches Err(e) && e matches
                ProtocolError::InternalError(_))),
    {
        let key = signed_prekey_db_key_bytes(id);
        match tree_get(&self.db, &key)? {
            Option::Some(bytes) => {
                let (private, public, signature) = match decode_signed(&bytes) {
                    Ok(p) => p,
                    Err(_) => {
                        return Err(ProtocolError::InternalError(decode_error_text()));
                    },
                };
                Ok(SignedPreKeyPair { private, public, signature })
            },
            Option::None => Err(ProtocolError::KeyNotFound),
        }
    }
}

/// Message of a record that could not be restored from storage.
fn decode_error_text() -> (r: String) {
    String::from_str("Deserialization failed")
}

} // verus!

//! Secure messaging kernel: Double Ratchet sessions with durable state.

mod aead;
mod bytesutil;
mod chain;
mod codec;
mod encryptor;
mod errors;
mod ffi;
mod handshake;
mod kdf;
mod keystore;
mod primitives;
mod random;
mod session;
mod state;
mod storage;

pub use aead::CryptoHandler;
pub use aead::CHACHA20_NONCE_LENGTH;
pub use aead::MAX_PLAINTEXT_LENGTH;
pub use aead::KEY_LENGTH;
pub use aead::NONCE_LENGTH;
pub use aead::TAG_LENGTH;
pub use chain::ChainKey;
pub use encryptor::Encryptor;
pub use errors::CryptoError;
pub use errors::ProtocolError;
pub use ffi::ConfigFFI;
pub use ffi::FFIError;
pub use handshake::Handshake;
pub use handshake::HandshakeBuilder;
pub use kdf::hkdf_expand;
pub use kdf::hkdf_extract;
pub use keystore::IdentityKeyPair;
pub use keystore::KeyStore;
pub use keystore::PreKeyPair;
pub use keystore::SignedPreKeyPair;
pub use random::SecureRandom;
pub use session::DoubleRatchetSession;
pub use state::DoubleRatchetState;
pub use state::RatchetView;
pub use state::SkippedKey;

use chain::clone_bytes;
use codec::encode_state;
use session::decrypt_rel;
use session::encrypt_output;
use session::encrypt_post;
use session::fresh_view;
use storage::db_open;
use storage::db_open_tree;
use storage::kv_contents;
use storage::tree_flush;
use storage::tree_get;
use storage::tree_insert;
use storage::tree_remove;

use vstd::prelude::*;

verus! {

/// System configuration.
#[derive(Clone, Copy, Debug, PartialEq, Eq, Structural)]
pub struct Config {
    /// Require a chain advance on every message.
    pub enable_forward_secrecy: bool,
    /// Require a DH ratchet step on every received key change.
    pub enable_post_compromise_security: bool,
    /// Upper bound on cached skipped message keys.
    pub max_skipped_messages: usize,
    /// Advisory signed-prekey rotation interval, in seconds.
    pub key_rotation_interval: u64,
    /// Timeout handed to the handshake collaborator, in seconds.
    pub handshake_timeout: u64,
    /// Advisory buffer sizing for callers.
    pub message_buffer_size: usize,
}

impl Default for Config {
    /// The default configuration.
    fn default() -> (r: Config)
        ensures
            r.enable_forward_secrecy,
            r.enable_post_compromise_security,
            r.max_skipped_messages == 2000,
            r.key_rotation_interval == 86400,
            r.handshake_timeout == 30,
            r.message_buffer_size == 1024,
    {
        Config {
            enable_forward_secrecy: true,
            enable_post_compromise_security: true,
            max_skipped_messages: 2000,
            key_rotation_interval: 86400,
            handshake_timeout: 30,
            message_buffer_size: 1024,
        }
    }
}

/// Whether the cache holds a session for the peer.
pub open spec fn cache_has(c: Seq<(Seq<u8>, RatchetView)>, id: Seq<u8>) -> bool {
    exists|i: int| 0 <= i < c.len() && (#[trigger] c[i]).0 == id
}

/// The session state cached for the peer.
pub open spec fn cache_at(c: Seq<(Seq<u8>, RatchetView)>, id: Seq<u8>) -> RatchetView {
    c[choose|i: int| 0 <= i < c.len() && (#[trigger] c[i]).0 == id].1
}

/// Peer identifiers in the cache are pairwise distinct.
pub open spec fn cache_keys_unique(c: Seq<(Seq<u8>, RatchetView)>) -> bool {
    forall|i: int, j: int| 0 <= i < j < c.len() ==> (#[trigger] c[i]).0 != (#[trigger] c[j]).0
}

/// The caller-supplied associated data, or empty when none was supplied.
pub open spec fn opt_ad(o: Option<&Vec<u8>>) -> Seq<u8> {
    match o {
        Option::Some(a) => a@,
        Option::None => Seq::<u8>::empty(),
    }
}

/// What a successful managed encrypt guarantees: some well-formed session
/// state (the cached one, when the session was cached) produced the message
/// under a fresh nonce; the cache now holds the advanced state; and the store
/// maps the peer to the advanced state's encoding.
pub open spec fn manager_encrypt_ok(
    c0: Seq<(Seq<u8>, RatchetView)>,
    t0: Map<Seq<u8>, Seq<u8>>,
    c1: Seq<(Seq<u8>, RatchetView)>,
    t1: Map<Seq<u8>, Seq<u8>>,
    id: Seq<u8>,
    ad: Seq<u8>,
    pt: Seq<u8>,
    ct: Seq<u8>,
) -> bool {
    exists|v: RatchetView, nonce: Seq<u8>|
        {
            &&& nonce.len() == 12
            &&& v.wf()
            &&& (cache_has(c0, id) ==> v == cache_at(c0, id))
            &&& (!cache_has(c0, id) ==> t0.contains_key(id) && encode_state(v) == t0[id])
            &&& ct == encrypt_output(v, ad, pt, nonce)
            &&& cache_has(c1, id)
            &&& cache_at(c1, id) == encrypt_post(v)
            &&& t1 == t0.insert(id, encode_state(encrypt_post(v)))
        }
}

/// What a successful managed decrypt guarantees: some well-formed pre state
/// (the cached one, when the session was cached) and post state related by the
/// decrypt relation; the cache now holds the post state; and the store maps
/// the peer to its encoding.
pub open spec fn manager_decrypt_ok(
    c0: Seq<(Seq<u8>, RatchetView)>,
    t0: Map<Seq<u8>, Seq<u8>>,
    c1: Seq<(Seq<u8>, RatchetView)>,
    t1: Map<Seq<u8>, Seq<u8>>,
    id: Seq<u8>,
    ad: Seq<u8>,
    m: Seq<u8>,
    pt: Seq<u8>,
) -> bool {
    exists|v: RatchetView, v2: RatchetView|
        {
            &&& v.wf()
            &&& v2.wf()
            &&& (cache_has(c0, id) ==> v == cache_at(c0, id))
            &&& (!cache_has(c0, id) ==> t0.contains_key(id) && encode_state(v) == t0[id])
            &&& decrypt_rel(v, v2, m, ad, pt)
            &&& cache_has(c1, id)
            &&& cache_at(c1, id) == v2
            &&& t1 == t0.insert(id, encode_state(v2))
        }
}

/// With distinct keys, the cached state for a peer is the one at any position
/// that carries the peer's identifier.
proof fn lemma_cache_at(c: Seq<(Seq<u8>, RatchetView)>, id: Seq<u8>, j: int)
    requires
        cache_keys_unique(c),
        0 <= j < c.len(),
        c[j].0 == id,
    ensures
        cache_has(c, id),
        cache_at(c, id) == c[j].1,
{
    assert(cache_has(c, id));
    let k = choose|i: int| 0 <= i < c.len() && (#[trigger] c[i]).0 == id;
    if k < j {
        assert(c[k].0 != c[j].0);
    }
    if j < k {
        assert(c[j].0 != c[k].0);
    }
}

/// Every peer other than `id` keeps its cached session: cached before exactly
/// when cached after, and with the same state.
pub open spec fn others_preserved(
    c0: Seq<(Seq<u8>, RatchetView)>,
    c1: Seq<(Seq<u8>, RatchetView)>,
    id: Seq<u8>,
) -> bool {
    forall|id2: Seq<u8>|
        id2 != id ==> ((#[trigger] cache_has(c1, id2) <==> cache_has(c0, id2)) && (cache_has(
            c0,
            id2,
        ) ==> cache_at(c1, id2) == cache_at(c0, id2)))
}

/// Dropping one cached session keeps the keys distinct and leaves every other
/// peer's cached session untouched.
proof fn lemma_cache_remove_preserves_others(c0: Seq<(Seq<u8>, RatchetView)>, j: int)
    requires
        cache_keys_unique(c0),
        0 <= j < c0.len(),
    ensures
        cache_keys_unique(c0.remove(j)),
        others_preserved(c0, c0.remove(j), c0[j].0),
{
    let dropped = c0.remove(j);
    assert forall|a: int, b: int| 0 <= a < b < dropped.len() implies (#[trigger] dropped[a]).0 != (
    #[trigger] dropped[b]).0 by {
        let fa: int = if a < j {
            a
        } else {
            a + 1
        };
        let fb: int = if b < j {
            b
        } else {
            b + 1
        };
        assert(dropped[a] == c0[fa] && dropped[b] == c0[fb]);
    }
    assert forall|id2: Seq<u8>| id2 != c0[j].0 implies ((#[trigger] cache_has(dropped, id2)
        <==> cache_has(c0, id2)) && (cache_has(c0, id2) ==> cache_at(dropped, id2) == cache_at(
        c0,
        id2,
    ))) by {
        if cache_has(c0, id2) {
            let k = choose|i: int| 0 <= i < c0.len() && (#[trigger] c0[i]).0 == id2;
            assert(k != j);
            let bk: int = if k < j {
                k
            } else {
                k - 1
            };
            assert(dropped[bk] == c0[k]);
            lemma_cache_at(c0, id2, k);
            lemma_cache_at(dropped, id2, bk);
        }
        if cache_has(dropped, id2) {
            let k = choose|i: int| 0 <= i < dropped.len() && (#[trigger] dropped[i]).0 == id2;
            let fk: int = if k < j {
                k
            } else {
                k + 1
            };
            assert(dropped[k] == c0[fk]);
        }
    }
}

/// Preservation of other peers' sessions composes across two steps.
proof fn lemma_others_trans(
    c0: Seq<(Seq<u8>, RatchetView)>,
    c1: Seq<(Seq<u8>, RatchetView)>,
    c2: Seq<(Seq<u8>, RatchetView)>,
    id: Seq<u8>,
)
    requires
        others_preserved(c0, c1, id),
        others_preserved(c1, c2, id),
    ensures
        others_preserved(c0, c2, id),
{
    assert forall|id2: Seq<u8>| id2 != id implies ((#[trigger] cache_has(c2, id2) <==> cache_has(
        c0,
        id2,
    )) && (cache_has(c0, id2) ==> cache_at(c2, id2) == cache_at(c0, id2))) by {
        assert(cache_has(c1, id2) <==> cache_has(c0, id2));
        assert(cache_has(c2, id2) <==> cache_has(c1, id2));
    }
}

/// Appending a session for a peer not yet cached keeps the keys distinct and
/// leaves every other peer's cached session untouched.
proof fn lemma_cache_push_preserves_others(c0: Seq<(Seq<u8>, RatchetView)>, e: (Seq<u8>, RatchetView))
    requires
        cache_keys_unique(c0),
        !cache_has(c0, e.0),
    ensures
        cache_keys_unique(c0.push(e)),
        forall|id2: Seq<u8>|
            id2 != e.0 ==> (cache_has(c0.push(e), id2) <==> cache_has(c0, id2)),
        forall|id2: Seq<u8>|
            id2 != e.0 && cache_has(c0, id2) ==> cache_at(c0.push(e), id2) == cache_at(c0, id2),
{
    let c1 = c0.push(e);
    assert forall|a: int, b: int| 0 <= a < b < c1.len() implies (#[trigger] c1[a]).0 != (
    #[trigger] c1[b]).0 by {
        if b == c0.len() as int {
            assert(c1[a] == c0[a]);
            if c0[a].0 == e.0 {
                assert(cache_has(c0, e.0));
            }
        } else {
            assert(c1[a] == c0[a] && c1[b] == c0[b]);
        }
    }
    assert forall|id2: Seq<u8>| id2 != e.0 implies (cache_has(c1, id2) <==> cache_has(
        c0,
        id2,
    )) by {
        if cache_has(c0, id2) {
            let k = choose|i: int| 0 <= i < c0.len() && (#[trigger] c0[i]).0 == id2;
            assert(c1[k].0 == id2);
        }
        if cache_has(c1, id2) {
            let k = choose|i: int| 0 <= i < c1.len() && (#[trigger] c1[i]).0 == id2;
            assert(k < c0.len());
            assert(c0[k].0 == id2);
        }
    }
    assert forall|id2: Seq<u8>| id2 != e.0 && cache_has(c0, id2) implies cache_at(c1, id2)
        == cache_at(c0, id2) by {
        let k = choose|i: int| 0 <= i < c0.len() && (#[trigger] c0[i]).0 == id2;
        lemma_cache_at(c0, id2, k);
        lemma_cache_at(c1, id2, k);
    }
}

/// Replacing the session cached for a peer keeps the keys distinct and leaves
/// every other peer's cached session untouched.
proof fn lemma_cache_replace_preserves_others(
    c0: Seq<(Seq<u8>, RatchetView)>,
    j: int,
    e: (Seq<u8>, RatchetView),
)
    requires
        cache_keys_unique(c0),
        0 <= j < c0.len(),
        c0[j].0 == e.0,
    ensures
        cache_keys_unique(c0.remove(j).push(e)),
        forall|id2: Seq<u8>|
            id2 != e.0 ==> (cache_has(c0.remove(j).push(e), id2) <==> cache_has(c0, id2)),
        forall|id2: Seq<u8>|
            id2 != e.0 && cache_has(c0, id2) ==> cache_at(c0.remove(j).push(e), id2) == cache_at(
                c0,
                id2,
            ),
{
    let dropped = c0.remove(j);
    assert forall|a: int, b: int| 0 <= a < b < dropped.len() implies (#[trigger] dropped[a]).0 != (
    #[trigger] dropped[b]).0 by {
        let fa: int = if a < j {
            a
        } else {
            a + 1
        };
        let fb: int = if b < j {
            b
        } else {
            b + 1
        };
        assert(dropped[a] == c0[fa] && dropped[b] == c0[fb]);
    }
    assert(!cache_has(dropped, e.0)) by {
        if cache_has(dropped, e.0) {
            let k = choose|i: int| 0 <= i < dropped.len() && (#[trigger] dropped[i]).0 == e.0;
            let fk: int = if k < j {
                k
            } else {
                k + 1
            };
            assert(dropped[k] == c0[fk]);
            assert(c0[fk].0 == c0[j].0 && fk != j);
            assert(false);
        }
    }
    lemma_cache_push_preserves_others(dropped, e);
    assert forall|id2: Seq<u8>| id2 != e.0 implies (cache_has(dropped, id2) <==> cache_has(
        c0,
        id2,
    )) by {
        if cache_has(c0, id2) {
            let k = choose|i: int| 0 <= i < c0.len() && (#[trigger] c0[i]).0 == id2;
            assert(k != j);
            let bk: int = if k < j {
                k
            } else {
                k - 1
            };
            assert(dropped[bk] == c0[k]);
        }
        if cache_has(dropped, id2) {
            let k = choose|i: int| 0 <= i < dropped.len() && (#[trigger] dropped[i]).0 == id2;
            let fk: int = if k < j {
                k
            } else {
                k + 1
            };
            assert(dropped[k] == c0[fk]);
        }
    }
    assert forall|id2: Seq<u8>| id2 != e.0 && cache_has(c0, id2) implies cache_at(
        dropped.push(e),
        id2,
    ) == cache_at(c0, id2) by {
        let k = choose|i: int| 0 <= i < c0.len() && (#[trigger] c0[i]).0 == id2;
        assert(k != j);
        let bk: int = if k < j {
            k
        } else {
            k - 1
        };
        assert(dropped[bk] == c0[k]);
        lemma_cache_at(c0, id2, k);
        lemma_cache_at(dropped.push(e), id2, bk);
        assert(dropped.push(e)[bk] == dropped[bk]);
    }
}

/// Session manager: the in-memory session cache and the durable session
/// keyspace.
pub struct SessionManager {
    sessions: Vec<(Vec<u8>, DoubleRatchetSession)>,
    db: sled::Tree,
    config: Config,
}

impl SessionManager {
    /// The cached sessions, as peer identifier and state value pairs.
    pub closed spec fn cache_view(&self) -> Seq<(Seq<u8>, RatchetView)> {
        Seq::new(
            self.sessions@.len(),
            |i: int| (self.sessions@[i].0@, self.sessions@[i].1@),
        )
    }

    /// The persisted session records.
    pub closed spec fn tree_view(&self) -> Map<Seq<u8>, Seq<u8>> {
        kv_contents(self.db)
    }

    /// The configuration sessions are restored with.
    pub closed spec fn config_view(&self) -> Config {
        self.config
    }

    /// Every cached session is well-formed and cached at most once.
    pub open spec fn wf(&self) -> bool {
        &&& (forall|i: int|
            0 <= i < self.cache_view().len() ==> (#[trigger] self.cache_view()[i]).1.wf())
        &&& cache_keys_unique(self.cache_view())
    }

    /// Open a manager over the sessions keyspace of the database.
    pub fn new(config: Config, db: &sled::Db) -> (r: Result<SessionManager, ProtocolError>)
        ensures
            r matches Ok(m) ==> m.wf() && m.cache_view().len() == 0 && m.config_view() == config,
    {
        let tree = db_open_tree(db, "sessions")?;
        Ok(SessionManager { sessions: Vec::new(), db: tree, config })
    }

    /// The cache position of the peer's session, if cached.
    fn find_session(&self, session_id: &Vec<u8>) -> (r: Option<usize>)
        ensures
            r matches Some(j) ==> (j as int) < self.cache_view().len() && self.cache_view()[
                j as int
            ].0 == session_id@,
            r is None ==> !cache_has(self.cache_view(), session_id@),
    {
        let mut i: usize = 0;
        while i < self.sessions.len()
            invariant
                i <= self.sessions@.len(),
                forall|j: int| 0 <= j < i ==> (#[trigger] self.cache_view()[j]).0 != session_id@,
            decreases self.sessions@.len() - i,
        {
            if bytesutil::vec_eq(&self.sessions[i].0, session_id) {
                proof {
                    assert(self.cache_view()[i as int].0 == session_id@);
                }
                return Some(i);
            }
            proof {
                assert(self.cache_view()[i as int].0 != session_id@);
            }
            i = i + 1;
        }
        None
    }

    /// Construct a fresh session for the peer, persist its initial state and
    /// cache it, replacing any session cached for the same peer.
    pub fn create_session(&mut self, peer_id: &Vec<u8>, config: Config) -> (r: Result<
        SessionHandle,
        ProtocolError,
    >)
        requires
            old(self).wf(),
        ensures
            final(self).wf(),
            final(self).config_view() == old(self).config_view(),
            r matches Ok(h) ==> h.peer_id_view() == peer_id@ && (exists|sk: Seq<u8>|
                sk.len() == 32 && ({
                    let v = fresh_view(sk, config.max_skipped_messages as u64);
                    &&& cache_has(final(self).cache_view(), peer_id@)
                    &&& cache_at(final(self).cache_view(), peer_id@) == v
                    &&& final(self).tree_view() == old(self).tree_view().insert(
                        peer_id@,
                        encode_state(v),
                    )
                })),
            others_preserved(old(self).cache_view(), final(self).cache_view(), peer_id@),
    {
        let session = DoubleRatchetSession::new(config)?;
        let bytes = match session.serialize_state() {
            Ok(b) => b,
            Err(e) => {
                proof {
                    assert(false);
                }
                return Err(e);
            },
        };
        tree_insert(&mut self.db, peer_id, &bytes)?;
        match self.find_session(peer_id) {
            Some(j) => {
                let ghost before = self.cache_view();
                self.sessions.remove(j);
                proof {
                    assert(self.cache_view() =~= before.remove(j as int));
                    lemma_cache_remove_preserves_others(before, j as int);
                    assert forall|i: int|
                        0 <= i < self.cache_view().len() implies (#[trigger] self.cache_view()[
                        i
                    ]).0 != peer_id@ by {
                        if i < j as int {
                            assert(before[i].0 != before[j as int].0);
                        } else {
                            assert(before[i + 1].0 != before[j as int].0);
                        }
                    }
                }
            },
            None => {},
        }
        let ghost mid = self.cache_view();
        proof {
            assert(others_preserved(old(self).cache_view(), mid, peer_id@));
        }
        self.sessions.push((clone_bytes(peer_id), session));
        proof {
            assert(!cache_has(mid, peer_id@));
            assert(self.cache_view() =~= mid.push((peer_id@, session@)));
            lemma_cache_at(self.cache_view(), peer_id@, mid.len() as int);
            lemma_cache_push_preserves_others(mid, (peer_id@, session@));
            lemma_others_trans(old(self).cache_view(), mid, self.cache_view(), peer_id@);
        }
        Ok(SessionHandle { peer_id: clone_bytes(peer_id) })
    }

    /// Make sure the peer's session is cached: a cache hit is kept as it is; a
    /// miss restores the session from storage. `SessionNotFound` when neither
    /// holds one.
    fn ensure_cached(&mut self, session_id: &Vec<u8>) -> (r: Result<(), ProtocolError>)
        requires
            old(self).wf(),
        ensures
            final(self).wf(),
            final(self).config_view() == old(self).config_view(),
            final(self).tree_view() == old(self).tree_view(),
            r is Ok ==> cache_has(final(self).cache_view(), session_id@),
            cache_has(old(self).cache_view(), session_id@) ==> r is Ok && final(self).cache_view()
                == old(self).cache_view(),
            (!cache_has(old(self).cache_view(), session_id@) && r is Ok) ==> old(
                self,
            ).tree_view().contains_key(session_id@) && encode_state(
                cache_at(final(self).cache_view(), session_id@),
            ) == old(self).tree_view()[session_id@],
            r == Err::<(), ProtocolError>(ProtocolError::SessionNotFound) ==> !cache_has(
                old(self).cache_view(),
                session_id@,
            ) && !old(self).tree_view().contains_key(session_id@),
            r matches Err(e) ==> (e == ProtocolError::SessionNotFound || e
                == ProtocolError::InvalidMessage || e == ProtocolError::RandomFailed || e matches
                ProtocolError::InternalError(_)),
            r is Err ==> final(self).cache_view() == old(self).cache_view(),
            others_preserved(old(self).cache_view(), final(self).cache_view(), session_id@),
    {
        match self.find_session(session_id) {
            Some(j) => {
                proof {
                    lemma_cache_at(self.cache_view(), session_id@, j as int);
                }
                return Ok(());
            },
            None => {},
        }
        match tree_get(&self.db, session_id)? {
            Some(bytes) => {
                let mut session = DoubleRatchetSession::new(self.config)?;
                session.deserialize_state(&bytes)?;
                let ghost mid = self.cache_view();
                self.sessions.push((clone_bytes(session_id), session));
                proof {
                    assert(self.cache_view() =~= mid.push((session_id@, session@)));
                    lemma_cache_at(self.cache_view(), session_id@, mid.len() as int);
                    lemma_cache_push_preserves_others(mid, (session_id@, session@));
                }
                Ok(())
            },
            None => Err(ProtocolError::SessionNotFound),
        }
    }

    /// A handle for the peer's session, restoring it from storage on a cache
    /// miss.
    pub fn get_session(&mut self, session_id: &Vec<u8>) -> (r: Result<
        SessionHandle,
        ProtocolError,
    >)
        requires
            old(self).wf(),
        ensures
            final(self).wf(),
            final(self).config_view() == old(self).config_view(),
            final(self).tree_view() == old(self).tree_view(),
            r matches Ok(h) ==> h.peer_id_view() == session_id@ && cache_has(
                final(self).cache_view(),
                session_id@,
            ),
            cache_has(old(self).cache_view(), session_id@) ==> r is Ok && final(self).cache_view()
                == old(self).cache_view(),
            (!cache_has(old(self).cache_view(), session_id@) && r is Ok) ==> old(
                self,
            ).tree_view().contains_key(session_id@) && encode_state(
                cache_at(final(self).cache_view(), session_id@),
            ) == old(self).tree_view()[session_id@],
            r == Err::<SessionHandle, ProtocolError>(ProtocolError::SessionNotFound)
                ==> !cache_has(old(self).cache_view(), session_id@) && !old(
                self,
            ).tree_view().contains_key(session_id@),
            r matches Err(e) ==> (e == ProtocolError::SessionNotFound || e
                == ProtocolError::InvalidMessage || e == ProtocolError::RandomFailed || e matches
                ProtocolError::InternalError(_)),
            others_preserved(old(self).cache_view(), final(self).cache_view(), session_id@),
    {
        self.ensure_cached(session_id)?;
        Ok(SessionHandle { peer_id: clone_bytes(session_id) })
    }

    /// Serialize the session's state and write it under the peer identifier,
    /// flushed to disk before returning success.
    pub fn save_session(&mut self, peer_id: &Vec<u8>, session: &DoubleRatchetSession) -> (r: Result<
        (),
        ProtocolError,
    >)
        requires
            old(self).wf(),
            session.wf(),
        ensures
            final(self).wf(),
            final(self).config_view() == old(self).config_view(),
            final(self).cache_view() == old(self).cache_view(),
            r is Ok ==> final(self).tree_view() == old(self).tree_view().insert(
                peer_id@,
                encode_state(session@),
            ),
            r matches Err(e) ==> e matches ProtocolError::InternalError(_),
    {
        let bytes = match session.serialize_state() {
            Ok(b) => b,
            Err(e) => {
                proof {
                    assert(false);
                }
                return Err(e);
            },
        };
        tree_insert(&mut self.db, peer_id, &bytes)?;
        tree_flush(&self.db)?;
        Ok(())
    }

    /// Evict the peer's session from the cache and from storage; reports
    /// whether it was cached. The cache entry is gone either way; a storage
    /// failure surfaces, and on success the stored record is gone too, so a
    /// later lookup finds nothing.
    pub fn remove_session(&mut self, session_id: &Vec<u8>) -> (r: Result<bool, ProtocolError>)
        requires
            old(self).wf(),
        ensures
            final(self).wf(),
            final(self).config_view() == old(self).config_view(),
            !cache_has(final(self).cache_view(), session_id@),
            r matches Ok(b) ==> b == cache_has(old(self).cache_view(), session_id@)
                && final(self).tree_view() == old(self).tree_view().remove(session_id@),
            r matches Err(e) ==> e matches ProtocolError::InternalError(_),
            others_preserved(old(self).cache_view(), final(self).cache_view(), session_id@),
    {
        let found = match self.find_session(session_id) {
            Some(j) => {
                proof {
                    lemma_cache_at(old(self).cache_view(), session_id@, j as int);
                }
                let ghost before = self.cache_view();
                self.sessions.remove(j);
                proof {
                    assert(self.cache_view() =~= before.remove(j as int));
                    lemma_cache_remove_preserves_others(before, j as int);
                    assert forall|i: int|
                        0 <= i < self.cache_view().len() implies (#[trigger] self.cache_view()[
                        i
                    ]).0 != session_id@ by {
                        if i < j as int {
                            assert(before[i].0 != before[j as int].0);
                        } else {
                            assert(before[i + 1].0 != before[j as int].0);
                        }
                    }
                }
                true
            },
            None => false,
        };
        tree_remove(&mut self.db, session_id)?;
        Ok(found)
    }

    /// Encrypt on the peer's session and persist the advanced state before
    /// returning the message.
    pub(crate) fn encrypt_in(
        &mut self,
        session_id: &Vec<u8>,
        plaintext: &Vec<u8>,
        associated_data: &Vec<u8>,
    ) -> (r: Result<Vec<u8>, ProtocolError>)
        requires
            old(self).wf(),
        ensures
            final(self).wf(),
            final(self).config_view() == old(self).config_view(),
            r matches Ok(ct) ==> manager_encrypt_ok(
                old(self).cache_view(),
                old(self).tree_view(),
                final(self).cache_view(),
                final(self).tree_view(),
                session_id@,
                associated_data@,
                plaintext@,
                ct@,
            ),
            r == Err::<Vec<u8>, ProtocolError>(ProtocolError::SessionNotFound) ==> !cache_has(
                old(self).cache_view(),
                session_id@,
            ) && !old(self).tree_view().contains_key(session_id@),
            cache_has(old(self).cache_view(), session_id@) ==> ((r == Err::<Vec<u8>, ProtocolError>(
                ProtocolError::InvalidState,
            )) <==> (cache_at(old(self).cache_view(), session_id@).sending is None || cache_at(
                old(self).cache_view(),
                session_id@,
            ).dh_local is None)),
            cache_at(old(self).cache_view(), session_id@).sending matches Some(sc) ==> ((cache_has(
                old(self).cache_view(),
                session_id@,
            ) && sc.1 < u64::MAX && cache_at(old(self).cache_view(), session_id@).dh_local is Some
                && plaintext@.len() < crate::aead::MAX_PLAINTEXT_LENGTH) ==> (r is Ok || r == Err::<
                Vec<u8>,
                ProtocolError,
            >(ProtocolError::RandomFailed) || (r matches Err(e) && e matches
                ProtocolError::InternalError(_)))),
            r matches Err(e) ==> (e == ProtocolError::SessionNotFound || e
                == ProtocolError::InvalidMessage || e == ProtocolError::InvalidState || e
                == ProtocolError::EncryptionFailed || e == ProtocolError::RandomFailed || e matches
                ProtocolError::InternalError(_)),
            others_preserved(old(self).cache_view(), final(self).cache_view(), session_id@),
    {
        self.ensure_cached(session_id)?;
        let j = match self.find_session(session_id) {
            Some(j) => j,
            None => {
                proof {
                    assert(false);
                }
                return Err(ProtocolError::SessionNotFound);
            },
        };
        proof {
            lemma_cache_at(self.cache_view(), session_id@, j as int);
        }
        let ghost cache_mid = self.cache_view();
        let (key, mut session) = self.sessions.remove(j);
        proof {
            assert(self.cache_view() =~= cache_mid.remove(j as int));
            assert forall|i: int|
                0 <= i < self.cache_view().len() implies (#[trigger] self.cache_view()[i]).0
                != session_id@ by {
                if i < j as int {
                    assert(cache_mid[i].0 != cache_mid[j as int].0);
                } else {
                    assert(cache_mid[i + 1].0 != cache_mid[j as int].0);
                }
            }
        }
        let res = session.encrypt(plaintext, associated_data);
        match res {
            Ok(ct) => {
                let bytes = match session.serialize_state() {
                    Ok(b) => b,
                    Err(e) => {
                        proof {
                            assert(false);
                        }
                        return Err(e);
                    },
                };
                let ins = tree_insert(&mut self.db, session_id, &bytes);
                let ghost before_push = self.cache_view();
                self.sessions.push((key, session));
                proof {
                    assert(self.cache_view() =~= before_push.push((session_id@, session@)));
                    lemma_cache_at(self.cache_view(), session_id@, before_push.len() as int);
                    assert(others_preserved(old(self).cache_view(), cache_mid, session_id@));
                    lemma_cache_replace_preserves_others(
                        cache_mid,
                        j as int,
                        (session_id@, session@),
                    );
                    assert(self.cache_view() =~= cache_mid.remove(j as int).push(
                        (session_id@, session@),
                    ));
                    lemma_others_trans(
                        old(self).cache_view(),
                        cache_mid,
                        self.cache_view(),
                        session_id@,
                    );
                }
                match ins {
                    Ok(u) => {
                        tree_flush(&self.db)?;
                        Ok(ct)
                    },
                    Err(e) => Err(e),
                }
            },
            Err(e) => {
                let ghost before_push = self.cache_view();
                self.sessions.push((key, session));
                proof {
                    assert(self.cache_view() =~= before_push.push((session_id@, session@)));
                    assert(others_preserved(old(self).cache_view(), cache_mid, session_id@));
                    lemma_cache_replace_preserves_others(
                        cache_mid,
                        j as int,
                        (session_id@, session@),
                    );
                    assert(self.cache_view() =~= cache_mid.remove(j as int).push(
                        (session_id@, session@),
                    ));
                    lemma_others_trans(
                        old(self).cache_view(),
                        cache_mid,
                        self.cache_view(),
                        session_id@,
                    );
                }
                Err(e)
            },
        }
    }

    /// Decrypt on the peer's session and persist the advanced state before
    /// returning the plaintext.
    pub(crate) fn decrypt_in(
        &mut self,
        session_id: &Vec<u8>,
        message: &Vec<u8>,
        associated_data: &Vec<u8>,
    ) -> (r: Result<Vec<u8>, ProtocolError>)
        requires
            old(self).wf(),
        ensures
            final(self).wf(),
            final(self).config_view() == old(self).config_view(),
            r matches Ok(pt) ==> manager_decrypt_ok(
                old(self).cache_view(),
                old(self).tree_view(),
                final(self).cache_view(),
                final(self).tree_view(),
                session_id@,
                associated_data@,
                message@,
                pt@,
            ),
            r == Err::<Vec<u8>, ProtocolError>(ProtocolError::SessionNotFound) ==> !cache_has(
                old(self).cache_view(),
                session_id@,
            ) && !old(self).tree_view().contains_key(session_id@),
            (cache_has(old(self).cache_view(), session_id@) && message@.len() < 48) ==> r == Err::<
                Vec<u8>,
                ProtocolError,
            >(ProtocolError::InvalidMessage),
            (cache_has(old(self).cache_view(), session_id@) && message@.len() >= 48
                && message@.len() < 60) ==> r == Err::<Vec<u8>, ProtocolError>(
                ProtocolError::DecryptionFailed,
            ),
            r matches Err(e) ==> (e == ProtocolError::SessionNotFound || e
                == ProtocolError::InvalidMessage || e == ProtocolError::InvalidState || e
                == ProtocolError::DecryptionFailed || e == ProtocolError::RandomFailed || e matches
                ProtocolError::InternalError(_)),
            others_preserved(old(self).cache_view(), final(self).cache_view(), session_id@),
    {
        self.ensure_cached(session_id)?;
        let j = match self.find_session(session_id) {
            Some(j) => j,
            None => {
                proof {
                    assert(false);
                }
                return Err(ProtocolError::SessionNotFound);
            },
        };
        proof {
            lemma_cache_at(self.cache_view(), session_id@, j as int);
        }
        let ghost cache_mid = self.cache_view();
        let (key, mut session) = self.sessions.remove(j);
        proof {
            assert(self.cache_view() =~= cache_mid.remove(j as int));
            assert forall|i: int|
                0 <= i < self.cache_view().len() implies (#[trigger] self.cache_view()[i]).0
                != session_id@ by {
                if i < j as int {
                    assert(cache_mid[i].0 != cache_mid[j as int].0);
                } else {
                    assert(cache_mid[i + 1].0 != cache_mid[j as int].0);
                }
            }
        }
        let res = session.decrypt(message, associated_data);
        match res {
            Ok(pt) => {
                let bytes = match session.serialize_state() {
                    Ok(b) => b,
                    Err(e) => {
                        proof {
                            assert(false);
                        }
                        return Err(e);
                    },
                };
                let ins = tree_insert(&mut self.db, session_id, &bytes);
                let ghost before_push = self.cache_view();
                self.sessions.push((key, session));
                proof {
                    assert(self.cache_view() =~= before_push.push((session_id@, session@)));
                    lemma_cache_at(self.cache_view(), session_id@, before_push.len() as int);
                    assert(others_preserved(old(self).cache_view(), cache_mid, session_id@));
                    lemma_cache_replace_preserves_others(
                        cache_mid,
                        j as int,
                        (session_id@, session@),
                    );
                    assert(self.cache_view() =~= cache_mid.remove(j as int).push(
                        (session_id@, session@),
                    ));
                    lemma_others_trans(
                        old(self).cache_view(),
                        cache_mid,
                        self.cache_view(),
                        session_id@,
                    );
                }
                match ins {
                    Ok(u) => {
                        tree_flush(&self.db)?;
                        Ok(pt)
                    },
                    Err(e) => Err(e),
                }
            },
            Err(e) => {
                let ghost before_push = self.cache_view();
                self.sessions.push((key, session));
                proof {
                    assert(self.cache_view() =~= before_push.push((session_id@, session@)));
                    assert(others_preserved(old(self).cache_view(), cache_mid, session_id@));
                    lemma_cache_replace_preserves_others(
                        cache_mid,
                        j as int,
                        (session_id@, session@),
                    );
                    assert(self.cache_view() =~= cache_mid.remove(j as int).push(
                        (session_id@, session@),
                    ));
                    lemma_others_trans(
                        old(self).cache_view(),
                        cache_mid,
                        self.cache_view(),
                        session_id@,
                    );
                }
                Err(e)
            },
        }
    }

    /// Replace the peer's session state by one restored from bytes.
    pub(crate) fn import_in(&mut self, session_id: &Vec<u8>, state: &Vec<u8>) -> (r: Result<
        (),
        ProtocolError,
    >)
        requires
            old(self).wf(),
        ensures
            final(self).wf(),
            final(self).config_view() == old(self).config_view(),
            r is Ok ==> cache_has(final(self).cache_view(), session_id@) && encode_state(
                cache_at(final(self).cache_view(), session_id@),
            ) == state@,
            cache_has(old(self).cache_view(), session_id@) ==> ((r is Ok) <==> (exists|
                v: RatchetView,
            |
                v.wf() && #[trigger] encode_state(v) == state@)),
            (cache_has(old(self).cache_view(), session_id@) && r is Err) ==> r == Err::<
                (),
                ProtocolError,
            >(ProtocolError::InvalidMessage) && cache_at(final(self).cache_view(), session_id@)
                == cache_at(old(self).cache_view(), session_id@),
            others_preserved(old(self).cache_view(), final(self).cache_view(), session_id@),
    {
        self.ensure_cached(session_id)?;
        let j = match self.find_session(session_id) {
            Some(j) => j,
            None => {
                proof {
                    assert(false);
                }
                return Err(ProtocolError::SessionNotFound);
            },
        };
        let ghost cache_mid = self.cache_view();
        let (key, mut session) = self.sessions.remove(j);
        proof {
            lemma_cache_at(cache_mid, session_id@, j as int);
            assert(self.cache_view() =~= cache_mid.remove(j as int));
            assert forall|i: int|
                0 <= i < self.cache_view().len() implies (#[trigger] self.cache_view()[i]).0
                != session_id@ by {
                if i < j as int {
                    assert(cache_mid[i].0 != cache_mid[j as int].0);
                } else {
                    assert(cache_mid[i + 1].0 != cache_mid[j as int].0);
                }
            }
        }
        let res = session.deserialize_state(state);
        let ghost before_push = self.cache_view();
        self.sessions.push((key, session));
        proof {
            assert(self.cache_view() =~= before_push.push((session_id@, session@)));
            lemma_cache_at(self.cache_view(), session_id@, before_push.len() as int);
            assert(others_preserved(old(self).cache_view(), cache_mid, session_id@));
            lemma_cache_replace_preserves_others(cache_mid, j as int, (session_id@, session@));
            assert(self.cache_view() =~= cache_mid.remove(j as int).push(
                (session_id@, session@),
            ));
            lemma_others_trans(old(self).cache_view(), cache_mid, self.cache_view(), session_id@);
        }
        res
    }

    /// Serialize the peer's session state.
    pub(crate) fn serialize_in(&mut self, session_id: &Vec<u8>) -> (r: Result<
        Vec<u8>,
        ProtocolError,
    >)
        requires
            old(self).wf(),
        ensures
            final(self).wf(),
            final(self).config_view() == old(self).config_view(),
            final(self).tree_view() == old(self).tree_view(),
            r matches Ok(b) ==> cache_has(final(self).cache_view(), session_id@) && b@
                == encode_state(cache_at(final(self).cache_view(), session_id@)),
            cache_has(old(self).cache_view(), session_id@) ==> r is Ok && final(self).cache_view()
                == old(self).cache_view(),
            r matches Ok(b) ==> (cache_has(old(self).cache_view(), session_id@) ==> b@
                == encode_state(cache_at(old(self).cache_view(), session_id@))),
            others_preserved(old(self).cache_view(), final(self).cache_view(), session_id@),
    {
        self.ensure_cached(session_id)?;
        let j = match self.find_session(session_id) {
            Some(j) => j,
            None => {
                proof {
                    assert(false);
                }
                return Err(ProtocolError::SessionNotFound);
            },
        };
        proof {
            lemma_cache_at(self.cache_view(), session_id@, j as int);
        }
        match self.sessions[j].1.serialize_state() {
            Ok(b) => Ok(b),
            Err(e) => {
                proof {
                    assert(false);
                }
                Err(e)
            },
        }
    }
}

/// Session handle: the peer identifier a session is known by.
pub struct SessionHandle {
    peer_id: Vec<u8>,
}

impl SessionHandle {
    /// The peer identifier.
    pub closed spec fn peer_id_view(&self) -> Seq<u8> {
        self.peer_id@
    }

    /// The peer identifier this handle names.
    pub fn peer_id(&self) -> (r: &Vec<u8>)
        ensures
            r@ == self.peer_id_view(),
    {
        &self.peer_id
    }
}

/// Main system context: key store, session manager, random source and
/// configuration over one embedded database.
pub struct SecureContext {
    keystore: KeyStore,
    sessions: SessionManager,
    config: Config,
    random: SecureRandom,
}

impl SecureContext {
    /// The key store's held identity.
    pub closed spec fn identity_view(&self) -> Option<(Seq<u8>, Seq<u8>)> {
        self.keystore.identity_view()
    }

    /// The session cache.
    pub closed spec fn cache_view(&self) -> Seq<(Seq<u8>, RatchetView)> {
        self.sessions.cache_view()
    }

    /// The persisted session records.
    pub closed spec fn tree_view(&self) -> Map<Seq<u8>, Seq<u8>> {
        self.sessions.tree_view()
    }

    /// The configuration the context was created with.
    pub closed spec fn config_view(&self) -> Config {
        self.config
    }

    /// Key store, session manager and random source are all well-formed.
    pub closed spec fn wf(&self) -> bool {
        &&& self.keystore.wf()
        &&& self.sessions.wf()
        &&& self.random.wf()
        &&& self.sessions.config_view() == self.config_view()
    }

    /// Open a context over the database at the default path.
    pub fn new(config: Config) -> (r: Result<SecureContext, ProtocolError>)
        ensures
            r matches Ok(c) ==> c.wf() && c.config_view() == config && c.identity_view() is Some
                && c.cache_view().len() == 0,
    {
        SecureContext::with_db_path("secure_core_db", config)
    }

    /// Open a context over the database at the given path: the key store loads
    /// or creates its identity, and the session cache starts empty.
    pub fn with_db_path(path: &str, config: Config) -> (r: Result<SecureContext, ProtocolError>)
        ensures
            r matches Ok(c) ==> c.wf() && c.config_view() == config && c.identity_view() is Some
                && c.cache_view().len() == 0,
    {
        let db = db_open(path)?;
        let keystore_tree = db_open_tree(&db, "keystore")?;
        let keystore = KeyStore::new(keystore_tree)?;
        let sessions = SessionManager::new(config, &db)?;
        let random = match SecureRandom::new() {
            Ok(r) => r,
            Err(_) => {
                return Err(ProtocolError::RandomFailed);
            },
        };
        Ok(SecureContext { keystore, sessions, config, random })
    }

    /// Create a session for the peer, persisting its initial state.
    pub fn create_session(&mut self, peer_id: &Vec<u8>) -> (r: Result<
        SessionHandle,
        ProtocolError,
    >)
        requires
            old(self).wf(),
        ensures
            final(self).wf(),
            final(self).config_view() == old(self).config_view(),
            r matches Ok(h) ==> h.peer_id_view() == peer_id@ && (exists|sk: Seq<u8>|
                sk.len() == 32 && ({
                    let v = fresh_view(sk, old(self).config_view().max_skipped_messages as u64);
                    &&& cache_has(final(self).cache_view(), peer_id@)
                    &&& cache_at(final(self).cache_view(), peer_id@) == v
                    &&& final(self).tree_view() == old(self).tree_view().insert(
                        peer_id@,
                        encode_state(v),
                    )
                })),
            others_preserved(old(self).cache_view(), final(self).cache_view(), peer_id@),
    {
        let config = self.config;
        self.sessions.create_session(peer_id, config)
    }

    /// A handle for the peer's session, restoring it from storage on a cache
    /// miss.
    pub fn get_session(&mut self, session_id: &Vec<u8>) -> (r: Result<
        SessionHandle,
        ProtocolError,
    >)
        requires
            old(self).wf(),
        ensures
            final(self).wf(),
            final(self).config_view() == old(self).config_view(),
            r matches Ok(h) ==> h.peer_id_view() == session_id@ && cache_has(
                final(self).cache_view(),
                session_id@,
            ),
            cache_has(old(self).cache_view(), session_id@) ==> r is Ok && final(self).cache_view()
                == old(self).cache_view(),
            (!cache_has(old(self).cache_view(), session_id@) && r is Ok) ==> old(
                self,
            ).tree_view().contains_key(session_id@) && encode_state(
                cache_at(final(self).cache_view(), session_id@),
            ) == old(self).tree_view()[session_id@],
            r == Err::<SessionHandle, ProtocolError>(ProtocolError::SessionNotFound)
                ==> !cache_has(old(self).cache_view(), session_id@) && !old(
                self,
            ).tree_view().contains_key(session_id@),
            r matches Err(e) ==> (e == ProtocolError::SessionNotFound || e
                == ProtocolError::InvalidMessage || e == ProtocolError::RandomFailed || e matches
                ProtocolError::InternalError(_)),
            others_preserved(old(self).cache_view(), final(self).cache_view(), session_id@),
    {
        self.sessions.get_session(session_id)
    }

    /// Install an identity key pair into the key store.
    pub fn load_identity(&mut self, public: &Vec<u8>, private: &Vec<u8>)
        requires
            old(self).wf(),
            public@.len() == 32,
            private@.len() == 32,
        ensures
            final(self).wf(),
            final(self).config_view() == old(self).config_view(),
            final(self).identity_view() == Option::Some((private@, public@)),
    {
        let keypair = IdentityKeyPair::from_bytes(public, private);
        self.keystore.set_identity(keypair);
    }

    /// Run the handshake orchestration for an existing session: collect the
    /// inputs and emit the handshake collaborator's message.
    pub fn perform_handshake(
        &mut self,
        session_id: &Vec<u8>,
        initiator: bool,
        peer_public_key: Option<&Vec<u8>>,
        prologue: Option<&Vec<u8>>,
    ) -> (r: Result<Vec<u8>, ProtocolError>)
        requires
            old(self).wf(),
        ensures
            final(self).wf(),
            final(self).config_view() == old(self).config_view(),
            r matches Ok(msg) ==> msg@ == crate::handshake::handshake_message(
                initiator,
                match peer_public_key {
                    Option::Some(pk) => Option::Some(pk@),
                    Option::None => Option::None,
                },
            ),
            (r == Err::<Vec<u8>, ProtocolError>(ProtocolError::InvalidKeyLength))
                ==> (peer_public_key matches Some(pk) && pk@.len() != 32),
            (cache_has(old(self).cache_view(), session_id@) && (peer_public_key matches Some(pk)
                ==> pk@.len() == 32)) ==> r is Ok,
            r == Err::<Vec<u8>, ProtocolError>(ProtocolError::SessionNotFound) ==> !cache_has(
                old(self).cache_view(),
                session_id@,
            ) && !old(self).tree_view().contains_key(session_id@),
    {
        self.sessions.ensure_cached(session_id)?;
        let builder = HandshakeBuilder::new().with_config(self.config).with_keystore(
            &self.keystore,
        ).with_random(&self.random).with_initiator(initiator);
        let builder = match peer_public_key {
            Option::Some(pk) => builder.with_peer_public_key(pk)?,
            Option::None => builder,
        };
        let builder = match prologue {
            Option::Some(p) => builder.with_prologue(p),
            Option::None => builder,
        };
        let handshake = match builder.build() {
            Ok(h) => h,
            Err(e) => {
                proof {
                    assert(false);
                }
                return Err(e);
            },
        };
        handshake.perform()
    }

    /// Encrypt a message on the peer's session; the advanced state is
    /// persisted and flushed before the ciphertext is returned.
    pub fn encrypt_message(
        &mut self,
        session_id: &Vec<u8>,
        plaintext: &Vec<u8>,
        associated_data: Option<&Vec<u8>>,
    ) -> (r: Result<Vec<u8>, ProtocolError>)
        requires
            old(self).wf(),
        ensures
            final(self).wf(),
            final(self).config_view() == old(self).config_view(),
            r matches Ok(ct) ==> manager_encrypt_ok(
                old(self).cache_view(),
                old(self).tree_view(),
                final(self).cache_view(),
                final(self).tree_view(),
                session_id@,
                opt_ad(associated_data),
                plaintext@,
                ct@,
            ),
            r == Err::<Vec<u8>, ProtocolError>(ProtocolError::SessionNotFound) ==> !cache_has(
                old(self).cache_view(),
                session_id@,
            ) && !old(self).tree_view().contains_key(session_id@),
            cache_has(old(self).cache_view(), session_id@) ==> ((r == Err::<Vec<u8>, ProtocolError>(
                ProtocolError::InvalidState,
            )) <==> (cache_at(old(self).cache_view(), session_id@).sending is None || cache_at(
                old(self).cache_view(),
                session_id@,
            ).dh_local is None)),
            cache_at(old(self).cache_view(), session_id@).sending matches Some(sc) ==> ((cache_has(
                old(self).cache_view(),
                session_id@,
            ) && sc.1 < u64::MAX && cache_at(old(self).cache_view(), session_id@).dh_local is Some
                && plaintext@.len() < crate::aead::MAX_PLAINTEXT_LENGTH) ==> (r is Ok || r == Err::<
                Vec<u8>,
                ProtocolError,
            >(ProtocolError::RandomFailed) || (r matches Err(e) && e matches
                ProtocolError::InternalError(_)))),
            others_preserved(old(self).cache_view(), final(self).cache_view(), session_id@),
    {
        let ad: Vec<u8> = match associated_data {
            Option::Some(a) => clone_bytes(a),
            Option::None => Vec::new(),
        };
        let r = self.sessions.encrypt_in(session_id, plaintext, &ad);
        proof {
            assert(ad@ == opt_ad(associated_data));
        }
        r
    }

    /// Decrypt a message on the peer's session; the advanced state is
    /// persisted and flushed before the plaintext is returned.
    pub fn decrypt_message(
        &mut self,
        session_id: &Vec<u8>,
        ciphertext: &Vec<u8>,
        associated_data: Option<&Vec<u8>>,
    ) -> (r: Result<Vec<u8>, ProtocolError>)
        requires
            old(self).wf(),
        ensures
            final(self).wf(),
            final(self).config_view() == old(self).config_view(),
            r matches Ok(pt) ==> manager_decrypt_ok(
                old(self).cache_view(),
                old(self).tree_view(),
                final(self).cache_view(),
                final(self).tree_view(),
                session_id@,
                opt_ad(associated_data),
                ciphertext@,
                pt@,
            ),
            r == Err::<Vec<u8>, ProtocolError>(ProtocolError::SessionNotFound) ==> !cache_has(
                old(self).cache_view(),
                session_id@,
            ) && !old(self).tree_view().contains_key(session_id@),
            (cache_has(old(self).cache_view(), session_id@) && ciphertext@.len() < 48) ==> r
                == Err::<Vec<u8>, ProtocolError>(ProtocolError::InvalidMessage),
            (cache_has(old(self).cache_view(), session_id@) && ciphertext@.len() >= 48
                && ciphertext@.len() < 60) ==> r == Err::<Vec<u8>, ProtocolError>(
                ProtocolError::DecryptionFailed,
            ),
            r matches Err(e) ==> (e == ProtocolError::SessionNotFound || e
                == ProtocolError::InvalidMessage || e == ProtocolError::InvalidState || e
                == ProtocolError::DecryptionFailed || e == ProtocolError::RandomFailed || e matches
                ProtocolError::InternalError(_)),
            others_preserved(old(self).cache_view(), final(self).cache_view(), session_id@),
    {
        let ad: Vec<u8> = match associated_data {
            Option::Some(a) => clone_bytes(a),
            Option::None => Vec::new(),
        };
        let r = self.sessions.decrypt_in(session_id, ciphertext, &ad);
        proof {
            assert(ad@ == opt_ad(associated_data));
        }
        r
    }

    /// Replace the peer's session state by one restored from bytes.
    pub fn deserialize_session_state(&mut self, session_id: &Vec<u8>, state: &Vec<u8>) -> (r:
        Result<(), ProtocolError>)
        requires
            old(self).wf(),
        ensures
            final(self).wf(),
            final(self).config_view() == old(self).config_view(),
            r is Ok ==> cache_has(final(self).cache_view(), session_id@) && encode_state(
                cache_at(final(self).cache_view(), session_id@),
            ) == state@,
            cache_has(old(self).cache_view(), session_id@) ==> ((r is Ok) <==> (exists|
                v: RatchetView,
            |
                v.wf() && #[trigger] encode_state(v) == state@)),
            (cache_has(old(self).cache_view(), session_id@) && r is Err) ==> r == Err::<
                (),
                ProtocolError,
            >(ProtocolError::InvalidMessage) && cache_at(final(self).cache_view(), session_id@)
                == cache_at(old(self).cache_view(), session_id@),
            others_preserved(old(self).cache_view(), final(self).cache_view(), session_id@),
    {
        self.sessions.import_in(session_id, state)
    }

    /// Serialize the peer's session state.
    pub fn serialize_session_state(&mut self, session_id: &Vec<u8>) -> (r: Result<
        Vec<u8>,
        ProtocolError,
    >)
        requires
            old(self).wf(),
        ensures
            final(self).wf(),
            final(self).config_view() == old(self).config_view(),
            r matches Ok(b) ==> cache_has(final(self).cache_view(), session_id@) && b@
                == encode_state(cache_at(final(self).cache_view(), session_id@)),
            cache_has(old(self).cache_view(), session_id@) ==> r is Ok && final(self).cache_view()
                == old(self).cache_view(),
            r matches Ok(b) ==> (cache_has(old(self).cache_view(), session_id@) ==> b@
                == encode_state(cache_at(old(self).cache_view(), session_id@))),
            others_preserved(old(self).cache_view(), final(self).cache_view(), session_id@),
    {
        self.sessions.serialize_in(session_id)
    }
}

} // verus!

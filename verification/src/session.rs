//! Double-Ratchet session engine: encrypt, decrypt, DH ratchet step and the
//! skipped-key cache.
//!
//! A message is a 48-byte header (ratchet public key, chain index,
//! previous-chain length) followed by a 12-byte nonce and the sealed payload;
//! the header is authenticated together with the caller's associated data.

use vstd::prelude::*;
use vstd::bytes::lemma_auto_spec_u64_to_from_le_bytes;
use vstd::bytes::spec_u64_from_le_bytes;
use vstd::bytes::spec_u64_to_le_bytes;
use vstd::bytes::u64_to_le_bytes;

use crate::aead::CryptoHandler;
use crate::aead::MAX_PLAINTEXT_LENGTH;
use crate::bytesutil::concat_bytes;
use crate::bytesutil::copy_range;
use crate::bytesutil::vec_eq;
use crate::chain::chain_key_after;
use crate::chain::clone_bytes;
use crate::chain::lemma_chain_key_after_shift;
use crate::chain::message_key_at;
use crate::chain::message_key_of;
use crate::chain::next_chain_key_of;
use crate::chain::ChainKey;
use crate::codec::deserialize_state;
use crate::codec::encode_state;
use crate::codec::read_u64_at;
use crate::codec::serialize_state;
use crate::codec::zeros;
use crate::errors::ProtocolError;
use crate::kdf::hkdf_expand;
use crate::kdf::hkdf_expand_of;
use crate::kdf::hkdf_extract;
use crate::primitives::aead_seal;
use crate::primitives::hmac_of;
use crate::primitives::os_random_bytes;
use crate::primitives::x25519_public;
use crate::primitives::x25519_public_of;
use crate::primitives::x25519_shared;
use crate::primitives::x25519_shared_of;
use crate::state::skipped_view;
use crate::state::DoubleRatchetState;
use crate::state::RatchetView;
use crate::state::SkippedKey;
use crate::Config;

verus! {

/// ASCII of the root-key derivation label.
pub open spec fn root_info() -> Seq<u8> {
    seq![114u8, 111u8, 111u8, 116u8, 95u8, 107u8, 101u8, 121u8]
}

/// ASCII of the sending-chain derivation label.
pub open spec fn send_chain_info() -> Seq<u8> {
    seq![115u8, 101u8, 110u8, 100u8, 105u8, 110u8, 103u8, 95u8, 99u8, 104u8, 97u8, 105u8, 110u8]
}

/// ASCII of the receiving-chain derivation label.
pub open spec fn recv_chain_info() -> Seq<u8> {
    seq![
        114u8,
        101u8,
        99u8,
        101u8,
        105u8,
        118u8,
        105u8,
        110u8,
        103u8,
        95u8,
        99u8,
        104u8,
        97u8,
        105u8,
        110u8,
    ]
}

/// Label under which this side derives chains it sends on. The two roles use
/// opposite labels, so that the chain one side sends on is derived under the
/// same label by the peer that receives on it.
pub open spec fn to_peer_info(initiator: bool) -> Seq<u8> {
    if initiator {
        send_chain_info()
    } else {
        recv_chain_info()
    }
}

/// Label under which this side derives chains it receives on.
pub open spec fn from_peer_info(initiator: bool) -> Seq<u8> {
    if initiator {
        recv_chain_info()
    } else {
        send_chain_info()
    }
}

/// The HKDF pseudo-random key of a DH ratchet step: extract with the current
/// root key as salt over the DH shared secret, which per RFC 5869 is one
/// HMAC-SHA256 call keyed by the root key.
pub open spec fn kdf_prk(root: Seq<u8>, dh: Seq<u8>) -> Seq<u8> {
    hmac_of(root, dh)
}

/// The next root key derived at a DH ratchet step.
pub open spec fn kdf_next_root(root: Seq<u8>, dh: Seq<u8>) -> Seq<u8> {
    hkdf_expand_of(kdf_prk(root, dh), root_info(), 32)
}

/// The chain key derived at a DH ratchet step under the given label.
pub open spec fn kdf_chain_key(root: Seq<u8>, dh: Seq<u8>, label: Seq<u8>) -> Seq<u8> {
    hkdf_expand_of(kdf_prk(root, dh), label, 32)
}

/// The root key both parties derive from the handshake shared secret.
pub open spec fn initial_root(ss: Seq<u8>) -> Seq<u8> {
    hkdf_expand_of(hmac_of(zeros(32), ss), root_info(), 32)
}

/// The 48-byte message header: ratchet public key, chain index,
/// previous-chain length (both little-endian).
pub open spec fn header_of(pk: Seq<u8>, n: u64, pn: u64) -> Seq<u8> {
    pk + spec_u64_to_le_bytes(n) + spec_u64_to_le_bytes(pn)
}

/// The ratchet public key carried by a message.
pub open spec fn msg_hd(m: Seq<u8>) -> Seq<u8> {
    m.subrange(0, 32)
}

/// The chain index carried by a message.
pub open spec fn msg_n(m: Seq<u8>) -> u64 {
    spec_u64_from_le_bytes(m.subrange(32, 40))
}

/// The previous-chain length carried by a message.
pub open spec fn msg_pn(m: Seq<u8>) -> u64 {
    spec_u64_from_le_bytes(m.subrange(40, 48))
}

/// The whole 48-byte header of a message.
pub open spec fn msg_header(m: Seq<u8>) -> Seq<u8> {
    m.subrange(0, 48)
}

/// The nonce of a message.
pub open spec fn msg_nonce(m: Seq<u8>) -> Seq<u8> {
    m.subrange(48, 60)
}

/// The sealed payload of a message.
pub open spec fn msg_body(m: Seq<u8>) -> Seq<u8> {
    m.skip(60)
}

/// Whether a message's sealed payload is the sealing of `pt` under `mk`, the
/// message's own nonce, and the caller's associated data followed by the
/// message's header.
pub open spec fn seal_matches(mk: Seq<u8>, m: Seq<u8>, ad: Seq<u8>, pt: Seq<u8>) -> bool {
    msg_body(m) == aead_seal(mk, msg_nonce(m), ad + msg_header(m), pt)
}

/// Whether a cache entry is keyed by the given ratchet key and index.
pub open spec fn entry_matches(e: (Seq<u8>, u64, Seq<u8>), pk: Seq<u8>, n: u64) -> bool {
    e.0 == pk && e.1 == n
}

/// Whether the cache holds a key for (pk, n).
pub open spec fn has_skipped(c: Seq<(Seq<u8>, u64, Seq<u8>)>, pk: Seq<u8>, n: u64) -> bool {
    exists|i: int| 0 <= i < c.len() && entry_matches(#[trigger] c[i], pk, n)
}

/// `j` is the first cache position keyed by (pk, n).
pub open spec fn cache_hit_at(c: Seq<(Seq<u8>, u64, Seq<u8>)>, pk: Seq<u8>, n: u64, j: int) -> bool {
    &&& 0 <= j < c.len()
    &&& entry_matches(c[j], pk, n)
    &&& forall|i: int| 0 <= i < j ==> !entry_matches(#[trigger] c[i], pk, n)
}

/// The first cache position keyed by (pk, n).
pub open spec fn hit_index(c: Seq<(Seq<u8>, u64, Seq<u8>)>, pk: Seq<u8>, n: u64) -> int {
    choose|j: int| cache_hit_at(c, pk, n, j)
}

/// The message key cached for (pk, n).
pub open spec fn hit_key(c: Seq<(Seq<u8>, u64, Seq<u8>)>, pk: Seq<u8>, n: u64) -> Seq<u8> {
    c[hit_index(c, pk, n)].2
}

/// The first matching position is unique.
pub proof fn lemma_cache_hit_unique(
    c: Seq<(Seq<u8>, u64, Seq<u8>)>,
    pk: Seq<u8>,
    n: u64,
    j1: int,
    j2: int,
)
    requires
        cache_hit_at(c, pk, n, j1),
        cache_hit_at(c, pk, n, j2),
    ensures
        j1 == j2,
{
    if j1 < j2 {
        assert(!entry_matches(c[j1], pk, n));
    }
    if j2 < j1 {
        assert(!entry_matches(c[j2], pk, n));
    }
}

/// Insert one entry into the cache, evicting oldest entries so that the bound
/// is kept. With a zero bound nothing is stored.
pub open spec fn cache_push(
    cache: Seq<(Seq<u8>, u64, Seq<u8>)>,
    max: u64,
    e: (Seq<u8>, u64, Seq<u8>),
) -> Seq<(Seq<u8>, u64, Seq<u8>)> {
    if max == 0 {
        cache
    } else if cache.len() < max {
        cache.push(e)
    } else {
        cache.skip(cache.len() - (max - 1)).push(e)
    }
}

/// The cache after deriving and storing `count` consecutive message keys of
/// the chain starting at `ck` with first index `from`, keyed by `pk`.
pub open spec fn cache_after_skips(
    cache: Seq<(Seq<u8>, u64, Seq<u8>)>,
    max: u64,
    pk: Seq<u8>,
    ck: Seq<u8>,
    from: u64,
    count: nat,
) -> Seq<(Seq<u8>, u64, Seq<u8>)>
    decreases count,
{
    if count == 0 {
        cache
    } else {
        cache_after_skips(
            cache_push(cache, max, (pk, from, message_key_of(ck))),
            max,
            pk,
            next_chain_key_of(ck),
            ((from as nat + 1) % 0x10000000000000000) as u64,
            (count - 1) as nat,
        )
    }
}

/// Storing one more key extends the stored range at its end.
pub proof fn lemma_cache_after_skips_snoc(
    cache: Seq<(Seq<u8>, u64, Seq<u8>)>,
    max: u64,
    pk: Seq<u8>,
    ck: Seq<u8>,
    from: u64,
    count: nat,
)
    requires
        from + count < 0x10000000000000000,
    ensures
        cache_after_skips(cache, max, pk, ck, from, count + 1) == cache_push(
            cache_after_skips(cache, max, pk, ck, from, count),
            max,
            (pk, (from + count) as u64, message_key_of(chain_key_after(ck, count))),
        ),
    decreases count,
{
    let stepped = cache_push(cache, max, (pk, from, message_key_of(ck)));
    let next_from = ((from as nat + 1) % 0x10000000000000000) as u64;
    if count == 0 {
        assert(cache_after_skips(cache, max, pk, ck, from, 1) == cache_after_skips(
            stepped,
            max,
            pk,
            next_chain_key_of(ck),
            next_from,
            0,
        ));
        assert(chain_key_after(ck, 0) == ck);
    } else {
        assert(next_from == from + 1);
        lemma_cache_after_skips_snoc(
            stepped,
            max,
            pk,
            next_chain_key_of(ck),
            (from + 1) as u64,
            (count - 1) as nat,
        );
        lemma_chain_key_after_shift(ck, (count - 1) as nat);
        assert(cache_after_skips(cache, max, pk, ck, from, count + 1) == cache_after_skips(
            stepped,
            max,
            pk,
            next_chain_key_of(ck),
            next_from,
            count,
        ));
        assert(cache_after_skips(cache, max, pk, ck, from, count) == cache_after_skips(
            stepped,
            max,
            pk,
            next_chain_key_of(ck),
            next_from,
            (count - 1) as nat,
        ));
        assert(chain_key_after(next_chain_key_of(ck), (count - 1) as nat) == chain_key_after(
            ck,
            count,
        ));
    }
}

/// A state with its cache replaced.
pub open spec fn with_cache(s: RatchetView, c: Seq<(Seq<u8>, u64, Seq<u8>)>) -> RatchetView {
    RatchetView { skipped: c, ..s }
}

/// Whether the pre-ratchet skip of the ending receiving chain stays within the
/// bound: the keys for indices up to the previous-chain length announced in
/// the header must not exceed `max_skip`.
pub open spec fn prestep_ok(s: RatchetView, m: Seq<u8>) -> bool {
    match s.receiving {
        Option::Some(rc) => msg_pn(m) <= rc.1 || msg_pn(m) - rc.1 <= s.max_skip,
        Option::None => true,
    }
}

/// The cache after the pre-ratchet skip: keys of the ending receiving chain up
/// to the announced previous-chain length, keyed by the current remote ratchet
/// key.
pub open spec fn cache_after_4a(s: RatchetView, m: Seq<u8>) -> Seq<(Seq<u8>, u64, Seq<u8>)> {
    match s.receiving {
        Option::Some(rc) => if msg_pn(m) > rc.1 {
            cache_after_skips(
                s.skipped,
                s.max_skip,
                s.dh_remote->0,
                rc.0,
                rc.1,
                (msg_pn(m) - rc.1) as nat,
            )
        } else {
            s.skipped
        },
        Option::None => s.skipped,
    }
}

/// The receiving chain a DH ratchet step derives for the header's ratchet key.
pub open spec fn ratchet_recv_chain(s: RatchetView, m: Seq<u8>) -> Seq<u8> {
    kdf_chain_key(
        s.root_key,
        x25519_shared_of(s.dh_local->0, msg_hd(m)),
        from_peer_info(s.initiator),
    )
}

/// The message key a DH ratchet step followed by the chain advance to the
/// header's index yields; it does not depend on the fresh local ratchet key.
pub open spec fn ratchet_mk(s: RatchetView, m: Seq<u8>) -> Seq<u8> {
    message_key_at(ratchet_recv_chain(s, m), msg_n(m) as nat)
}

/// The state after a DH ratchet step for the header key `hd`, with `nsk` as
/// the freshly drawn local ratchet secret: the root key advances twice, a new
/// receiving chain and a new sending chain are derived, the pre-step sending
/// index becomes the previous counter.
pub open spec fn ratchet_step_view(s: RatchetView, hd: Seq<u8>, nsk: Seq<u8>) -> RatchetView {
    let sh1 = x25519_shared_of(s.dh_local->0, hd);
    let root_mid = kdf_next_root(s.root_key, sh1);
    let sh2 = x25519_shared_of(nsk, hd);
    RatchetView {
        root_key: kdf_next_root(root_mid, sh2),
        sending: Option::Some((kdf_chain_key(root_mid, sh2, to_peer_info(s.initiator)), 0u64)),
        receiving: Option::Some(
            (kdf_chain_key(s.root_key, sh1, from_peer_info(s.initiator)), 0u64),
        ),
        dh_local: Option::Some(nsk),
        dh_remote: Option::Some(hd),
        skipped: s.skipped,
        max_skip: s.max_skip,
        previous_counter: match s.sending {
            Option::Some(sc) => sc.1,
            Option::None => 0u64,
        },
        initiator: s.initiator,
    }
}

/// The state after advancing the receiving chain to consume index `n`:
/// intermediate keys go to the cache keyed by `pk`, the chain ends one step
/// past `n`.
pub open spec fn advanced_to(s: RatchetView, pk: Seq<u8>, n: u64) -> RatchetView
    recommends
        s.receiving is Some,
{
    match s.receiving {
        Option::Some(rc) => {
            let k = (n - rc.1) as nat;
            RatchetView {
                receiving: Option::Some(
                    (chain_key_after(rc.0, k + 1), ((n as nat + 1) as u64)),
                ),
                skipped: cache_after_skips(s.skipped, s.max_skip, pk, rc.0, rc.1, k),
                ..s
            }
        },
        Option::None => s,
    }
}

/// The message key consumed when the receiving chain advances to index `n`.
pub open spec fn advanced_mk(s: RatchetView, n: u64) -> Seq<u8>
    recommends
        s.receiving is Some,
{
    message_key_at((s.receiving->0).0, (n - (s.receiving->0).1) as nat)
}

/// The state after consuming a cached skipped key: the entry leaves the cache,
/// everything else is unchanged.
pub open spec fn cache_hit_post(s: RatchetView, m: Seq<u8>) -> RatchetView {
    RatchetView { skipped: s.skipped.remove(hit_index(s.skipped, msg_hd(m), msg_n(m))), ..s }
}

/// The message key the algorithm locates for a message in a state: the cached
/// key for the header's position, the current receiving chain's key at the
/// header index, or the key a DH ratchet step derives for the new chain.
pub open spec fn located_mk(v: RatchetView, m: Seq<u8>) -> Seq<u8> {
    if has_skipped(v.skipped, msg_hd(m), msg_n(m)) {
        hit_key(v.skipped, msg_hd(m), msg_n(m))
    } else if v.dh_remote == Option::Some(msg_hd(m)) {
        advanced_mk(v, msg_n(m))
    } else {
        ratchet_mk(v, m)
    }
}

/// The whole decrypt relation: how a successful decrypt takes the state `v` to
/// `v2` and recovers `pt` from message `m` under associated data `ad` — by a
/// cached key, by advancing the current receiving chain, or by a DH ratchet
/// step followed by the advance. The recovered plaintext is the unique one
/// whose sealing under the located key is the message's payload.
pub open spec fn decrypt_rel(
    v: RatchetView,
    v2: RatchetView,
    m: Seq<u8>,
    ad: Seq<u8>,
    pt: Seq<u8>,
) -> bool {
    &&& m.len() >= 60
    &&& (forall|pt2: Seq<u8>|
        pt2.len() < MAX_PLAINTEXT_LENGTH && seal_matches(located_mk(v, m), m, ad, pt2) ==> pt2
            == pt)
    &&& if has_skipped(v.skipped, msg_hd(m), msg_n(m)) {
        seal_matches(hit_key(v.skipped, msg_hd(m), msg_n(m)), m, ad, pt) && v2 == cache_hit_post(
            v,
            m,
        )
    } else if v.dh_remote == Option::Some(msg_hd(m)) {
        &&& v.receiving is Some
        &&& msg_n(m) >= (v.receiving->0).1
        &&& msg_n(m) - (v.receiving->0).1 <= v.max_skip
        &&& msg_n(m) < u64::MAX
        &&& seal_matches(advanced_mk(v, msg_n(m)), m, ad, pt)
        &&& v2 == advanced_to(v, msg_hd(m), msg_n(m))
    } else {
        &&& prestep_ok(v, m)
        &&& v.dh_local is Some
        &&& msg_n(m) <= v.max_skip
        &&& msg_n(m) < u64::MAX
        &&& seal_matches(ratchet_mk(v, m), m, ad, pt)
        &&& exists|nsk: Seq<u8>|
            nsk.len() == 32 && v2 == advanced_to(
                ratchet_step_view(with_cache(v, cache_after_4a(v, m)), msg_hd(m), nsk),
                msg_hd(m),
                msg_n(m),
            )
    }
}

/// Inserting a well-formed entry into a bounded well-formed cache keeps both.
pub proof fn lemma_cache_push_wf(
    c: Seq<(Seq<u8>, u64, Seq<u8>)>,
    max: u64,
    e: (Seq<u8>, u64, Seq<u8>),
)
    requires
        crate::codec::entries_wf(c),
        e.0.len() == 32,
        e.2.len() == 32,
        c.len() <= max,
    ensures
        crate::codec::entries_wf(cache_push(c, max, e)),
        cache_push(c, max, e).len() <= max,
{
}

/// The state value just after an encrypt: the sending chain advanced once,
/// everything else unchanged.
pub open spec fn encrypt_post(s: RatchetView) -> RatchetView
    recommends
        s.sending is Some,
{
    match s.sending {
        Option::Some(sc) => RatchetView {
            sending: Option::Some((next_chain_key_of(sc.0), ((sc.1 as nat + 1) as u64))),
            ..s
        },
        Option::None => s,
    }
}

/// The bytes an encrypt emits, given the nonce that was drawn: header, nonce,
/// sealed payload.
pub open spec fn encrypt_output(s: RatchetView, ad: Seq<u8>, pt: Seq<u8>, nonce: Seq<u8>) -> Seq<
    u8,
>
    recommends
        s.sending is Some,
        s.dh_local is Some,
{
    match (s.sending, s.dh_local) {
        (Option::Some(sc), Option::Some(sk)) => {
            let hdr = header_of(x25519_public_of(sk), sc.1, s.previous_counter);
            hdr + nonce + aead_seal(message_key_of(sc.0), nonce, ad + hdr, pt)
        },
        _ => Seq::empty(),
    }
}

/// The state of a party that enters a session with a fresh random ratchet key
/// and no chain material yet.
pub open spec fn fresh_view(sk: Seq<u8>, max_skip: u64) -> RatchetView {
    RatchetView {
        root_key: zeros(32),
        sending: Option::None,
        receiving: Option::None,
        dh_local: Option::Some(sk),
        dh_remote: Option::None,
        skipped: Seq::empty(),
        max_skip,
        previous_counter: 0,
        initiator: false,
    }
}

/// The initiator's state after consuming the handshake shared secret: the
/// initial root is ratcheted once with the peer's ratchet key, which yields
/// the first sending chain.
pub open spec fn initiator_view(ss: Seq<u8>, sk: Seq<u8>, remote: Seq<u8>, max_skip: u64) -> RatchetView {
    let r0 = initial_root(ss);
    let sh = x25519_shared_of(sk, remote);
    RatchetView {
        root_key: kdf_next_root(r0, sh),
        sending: Option::Some((kdf_chain_key(r0, sh, send_chain_info()), 0u64)),
        receiving: Option::None,
        dh_local: Option::Some(sk),
        dh_remote: Option::Some(remote),
        skipped: Seq::empty(),
        max_skip,
        previous_counter: 0,
        initiator: true,
    }
}

/// The responder's state after consuming the handshake shared secret: the
/// initial root only; chains appear with the first received message.
pub open spec fn responder_view(ss: Seq<u8>, sk: Seq<u8>, max_skip: u64) -> RatchetView {
    RatchetView {
        root_key: initial_root(ss),
        sending: Option::None,
        receiving: Option::None,
        dh_local: Option::Some(sk),
        dh_remote: Option::None,
        skipped: Seq::empty(),
        max_skip,
        previous_counter: 0,
        initiator: false,
    }
}

/// Double-Ratchet session: per-peer state plus the configuration it was
/// created with.
pub struct DoubleRatchetSession {
    state: DoubleRatchetState,
    config: Config,
}

impl View for DoubleRatchetSession {
    type V = RatchetView;

    closed spec fn view(&self) -> RatchetView {
        self.state@
    }
}

impl DoubleRatchetSession {
    /// The session state is well-formed.
    pub open spec fn wf(&self) -> bool {
        self@.wf()
    }

    /// The configuration the session was created with.
    pub closed spec fn config_view(&self) -> Config {
        self.config
    }

    /// A fresh session with a random ratchet key and no chain material; it
    /// can encrypt or decrypt only after a handshake result or imported state
    /// arrives.
    pub fn new(config: Config) -> (r: Result<DoubleRatchetSession, ProtocolError>)
        ensures
            r matches Ok(s) ==> s.wf() && s.config_view() == config && (exists|sk: Seq<u8>|
                sk.len() == 32 && s@ == fresh_view(sk, config.max_skipped_messages as u64)),
            r is Err ==> r == Err::<DoubleRatchetSession, ProtocolError>(
                ProtocolError::RandomFailed,
            ),
    {
        let sk = match os_random_bytes(32) {
            Ok(b) => b,
            Err(_) => {
                return Err(ProtocolError::RandomFailed);
            },
        };
        let mut root_key: Vec<u8> = Vec::new();
        let mut i: usize = 0;
        while i < 32
            invariant
                root_key@.len() == i,
                i <= 32,
                root_key@ == zeros(i as nat),
            decreases 32 - i,
        {
            root_key.push(0u8);
            proof {
                assert(root_key@ =~= zeros((i + 1) as nat));
            }
            i = i + 1;
        }
        let state = DoubleRatchetState {
            root_key,
            sending_chain: Option::None,
            receiving_chain: Option::None,
            dh_local: Option::Some(sk),
            dh_remote: Option::None,
            skipped_message_keys: Vec::new(),
            max_skip: config.max_skipped_messages as u64,
            previous_counter: 0,
            initiator: false,
        };
        let s = DoubleRatchetSession { state, config };
        proof {
            let skv = s.state.dh_local->0@;
            assert(skipped_view(s.state.skipped_message_keys@) =~= Seq::<
                (Seq<u8>, u64, Seq<u8>),
            >::empty());
            assert(s@ =~= fresh_view(skv, config.max_skipped_messages as u64));
        }
        Ok(s)
    }

    /// Build the initiator's session from the handshake shared secret, this
    /// side's ratchet secret and the peer's ratchet public key.
    pub fn from_shared_secret(
        shared_secret: &Vec<u8>,
        local_dh: Vec<u8>,
        remote_dh: Vec<u8>,
        config: Config,
    ) -> (r: Result<DoubleRatchetSession, ProtocolError>)
        requires
            local_dh@.len() == 32,
            remote_dh@.len() == 32,
        ensures
            r matches Ok(s) ==> s.wf() && s.config_view() == config && s@ == initiator_view(
                shared_secret@,
                local_dh@,
                remote_dh@,
                config.max_skipped_messages as u64,
            ),
            r is Ok,
    {
        let r0 = initial_root_bytes(shared_secret);
        let sh = x25519_shared(&local_dh, &remote_dh);
        let label = send_chain_info_bytes();
        let (root_key, chain_key) = derive_pair(&r0, &sh, &label);
        let state = DoubleRatchetState {
            root_key,
            sending_chain: Option::Some(ChainKey::new(chain_key)),
            receiving_chain: Option::None,
            dh_local: Option::Some(local_dh),
            dh_remote: Option::Some(remote_dh),
            skipped_message_keys: Vec::new(),
            max_skip: config.max_skipped_messages as u64,
            previous_counter: 0,
            initiator: true,
        };
        let s = DoubleRatchetSession { state, config };
        proof {
            assert(skipped_view(s.state.skipped_message_keys@) =~= Seq::<
                (Seq<u8>, u64, Seq<u8>),
            >::empty());
            assert(s@ =~= initiator_view(
                shared_secret@,
                local_dh@,
                remote_dh@,
                config.max_skipped_messages as u64,
            ));
        }
        Ok(s)
    }

    /// Build the responder's session from the handshake shared secret and the
    /// ratchet secret whose public key the initiator holds.
    pub fn from_shared_secret_responder(
        shared_secret: &Vec<u8>,
        local_dh: Vec<u8>,
        config: Config,
    ) -> (r: Result<DoubleRatchetSession, ProtocolError>)
        requires
            local_dh@.len() == 32,
        ensures
            r matches Ok(s) ==> s.wf() && s.config_view() == config && s@ == responder_view(
                shared_secret@,
                local_dh@,
                config.max_skipped_messages as u64,
            ),
            r is Ok,
    {
        let root_key = initial_root_bytes(shared_secret);
        let state = DoubleRatchetState {
            root_key,
            sending_chain: Option::None,
            receiving_chain: Option::None,
            dh_local: Option::Some(local_dh),
            dh_remote: Option::None,
            skipped_message_keys: Vec::new(),
            max_skip: config.max_skipped_messages as u64,
            previous_counter: 0,
            initiator: false,
        };
        let s = DoubleRatchetSession { state, config };
        proof {
            assert(skipped_view(s.state.skipped_message_keys@) =~= Seq::<
                (Seq<u8>, u64, Seq<u8>),
            >::empty());
            assert(s@ =~= responder_view(
                shared_secret@,
                local_dh@,
                config.max_skipped_messages as u64,
            ));
        }
        Ok(s)
    }

    /// Encrypt one message on the sending chain. The header carries this
    /// side's ratchet public key, the chain index before the advance, and the
    /// previous-chain length; header and caller associated data are
    /// authenticated together. Fails with `InvalidState` when no sending chain
    /// or ratchet secret is present, and leaves the state unchanged on every
    /// failure.
    pub fn encrypt(&mut self, plaintext: &Vec<u8>, associated_data: &Vec<u8>) -> (r: Result<
        Vec<u8>,
        ProtocolError,
    >)
        requires
            old(self).wf(),
        ensures
            final(self).wf(),
            final(self).config_view() == old(self).config_view(),
            r is Err ==> final(self)@ == old(self)@,
            (r == Err::<Vec<u8>, ProtocolError>(ProtocolError::InvalidState)) <==> (old(self)@.sending
                is None || old(self)@.dh_local is None),
            r matches Ok(m) ==> old(self)@.sending is Some && old(self)@.dh_local is Some
                && (exists|nonce: Seq<u8>|
                nonce.len() == 12 && m@ == encrypt_output(
                    old(self)@,
                    associated_data@,
                    plaintext@,
                    nonce,
                )) && m@.len() == plaintext@.len() + 76 && final(self)@ == encrypt_post(old(self)@),
            r matches Ok(m) ==> old(self)@.sending matches Some(sc) && msg_hd(m@)
                == x25519_public_of(old(self)@.dh_local->0) && msg_n(m@) == sc.1 && msg_pn(m@)
                == old(self)@.previous_counter,
            r is Ok ==> (old(self)@.sending->0).1 < u64::MAX && plaintext@.len()
                < MAX_PLAINTEXT_LENGTH,
            (old(self)@.sending matches Some(sc) && old(self)@.dh_local is Some && sc.1 < u64::MAX
                && plaintext@.len() < MAX_PLAINTEXT_LENGTH) ==> (r is Ok || r == Err::<
                Vec<u8>,
                ProtocolError,
            >(ProtocolError::RandomFailed)),
            r == Err::<Vec<u8>, ProtocolError>(ProtocolError::EncryptionFailed)
                ==> (old(self)@.sending matches Some(sc) && (sc.1 == u64::MAX || plaintext@.len()
                >= MAX_PLAINTEXT_LENGTH)),
            r matches Err(e) ==> (e == ProtocolError::InvalidState || e
                == ProtocolError::EncryptionFailed || e == ProtocolError::RandomFailed),
    {
        let sk: Vec<u8> = match &self.state.dh_local {
            Option::Some(v) => clone_bytes(v),
            Option::None => {
                return Err(ProtocolError::InvalidState);
            },
        };
        let (mk, new_chain, idx) = match &self.state.sending_chain {
            Option::Some(c) => {
                if c.index() == u64::MAX {
                    return Err(ProtocolError::EncryptionFailed);
                }
                let mut advanced = c.duplicate();
                let mk = advanced.next_message_key();
                let idx = c.index();
                (mk, advanced, idx)
            },
            Option::None => {
                return Err(ProtocolError::InvalidState);
            },
        };
        let pk = x25519_public(&sk);
        let idx_bytes = u64_to_le_bytes(idx);
        let pn_bytes = u64_to_le_bytes(self.state.previous_counter);
        let with_idx = concat_bytes(&pk, &idx_bytes);
        let header = concat_bytes(&with_idx, &pn_bytes);
        proof {
            lemma_auto_spec_u64_to_from_le_bytes();
            assert(header@ =~= header_of(
                x25519_public_of(sk@),
                idx,
                self.state.previous_counter,
            ));
        }
        let aad = concat_bytes(associated_data, &header);
        let handler = match CryptoHandler::new(&mk) {
            Ok(h) => h,
            Err(_) => {
                proof {
                    assert(false);
                }
                return Err(ProtocolError::EncryptionFailed);
            },
        };
        let sealed = match handler.encrypt(plaintext, &aad) {
            Ok(ct) => ct,
            Err(crate::errors::CryptoError::RandomFailed) => {
                return Err(ProtocolError::RandomFailed);
            },
            Err(_) => {
                return Err(ProtocolError::EncryptionFailed);
            },
        };
        let message = concat_bytes(&header, &sealed);
        proof {
            let s = old(self)@;
            let nonce = sealed@.subrange(0, 12);
            assert(sealed@ =~= nonce + sealed@.skip(12));
            assert(message@ =~= encrypt_output(s, associated_data@, plaintext@, nonce));
            assert(message@.subrange(0, 32) =~= pk@);
            assert(message@.subrange(32, 40) =~= spec_u64_to_le_bytes(idx));
            assert(message@.subrange(40, 48) =~= spec_u64_to_le_bytes(s.previous_counter));
            lemma_auto_spec_u64_to_from_le_bytes();
        }
        self.state.sending_chain = Option::Some(new_chain);
        proof {
            assert(final(self)@ =~= encrypt_post(old(self)@));
        }
        Ok(message)
    }

    /// Decrypt one message, per the double-ratchet algorithm: a cached skipped
    /// key is consumed first; otherwise a changed header ratchet key triggers
    /// a DH ratchet step (after caching the keys the ending receiving chain
    /// still owed); then the receiving chain advances to the header's index,
    /// caching the keys it skips over. State changes only on success: every
    /// failure, in particular one inside a ratchet step, leaves the session
    /// exactly as it was.
    pub fn decrypt(&mut self, message: &Vec<u8>, associated_data: &Vec<u8>) -> (r: Result<
        Vec<u8>,
        ProtocolError,
    >)
        requires
            old(self).wf(),
        ensures
            final(self).wf(),
            final(self).config_view() == old(self).config_view(),
            r is Err ==> final(self)@ == old(self)@,
            message@.len() < 48 ==> r == Err::<Vec<u8>, ProtocolError>(
                ProtocolError::InvalidMessage,
            ),
            (message@.len() >= 48 && message@.len() < 60) ==> r == Err::<Vec<u8>, ProtocolError>(
                ProtocolError::DecryptionFailed,
            ),
            r is Ok ==> message@.len() >= 60,
            r matches Err(e) ==> (e == ProtocolError::InvalidMessage || e
                == ProtocolError::InvalidState || e == ProtocolError::DecryptionFailed || e
                == ProtocolError::RandomFailed),
            r matches Ok(p) ==> decrypt_rel(
                old(self)@,
                final(self)@,
                message@,
                associated_data@,
                p@,
            ),
            (message@.len() >= 60 && has_skipped(
                old(self)@.skipped,
                msg_hd(message@),
                msg_n(message@),
            )) ==> ({
                let mk = hit_key(old(self)@.skipped, msg_hd(message@), msg_n(message@));
                &&& ((exists|pt: Seq<u8>|
                    pt.len() < MAX_PLAINTEXT_LENGTH && seal_matches(
                        mk,
                        message@,
                        associated_data@,
                        pt,
                    )) ==> r is Ok)
                &&& (r matches Ok(p) ==> seal_matches(mk, message@, associated_data@, p@)
                    && final(self)@ == cache_hit_post(old(self)@, message@) && (forall|pt2: Seq<u8>|
                    pt2.len() < MAX_PLAINTEXT_LENGTH && seal_matches(
                        mk,
                        message@,
                        associated_data@,
                        pt2,
                    ) ==> pt2 == p@))
                &&& (r is Err ==> r == Err::<Vec<u8>, ProtocolError>(
                    ProtocolError::DecryptionFailed,
                ))
            }),
            (message@.len() >= 60 && !has_skipped(
                old(self)@.skipped,
                msg_hd(message@),
                msg_n(message@),
            ) && old(self)@.dh_remote == Option::Some(msg_hd(message@))) ==> ({
                let s = old(self)@;
                let n = msg_n(message@);
                &&& (s.receiving is None ==> r == Err::<Vec<u8>, ProtocolError>(
                    ProtocolError::InvalidState,
                ))
                &&& (s.receiving matches Some(rc) ==> {
                    &&& (n < rc.1 ==> r == Err::<Vec<u8>, ProtocolError>(
                        ProtocolError::DecryptionFailed,
                    ))
                    &&& ((n >= rc.1 && (n - rc.1 > s.max_skip || n == u64::MAX)) ==> r == Err::<
                        Vec<u8>,
                        ProtocolError,
                    >(ProtocolError::InvalidMessage))
                    &&& ((n >= rc.1 && n - rc.1 <= s.max_skip && n < u64::MAX) ==> {
                        &&& ((exists|pt: Seq<u8>|
                            pt.len() < MAX_PLAINTEXT_LENGTH && seal_matches(
                                advanced_mk(s, n),
                                message@,
                                associated_data@,
                                pt,
                            )) ==> r is Ok)
                        &&& (r matches Ok(p) ==> seal_matches(
                            advanced_mk(s, n),
                            message@,
                            associated_data@,
                            p@,
                        ) && final(self)@ == advanced_to(s, msg_hd(message@), n) && (forall|
                            pt2: Seq<u8>,
                        |
                            pt2.len() < MAX_PLAINTEXT_LENGTH && seal_matches(
                                advanced_mk(s, n),
                                message@,
                                associated_data@,
                                pt2,
                            ) ==> pt2 == p@))
                        &&& (r is Err ==> r == Err::<Vec<u8>, ProtocolError>(
                            ProtocolError::DecryptionFailed,
                        ))
                    })
                })
            }),
            (message@.len() >= 60 && !has_skipped(
                old(self)@.skipped,
                msg_hd(message@),
                msg_n(message@),
            ) && old(self)@.dh_remote != Option::Some(msg_hd(message@))) ==> ({
                let s = old(self)@;
                let n = msg_n(message@);
                &&& (!prestep_ok(s, message@) ==> r == Err::<Vec<u8>, ProtocolError>(
                    ProtocolError::InvalidMessage,
                ))
                &&& ((prestep_ok(s, message@) && s.dh_local is None) ==> r == Err::<
                    Vec<u8>,
                    ProtocolError,
                >(ProtocolError::InvalidState))
                &&& ((prestep_ok(s, message@) && s.dh_local is Some && (n > s.max_skip || n
                    == u64::MAX)) ==> r == Err::<Vec<u8>, ProtocolError>(
                    ProtocolError::InvalidMessage,
                ))
                &&& ((prestep_ok(s, message@) && s.dh_local is Some && n <= s.max_skip && n
                    < u64::MAX) ==> {
                    &&& ((exists|pt: Seq<u8>|
                        pt.len() < MAX_PLAINTEXT_LENGTH && seal_matches(
                            ratchet_mk(s, message@),
                            message@,
                            associated_data@,
                            pt,
                        )) ==> (r is Ok || r == Err::<Vec<u8>, ProtocolError>(
                        ProtocolError::RandomFailed,
                    )))
                    &&& (r matches Ok(p) ==> seal_matches(
                        ratchet_mk(s, message@),
                        message@,
                        associated_data@,
                        p@,
                    ) && (forall|pt2: Seq<u8>|
                        pt2.len() < MAX_PLAINTEXT_LENGTH && seal_matches(
                            ratchet_mk(s, message@),
                            message@,
                            associated_data@,
                            pt2,
                        ) ==> pt2 == p@) && (exists|nsk: Seq<u8>|
                        nsk.len() == 32 && final(self)@ == advanced_to(
                            ratchet_step_view(
                                with_cache(s, cache_after_4a(s, message@)),
                                msg_hd(message@),
                                nsk,
                            ),
                            msg_hd(message@),
                            n,
                        )))
                    &&& (r is Err ==> (r == Err::<Vec<u8>, ProtocolError>(
                        ProtocolError::DecryptionFailed,
                    ) || r == Err::<Vec<u8>, ProtocolError>(ProtocolError::RandomFailed)))
                })
            }),
    {
        if message.len() < 48 {
            return Err(ProtocolError::InvalidMessage);
        }
        if message.len() < 60 {
            return Err(ProtocolError::DecryptionFailed);
        }
        let hd = copy_range(message, 0, 32);
        let n = read_u64_at(message, 32);
        let pn = read_u64_at(message, 40);
        let header = copy_range(message, 0, 48);
        let payload = copy_range(message, 48, message.len());
        let aad = concat_bytes(associated_data, &header);
        proof {
            assert(header@ == msg_header(message@));
            assert(aad@ == associated_data@ + msg_header(message@));
            assert(payload@.subrange(0, 12) =~= msg_nonce(message@));
            assert(payload@.skip(12) =~= msg_body(message@));
        }
        match find_skipped(&self.state.skipped_message_keys, &hd, n) {
            Option::Some(j) => {
                let mk = clone_bytes(&self.state.skipped_message_keys[j].message_key);
                proof {
                    let c = old(self)@.skipped;
                    assert(cache_hit_at(c, hd@, n, j as int));
                    assert(cache_hit_at(c, hd@, n, hit_index(c, hd@, n)));
                    lemma_cache_hit_unique(c, hd@, n, j as int, hit_index(c, hd@, n));
                    assert(mk@ == hit_key(c, hd@, n));
                    assert(c[j as int].2.len() == 32);
                }
                let handler = match CryptoHandler::new(&mk) {
                    Ok(h) => h,
                    Err(_) => {
                        proof {
                            assert(false);
                        }
                        return Err(ProtocolError::DecryptionFailed);
                    },
                };
                match handler.decrypt(&payload, &aad) {
                    Ok(pt) => {
                        let ghost before = self.state.skipped_message_keys@;
                        self.state.skipped_message_keys.remove(j);
                        proof {
                            assert(skipped_view(self.state.skipped_message_keys@) =~= skipped_view(
                                before,
                            ).remove(j as int));
                            assert(self.state@ =~= cache_hit_post(old(self)@, message@));
                            assert(seal_matches(mk@, message@, associated_data@, pt@));
                            let c2 = self.state@.skipped;
                            let c = old(self)@.skipped;
                            assert forall|i: int|
                                0 <= i < c2.len() implies (#[trigger] c2[i]).0.len() == 32
                                && c2[i].2.len() == 32 by {
                                if i < j as int {
                                    assert(c2[i] == c[i]);
                                } else {
                                    assert(c2[i] == c[i + 1]);
                                }
                            }
                        }
                        return Ok(pt);
                    },
                    Err(_) => {
                        proof {
                            assert(payload@.len() >= 12);
                            assert(forall|pt: Seq<u8>|
                                pt.len() < MAX_PLAINTEXT_LENGTH ==> !seal_matches(
                                    mk@,
                                    message@,
                                    associated_data@,
                                    pt,
                                ));
                        }
                        return Err(ProtocolError::DecryptionFailed);
                    },
                }
            },
            Option::None => {},
        }
        let mut st = self.state.clone_state();
        let needs_ratchet: bool = match &st.dh_remote {
            Option::Some(rk) => !vec_eq(rk, &hd),
            Option::None => true,
        };
        if needs_ratchet {
            if st.receiving_chain.is_some() {
                let remote = match &st.dh_remote {
                    Option::Some(v) => clone_bytes(v),
                    Option::None => {
                        proof {
                            assert(false);
                        }
                        Vec::new()
                    },
                };
                let res = match &mut st.receiving_chain {
                    Option::Some(rc) => derive_skips(
                        rc,
                        &mut st.skipped_message_keys,
                        &remote,
                        pn,
                        st.max_skip,
                    ),
                    Option::None => {
                        proof {
                            assert(false);
                        }
                        Ok(())
                    },
                };
                if res.is_err() {
                    proof {
                        assert(!prestep_ok(old(self)@, message@));
                    }
                    return Err(ProtocolError::InvalidMessage);
                }
                proof {
                    assert(skipped_view(st.skipped_message_keys@) == cache_after_4a(
                        old(self)@,
                        message@,
                    ));
                }
            }
            if st.dh_local.is_none() {
                return Err(ProtocolError::InvalidState);
            }
            if n > st.max_skip || n == u64::MAX {
                return Err(ProtocolError::InvalidMessage);
            }
            let ghost mid = st@;
            match dh_ratchet_step(&mut st, &hd) {
                Ok(u) => {},
                Err(_) => {
                    return Err(ProtocolError::RandomFailed);
                },
            }
            proof {
                let s = old(self)@;
                let nsk = choose|nsk: Seq<u8>|
                    nsk.len() == 32 && st@ == ratchet_step_view(mid, hd@, nsk);
                assert(ratchet_step_view(mid, hd@, nsk) =~= ratchet_step_view(
                    with_cache(s, cache_after_4a(s, message@)),
                    hd@,
                    nsk,
                ));
            }
        } else {
            match &st.receiving_chain {
                Option::Some(rc) => {
                    let idx = rc.index();
                    if n < idx {
                        return Err(ProtocolError::DecryptionFailed);
                    }
                    if n - idx > st.max_skip || n == u64::MAX {
                        return Err(ProtocolError::InvalidMessage);
                    }
                },
                Option::None => {
                    return Err(ProtocolError::InvalidState);
                },
            }
        }
        let ghost pre5 = st@;
        let res = match &mut st.receiving_chain {
            Option::Some(rc) => derive_skips(rc, &mut st.skipped_message_keys, &hd, n, st.max_skip),
            Option::None => {
                proof {
                    assert(false);
                }
                Ok(())
            },
        };
        if res.is_err() {
            proof {
                assert(false);
            }
            return Err(ProtocolError::InvalidMessage);
        }
        let mk = match &mut st.receiving_chain {
            Option::Some(rc) => rc.next_message_key(),
            Option::None => {
                proof {
                    assert(false);
                }
                Vec::new()
            },
        };
        proof {
            assert(mk@ == advanced_mk(pre5, n));
            assert(st@ =~= advanced_to(pre5, hd@, n));
        }
        let handler = match CryptoHandler::new(&mk) {
            Ok(h) => h,
            Err(_) => {
                proof {
                    assert(false);
                }
                return Err(ProtocolError::DecryptionFailed);
            },
        };
        match handler.decrypt(&payload, &aad) {
            Ok(pt) => {
                proof {
                    assert(seal_matches(mk@, message@, associated_data@, pt@));
                }
                self.state = st;
                Ok(pt)
            },
            Err(_) => {
                proof {
                    assert(payload@.len() >= 12);
                    assert(forall|pt: Seq<u8>|
                        pt.len() < MAX_PLAINTEXT_LENGTH ==> !seal_matches(
                            mk@,
                            message@,
                            associated_data@,
                            pt,
                        ));
                }
                Err(ProtocolError::DecryptionFailed)
            },
        }
    }
}

/// The initial root key, derived from the handshake shared secret.
fn initial_root_bytes(ss: &Vec<u8>) -> (r: Vec<u8>)
    ensures
        r@ == initial_root(ss@),
        r@.len() == 32,
{
    let mut salt: Vec<u8> = Vec::new();
    let mut i: usize = 0;
    while i < 32
        invariant
            salt@.len() == i,
            i <= 32,
            salt@ == zeros(i as nat),
        decreases 32 - i,
    {
        salt.push(0u8);
        proof {
            assert(salt@ =~= zeros((i + 1) as nat));
        }
        i = i + 1;
    }
    let prk = hkdf_extract(&salt, ss);
    let info = root_info_bytes();
    match hkdf_expand(&prk, &info, 32) {
        Ok(okm) => okm,
        Err(_) => {
            proof {
                assert(false);
            }
            Vec::new()
        },
    }
}

/// The ASCII bytes of the root-key label.
fn root_info_bytes() -> (v: Vec<u8>)
    ensures
        v@ == root_info(),
{
    let v: Vec<u8> = vec![114u8, 111u8, 111u8, 116u8, 95u8, 107u8, 101u8, 121u8];
    proof {
        assert(v@ =~= root_info());
    }
    v
}

/// The ASCII bytes of the sending-chain label.
fn send_chain_info_bytes() -> (v: Vec<u8>)
    ensures
        v@ == send_chain_info(),
{
    let v: Vec<u8> = vec![
        115u8,
        101u8,
        110u8,
        100u8,
        105u8,
        110u8,
        103u8,
        95u8,
        99u8,
        104u8,
        97u8,
        105u8,
        110u8,
    ];
    proof {
        assert(v@ =~= send_chain_info());
    }
    v
}

/// The ASCII bytes of the receiving-chain label.
fn recv_chain_info_bytes() -> (v: Vec<u8>)
    ensures
        v@ == recv_chain_info(),
{
    let v: Vec<u8> = vec![
        114u8,
        101u8,
        99u8,
        101u8,
        105u8,
        118u8,
        105u8,
        110u8,
        103u8,
        95u8,
        99u8,
        104u8,
        97u8,
        105u8,
        110u8,
    ];
    proof {
        assert(v@ =~= recv_chain_info());
    }
    v
}

impl DoubleRatchetSession {
    /// Serialize the session state to its canonical byte encoding.
    pub fn serialize_state(&self) -> (r: Result<Vec<u8>, ProtocolError>)
        requires
            self.wf(),
        ensures
            r matches Ok(b) ==> b@ == encode_state(self@),
            r is Ok,
    {
        Ok(serialize_state(&self.state))
    }

    /// Replace the session state by one restored from bytes. Fails with
    /// `InvalidMessage`, leaving the session unchanged, on every byte string
    /// that is not the canonical encoding of a well-formed state.
    pub fn deserialize_state(&mut self, data: &Vec<u8>) -> (r: Result<(), ProtocolError>)
        requires
            old(self).wf(),
        ensures
            final(self).wf(),
            final(self).config_view() == old(self).config_view(),
            r is Ok ==> encode_state(final(self)@) == data@,
            r is Err ==> r == Err::<(), ProtocolError>(ProtocolError::InvalidMessage)
                && final(self)@ == old(self)@,
            r is Err ==> (forall|v: RatchetView| v.wf() ==> encode_state(v) != data@),
    {
        match deserialize_state(data) {
            Ok(st) => {
                self.state = st;
                Ok(())
            },
            Err(_) => Err(ProtocolError::InvalidMessage),
        }
    }
}

/// Law: within one chain, consecutive encrypts stamp strictly increasing
/// header indices, each one more than the last; a DH ratchet step resets the
/// sending index to zero and records the index the ending sending chain had
/// reached as the previous counter, which later headers carry.
pub proof fn lemma_message_index_progression(s: RatchetView, hd: Seq<u8>, nsk: Seq<u8>)
    requires
        s.sending is Some,
        (s.sending->0).1 < u64::MAX,
    ensures
        encrypt_post(s).sending is Some,
        (encrypt_post(s).sending->0).1 == (s.sending->0).1 + 1,
        (encrypt_post(s).sending->0).1 > (s.sending->0).1,
        ratchet_step_view(s, hd, nsk).sending is Some,
        (ratchet_step_view(s, hd, nsk).sending->0).1 == 0,
        ratchet_step_view(s, hd, nsk).previous_counter == (s.sending->0).1,
{
}

/// Law: a message produced by `encrypt` decrypts at the paired peer to the
/// original plaintext. Paired means: the peer's receiving chain stands exactly
/// where the sender's sending chain stands, the peer's remote ratchet key is
/// the sender's current public key, and the peer holds no cached key for the
/// message's position. The conclusion is precisely the premise of `decrypt`'s
/// success clause for the same-chain path: decrypt then returns `Ok`, and its
/// uniqueness clause forces the returned plaintext to be this one.
pub proof fn lemma_encrypt_decrypt_in_order(
    a: RatchetView,
    b: RatchetView,
    ad: Seq<u8>,
    pt: Seq<u8>,
    nonce: Seq<u8>,
)
    requires
        a.sending is Some,
        a.dh_local is Some,
        (a.sending->0).1 < u64::MAX,
        nonce.len() == 12,
        x25519_public_of(a.dh_local->0).len() == 32,
        b.receiving == Option::Some(((a.sending->0).0, (a.sending->0).1)),
        b.dh_remote == Option::Some(x25519_public_of(a.dh_local->0)),
        !has_skipped(b.skipped, x25519_public_of(a.dh_local->0), (a.sending->0).1),
    ensures
        ({
            let m = encrypt_output(a, ad, pt, nonce);
            let n = msg_n(m);
            &&& msg_hd(m) == x25519_public_of(a.dh_local->0)
            &&& n == (a.sending->0).1
            &&& msg_pn(m) == a.previous_counter
            &&& m.len() >= 60
            &&& !has_skipped(b.skipped, msg_hd(m), n)
            &&& b.dh_remote == Option::Some(msg_hd(m))
            &&& b.receiving is Some
            &&& n >= (b.receiving->0).1
            &&& n - (b.receiving->0).1 <= b.max_skip
            &&& n < u64::MAX
            &&& seal_matches(advanced_mk(b, n), m, ad, pt)
            &&& advanced_to(b, msg_hd(m), n).receiving == Option::Some(
                (next_chain_key_of((b.receiving->0).0), ((n as nat + 1) as u64)),
            )
            &&& advanced_to(b, msg_hd(m), n).skipped == b.skipped
        }),
{
    lemma_auto_spec_u64_to_from_le_bytes();
    let sc = a.sending->0;
    let sk = a.dh_local->0;
    let pk = x25519_public_of(sk);
    let hdr = header_of(pk, sc.1, a.previous_counter);
    let m = encrypt_output(a, ad, pt, nonce);
    let sealed = aead_seal(message_key_of(sc.0), nonce, ad + hdr, pt);
    assert(hdr.len() == 48);
    assert(m == hdr + nonce + sealed);
    assert(msg_hd(m) =~= pk);
    assert(msg_header(m) =~= hdr);
    assert(msg_nonce(m) =~= nonce);
    assert(msg_body(m) =~= sealed);
    assert(m.subrange(32, 40) =~= spec_u64_to_le_bytes(sc.1));
    assert(m.subrange(40, 48) =~= spec_u64_to_le_bytes(a.previous_counter));
    let n = msg_n(m);
    assert(n == sc.1);
    assert(advanced_mk(b, n) == message_key_at(sc.0, 0));
    assert(chain_key_after(sc.0, 0) == sc.0);
    assert(seal_matches(advanced_mk(b, n), m, ad, pt));
    assert(cache_after_skips(b.skipped, b.max_skip, msg_hd(m), sc.0, sc.1, 0) == b.skipped);
    assert(chain_key_after(sc.0, 1) == next_chain_key_of(chain_key_after(sc.0, 0)));
}

/// Law (skipped-message tolerance, retention half): as long as the cache has
/// room for all the keys a chain advance skips over, none is evicted — the
/// cache afterwards holds its old entries, followed by exactly one key for
/// each skipped index, in order. With `decrypt`'s cache-hit clause this makes
/// any arrival order within a window of `max_skip` messages decryptable; the
/// rejection of larger gaps with `InvalidMessage` is part of `decrypt`'s own
/// contract.
pub proof fn lemma_skipped_keys_retained(
    cache: Seq<(Seq<u8>, u64, Seq<u8>)>,
    max: u64,
    pk: Seq<u8>,
    ck: Seq<u8>,
    from: u64,
    count: nat,
)
    requires
        cache.len() + count <= max,
        from + count <= u64::MAX,
    ensures
        cache_after_skips(cache, max, pk, ck, from, count).len() == cache.len() + count,
        forall|i: int|
            0 <= i < cache.len() ==> #[trigger] cache_after_skips(cache, max, pk, ck, from, count)[
                i
            ] == cache[i],
        forall|i: int|
            0 <= i < count ==> #[trigger] cache_after_skips(cache, max, pk, ck, from, count)[
                cache.len() + i
            ] == (pk, (from + i) as u64, message_key_at(ck, i as nat)),
    decreases count,
{
    if count > 0 {
        lemma_cache_after_skips_snoc(cache, max, pk, ck, from, (count - 1) as nat);
        lemma_skipped_keys_retained(cache, max, pk, ck, from, (count - 1) as nat);
        let shorter = cache_after_skips(cache, max, pk, ck, from, (count - 1) as nat);
        assert(shorter.len() < max);
        assert(cache_after_skips(cache, max, pk, ck, from, count) == shorter.push(
            (pk, (from + count - 1) as u64, message_key_of(chain_key_after(ck, (count - 1) as nat))),
        ));
    }
}

/// Law (exactly once, chain half): consuming index `n` advances the receiving
/// chain past `n`. A redelivery of the same message then carries an index
/// below the chain, so when no cached key matches its position, `decrypt`'s
/// contract forces `DecryptionFailed` — the chain is never rewound and the
/// consumed key is not re-derivable.
pub proof fn lemma_consumed_index_behind_chain(v: RatchetView, pk: Seq<u8>, n: u64)
    requires
        v.receiving is Some,
        n < u64::MAX,
    ensures
        advanced_to(v, pk, n).receiving is Some,
        n < (advanced_to(v, pk, n).receiving->0).1,
{
}

/// Law (exactly once, cache half): consuming a cached skipped key erases it.
/// When the cache holds at most one entry for a position — true of every
/// cache the engine itself builds, though an imported state is free to hold
/// duplicates, hence the premise — no entry for that position remains after
/// the hit, so a redelivery finds nothing and `decrypt`'s contract forces a
/// failure on that path.
pub proof fn lemma_consumed_key_erased(
    c: Seq<(Seq<u8>, u64, Seq<u8>)>,
    pk: Seq<u8>,
    n: u64,
    j: int,
)
    requires
        cache_hit_at(c, pk, n, j),
        forall|i1: int, i2: int|
            (0 <= i1 < c.len() && 0 <= i2 < c.len() && entry_matches(#[trigger] c[i1], pk, n)
                && entry_matches(#[trigger] c[i2], pk, n)) ==> i1 == i2,
    ensures
        !has_skipped(c.remove(j), pk, n),
{
    let dropped = c.remove(j);
    if has_skipped(dropped, pk, n) {
        let k = choose|i: int| 0 <= i < dropped.len() && entry_matches(#[trigger] dropped[i], pk, n);
        let fk: int = if k < j {
            k
        } else {
            k + 1
        };
        assert(dropped[k] == c[fk]);
        assert(entry_matches(c[fk], pk, n) && entry_matches(c[j], pk, n));
        assert(fk != j);
        assert(false);
    }
}

/// Law: the first message after a ratchet key change decrypts at the peer. In
/// particular, the initiator's very first message reaches a fresh responder:
/// the responder's DH ratchet step derives exactly the initiator's sending
/// chain, because both sides compute the same Diffie-Hellman secret (the
/// X25519 agreement, taken as a premise) and derive the chain under the same
/// label. The conclusion is the premise of `decrypt`'s success clause for the
/// ratchet path.
pub proof fn lemma_roundtrip_first_message(
    ss: Seq<u8>,
    ask: Seq<u8>,
    bsk: Seq<u8>,
    amax: u64,
    bmax: u64,
    ad: Seq<u8>,
    pt: Seq<u8>,
    nonce: Seq<u8>,
)
    requires
        nonce.len() == 12,
        x25519_public_of(ask).len() == 32,
        x25519_shared_of(ask, x25519_public_of(bsk)) == x25519_shared_of(
            bsk,
            x25519_public_of(ask),
        ),
    ensures
        ({
            let a = initiator_view(ss, ask, x25519_public_of(bsk), amax);
            let b = responder_view(ss, bsk, bmax);
            let m = encrypt_output(a, ad, pt, nonce);
            &&& m.len() >= 60
            &&& msg_hd(m) == x25519_public_of(ask)
            &&& msg_n(m) == 0
            &&& !has_skipped(b.skipped, msg_hd(m), msg_n(m))
            &&& b.dh_remote != Option::Some(msg_hd(m))
            &&& prestep_ok(b, m)
            &&& b.dh_local is Some
            &&& msg_n(m) <= b.max_skip
            &&& msg_n(m) < u64::MAX
            &&& seal_matches(ratchet_mk(b, m), m, ad, pt)
        }),
{
    lemma_auto_spec_u64_to_from_le_bytes();
    let a = initiator_view(ss, ask, x25519_public_of(bsk), amax);
    let b = responder_view(ss, bsk, bmax);
    let pk = x25519_public_of(ask);
    let sc = a.sending->0;
    let hdr = header_of(pk, 0u64, 0u64);
    let m = encrypt_output(a, ad, pt, nonce);
    let sealed = aead_seal(message_key_of(sc.0), nonce, ad + hdr, pt);
    assert(hdr.len() == 48);
    assert(m == hdr + nonce + sealed);
    assert(msg_hd(m) =~= pk);
    assert(msg_header(m) =~= hdr);
    assert(msg_nonce(m) =~= nonce);
    assert(msg_body(m) =~= sealed);
    assert(m.subrange(32, 40) =~= spec_u64_to_le_bytes(0u64));
    assert(msg_n(m) == 0);
    assert(ratchet_recv_chain(b, m) == kdf_chain_key(
        initial_root(ss),
        x25519_shared_of(bsk, pk),
        send_chain_info(),
    ));
    assert(ratchet_recv_chain(b, m) == sc.0);
    assert(ratchet_mk(b, m) == message_key_at(sc.0, 0));
    assert(chain_key_after(sc.0, 0) == sc.0);
    assert(seal_matches(ratchet_mk(b, m), m, ad, pt));
}

/// The ASCII bytes of the label this side derives received chains under.
fn from_peer_info_bytes(initiator: bool) -> (v: Vec<u8>)
    ensures
        v@ == from_peer_info(initiator),
{
    if initiator {
        recv_chain_info_bytes()
    } else {
        send_chain_info_bytes()
    }
}

/// The ASCII bytes of the label this side derives sent chains under.
fn to_peer_info_bytes(initiator: bool) -> (v: Vec<u8>)
    ensures
        v@ == to_peer_info(initiator),
{
    if initiator {
        send_chain_info_bytes()
    } else {
        recv_chain_info_bytes()
    }
}

/// Find the first cache entry keyed by (pk, n).
fn find_skipped(cache: &Vec<SkippedKey>, pk: &Vec<u8>, n: u64) -> (r: Option<usize>)
    ensures
        r matches Some(j) ==> (j as int) < cache@.len() && cache_hit_at(
            skipped_view(cache@),
            pk@,
            n,
            j as int,
        ),
        r is None ==> !has_skipped(skipped_view(cache@), pk@, n),
{
    let mut i: usize = 0;
    while i < cache.len()
        invariant
            i <= cache@.len(),
            forall|j: int|
                0 <= j < i ==> !entry_matches(#[trigger] skipped_view(cache@)[j], pk@, n),
        decreases cache@.len() - i,
    {
        let e = &cache[i];
        if e.index == n && vec_eq(&e.ratchet_key, pk) {
            proof {
                assert(entry_matches(skipped_view(cache@)[i as int], pk@, n));
            }
            return Some(i);
        }
        proof {
            assert(!entry_matches(skipped_view(cache@)[i as int], pk@, n));
        }
        i = i + 1;
    }
    None
}

/// Insert one entry into the bounded cache, evicting oldest entries first.
fn cache_push_exec(cache: &mut Vec<SkippedKey>, max: u64, e: SkippedKey)
    ensures
        skipped_view(final(cache)@) == cache_push(skipped_view(old(cache)@), max, e@),
{
    if max == 0 {
        return ;
    }
    let ghost orig = skipped_view(old(cache)@);
    proof {
        assert(skipped_view(cache@) =~= orig.skip(orig.len() - cache@.len()));
    }
    while (cache.len() as u64) >= max
        invariant
            max > 0,
            skipped_view(cache@) == orig.skip(orig.len() - cache@.len()),
            cache@.len() <= orig.len(),
            orig.len() < max ==> cache@.len() == orig.len(),
            orig.len() >= max ==> cache@.len() + 1 >= max,
        decreases cache@.len(),
    {
        let ghost before = cache@;
        cache.remove(0);
        proof {
            assert(skipped_view(cache@) =~= skipped_view(before).skip(1));
            assert(skipped_view(before).skip(1) =~= orig.skip(orig.len() - before.len() + 1));
        }
    }
    let ghost before_push = skipped_view(cache@);
    proof {
        if orig.len() < max {
            assert(before_push == orig.skip(0));
            assert(before_push =~= orig);
        } else {
            assert(cache@.len() + 1 == max);
            assert(before_push =~= orig.skip(orig.len() - (max - 1)));
        }
    }
    cache.push(e);
    proof {
        assert(skipped_view(cache@) =~= before_push.push(e@));
    }
}

/// Derive and cache the message keys of `chain` for all indices up to (not
/// including) `upto`, keyed by `pk` and bounded by `max`. Does nothing when
/// the chain is already at or past `upto`; fails with `InvalidMessage`, and
/// changes nothing, when the deficit exceeds `max`.
fn derive_skips(
    chain: &mut ChainKey,
    cache: &mut Vec<SkippedKey>,
    pk: &Vec<u8>,
    upto: u64,
    max: u64,
) -> (r: Result<(), ProtocolError>)
    requires
        old(chain).wf(),
        pk@.len() == 32,
        crate::codec::entries_wf(skipped_view(old(cache)@)),
        skipped_view(old(cache)@).len() <= max,
    ensures
        final(chain).wf(),
        crate::codec::entries_wf(skipped_view(final(cache)@)),
        skipped_view(final(cache)@).len() <= max,
        r is Err ==> r == Err::<(), ProtocolError>(ProtocolError::InvalidMessage) && *final(chain)
            == *old(chain) && final(cache)@ == old(cache)@,
        (r is Err) <==> (upto > old(chain)@.1 && upto - old(chain)@.1 > max),
        (r is Ok && upto <= old(chain)@.1) ==> *final(chain) == *old(chain) && final(cache)@ == old(
            cache,
        )@,
        (r is Ok && upto > old(chain)@.1) ==> final(chain)@ == (
            chain_key_after(old(chain)@.0, (upto - old(chain)@.1) as nat),
            upto,
        ) && skipped_view(final(cache)@) == cache_after_skips(
            skipped_view(old(cache)@),
            max,
            pk@,
            old(chain)@.0,
            old(chain)@.1,
            (upto - old(chain)@.1) as nat,
        ),
{
    let start = chain.index();
    if upto <= start {
        return Ok(());
    }
    if upto - start > max {
        return Err(ProtocolError::InvalidMessage);
    }
    let ghost ck0 = old(chain)@.0;
    let ghost c0 = skipped_view(old(cache)@);
    while chain.index() < upto
        invariant
            chain.wf(),
            pk@.len() == 32,
            start <= chain@.1 <= upto,
            chain@.0 == chain_key_after(ck0, (chain@.1 - start) as nat),
            skipped_view(cache@) == cache_after_skips(
                c0,
                max,
                pk@,
                ck0,
                start,
                (chain@.1 - start) as nat,
            ),
            crate::codec::entries_wf(skipped_view(cache@)),
            skipped_view(cache@).len() <= max,
        decreases upto - chain@.1,
    {
        let idx = chain.index();
        let mk = chain.next_message_key();
        let entry = SkippedKey { ratchet_key: clone_bytes(pk), index: idx, message_key: mk };
        proof {
            lemma_cache_push_wf(skipped_view(cache@), max, entry@);
        }
        cache_push_exec(cache, max, entry);
        proof {
            lemma_cache_after_skips_snoc(c0, max, pk@, ck0, start, (idx - start) as nat);
            assert(message_key_of(chain_key_after(ck0, (idx - start) as nat)) == entry@.2);
            assert(chain_key_after(ck0, ((idx - start) as nat) + 1) == next_chain_key_of(
                chain_key_after(ck0, (idx - start) as nat),
            ));
        }
    }
    Ok(())
}

/// Perform the DH ratchet step for the header ratchet key `hd`: derive a new
/// receiving chain from the current local secret, draw a fresh local secret,
/// derive a new sending chain from it, record the pre-step sending index as
/// the previous counter and remember `hd` as the peer's key.
fn dh_ratchet_step(st: &mut DoubleRatchetState, hd: &Vec<u8>) -> (r: Result<(), ProtocolError>)
    requires
        old(st).wf(),
        hd@.len() == 32,
        old(st)@.dh_local is Some,
    ensures
        final(st).wf(),
        r matches Ok(u) ==> exists|nsk: Seq<u8>|
            nsk.len() == 32 && final(st)@ == ratchet_step_view(old(st)@, hd@, nsk),
        r is Err ==> r == Err::<(), ProtocolError>(ProtocolError::RandomFailed) && final(st)@ == old(
            st,
        )@,
{
    let sk = match &st.dh_local {
        Option::Some(v) => clone_bytes(v),
        Option::None => {
            proof {
                assert(false);
            }
            return Err(ProtocolError::RandomFailed);
        },
    };
    let nsk = match os_random_bytes(32) {
        Ok(b) => b,
        Err(_) => {
            return Err(ProtocolError::RandomFailed);
        },
    };
    let sh1 = x25519_shared(&sk, hd);
    let label_recv = from_peer_info_bytes(st.initiator);
    let (root_mid, rchain) = derive_pair(&st.root_key, &sh1, &label_recv);
    let sh2 = x25519_shared(&nsk, hd);
    let label_send = to_peer_info_bytes(st.initiator);
    let (root_new, schain) = derive_pair(&root_mid, &sh2, &label_send);
    st.previous_counter = match &st.sending_chain {
        Option::Some(c) => c.index(),
        Option::None => 0,
    };
    st.root_key = root_new;
    st.sending_chain = Option::Some(ChainKey::new(schain));
    st.receiving_chain = Option::Some(ChainKey::new(rchain));
    st.dh_local = Option::Some(nsk);
    st.dh_remote = Option::Some(clone_bytes(hd));
    proof {
        let nskv = st.dh_local->0@;
        assert(final(st)@ =~= ratchet_step_view(old(st)@, hd@, nskv));
    }
    Ok(())
}

/// One HKDF ratchet derivation: from the current root key and a DH shared
/// secret, derive the next root key and a chain key under the given label.
fn derive_pair(root: &Vec<u8>, dh: &Vec<u8>, label: &Vec<u8>) -> (r: (Vec<u8>, Vec<u8>))
    requires
        label@.len() <= 8160,
    ensures
        r.0@ == kdf_next_root(root@, dh@),
        r.1@ == kdf_chain_key(root@, dh@, label@),
        r.0@.len() == 32,
        r.1@.len() == 32,
{
    let prk = hkdf_extract(root, dh);
    let info_root = root_info_bytes();
    let new_root = match hkdf_expand(&prk, &info_root, 32) {
        Ok(okm) => okm,
        Err(_) => {
            proof {
                assert(false);
            }
            Vec::new()
        },
    };
    let chain = match hkdf_expand(&prk, label, 32) {
        Ok(okm) => okm,
        Err(_) => {
            proof {
                assert(false);
            }
            Vec::new()
        },
    };
    (new_root, chain)
}

} // verus!

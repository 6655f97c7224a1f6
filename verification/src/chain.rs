//! Symmetric key ladder: each advance emits one message key and replaces the
//! chain key with its successor.

use vstd::prelude::*;

use crate::primitives::hmac_of;
use crate::primitives::hmac_sha256;

verus! {

/// The message key emitted when advancing a chain whose key is `ck`:
/// HMAC-SHA256 of the one-byte domain separator 0x01 under `ck`.
pub open spec fn message_key_of(ck: Seq<u8>) -> Seq<u8> {
    hmac_of(ck, seq![1u8])
}

/// The successor chain key: HMAC-SHA256 of the one-byte domain separator 0x02
/// under the current chain key.
pub open spec fn next_chain_key_of(ck: Seq<u8>) -> Seq<u8> {
    hmac_of(ck, seq![2u8])
}

/// The chain key after `n` advances from `ck`.
pub open spec fn chain_key_after(ck: Seq<u8>, n: nat) -> Seq<u8>
    decreases n,
{
    if n == 0 {
        ck
    } else {
        next_chain_key_of(chain_key_after(ck, (n - 1) as nat))
    }
}

/// The i-th message key emitted by a chain seeded with `seed`.
pub open spec fn message_key_at(seed: Seq<u8>, i: nat) -> Seq<u8> {
    message_key_of(chain_key_after(seed, i))
}

/// Advancing `n + 1` times from a seed lands where advancing `n` times from the
/// seed's successor does.
pub proof fn lemma_chain_key_after_shift(ck: Seq<u8>, n: nat)
    ensures
        chain_key_after(ck, n + 1) == chain_key_after(next_chain_key_of(ck), n),
    decreases n,
{
    if n == 0 {
        assert(chain_key_after(ck, 1) == next_chain_key_of(chain_key_after(ck, 0)));
    } else {
        lemma_chain_key_after_shift(ck, (n - 1) as nat);
        assert(chain_key_after(ck, n + 1) == next_chain_key_of(chain_key_after(ck, n)));
        assert(chain_key_after(next_chain_key_of(ck), n) == next_chain_key_of(
            chain_key_after(next_chain_key_of(ck), (n - 1) as nat),
        ));
    }
}

/// Chain key for the double ratchet: a 32-byte secret and the count of
/// advances performed so far.
pub struct ChainKey {
    pub key: Vec<u8>,
    pub index: u64,
}

impl View for ChainKey {
    type V = (Seq<u8>, u64);

    open spec fn view(&self) -> (Seq<u8>, u64) {
        (self.key@, self.index)
    }
}

impl ChainKey {
    /// The chain key bytes are always 32 bytes long.
    pub open spec fn wf(&self) -> bool {
        self.key@.len() == 32
    }

    /// Start a chain at index 0 from a 32-byte key.
    pub fn new(key: Vec<u8>) -> (r: ChainKey)
        requires
            key@.len() == 32,
        ensures
            r@ == (key@, 0u64),
            r.wf(),
    {
        ChainKey { key, index: 0 }
    }

    /// Restore a chain from its key bytes and advance count.
    pub fn with_index(key: Vec<u8>, index: u64) -> (r: ChainKey)
        requires
            key@.len() == 32,
        ensures
            r@ == (key@, index),
            r.wf(),
    {
        ChainKey { key, index }
    }

    /// The number of advances performed so far.
    pub fn index(&self) -> (r: u64)
        ensures
            r == self@.1,
    {
        self.index
    }

    /// The current chain key bytes.
    pub fn key_bytes(&self) -> (r: &Vec<u8>)
        ensures
            r@ == self@.0,
    {
        &self.key
    }

    /// Advance the ladder once: emit the message key derived from the current
    /// chain key, install the successor chain key, and count the advance.
    pub fn next_message_key(&mut self) -> (mk: Vec<u8>)
        requires
            old(self).wf(),
            old(self)@.1 < u64::MAX,
        ensures
            final(self).wf(),
            mk@ == message_key_of(old(self)@.0),
            mk@.len() == 32,
            final(self)@.0 == next_chain_key_of(old(self)@.0),
            final(self)@.1 == old(self)@.1 + 1,
    {
        let tag_mk: Vec<u8> = vec![1u8];
        let tag_ck: Vec<u8> = vec![2u8];
        let mk = hmac_sha256(&self.key, &tag_mk);
        let next = hmac_sha256(&self.key, &tag_ck);
        proof {
            assert(tag_mk@ =~= seq![1u8]);
            assert(tag_ck@ =~= seq![2u8]);
        }
        self.key = next;
        self.index = self.index + 1;
        mk
    }

    /// An observationally identical copy of the chain.
    pub fn duplicate(&self) -> (r: ChainKey)
        ensures
            r@ == self@,
            r.wf() == self.wf(),
    {
        ChainKey { key: clone_bytes(&self.key), index: self.index }
    }
}

/// Law: a chain's behaviour is determined by its seed alone. Two chains
/// seeded with equal bytes emit, at every position, the same message key and
/// hold the same chain key.
pub proof fn lemma_chain_determinism(seed: Seq<u8>, other: Seq<u8>, i: nat)
    requires
        seed == other,
    ensures
        message_key_at(seed, i) == message_key_at(other, i),
        chain_key_after(seed, i) == chain_key_after(other, i),
{
}

/// Copy a byte vector; the copy's view equals the original's.
pub fn clone_bytes(v: &Vec<u8>) -> (r: Vec<u8>)
    ensures
        r@ == v@,
{
    let mut out: Vec<u8> = Vec::new();
    let mut i: usize = 0;
    while i < v.len()
        invariant
            i <= v@.len(),
            out@ == v@.subrange(0, i as int),
        decreases v@.len() - i,
    {
        out.push(v[i]);
        proof {
            assert(out@ =~= v@.subrange(0, i + 1 as int));
        }
        i = i + 1;
    }
    proof {
        assert(out@ =~= v@);
    }
    out
}

} // verus!

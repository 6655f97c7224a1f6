//! In-memory representation of one peer's ratchet.

use vstd::prelude::*;

use crate::chain::clone_bytes;
use crate::chain::ChainKey;

verus! {

/// A message key that was derived but not yet consumed, cached under the
/// ratchet public key of its chain and its index within that chain.
pub struct SkippedKey {
    pub ratchet_key: Vec<u8>,
    pub index: u64,
    pub message_key: Vec<u8>,
}

impl View for SkippedKey {
    type V = (Seq<u8>, u64, Seq<u8>);

    open spec fn view(&self) -> (Seq<u8>, u64, Seq<u8>) {
        (self.ratchet_key@, self.index, self.message_key@)
    }
}

impl SkippedKey {
    /// Ratchet public keys and message keys are 32 bytes.
    pub open spec fn wf(&self) -> bool {
        self.ratchet_key@.len() == 32 && self.message_key@.len() == 32
    }
}

/// The mathematical value of a skipped-key cache, in insertion order.
pub open spec fn skipped_view(s: Seq<SkippedKey>) -> Seq<(Seq<u8>, u64, Seq<u8>)> {
    s.map_values(|e: SkippedKey| e@)
}

/// The mathematical value of a ratchet state.
#[verifier::ext_equal]
pub struct RatchetView {
    pub root_key: Seq<u8>,
    pub sending: Option<(Seq<u8>, u64)>,
    pub receiving: Option<(Seq<u8>, u64)>,
    pub dh_local: Option<Seq<u8>>,
    pub dh_remote: Option<Seq<u8>>,
    pub skipped: Seq<(Seq<u8>, u64, Seq<u8>)>,
    pub max_skip: u64,
    pub previous_counter: u64,
    pub initiator: bool,
}

impl RatchetView {
    /// Well-formedness of a state value: all key material is 32 bytes, the
    /// cache respects its bound, and a receiving chain always comes with the
    /// ratchet key of the peer that feeds it.
    pub open spec fn wf(self) -> bool {
        &&& self.root_key.len() == 32
        &&& (self.sending matches Some(c) ==> c.0.len() == 32)
        &&& (self.receiving matches Some(c) ==> c.0.len() == 32)
        &&& (self.dh_local matches Some(k) ==> k.len() == 32)
        &&& (self.dh_remote matches Some(k) ==> k.len() == 32)
        &&& (forall|i: int|
            0 <= i < self.skipped.len() ==> (#[trigger] self.skipped[i]).0.len() == 32
                && self.skipped[i].2.len() == 32)
        &&& self.skipped.len() <= self.max_skip
        &&& (self.receiving is Some ==> self.dh_remote is Some)
    }
}

/// Per-session double-ratchet state.
pub struct DoubleRatchetState {
    pub root_key: Vec<u8>,
    pub sending_chain: Option<ChainKey>,
    pub receiving_chain: Option<ChainKey>,
    pub dh_local: Option<Vec<u8>>,
    pub dh_remote: Option<Vec<u8>>,
    pub skipped_message_keys: Vec<SkippedKey>,
    pub max_skip: u64,
    pub previous_counter: u64,
    pub initiator: bool,
}

/// The value of an optional chain key.
pub open spec fn chain_view(c: Option<ChainKey>) -> Option<(Seq<u8>, u64)> {
    match c {
        Option::None => Option::None,
        Option::Some(k) => Option::Some(k@),
    }
}

/// The value of optional key bytes.
pub open spec fn bytes_view(b: Option<Vec<u8>>) -> Option<Seq<u8>> {
    match b {
        Option::None => Option::None,
        Option::Some(v) => Option::Some(v@),
    }
}

impl View for DoubleRatchetState {
    type V = RatchetView;

    open spec fn view(&self) -> RatchetView {
        RatchetView {
            root_key: self.root_key@,
            sending: chain_view(self.sending_chain),
            receiving: chain_view(self.receiving_chain),
            dh_local: bytes_view(self.dh_local),
            dh_remote: bytes_view(self.dh_remote),
            skipped: skipped_view(self.skipped_message_keys@),
            max_skip: self.max_skip,
            previous_counter: self.previous_counter,
            initiator: self.initiator,
        }
    }
}

impl DoubleRatchetState {
    /// The state's value is well-formed.
    pub open spec fn wf(&self) -> bool {
        self@.wf()
    }

    /// An observationally identical copy of the state.
    pub fn clone_state(&self) -> (r: DoubleRatchetState)
        ensures
            r@ == self@,
    {
        let sending_chain = match &self.sending_chain {
            Option::Some(c) => Option::Some(c.duplicate()),
            Option::None => Option::None,
        };
        let receiving_chain = match &self.receiving_chain {
            Option::Some(c) => Option::Some(c.duplicate()),
            Option::None => Option::None,
        };
        let dh_local = match &self.dh_local {
            Option::Some(v) => Option::Some(clone_bytes(v)),
            Option::None => Option::None,
        };
        let dh_remote = match &self.dh_remote {
            Option::Some(v) => Option::Some(clone_bytes(v)),
            Option::None => Option::None,
        };
        let mut skipped: Vec<SkippedKey> = Vec::new();
        let mut i: usize = 0;
        while i < self.skipped_message_keys.len()
            invariant
                i <= self.skipped_message_keys@.len(),
                skipped@.len() == i,
                forall|j: int| 0 <= j < i ==> (#[trigger] skipped@[j])@
                    == self.skipped_message_keys@[j]@,
            decreases self.skipped_message_keys@.len() - i,
        {
            let e = &self.skipped_message_keys[i];
            skipped.push(
                SkippedKey {
                    ratchet_key: clone_bytes(&e.ratchet_key),
                    index: e.index,
                    message_key: clone_bytes(&e.message_key),
                },
            );
            i = i + 1;
        }
        let r = DoubleRatchetState {
            root_key: clone_bytes(&self.root_key),
            sending_chain,
            receiving_chain,
            dh_local,
            dh_remote,
            skipped_message_keys: skipped,
            max_skip: self.max_skip,
            previous_counter: self.previous_counter,
            initiator: self.initiator,
        };
        proof {
            assert(skipped_view(r.skipped_message_keys@) =~= skipped_view(
                self.skipped_message_keys@,
            ));
            assert(chain_view(r.sending_chain) == chain_view(self.sending_chain));
            assert(chain_view(r.receiving_chain) == chain_view(self.receiving_chain));
        }
        r
    }
}

} // verus!

//! Deterministic byte format for ratchet state.
//!
//! The format is internal. It is canonical: every well-formed state has
//! exactly one encoding, absent fields are tagged 0 with zero filler, and the
//! decoder rejects every byte string that is not the encoding of a
//! well-formed state. This makes serialization injective and the round trip
//! exact.

use vstd::prelude::*;
use vstd::bytes::lemma_auto_spec_u64_to_from_le_bytes;
use vstd::bytes::spec_u64_from_le_bytes;
use vstd::bytes::spec_u64_to_le_bytes;
use vstd::bytes::u64_from_le_bytes;
use vstd::bytes::u64_to_le_bytes;

use crate::chain::ChainKey;
use crate::errors::ProtocolError;
use crate::state::bytes_view;
use crate::state::chain_view;
use crate::state::skipped_view;
use crate::state::DoubleRatchetState;
use crate::state::RatchetView;
use crate::state::SkippedKey;

verus! {

/// `n` zero bytes.
pub open spec fn zeros(n: nat) -> Seq<u8> {
    Seq::new(n, |i: int| 0u8)
}

/// 0 or 1 standing for a boolean.
pub open spec fn bool_byte(b: bool) -> u8 {
    if b {
        1u8
    } else {
        0u8
    }
}

/// Encoding of optional 32-byte key material: a tag byte, then the bytes, or
/// zero filler when absent. Always 33 bytes.
pub open spec fn enc_opt_bytes(o: Option<Seq<u8>>) -> Seq<u8> {
    match o {
        Option::None => seq![0u8] + zeros(32),
        Option::Some(b) => seq![1u8] + b,
    }
}

/// Encoding of an optional chain: a tag byte, 32 key bytes and the
/// little-endian index, or zero filler when absent. Always 41 bytes.
pub open spec fn enc_opt_chain(c: Option<(Seq<u8>, u64)>) -> Seq<u8> {
    match c {
        Option::None => seq![0u8] + zeros(40),
        Option::Some(p) => seq![1u8] + p.0 + spec_u64_to_le_bytes(p.1),
    }
}

/// Encoding of one skipped-key cache entry: ratchet key, little-endian index,
/// message key. Always 72 bytes.
pub open spec fn enc_entry(e: (Seq<u8>, u64, Seq<u8>)) -> Seq<u8> {
    e.0 + spec_u64_to_le_bytes(e.1) + e.2
}

/// Encoding of the cache, in insertion order.
pub open spec fn enc_entries(s: Seq<(Seq<u8>, u64, Seq<u8>)>) -> Seq<u8>
    decreases s.len(),
{
    if s.len() == 0 {
        Seq::empty()
    } else {
        enc_entry(s[0]) + enc_entries(s.skip(1))
    }
}

/// The fixed-length part of a state encoding: version byte, root key, the two
/// chains, the two ratchet keys, role flag, previous counter, skip bound and
/// cache length. Always 206 bytes.
pub open spec fn enc_fixed(v: RatchetView) -> Seq<u8> {
    seq![1u8] + v.root_key + enc_opt_chain(v.sending) + enc_opt_chain(v.receiving) + enc_opt_bytes(
        v.dh_local,
    ) + enc_opt_bytes(v.dh_remote) + seq![bool_byte(v.initiator)] + spec_u64_to_le_bytes(
        v.previous_counter,
    ) + spec_u64_to_le_bytes(v.max_skip) + spec_u64_to_le_bytes(v.skipped.len() as u64)
}

/// The encoding of a whole ratchet state.
pub open spec fn encode_state(v: RatchetView) -> Seq<u8> {
    enc_fixed(v) + enc_entries(v.skipped)
}

/// Shape of an optional-bytes section.
proof fn lemma_opt_bytes_shape(o: Option<Seq<u8>>)
    requires
        o matches Some(b) ==> b.len() == 32,
    ensures
        enc_opt_bytes(o).len() == 33,
        o is Some ==> enc_opt_bytes(o)[0] == 1,
        o is None ==> enc_opt_bytes(o)[0] == 0,
        o matches Some(b) ==> enc_opt_bytes(o).subrange(1, 33) == b,
        o is None ==> enc_opt_bytes(o).subrange(1, 33) == zeros(32),
{
    match o {
        Option::None => {
            assert(enc_opt_bytes(o).subrange(1, 33) =~= zeros(32));
        },
        Option::Some(b) => {
            assert(enc_opt_bytes(o).subrange(1, 33) =~= b);
        },
    }
}

/// Shape of an optional-chain section.
proof fn lemma_opt_chain_shape(c: Option<(Seq<u8>, u64)>)
    requires
        c matches Some(p) ==> p.0.len() == 32,
    ensures
        enc_opt_chain(c).len() == 41,
        c is Some ==> enc_opt_chain(c)[0] == 1,
        c is None ==> enc_opt_chain(c)[0] == 0,
        c matches Some(p) ==> enc_opt_chain(c).subrange(1, 33) == p.0,
        c matches Some(p) ==> enc_opt_chain(c).subrange(33, 41) == spec_u64_to_le_bytes(p.1),
        c is None ==> enc_opt_chain(c).subrange(1, 41) == zeros(40),
{
    lemma_auto_spec_u64_to_from_le_bytes();
    match c {
        Option::None => {
            assert(enc_opt_chain(c).subrange(1, 41) =~= zeros(40));
        },
        Option::Some(p) => {
            assert(enc_opt_chain(c).subrange(1, 33) =~= p.0);
            assert(enc_opt_chain(c).subrange(33, 41) =~= spec_u64_to_le_bytes(p.1));
        },
    }
}

/// Shape of one cache-entry section.
proof fn lemma_entry_shape(e: (Seq<u8>, u64, Seq<u8>))
    requires
        e.0.len() == 32,
        e.2.len() == 32,
    ensures
        enc_entry(e).len() == 72,
        enc_entry(e).subrange(0, 32) == e.0,
        enc_entry(e).subrange(32, 40) == spec_u64_to_le_bytes(e.1),
        enc_entry(e).subrange(40, 72) == e.2,
{
    lemma_auto_spec_u64_to_from_le_bytes();
    assert(enc_entry(e).subrange(0, 32) =~= e.0);
    assert(enc_entry(e).subrange(32, 40) =~= spec_u64_to_le_bytes(e.1));
    assert(enc_entry(e).subrange(40, 72) =~= e.2);
}

/// Entry-wise well-formedness of a cache value.
pub open spec fn entries_wf(s: Seq<(Seq<u8>, u64, Seq<u8>)>) -> bool {
    forall|i: int| 0 <= i < s.len() ==> (#[trigger] s[i]).0.len() == 32 && s[i].2.len() == 32
}

/// Length of the cache section.
proof fn lemma_entries_len(s: Seq<(Seq<u8>, u64, Seq<u8>)>)
    requires
        entries_wf(s),
    ensures
        enc_entries(s).len() == 72 * s.len(),
    decreases s.len(),
{
    if s.len() > 0 {
        lemma_entry_shape(s[0]);
        assert(entries_wf(s.skip(1)));
        lemma_entries_len(s.skip(1));
    }
}

/// Appending one entry appends its 72-byte encoding.
proof fn lemma_entries_snoc(s: Seq<(Seq<u8>, u64, Seq<u8>)>, e: (Seq<u8>, u64, Seq<u8>))
    ensures
        enc_entries(s.push(e)) == enc_entries(s) + enc_entry(e),
    decreases s.len(),
{
    if s.len() == 0 {
        assert(s.push(e)[0] == e);
        assert(s.push(e).skip(1) =~= Seq::<(Seq<u8>, u64, Seq<u8>)>::empty());
        assert(enc_entries(s.push(e).skip(1)) == Seq::<u8>::empty());
        assert(enc_entries(s.push(e)) == enc_entry(e) + Seq::<u8>::empty());
        assert(enc_entries(s) == Seq::<u8>::empty());
        assert(enc_entry(e) + Seq::<u8>::empty() =~= Seq::<u8>::empty() + enc_entry(e));
        assert(enc_entries(s.push(e)) =~= enc_entries(s) + enc_entry(e));
    } else {
        assert(s.push(e).skip(1) =~= s.skip(1).push(e));
        lemma_entries_snoc(s.skip(1), e);
        assert(s.push(e)[0] == s[0]);
        assert(enc_entries(s.push(e)) == enc_entry(s[0]) + enc_entries(s.skip(1).push(e)));
        assert(enc_entries(s.push(e)) == enc_entry(s[0]) + (enc_entries(s.skip(1)) + enc_entry(
            e,
        )));
        assert(enc_entries(s) == enc_entry(s[0]) + enc_entries(s.skip(1)));
        assert(enc_entry(s[0]) + (enc_entries(s.skip(1)) + enc_entry(e)) =~= (enc_entry(s[0])
            + enc_entries(s.skip(1))) + enc_entry(e));
        assert(enc_entries(s.push(e)) =~= enc_entries(s) + enc_entry(e));
    }
}

/// The cache section decomposes entry by entry.
proof fn lemma_entries_extract(s: Seq<(Seq<u8>, u64, Seq<u8>)>, i: int)
    requires
        entries_wf(s),
        0 <= i < s.len(),
    ensures
        enc_entries(s).subrange(72 * i, 72 * i + 72) == enc_entry(s[i]),
    decreases i,
{
    lemma_entries_len(s);
    lemma_entry_shape(s[0]);
    assert(entries_wf(s.skip(1)));
    lemma_entries_len(s.skip(1));
    if i == 0 {
        assert(enc_entries(s).subrange(0, 72) =~= enc_entry(s[0]));
    } else {
        lemma_entries_extract(s.skip(1), i - 1);
        assert(s.skip(1)[i - 1] == s[i]);
        assert(enc_entries(s).subrange(72 * i, 72 * i + 72) =~= enc_entries(s.skip(1)).subrange(
            72 * (i - 1),
            72 * (i - 1) + 72,
        ));
    }
}

/// Offsets and field values of the fixed part of an encoding.
proof fn lemma_fixed_shape(v: RatchetView)
    requires
        v.wf(),
    ensures
        enc_fixed(v).len() == 206,
        enc_fixed(v)[0] == 1,
        enc_fixed(v).subrange(1, 33) == v.root_key,
        enc_fixed(v).subrange(33, 74) == enc_opt_chain(v.sending),
        enc_fixed(v).subrange(74, 115) == enc_opt_chain(v.receiving),
        enc_fixed(v).subrange(115, 148) == enc_opt_bytes(v.dh_local),
        enc_fixed(v).subrange(148, 181) == enc_opt_bytes(v.dh_remote),
        enc_fixed(v)[181] == bool_byte(v.initiator),
        enc_fixed(v).subrange(182, 190) == spec_u64_to_le_bytes(v.previous_counter),
        enc_fixed(v).subrange(190, 198) == spec_u64_to_le_bytes(v.max_skip),
        enc_fixed(v).subrange(198, 206) == spec_u64_to_le_bytes(v.skipped.len() as u64),
{
    lemma_auto_spec_u64_to_from_le_bytes();
    lemma_opt_chain_shape(v.sending);
    lemma_opt_chain_shape(v.receiving);
    lemma_opt_bytes_shape(v.dh_local);
    lemma_opt_bytes_shape(v.dh_remote);
    assert(enc_fixed(v).subrange(1, 33) =~= v.root_key);
    assert(enc_fixed(v).subrange(33, 74) =~= enc_opt_chain(v.sending));
    assert(enc_fixed(v).subrange(74, 115) =~= enc_opt_chain(v.receiving));
    assert(enc_fixed(v).subrange(115, 148) =~= enc_opt_bytes(v.dh_local));
    assert(enc_fixed(v).subrange(148, 181) =~= enc_opt_bytes(v.dh_remote));
    assert(enc_fixed(v).subrange(182, 190) =~= spec_u64_to_le_bytes(v.previous_counter));
    assert(enc_fixed(v).subrange(190, 198) =~= spec_u64_to_le_bytes(v.max_skip));
    assert(enc_fixed(v).subrange(198, 206) =~= spec_u64_to_le_bytes(v.skipped.len() as u64));
}

/// Offsets of a whole encoding.
proof fn lemma_encode_shape(v: RatchetView)
    requires
        v.wf(),
    ensures
        encode_state(v).len() == 206 + 72 * v.skipped.len(),
        encode_state(v).subrange(0, 206) == enc_fixed(v),
        encode_state(v).skip(206) == enc_entries(v.skipped),
{
    lemma_fixed_shape(v);
    lemma_entries_len(v.skipped);
    assert(encode_state(v).subrange(0, 206) =~= enc_fixed(v));
    assert(encode_state(v).skip(206) =~= enc_entries(v.skipped));
}

/// Law: serialization is injective on well-formed states — equal encodings
/// come only from equal states. Together with the decoder's contract this
/// gives the round trip: deserializing a serialized state restores it exactly,
/// and re-serializing yields the same bytes.
pub proof fn lemma_encode_injective(a: RatchetView, b: RatchetView)
    requires
        a.wf(),
        b.wf(),
        encode_state(a) == encode_state(b),
    ensures
        a == b,
{
    lemma_auto_spec_u64_to_from_le_bytes();
    lemma_encode_shape(a);
    lemma_encode_shape(b);
    lemma_fixed_shape(a);
    lemma_fixed_shape(b);
    lemma_opt_chain_shape(a.sending);
    lemma_opt_chain_shape(b.sending);
    lemma_opt_chain_shape(a.receiving);
    lemma_opt_chain_shape(b.receiving);
    lemma_opt_bytes_shape(a.dh_local);
    lemma_opt_bytes_shape(b.dh_local);
    lemma_opt_bytes_shape(a.dh_remote);
    lemma_opt_bytes_shape(b.dh_remote);
    let ea = encode_state(a);
    let eb = encode_state(b);
    assert(enc_fixed(a) == enc_fixed(b)) by {
        assert(ea.subrange(0, 206) == eb.subrange(0, 206));
    }
    assert(a.root_key == b.root_key) by {
        assert(enc_fixed(a).subrange(1, 33) == enc_fixed(b).subrange(1, 33));
    }
    lemma_opt_chain_eq(a.sending, b.sending);
    lemma_opt_chain_eq(a.receiving, b.receiving);
    lemma_opt_bytes_eq(a.dh_local, b.dh_local);
    lemma_opt_bytes_eq(a.dh_remote, b.dh_remote);
    assert(a.initiator == b.initiator) by {
        assert(enc_fixed(a)[181] == enc_fixed(b)[181]);
    }
    assert(a.previous_counter == b.previous_counter) by {
        assert(enc_fixed(a).subrange(182, 190) == enc_fixed(b).subrange(182, 190));
        assert(spec_u64_from_le_bytes(spec_u64_to_le_bytes(a.previous_counter))
            == spec_u64_from_le_bytes(spec_u64_to_le_bytes(b.previous_counter)));
    }
    assert(a.max_skip == b.max_skip) by {
        assert(enc_fixed(a).subrange(190, 198) == enc_fixed(b).subrange(190, 198));
        assert(spec_u64_from_le_bytes(spec_u64_to_le_bytes(a.max_skip)) == spec_u64_from_le_bytes(
            spec_u64_to_le_bytes(b.max_skip),
        ));
    }
    assert(a.skipped.len() == b.skipped.len()) by {
        assert(enc_fixed(a).subrange(198, 206) == enc_fixed(b).subrange(198, 206));
        assert(spec_u64_from_le_bytes(spec_u64_to_le_bytes(a.skipped.len() as u64))
            == spec_u64_from_le_bytes(spec_u64_to_le_bytes(b.skipped.len() as u64)));
    }
    assert(a.skipped =~= b.skipped) by {
        assert(enc_entries(a.skipped) == enc_entries(b.skipped)) by {
            assert(ea.skip(206) == eb.skip(206));
        }
        assert forall|i: int| 0 <= i < a.skipped.len() implies a.skipped[i] == b.skipped[i] by {
            lemma_entries_extract(a.skipped, i);
            lemma_entries_extract(b.skipped, i);
            lemma_entry_shape(a.skipped[i]);
            lemma_entry_shape(b.skipped[i]);
            let x = a.skipped[i];
            let y = b.skipped[i];
            assert(enc_entry(x) == enc_entry(y));
            assert(x.0 == y.0) by {
                assert(enc_entry(x).subrange(0, 32) == enc_entry(y).subrange(0, 32));
            }
            assert(x.1 == y.1) by {
                assert(enc_entry(x).subrange(32, 40) == enc_entry(y).subrange(32, 40));
                assert(spec_u64_from_le_bytes(spec_u64_to_le_bytes(x.1)) == spec_u64_from_le_bytes(
                    spec_u64_to_le_bytes(y.1),
                ));
            }
            assert(x.2 == y.2) by {
                assert(enc_entry(x).subrange(40, 72) == enc_entry(y).subrange(40, 72));
            }
        }
    }
    assert(a =~= b);
}

/// A byte string that equals a well-formed encoding satisfies the format's
/// layout; the field values can be read off at their offsets.
proof fn lemma_valid_encoding_facts(v: RatchetView, d: Seq<u8>)
    requires
        v.wf(),
        encode_state(v) == d,
    ensures
        d.len() == 206 + 72 * v.skipped.len(),
        d[0] == 1,
        d.subrange(1, 33) == v.root_key,
        d.subrange(33, 74) == enc_opt_chain(v.sending),
        d.subrange(74, 115) == enc_opt_chain(v.receiving),
        d.subrange(115, 148) == enc_opt_bytes(v.dh_local),
        d.subrange(148, 181) == enc_opt_bytes(v.dh_remote),
        d[181] == bool_byte(v.initiator),
        d.subrange(182, 190) == spec_u64_to_le_bytes(v.previous_counter),
        d.subrange(190, 198) == spec_u64_to_le_bytes(v.max_skip),
        d.subrange(198, 206) == spec_u64_to_le_bytes(v.skipped.len() as u64),
        d.skip(206) == enc_entries(v.skipped),
{
    lemma_encode_shape(v);
    lemma_fixed_shape(v);
    assert(d.subrange(0, 206) == enc_fixed(v));
    assert(d[0] == d.subrange(0, 206)[0]);
    assert(d[181] == d.subrange(0, 206)[181]);
    assert(d.subrange(1, 33) =~= d.subrange(0, 206).subrange(1, 33));
    assert(d.subrange(33, 74) =~= d.subrange(0, 206).subrange(33, 74));
    assert(d.subrange(74, 115) =~= d.subrange(0, 206).subrange(74, 115));
    assert(d.subrange(115, 148) =~= d.subrange(0, 206).subrange(115, 148));
    assert(d.subrange(148, 181) =~= d.subrange(0, 206).subrange(148, 181));
    assert(d.subrange(182, 190) =~= d.subrange(0, 206).subrange(182, 190));
    assert(d.subrange(190, 198) =~= d.subrange(0, 206).subrange(190, 198));
    assert(d.subrange(198, 206) =~= d.subrange(0, 206).subrange(198, 206));
}

/// A byte string whose sections all carry the encodings of a state's fields is
/// that state's encoding.
proof fn lemma_assemble(v: RatchetView, d: Seq<u8>)
    requires
        v.wf(),
        d.len() == 206 + 72 * v.skipped.len(),
        d[0] == 1,
        d.subrange(1, 33) == v.root_key,
        d.subrange(33, 74) == enc_opt_chain(v.sending),
        d.subrange(74, 115) == enc_opt_chain(v.receiving),
        d.subrange(115, 148) == enc_opt_bytes(v.dh_local),
        d.subrange(148, 181) == enc_opt_bytes(v.dh_remote),
        d[181] == bool_byte(v.initiator),
        d.subrange(182, 190) == spec_u64_to_le_bytes(v.previous_counter),
        d.subrange(190, 198) == spec_u64_to_le_bytes(v.max_skip),
        d.subrange(198, 206) == spec_u64_to_le_bytes(v.skipped.len() as u64),
        d.skip(206) == enc_entries(v.skipped),
    ensures
        encode_state(v) == d,
{
    lemma_encode_shape(v);
    lemma_fixed_shape(v);
    let f = enc_fixed(v);
    assert forall|i: int| 0 <= i < 206 implies d.subrange(0, 206)[i] == f[i] by {
        if i == 0 {
        } else if i < 33 {
            assert(d.subrange(1, 33)[i - 1] == f.subrange(1, 33)[i - 1]);
        } else if i < 74 {
            assert(d.subrange(33, 74)[i - 33] == f.subrange(33, 74)[i - 33]);
        } else if i < 115 {
            assert(d.subrange(74, 115)[i - 74] == f.subrange(74, 115)[i - 74]);
        } else if i < 148 {
            assert(d.subrange(115, 148)[i - 115] == f.subrange(115, 148)[i - 115]);
        } else if i < 181 {
            assert(d.subrange(148, 181)[i - 148] == f.subrange(148, 181)[i - 148]);
        } else if i == 181 {
        } else if i < 190 {
            assert(d.subrange(182, 190)[i - 182] == f.subrange(182, 190)[i - 182]);
        } else if i < 198 {
            assert(d.subrange(190, 198)[i - 190] == f.subrange(190, 198)[i - 190]);
        } else {
            assert(d.subrange(198, 206)[i - 198] == f.subrange(198, 206)[i - 198]);
        }
    }
    assert(d.subrange(0, 206) =~= f);
    assert forall|i: int| 0 <= i < d.len() implies d[i] == encode_state(v)[i] by {
        if i < 206 {
            assert(d.subrange(0, 206)[i] == f[i]);
        } else {
            assert(d.skip(206)[i - 206] == enc_entries(v.skipped)[i - 206]);
        }
    }
    assert(d =~= encode_state(v));
}

/// Equal encodings of optional chains come from equal values.
proof fn lemma_opt_chain_eq(a: Option<(Seq<u8>, u64)>, b: Option<(Seq<u8>, u64)>)
    requires
        a matches Some(p) ==> p.0.len() == 32,
        b matches Some(p) ==> p.0.len() == 32,
        enc_opt_chain(a) == enc_opt_chain(b),
    ensures
        a == b,
{
    lemma_auto_spec_u64_to_from_le_bytes();
    lemma_opt_chain_shape(a);
    lemma_opt_chain_shape(b);
    assert(enc_opt_chain(a)[0] == enc_opt_chain(b)[0]);
    match (a, b) {
        (Option::Some(p), Option::Some(q)) => {
            assert(enc_opt_chain(a).subrange(1, 33) == enc_opt_chain(b).subrange(1, 33));
            assert(enc_opt_chain(a).subrange(33, 41) == enc_opt_chain(b).subrange(33, 41));
            assert(spec_u64_from_le_bytes(spec_u64_to_le_bytes(p.1)) == spec_u64_from_le_bytes(
                spec_u64_to_le_bytes(q.1),
            ));
        },
        (Option::None, Option::None) => {},
        _ => {
            assert(false);
        },
    }
}

/// Equal encodings of optional key bytes come from equal values.
proof fn lemma_opt_bytes_eq(a: Option<Seq<u8>>, b: Option<Seq<u8>>)
    requires
        a matches Some(p) ==> p.len() == 32,
        b matches Some(p) ==> p.len() == 32,
        enc_opt_bytes(a) == enc_opt_bytes(b),
    ensures
        a == b,
{
    lemma_opt_bytes_shape(a);
    lemma_opt_bytes_shape(b);
    assert(enc_opt_bytes(a)[0] == enc_opt_bytes(b)[0]);
    match (a, b) {
        (Option::Some(p), Option::Some(q)) => {
            assert(enc_opt_bytes(a).subrange(1, 33) == enc_opt_bytes(b).subrange(1, 33));
        },
        (Option::None, Option::None) => {},
        _ => {
            assert(false);
        },
    }
}

/// Append the little-endian bytes of a 64-bit value.
fn push_u64(out: &mut Vec<u8>, x: u64)
    ensures
        final(out)@ == old(out)@ + spec_u64_to_le_bytes(x),
{
    let mut b = u64_to_le_bytes(x);
    out.append(&mut b);
}

/// Append `n` zero bytes.
fn push_zeros(out: &mut Vec<u8>, n: usize)
    ensures
        final(out)@ == old(out)@ + zeros(n as nat),
{
    let mut i: usize = 0;
    while i < n
        invariant
            i <= n,
            out@ == old(out)@ + zeros(i as nat),
        decreases n - i,
    {
        out.push(0u8);
        proof {
            assert(out@ =~= old(out)@ + zeros((i + 1) as nat));
        }
        i = i + 1;
    }
}

/// Append the encoding of an optional chain.
fn push_opt_chain(out: &mut Vec<u8>, c: &Option<ChainKey>)
    requires
        (chain_view(*c) matches Some(p) ==> p.0.len() == 32),
    ensures
        final(out)@ == old(out)@ + enc_opt_chain(chain_view(*c)),
{
    match c {
        Option::None => {
            out.push(0u8);
            push_zeros(out, 40);
            proof {
                assert(out@ =~= old(out)@ + enc_opt_chain(chain_view(*c)));
            }
        },
        Option::Some(k) => {
            out.push(1u8);
            out.extend_from_slice(k.key.as_slice());
            push_u64(out, k.index);
            proof {
                assert(out@ =~= old(out)@ + enc_opt_chain(chain_view(*c)));
            }
        },
    }
}

/// Append the encoding of optional key bytes.
fn push_opt_bytes(out: &mut Vec<u8>, b: &Option<Vec<u8>>)
    requires
        (bytes_view(*b) matches Some(p) ==> p.len() == 32),
    ensures
        final(out)@ == old(out)@ + enc_opt_bytes(bytes_view(*b)),
{
    match b {
        Option::None => {
            out.push(0u8);
            push_zeros(out, 32);
            proof {
                assert(out@ =~= old(out)@ + enc_opt_bytes(bytes_view(*b)));
            }
        },
        Option::Some(k) => {
            out.push(1u8);
            out.extend_from_slice(k.as_slice());
            proof {
                assert(out@ =~= old(out)@ + enc_opt_bytes(bytes_view(*b)));
            }
        },
    }
}

/// Serialize a well-formed state to its canonical byte encoding.
pub fn serialize_state(st: &DoubleRatchetState) -> (r: Vec<u8>)
    requires
        st.wf(),
    ensures
        r@ == encode_state(st@),
{
    let mut out: Vec<u8> = Vec::new();
    out.push(1u8);
    proof {
        assert(out@ =~= seq![1u8]);
    }
    out.extend_from_slice(st.root_key.as_slice());
    push_opt_chain(&mut out, &st.sending_chain);
    push_opt_chain(&mut out, &st.receiving_chain);
    push_opt_bytes(&mut out, &st.dh_local);
    push_opt_bytes(&mut out, &st.dh_remote);
    if st.initiator {
        out.push(1u8);
    } else {
        out.push(0u8);
    }
    proof {
        assert(out@ =~= seq![1u8] + st@.root_key + enc_opt_chain(st@.sending) + enc_opt_chain(
            st@.receiving,
        ) + enc_opt_bytes(st@.dh_local) + enc_opt_bytes(st@.dh_remote) + seq![
            bool_byte(st@.initiator),
        ]);
    }
    push_u64(&mut out, st.previous_counter);
    push_u64(&mut out, st.max_skip);
    let n_entries: usize = st.skipped_message_keys.len();
    push_u64(&mut out, n_entries as u64);
    proof {
        assert(st@.skipped.len() == st.skipped_message_keys@.len());
        assert(out@ == enc_fixed(st@));
    }
    let mut j: usize = 0;
    while j < n_entries
        invariant
            j <= n_entries,
            n_entries == st.skipped_message_keys@.len(),
            st.wf(),
            out@ == enc_fixed(st@) + enc_entries(st@.skipped.subrange(0, j as int)),
        decreases n_entries - j,
    {
        let e = &st.skipped_message_keys[j];
        let ghost before = out@;
        out.extend_from_slice(e.ratchet_key.as_slice());
        push_u64(&mut out, e.index);
        out.extend_from_slice(e.message_key.as_slice());
        proof {
            assert(st@.skipped[j as int] == e@);
            assert(out@ =~= before + enc_entry(e@));
            lemma_entries_snoc(st@.skipped.subrange(0, j as int), e@);
            assert(st@.skipped.subrange(0, j as int).push(e@) =~= st@.skipped.subrange(
                0,
                j + 1 as int,
            ));
            assert(out@ =~= enc_fixed(st@) + enc_entries(st@.skipped.subrange(0, j + 1 as int)));
        }
        j = j + 1;
    }
    proof {
        assert(st@.skipped.subrange(0, n_entries as int) =~= st@.skipped);
    }
    out
}

/// Whether every byte of `data[from..to]` is zero.
fn all_zero_range(data: &Vec<u8>, from: usize, to: usize) -> (r: bool)
    requires
        from <= to,
        to <= data@.len(),
    ensures
        r == (data@.subrange(from as int, to as int) == zeros((to - from) as nat)),
{
    let mut i: usize = from;
    while i < to
        invariant
            from <= i <= to,
            to <= data@.len(),
            forall|j: int| from <= j < i ==> data@[j] == 0u8,
        decreases to - i,
    {
        if data[i] != 0u8 {
            proof {
                assert(data@.subrange(from as int, to as int)[i - from] != 0u8);
                assert(zeros((to - from) as nat)[i - from] == 0u8);
            }
            return false;
        }
        i = i + 1;
    }
    proof {
        assert(data@.subrange(from as int, to as int) =~= zeros((to - from) as nat));
    }
    true
}

/// Read the 64-bit little-endian value at `off`.
pub(crate) fn read_u64_at(data: &Vec<u8>, off: usize) -> (r: u64)
    requires
        off + 8 <= data@.len(),
    ensures
        r == spec_u64_from_le_bytes(data@.subrange(off as int, off + 8 as int)),
{
    let total: usize = data.len();
    let piece = crate::bytesutil::copy_range(data, off, off + 8);
    u64_from_le_bytes(piece.as_slice())
}

/// Parse an optional chain section starting at `off`; `None` on a malformed
/// section.
fn parse_opt_chain(data: &Vec<u8>, off: usize) -> (r: Option<Option<ChainKey>>)
    requires
        off + 41 <= data@.len(),
    ensures
        r matches Some(c) ==> data@.subrange(off as int, off + 41 as int) == enc_opt_chain(
            chain_view(c),
        ),
        r matches Some(c) ==> (chain_view(c) matches Some(p) ==> p.0.len() == 32),
        r is None ==> (forall|c: Option<(Seq<u8>, u64)>|
            (c matches Some(p) ==> p.0.len() == 32) ==> data@.subrange(off as int, off + 41 as int)
                != enc_opt_chain(c)),
{
    let total: usize = data.len();
    let ghost section = data@.subrange(off as int, off + 41 as int);
    let tag = data[off];
    proof {
        assert(section[0] == data@[off as int]);
    }
    if tag == 1u8 {
        let key = crate::bytesutil::copy_range(data, off + 1, off + 33);
        let idx = read_u64_at(data, off + 33);
        let c = Option::Some(ChainKey::with_index(key, idx));
        proof {
            lemma_auto_spec_u64_to_from_le_bytes();
            lemma_opt_chain_shape(chain_view(c));
            assert(section.subrange(1, 33) =~= data@.subrange(off + 1 as int, off + 33 as int));
            assert(section.subrange(33, 41) =~= data@.subrange(off + 33 as int, off + 41 as int));
            assert(spec_u64_to_le_bytes(idx) == section.subrange(33, 41));
            assert forall|i: int| 0 <= i < 41 implies section[i] == enc_opt_chain(chain_view(c))[i]
                by {
                if i == 0 {
                } else if i < 33 {
                    assert(section.subrange(1, 33)[i - 1] == enc_opt_chain(
                        chain_view(c),
                    ).subrange(1, 33)[i - 1]);
                } else {
                    assert(section.subrange(33, 41)[i - 33] == enc_opt_chain(
                        chain_view(c),
                    ).subrange(33, 41)[i - 33]);
                }
            }
            assert(section =~= enc_opt_chain(chain_view(c)));
        }
        Some(c)
    } else if tag == 0u8 {
        if all_zero_range(data, off + 1, off + 41) {
            let c = Option::None;
            proof {
                lemma_opt_chain_shape(chain_view(c));
                assert(section.subrange(1, 41) =~= data@.subrange(
                    off + 1 as int,
                    off + 41 as int,
                ));
                assert forall|i: int| 0 <= i < 41 implies section[i] == enc_opt_chain(
                    chain_view(c),
                )[i] by {
                    if i >= 1 {
                        assert(section.subrange(1, 41)[i - 1] == enc_opt_chain(
                            chain_view(c),
                        ).subrange(1, 41)[i - 1]);
                    }
                }
                assert(section =~= enc_opt_chain(chain_view(c)));
            }
            Some(c)
        } else {
            proof {
                assert forall|c: Option<(Seq<u8>, u64)>|
                    (c matches Some(p) ==> p.0.len() == 32) implies section != enc_opt_chain(c)
                    by {
                    lemma_opt_chain_shape(c);
                    if section == enc_opt_chain(c) {
                        assert(c is None);
                        assert(section.subrange(1, 41) == zeros(40));
                        assert(data@.subrange(off + 1 as int, off + 41 as int) =~= section.subrange(
                            1,
                            41,
                        ));
                        assert(false);
                    }
                }
            }
            None
        }
    } else {
        proof {
            assert forall|c: Option<(Seq<u8>, u64)>|
                (c matches Some(p) ==> p.0.len() == 32) implies section != enc_opt_chain(c) by {
                lemma_opt_chain_shape(c);
            }
        }
        None
    }
}

/// Parse an optional key-bytes section starting at `off`; `None` on a
/// malformed section.
fn parse_opt_bytes(data: &Vec<u8>, off: usize) -> (r: Option<Option<Vec<u8>>>)
    requires
        off + 33 <= data@.len(),
    ensures
        r matches Some(b) ==> data@.subrange(off as int, off + 33 as int) == enc_opt_bytes(
            bytes_view(b),
        ),
        r matches Some(b) ==> (bytes_view(b) matches Some(p) ==> p.len() == 32),
        r is None ==> (forall|b: Option<Seq<u8>>|
            (b matches Some(p) ==> p.len() == 32) ==> data@.subrange(off as int, off + 33 as int)
                != enc_opt_bytes(b)),
{
    let total: usize = data.len();
    let ghost section = data@.subrange(off as int, off + 33 as int);
    let tag = data[off];
    proof {
        assert(section[0] == data@[off as int]);
    }
    if tag == 1u8 {
        let key = crate::bytesutil::copy_range(data, off + 1, off + 33);
        let b = Option::Some(key);
        proof {
            lemma_opt_bytes_shape(bytes_view(b));
            assert(section.subrange(1, 33) =~= data@.subrange(off + 1 as int, off + 33 as int));
            assert forall|i: int| 0 <= i < 33 implies section[i] == enc_opt_bytes(bytes_view(b))[i]
                by {
                if i >= 1 {
                    assert(section.subrange(1, 33)[i - 1] == enc_opt_bytes(
                        bytes_view(b),
                    ).subrange(1, 33)[i - 1]);
                }
            }
            assert(section =~= enc_opt_bytes(bytes_view(b)));
        }
        Some(b)
    } else if tag == 0u8 {
        if all_zero_range(data, off + 1, off + 33) {
            let b = Option::None;
            proof {
                lemma_opt_bytes_shape(bytes_view(b));
                assert(section.subrange(1, 33) =~= data@.subrange(
                    off + 1 as int,
                    off + 33 as int,
                ));
                assert forall|i: int| 0 <= i < 33 implies section[i] == enc_opt_bytes(
                    bytes_view(b),
                )[i] by {
                    if i >= 1 {
                        assert(section.subrange(1, 33)[i - 1] == enc_opt_bytes(
                            bytes_view(b),
                        ).subrange(1, 33)[i - 1]);
                    }
                }
                assert(section =~= enc_opt_bytes(bytes_view(b)));
            }
            Some(b)
        } else {
            proof {
                assert forall|b: Option<Seq<u8>>|
                    (b matches Some(p) ==> p.len() == 32) implies section != enc_opt_bytes(b) by {
                    lemma_opt_bytes_shape(b);
                    if section == enc_opt_bytes(b) {
                        assert(b is None);
                        assert(section.subrange(1, 33) == zeros(32));
                        assert(data@.subrange(off + 1 as int, off + 33 as int) =~= section.subrange(
                            1,
                            33,
                        ));
                        assert(false);
                    }
                }
            }
            None
        }
    } else {
        proof {
            assert forall|b: Option<Seq<u8>>|
                (b matches Some(p) ==> p.len() == 32) implies section != enc_opt_bytes(b) by {
                lemma_opt_bytes_shape(b);
            }
        }
        None
    }
}

/// Restore a state from its canonical byte encoding. Fails with
/// `InvalidMessage` on every byte string that is not the encoding of a
/// well-formed state.
pub fn deserialize_state(data: &Vec<u8>) -> (r: Result<DoubleRatchetState, ProtocolError>)
    ensures
        r matches Ok(st) ==> st.wf() && encode_state(st@) == data@,
        r is Err ==> r == Err::<DoubleRatchetState, ProtocolError>(ProtocolError::InvalidMessage),
        r is Err ==> (forall|v: RatchetView| v.wf() ==> encode_state(v) != data@),
{
    if data.len() < 206 {
        proof {
            assert forall|v: RatchetView| v.wf() implies encode_state(v) != data@ by {
                lemma_encode_shape(v);
            }
        }
        return Err(ProtocolError::InvalidMessage);
    }
    if data[0] != 1u8 {
        proof {
            assert forall|v: RatchetView| v.wf() implies encode_state(v) != data@ by {
                if encode_state(v) == data@ {
                    lemma_valid_encoding_facts(v, data@);
                    assert(false);
                }
            }
        }
        return Err(ProtocolError::InvalidMessage);
    }
    let root_key = crate::bytesutil::copy_range(data, 1, 33);
    let sending_chain = match parse_opt_chain(data, 33) {
        Option::Some(c) => c,
        Option::None => {
            proof {
                assert forall|v: RatchetView| v.wf() implies encode_state(v) != data@ by {
                    if encode_state(v) == data@ {
                        lemma_valid_encoding_facts(v, data@);
                        assert(false);
                    }
                }
            }
            return Err(ProtocolError::InvalidMessage);
        },
    };
    let receiving_chain = match parse_opt_chain(data, 74) {
        Option::Some(c) => c,
        Option::None => {
            proof {
                assert forall|v: RatchetView| v.wf() implies encode_state(v) != data@ by {
                    if encode_state(v) == data@ {
                        lemma_valid_encoding_facts(v, data@);
                        assert(false);
                    }
                }
            }
            return Err(ProtocolError::InvalidMessage);
        },
    };
    let dh_local = match parse_opt_bytes(data, 115) {
        Option::Some(b) => b,
        Option::None => {
            proof {
                assert forall|v: RatchetView| v.wf() implies encode_state(v) != data@ by {
                    if encode_state(v) == data@ {
                        lemma_valid_encoding_facts(v, data@);
                        assert(false);
                    }
                }
            }
            return Err(ProtocolError::InvalidMessage);
        },
    };
    let dh_remote = match parse_opt_bytes(data, 148) {
        Option::Some(b) => b,
        Option::None => {
            proof {
                assert forall|v: RatchetView| v.wf() implies encode_state(v) != data@ by {
                    if encode_state(v) == data@ {
                        lemma_valid_encoding_facts(v, data@);
                        assert(false);
                    }
                }
            }
            return Err(ProtocolError::InvalidMessage);
        },
    };
    let init_byte = data[181];
    if init_byte != 0u8 && init_byte != 1u8 {
        proof {
            assert forall|v: RatchetView| v.wf() implies encode_state(v) != data@ by {
                if encode_state(v) == data@ {
                    lemma_valid_encoding_facts(v, data@);
                    assert(false);
                }
            }
        }
        return Err(ProtocolError::InvalidMessage);
    }
    let initiator = init_byte == 1u8;
    let previous_counter = read_u64_at(data, 182);
    let max_skip = read_u64_at(data, 190);
    let count = read_u64_at(data, 198);
    let rem: usize = data.len() - 206;
    let expected: usize = rem / 72;
    if rem % 72 != 0 || count != (expected as u64) || count > max_skip || (receiving_chain.is_some()
        && dh_remote.is_none()) {
        proof {
            lemma_auto_spec_u64_to_from_le_bytes();
            assert forall|v: RatchetView| v.wf() implies encode_state(v) != data@ by {
                if encode_state(v) == data@ {
                    lemma_valid_encoding_facts(v, data@);
                    lemma_opt_chain_shape(v.receiving);
                    lemma_opt_bytes_shape(v.dh_remote);
                    assert(count == v.skipped.len() as u64) by {
                        assert(spec_u64_from_le_bytes(spec_u64_to_le_bytes(
                            v.skipped.len() as u64,
                        )) == v.skipped.len() as u64);
                    }
                    assert(max_skip == v.max_skip);
                    assert(rem == 72 * v.skipped.len());
                    assert(rem % 72 == 0) by (nonlinear_arith)
                        requires
                            rem == 72 * v.skipped.len(),
                    ;
                    assert(expected == v.skipped.len()) by (nonlinear_arith)
                        requires
                            rem == 72 * v.skipped.len(),
                            expected == rem / 72,
                    ;
                    assert(data@[74] == enc_opt_chain(v.receiving)[0]) by {
                        assert(data@.subrange(74, 115)[0] == enc_opt_chain(v.receiving)[0]);
                    }
                    assert(data@[148] == enc_opt_bytes(v.dh_remote)[0]) by {
                        assert(data@.subrange(148, 181)[0] == enc_opt_bytes(v.dh_remote)[0]);
                    }
                    assert(receiving_chain.is_some() ==> v.receiving is Some);
                    assert(dh_remote.is_none() ==> v.dh_remote is None);
                    assert(false);
                }
            }
        }
        return Err(ProtocolError::InvalidMessage);
    }
    let mut skipped: Vec<SkippedKey> = Vec::new();
    let mut j: usize = 0;
    while j < expected
        invariant
            j <= expected,
            206 + 72 * expected == data@.len(),
            skipped@.len() == j,
            forall|i: int| 0 <= i < j ==> (#[trigger] skipped@[i]).wf(),
            enc_entries(skipped_view(skipped@)) =~= data@.subrange(206, 206 + 72 * j),
        decreases expected - j,
    {
        let total: usize = data.len();
        proof {
            assert(206 + 72 * j + 72 <= total);
        }
        let off: usize = 206 + 72 * j;
        let pk = crate::bytesutil::copy_range(data, off, off + 32);
        let idx = read_u64_at(data, off + 32);
        let mk = crate::bytesutil::copy_range(data, off + 40, off + 72);
        let e = SkippedKey { ratchet_key: pk, index: idx, message_key: mk };
        proof {
            lemma_auto_spec_u64_to_from_le_bytes();
            lemma_entry_shape(e@);
            assert(data@.subrange(off + 32 as int, off + 40 as int) == spec_u64_to_le_bytes(idx));
            assert forall|i: int| 0 <= i < 72 implies data@.subrange(off as int, off + 72 as int)[i]
                == enc_entry(e@)[i] by {
                if i < 32 {
                    assert(data@.subrange(off as int, off + 72 as int)[i] == data@.subrange(
                        off as int,
                        off + 32 as int,
                    )[i]);
                    assert(enc_entry(e@)[i] == enc_entry(e@).subrange(0, 32)[i]);
                } else if i < 40 {
                    assert(data@.subrange(off as int, off + 72 as int)[i] == data@.subrange(
                        off + 32 as int,
                        off + 40 as int,
                    )[i - 32]);
                    assert(enc_entry(e@)[i] == enc_entry(e@).subrange(32, 40)[i - 32]);
                } else {
                    assert(data@.subrange(off as int, off + 72 as int)[i] == data@.subrange(
                        off + 40 as int,
                        off + 72 as int,
                    )[i - 40]);
                    assert(enc_entry(e@)[i] == enc_entry(e@).subrange(40, 72)[i - 40]);
                }
            }
            assert(data@.subrange(off as int, off + 72 as int) =~= enc_entry(e@));
        }
        let ghost cache_before = skipped_view(skipped@);
        skipped.push(e);
        proof {
            assert(skipped_view(skipped@) =~= cache_before.push(e@));
            lemma_entries_snoc(cache_before, e@);
            assert(data@.subrange(206, 206 + 72 * (j + 1)) =~= data@.subrange(206, 206 + 72 * j)
                + data@.subrange(off as int, off + 72 as int));
            assert(enc_entries(skipped_view(skipped@)) =~= data@.subrange(206, 206 + 72 * (j + 1)));
        }
        j = j + 1;
    }
    let st = DoubleRatchetState {
        root_key,
        sending_chain,
        receiving_chain,
        dh_local,
        dh_remote,
        skipped_message_keys: skipped,
        max_skip,
        previous_counter,
        initiator,
    };
    proof {
        lemma_auto_spec_u64_to_from_le_bytes();
        assert(st@.skipped.len() == expected);
        assert(st@.skipped.len() as u64 == count);
        assert(spec_u64_to_le_bytes(previous_counter) == data@.subrange(182, 190));
        assert(spec_u64_to_le_bytes(max_skip) == data@.subrange(190, 198));
        assert(spec_u64_to_le_bytes(count) == data@.subrange(198, 206));
        assert(st.wf()) by {
            assert(forall|i: int|
                0 <= i < st@.skipped.len() ==> (#[trigger] st@.skipped[i]).0.len() == 32
                    && st@.skipped[i].2.len() == 32);
        }
        assert(data@.skip(206) =~= data@.subrange(206, 206 + 72 * expected));
        lemma_assemble(st@, data@);
    }
    Ok(st)
}

} // verus!

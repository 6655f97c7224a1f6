use secure_protocol::ChainKey;
use secure_protocol::Config;
use secure_protocol::DoubleRatchetSession;
use secure_protocol::ProtocolError;

#[test]
fn chain_determinism_thousand_keys() {
    let seed: Vec<u8> = (0u8..=255).cycle().take(32).collect();
    let mut a = ChainKey::new(seed.clone());
    let mut b = ChainKey::new(seed);
    for i in 0..1000u64 {
        assert_eq!(a.index(), i);
        let ka = a.next_message_key();
        let kb = b.next_message_key();
        assert_eq!(ka, kb, "diverged at position {}", i);
        assert_eq!(ka.len(), 32);
    }
    assert_eq!(a.index(), 1000);
    assert_eq!(a.key_bytes(), b.key_bytes());
}

#[test]
fn chain_differs_for_different_seeds() {
    let mut a = ChainKey::new(vec![1u8; 32]);
    let mut b = ChainKey::new(vec![2u8; 32]);
    assert_ne!(a.next_message_key(), b.next_message_key());
}

#[test]
fn chain_message_key_differs_from_chain_key() {
    let mut a = ChainKey::new(vec![9u8; 32]);
    let mk = a.next_message_key();
    assert_ne!(&mk, a.key_bytes());
}

fn pk_of(sk: [u8; 32]) -> Vec<u8> {
    let secret = x25519_dalek::StaticSecret::from(sk);
    x25519_dalek::PublicKey::from(&secret).as_bytes().to_vec()
}

fn busy_session() -> DoubleRatchetSession {
    let shared_secret: Vec<u8> = vec![42u8; 32];
    let alice_sk = [11u8; 32];
    let bob_sk = [7u8; 32];
    let mut alice = DoubleRatchetSession::from_shared_secret(
        &shared_secret,
        alice_sk.to_vec(),
        pk_of(bob_sk),
        Config::default(),
    )
    .expect("initiator");
    let mut bob = DoubleRatchetSession::from_shared_secret_responder(
        &shared_secret,
        bob_sk.to_vec(),
        Config::default(),
    )
    .expect("responder");
    let ad: Vec<u8> = Vec::new();
    // Skip two messages so the restored state carries cache entries too.
    let _m0 = alice.encrypt(&b"m0".to_vec(), &ad).unwrap();
    let _m1 = alice.encrypt(&b"m1".to_vec(), &ad).unwrap();
    let m2 = alice.encrypt(&b"m2".to_vec(), &ad).unwrap();
    assert_eq!(bob.decrypt(&m2, &ad).unwrap(), b"m2".to_vec());
    bob
}

#[test]
fn state_roundtrip_is_exact() {
    let session = busy_session();
    let bytes = session.serialize_state().expect("serialize");
    let mut other = DoubleRatchetSession::new(Config::default()).expect("fresh");
    other.deserialize_state(&bytes).expect("deserialize");
    let again = other.serialize_state().expect("re-serialize");
    assert_eq!(bytes, again);
}

#[test]
fn restored_session_behaves_identically() {
    let shared_secret: Vec<u8> = vec![42u8; 32];
    let alice_sk = [11u8; 32];
    let bob_sk = [7u8; 32];
    let mut alice = DoubleRatchetSession::from_shared_secret(
        &shared_secret,
        alice_sk.to_vec(),
        pk_of(bob_sk),
        Config::default(),
    )
    .unwrap();
    let bob = DoubleRatchetSession::from_shared_secret_responder(
        &shared_secret,
        bob_sk.to_vec(),
        Config::default(),
    )
    .unwrap();
    let bytes = bob.serialize_state().unwrap();
    let mut restored = DoubleRatchetSession::new(Config::default()).unwrap();
    restored.deserialize_state(&bytes).expect("restore");
    let ad: Vec<u8> = Vec::new();
    let m = alice.encrypt(&b"hello".to_vec(), &ad).unwrap();
    assert_eq!(restored.decrypt(&m, &ad).expect("decrypt"), b"hello".to_vec());
}

#[test]
fn malformed_state_is_rejected() {
    let session = busy_session();
    let good = session.serialize_state().unwrap();
    let mut target = DoubleRatchetSession::new(Config::default()).unwrap();
    // Too short.
    assert_eq!(target.deserialize_state(&vec![1u8; 10]), Err(ProtocolError::InvalidMessage));
    // Wrong version byte.
    let mut bad = good.clone();
    bad[0] = 9;
    assert_eq!(target.deserialize_state(&bad), Err(ProtocolError::InvalidMessage));
    // Truncated tail.
    let mut bad = good.clone();
    bad.pop();
    assert_eq!(target.deserialize_state(&bad), Err(ProtocolError::InvalidMessage));
    // Non-canonical filler under an absent-field tag.
    let mut bad = good.clone();
    // The sending chain of this responder state is present (tag 1 at offset
    // 33); the dh-remote section is present too. Corrupt an option tag byte
    // into an unknown value instead.
    bad[33] = 7;
    assert_eq!(target.deserialize_state(&bad), Err(ProtocolError::InvalidMessage));
    // The good bytes still restore.
    target.deserialize_state(&good).expect("good state");
}

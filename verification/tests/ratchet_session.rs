use secure_protocol::Config;
use secure_protocol::DoubleRatchetSession;
use secure_protocol::ProtocolError;

fn cfg() -> Config {
    Config::default()
}

fn pk_of(sk: [u8; 32]) -> Vec<u8> {
    let secret = x25519_dalek::StaticSecret::from(sk);
    x25519_dalek::PublicKey::from(&secret).as_bytes().to_vec()
}

/// An initiator/responder pair sharing one handshake secret.
fn make_pair(config: Config) -> (DoubleRatchetSession, DoubleRatchetSession) {
    let shared_secret: Vec<u8> = vec![42u8; 32];
    let alice_sk = [11u8; 32];
    let bob_sk = [7u8; 32];
    let alice = DoubleRatchetSession::from_shared_secret(
        &shared_secret,
        alice_sk.to_vec(),
        pk_of(bob_sk),
        config,
    )
    .expect("initiator");
    let bob =
        DoubleRatchetSession::from_shared_secret_responder(&shared_secret, bob_sk.to_vec(), config)
            .expect("responder");
    (alice, bob)
}

fn header_index(message: &[u8]) -> u64 {
    let mut b = [0u8; 8];
    b.copy_from_slice(&message[32..40]);
    u64::from_le_bytes(b)
}

fn header_prev(message: &[u8]) -> u64 {
    let mut b = [0u8; 8];
    b.copy_from_slice(&message[40..48]);
    u64::from_le_bytes(b)
}

#[test]
fn echo_roundtrip() {
    let (mut alice, mut bob) = make_pair(cfg());
    let ad: Vec<u8> = Vec::new();
    let m = alice.encrypt(&b"hi".to_vec(), &ad).expect("encrypt");
    assert_eq!(header_index(&m), 0);
    let pt = bob.decrypt(&m, &ad).expect("decrypt");
    assert_eq!(pt, b"hi".to_vec());
    // Alice's sending index advanced 0 -> 1: the next header carries 1.
    let m1 = alice.encrypt(&b"again".to_vec(), &ad).expect("encrypt");
    assert_eq!(header_index(&m1), 1);
}

#[test]
fn reverse_direction_ratchets() {
    let (mut alice, mut bob) = make_pair(cfg());
    let ad: Vec<u8> = Vec::new();
    let m = alice.encrypt(&b"hi".to_vec(), &ad).expect("encrypt");
    assert_eq!(bob.decrypt(&m, &ad).expect("decrypt"), b"hi".to_vec());
    // Bob replies; his first message starts a fresh chain.
    let reply = bob.encrypt(&b"yo".to_vec(), &ad).expect("reply");
    assert_eq!(header_index(&reply), 0);
    let pt = alice.decrypt(&reply, &ad).expect("decrypt reply");
    assert_eq!(pt, b"yo".to_vec());
    // The DH step at Alice recorded her pre-step sending index (1) as the
    // previous counter, which her next header carries; her index reset to 0.
    let m2 = alice.encrypt(&b"more".to_vec(), &ad).expect("encrypt");
    assert_eq!(header_index(&m2), 0);
    assert_eq!(header_prev(&m2), 1);
    assert_eq!(bob.decrypt(&m2, &ad).expect("decrypt"), b"more".to_vec());
}

#[test]
fn reordering_consumes_cached_keys() {
    let (mut alice, mut bob) = make_pair(cfg());
    let ad: Vec<u8> = Vec::new();
    let m0 = alice.encrypt(&b"m0".to_vec(), &ad).unwrap();
    let m1 = alice.encrypt(&b"m1".to_vec(), &ad).unwrap();
    let m2 = alice.encrypt(&b"m2".to_vec(), &ad).unwrap();
    assert_eq!(bob.decrypt(&m2, &ad).expect("m2 first"), b"m2".to_vec());
    assert_eq!(bob.decrypt(&m0, &ad).expect("m0 from cache"), b"m0".to_vec());
    assert_eq!(bob.decrypt(&m1, &ad).expect("m1 from cache"), b"m1".to_vec());
    // The cached keys were erased as they were consumed: a replay fails.
    assert_eq!(bob.decrypt(&m0, &ad), Err(ProtocolError::DecryptionFailed));
}

#[test]
fn loss_retains_skipped_key() {
    let (mut alice, mut bob) = make_pair(cfg());
    let ad: Vec<u8> = Vec::new();
    let mut messages = Vec::new();
    for i in 0..10u32 {
        let body = format!("m{}", i).into_bytes();
        messages.push(alice.encrypt(&body, &ad).unwrap());
    }
    for (i, m) in messages.iter().enumerate() {
        if i == 3 {
            continue;
        }
        let body = format!("m{}", i).into_bytes();
        assert_eq!(bob.decrypt(m, &ad).expect("deliver"), body);
    }
    // The index-3 key stayed cached and still decrypts the dropped message.
    assert_eq!(bob.decrypt(&messages[3], &ad).expect("late m3"), b"m3".to_vec());
}

#[test]
fn overflow_rejects_and_keeps_state() {
    let mut config = Config::default();
    config.max_skipped_messages = 4;
    let (mut alice, mut bob) = make_pair(config);
    let ad: Vec<u8> = Vec::new();
    let mut messages = Vec::new();
    for i in 0..10u32 {
        let body = format!("m{}", i).into_bytes();
        messages.push(alice.encrypt(&body, &ad).unwrap());
    }
    // Only m9 arrives: the gap of 9 exceeds the bound of 4.
    assert_eq!(bob.decrypt(&messages[9], &ad), Err(ProtocolError::InvalidMessage));
    // The session state is unchanged: in-order delivery still works.
    assert_eq!(bob.decrypt(&messages[0], &ad).expect("m0"), b"m0".to_vec());
}

#[test]
fn window_boundary_is_inclusive() {
    let mut config = Config::default();
    config.max_skipped_messages = 4;
    let (mut alice, mut bob) = make_pair(config);
    let ad: Vec<u8> = Vec::new();
    let mut messages = Vec::new();
    for i in 0..5u32 {
        let body = format!("m{}", i).into_bytes();
        messages.push(alice.encrypt(&body, &ad).unwrap());
    }
    // m4 first: exactly max_skip keys are skipped, which is allowed.
    assert_eq!(bob.decrypt(&messages[4], &ad).expect("m4"), b"m4".to_vec());
    // The whole window arrives in reverse order, each from the cache.
    for i in (0..4usize).rev() {
        let body = format!("m{}", i).into_bytes();
        assert_eq!(bob.decrypt(&messages[i], &ad).expect("window"), body);
    }
}

#[test]
fn tampered_bits_fail_decryption() {
    let (mut alice, mut bob) = make_pair(cfg());
    let ad: Vec<u8> = Vec::new();
    let m = alice.encrypt(&b"payload".to_vec(), &ad).unwrap();
    // Flip one bit in the header index, in the nonce, in the ciphertext and
    // in the tag.
    for &pos in &[33usize, 50, 61, m.len() - 1] {
        let mut bad = m.clone();
        bad[pos] ^= 0x01;
        let r = bob.decrypt(&bad, &ad);
        assert!(r.is_err(), "tampered byte {} accepted", pos);
    }
    // The untouched message still decrypts afterwards.
    assert_eq!(bob.decrypt(&m, &ad).expect("original"), b"payload".to_vec());
}

#[test]
fn tampered_associated_data_fails() {
    let (mut alice, mut bob) = make_pair(cfg());
    let m = alice.encrypt(&b"x".to_vec(), &b"route-7".to_vec()).unwrap();
    assert_eq!(bob.decrypt(&m, &b"route-8".to_vec()), Err(ProtocolError::DecryptionFailed));
    assert_eq!(bob.decrypt(&m, &b"route-7".to_vec()).expect("good ad"), b"x".to_vec());
}

#[test]
fn message_accepted_exactly_once() {
    let (mut alice, mut bob) = make_pair(cfg());
    let ad: Vec<u8> = Vec::new();
    let m = alice.encrypt(&b"once".to_vec(), &ad).unwrap();
    assert_eq!(bob.decrypt(&m, &ad).expect("first"), b"once".to_vec());
    assert_eq!(bob.decrypt(&m, &ad), Err(ProtocolError::DecryptionFailed));
}

#[test]
fn encrypt_without_chain_is_invalid_state() {
    let mut fresh = DoubleRatchetSession::new(cfg()).expect("fresh");
    let ad: Vec<u8> = Vec::new();
    assert_eq!(fresh.encrypt(&b"hi".to_vec(), &ad), Err(ProtocolError::InvalidState));
}

#[test]
fn short_messages_are_rejected() {
    let (_, mut bob) = make_pair(cfg());
    let ad: Vec<u8> = Vec::new();
    assert_eq!(bob.decrypt(&vec![0u8; 47], &ad), Err(ProtocolError::InvalidMessage));
    assert_eq!(bob.decrypt(&vec![0u8; 55], &ad), Err(ProtocolError::DecryptionFailed));
}

#[test]
fn long_conversation_both_directions() {
    let (mut alice, mut bob) = make_pair(cfg());
    let ad: Vec<u8> = Vec::new();
    for round in 0..8u32 {
        let a_body = format!("alice-{}", round).into_bytes();
        let m = alice.encrypt(&a_body, &ad).unwrap();
        assert_eq!(bob.decrypt(&m, &ad).unwrap(), a_body);
        let b_body = format!("bob-{}", round).into_bytes();
        let m = bob.encrypt(&b_body, &ad).unwrap();
        assert_eq!(alice.decrypt(&m, &ad).unwrap(), b_body);
    }
}

use secure_protocol::Config;
use secure_protocol::ConfigFFI;
use secure_protocol::CryptoError;
use secure_protocol::DoubleRatchetSession;
use secure_protocol::FFIError;
use secure_protocol::HandshakeBuilder;
use secure_protocol::IdentityKeyPair;
use secure_protocol::KeyStore;
use secure_protocol::PreKeyPair;
use secure_protocol::ProtocolError;
use secure_protocol::SecureContext;
use secure_protocol::SignedPreKeyPair;

fn fresh_db_path(name: &str) -> String {
    format!("/tmp/secure_protocol_test_db_{}", name)
}

fn pk_of(sk: [u8; 32]) -> Vec<u8> {
    let secret = x25519_dalek::StaticSecret::from(sk);
    x25519_dalek::PublicKey::from(&secret).as_bytes().to_vec()
}

#[test]
fn session_persistence_roundtrip() {
    let cfg = Config::default();
    let path = fresh_db_path("persist");
    let mut ctx = SecureContext::with_db_path(&path, cfg).expect("create ctx");
    let peer = b"peer-persist-1".to_vec();
    let _handle = ctx.create_session(&peer).expect("create session");
    ctx.get_session(&peer).expect("get session");
    let state_before = ctx.serialize_session_state(&peer).expect("serialize");
    drop(ctx);
    let mut ctx2 = SecureContext::with_db_path(&path, cfg).expect("reopen ctx");
    ctx2.get_session(&peer).expect("load session");
    let state_after = ctx2.serialize_session_state(&peer).expect("serialize after");
    assert_eq!(state_before, state_after);
}

#[test]
fn restart_continues_the_chain() {
    let cfg = Config::default();
    let path = fresh_db_path("restart");
    let peer = b"peer-restart".to_vec();
    let shared_secret: Vec<u8> = vec![42u8; 32];
    let alice_sk = [11u8; 32];
    let bob_sk = [7u8; 32];
    // Establish a real paired state and import it for the peer.
    let alice =
        DoubleRatchetSession::from_shared_secret(&shared_secret, alice_sk.to_vec(), pk_of(bob_sk), cfg)
            .unwrap();
    let mut bob =
        DoubleRatchetSession::from_shared_secret_responder(&shared_secret, bob_sk.to_vec(), cfg)
            .unwrap();
    let alice_state = alice.serialize_state().unwrap();
    let mut ctx = SecureContext::with_db_path(&path, cfg).expect("ctx");
    ctx.create_session(&peer).expect("create");
    ctx.deserialize_session_state(&peer, &alice_state).expect("import");
    let m0 = ctx.encrypt_message(&peer, &b"m0".to_vec(), None).expect("m0");
    // Process exit and restart.
    drop(ctx);
    let mut ctx2 = SecureContext::with_db_path(&path, cfg).expect("reopen");
    let m1 = ctx2.encrypt_message(&peer, &b"m1".to_vec(), None).expect("m1");
    // Bob decrypts both in order.
    let empty: Vec<u8> = Vec::new();
    assert_eq!(bob.decrypt(&m0, &empty).expect("m0"), b"m0".to_vec());
    assert_eq!(bob.decrypt(&m1, &empty).expect("m1"), b"m1".to_vec());
    // The restarted context did not reuse an index: m1 carries index 1, and
    // the next message carries index 2.
    let mut idx = [0u8; 8];
    idx.copy_from_slice(&m1[32..40]);
    assert_eq!(u64::from_le_bytes(idx), 1);
    let m2 = ctx2.encrypt_message(&peer, &b"m2".to_vec(), None).expect("m2");
    idx.copy_from_slice(&m2[32..40]);
    assert_eq!(u64::from_le_bytes(idx), 2);
}

#[test]
fn context_decrypts_via_manager() {
    let cfg = Config::default();
    let path = fresh_db_path("ctx_decrypt");
    let peer = b"peer-ctx".to_vec();
    let shared_secret: Vec<u8> = vec![1u8; 32];
    let alice_sk = [21u8; 32];
    let bob_sk = [22u8; 32];
    let mut alice =
        DoubleRatchetSession::from_shared_secret(&shared_secret, alice_sk.to_vec(), pk_of(bob_sk), cfg)
            .unwrap();
    let bob =
        DoubleRatchetSession::from_shared_secret_responder(&shared_secret, bob_sk.to_vec(), cfg)
            .unwrap();
    let mut ctx = SecureContext::with_db_path(&path, cfg).expect("ctx");
    ctx.create_session(&peer).expect("create");
    ctx.deserialize_session_state(&peer, &bob.serialize_state().unwrap()).expect("import bob");
    let empty: Vec<u8> = Vec::new();
    let m = alice.encrypt(&b"over the wire".to_vec(), &empty).unwrap();
    let pt = ctx.decrypt_message(&peer, &m, None).expect("decrypt");
    assert_eq!(pt, b"over the wire".to_vec());
}

#[test]
fn unknown_session_is_not_found() {
    let cfg = Config::default();
    let path = fresh_db_path("notfound");
    let mut ctx = SecureContext::with_db_path(&path, cfg).expect("ctx");
    let peer = b"peer-none".to_vec();
    assert_eq!(
        ctx.encrypt_message(&peer, &b"x".to_vec(), None),
        Err(ProtocolError::SessionNotFound)
    );
}

#[test]
fn remove_session_evicts() {
    let cfg = Config::default();
    let path = fresh_db_path("remove");
    let db = sled::open(&path).expect("db");
    let mut manager = secure_protocol::SessionManager::new(cfg, &db).expect("manager");
    let peer = b"peer-rm".to_vec();
    manager.create_session(&peer, cfg).expect("create");
    assert!(manager.remove_session(&peer).expect("remove"));
    assert!(!manager.remove_session(&peer).expect("remove absent is fine"));
    assert!(matches!(manager.get_session(&peer), Err(ProtocolError::SessionNotFound)));
}

#[test]
fn sessions_are_isolated() {
    let cfg = Config::default();
    let path = fresh_db_path("isolation");
    let peer_a = b"peer-iso-a".to_vec();
    let peer_b = b"peer-iso-b".to_vec();
    let shared_secret: Vec<u8> = vec![5u8; 32];
    let alice_sk = [31u8; 32];
    let bob_sk = [32u8; 32];
    let mut alice =
        DoubleRatchetSession::from_shared_secret(&shared_secret, alice_sk.to_vec(), pk_of(bob_sk), cfg)
            .unwrap();
    let bob =
        DoubleRatchetSession::from_shared_secret_responder(&shared_secret, bob_sk.to_vec(), cfg)
            .unwrap();
    let mut ctx = SecureContext::with_db_path(&path, cfg).expect("ctx");
    ctx.create_session(&peer_a).expect("a");
    ctx.create_session(&peer_b).expect("b");
    ctx.deserialize_session_state(&peer_b, &bob.serialize_state().unwrap()).expect("import");
    let before_a = ctx.serialize_session_state(&peer_a).expect("state a");
    // Traffic on peer B leaves peer A's session untouched.
    let empty: Vec<u8> = Vec::new();
    let m = alice.encrypt(&b"for b".to_vec(), &empty).unwrap();
    ctx.decrypt_message(&peer_b, &m, None).expect("decrypt b");
    assert_eq!(ctx.serialize_session_state(&peer_a).expect("state a again"), before_a);
}

#[test]
fn save_session_writes_serialized_state() {
    let cfg = Config::default();
    let path = fresh_db_path("save");
    let db = sled::open(&path).expect("db");
    let mut manager = secure_protocol::SessionManager::new(cfg, &db).expect("manager");
    let peer = b"peer-save".to_vec();
    let session = DoubleRatchetSession::new(cfg).expect("session");
    let bytes = session.serialize_state().expect("bytes");
    manager.save_session(&peer, &session).expect("save");
    let stored = db
        .open_tree("sessions")
        .expect("tree")
        .get(&peer)
        .expect("read")
        .expect("present");
    assert_eq!(stored.as_ref(), bytes.as_slice());
    manager.get_session(&peer).expect("loadable");
}

#[test]
fn keystore_prekeys_roundtrip() {
    let path = fresh_db_path("keystore");
    let db = sled::open(&path).expect("db");
    let tree = db.open_tree("keystore").expect("tree");
    let mut store = KeyStore::new(tree).expect("store");
    let identity = store.get_identity_keypair().expect("identity");
    assert_eq!(identity.private.len(), 32);
    assert_eq!(identity.public.len(), 32);
    // Prekeys.
    assert_eq!(
        store.get_prekey(77).map(|k| k.public.clone()),
        Err(ProtocolError::KeyNotFound)
    );
    let pk = PreKeyPair { private: vec![1u8; 32], public: vec![2u8; 32] };
    store.save_prekey(77, &pk).expect("save");
    let got = store.get_prekey(77).expect("get");
    assert_eq!(got.private, pk.private);
    assert_eq!(got.public, pk.public);
    store.remove_prekey(77).expect("remove");
    store.remove_prekey(77).expect("remove absent is fine");
    assert_eq!(
        store.get_prekey(77).map(|k| k.public.clone()),
        Err(ProtocolError::KeyNotFound)
    );
    // Signed prekeys.
    let spk = SignedPreKeyPair {
        private: vec![3u8; 32],
        public: vec![4u8; 32],
        signature: vec![5u8; 64],
    };
    store.save_signed_prekey(9, &spk).expect("save signed");
    let got = store.get_signed_prekey(9).expect("get signed");
    assert_eq!(got.signature, spk.signature);
    assert_eq!(
        store.get_signed_prekey(10).map(|k| k.public.clone()),
        Err(ProtocolError::KeyNotFound)
    );
}

#[test]
fn keystore_identity_survives_reopen() {
    let path = fresh_db_path("keystore_reopen");
    let first = {
        let db = sled::open(&path).expect("db");
        let store = KeyStore::new(db.open_tree("keystore").expect("tree")).expect("store");
        store.get_identity_keypair().expect("identity").public
    };
    let db = sled::open(&path).expect("db again");
    let store = KeyStore::new(db.open_tree("keystore").expect("tree")).expect("store again");
    assert_eq!(store.get_identity_keypair().expect("identity").public, first);
}

#[test]
fn identity_from_bytes_keeps_bytes() {
    let public = vec![6u8; 32];
    let secret = vec![7u8; 32];
    let k = IdentityKeyPair::from_bytes(&public, &secret);
    assert_eq!(k.public, public);
    assert_eq!(k.private, secret);
}

#[test]
fn handshake_messages_are_versioned() {
    let builder = HandshakeBuilder::new().with_config(Config::default()).with_initiator(true);
    let peer_key = vec![9u8; 32];
    let builder = builder.with_peer_public_key(&peer_key).expect("key");
    let handshake = builder.build().expect("build");
    let msg = handshake.perform().expect("perform");
    let mut expected = b"HANDSHAKE_V1_INIT".to_vec();
    expected.extend_from_slice(&peer_key);
    assert_eq!(msg, expected);

    let responder = HandshakeBuilder::new()
        .with_config(Config::default())
        .with_initiator(false)
        .build()
        .expect("build");
    assert_eq!(responder.perform().expect("perform"), b"HANDSHAKE_V1_RESP".to_vec());
}

#[test]
fn handshake_builder_rejects_bad_key_and_missing_config() {
    let builder = HandshakeBuilder::new();
    assert!(matches!(
        builder.with_peer_public_key(&vec![1u8; 31]),
        Err(ProtocolError::InvalidKeyLength)
    ));
    assert!(matches!(HandshakeBuilder::new().build(), Err(ProtocolError::InvalidState)));
}

#[test]
fn context_handshake_round() {
    let cfg = Config::default();
    let path = fresh_db_path("handshake");
    let mut ctx = SecureContext::with_db_path(&path, cfg).expect("ctx");
    let peer = b"peer-hs".to_vec();
    ctx.create_session(&peer).expect("create");
    ctx.load_identity(&vec![1u8; 32], &vec![2u8; 32]);
    let msg = ctx
        .perform_handshake(&peer, false, None, Some(&b"hello".to_vec()))
        .expect("handshake");
    assert_eq!(msg, b"HANDSHAKE_V1_RESP".to_vec());
    assert_eq!(
        ctx.perform_handshake(&peer, true, Some(&vec![1u8; 31]), None),
        Err(ProtocolError::InvalidKeyLength)
    );
}

#[test]
fn error_conversions_match_the_taxonomy() {
    assert_eq!(ProtocolError::from(CryptoError::InvalidKeyLength), ProtocolError::InvalidKeyLength);
    assert_eq!(ProtocolError::from(CryptoError::DecryptionFailed), ProtocolError::DecryptionFailed);
    assert_eq!(ProtocolError::from(CryptoError::RandomFailed), ProtocolError::RandomFailed);
    assert_eq!(FFIError::from(ProtocolError::InvalidKeyLength), FFIError::InvalidArgument);
    assert_eq!(FFIError::from(ProtocolError::DecryptionFailed), FFIError::DecryptionFailed);
    assert_eq!(FFIError::from(ProtocolError::HandshakeFailed), FFIError::UnknownError);
    assert_eq!(FFIError::Success.code(), 0);
    assert_eq!(FFIError::NullPointer.code(), 1);
    assert_eq!(FFIError::InvalidArgument.code(), 2);
    assert_eq!(FFIError::EncryptionFailed.code(), 3);
    assert_eq!(FFIError::DecryptionFailed.code(), 4);
    assert_eq!(FFIError::SessionNotFound.code(), 5);
    assert_eq!(FFIError::OutOfMemory.code(), 6);
    assert_eq!(FFIError::UnknownError.code(), 255);
}

#[test]
fn config_defaults_and_ffi_conversion() {
    let cfg = Config::default();
    assert!(cfg.enable_forward_secrecy);
    assert!(cfg.enable_post_compromise_security);
    assert_eq!(cfg.max_skipped_messages, 2000);
    assert_eq!(cfg.key_rotation_interval, 86400);
    assert_eq!(cfg.handshake_timeout, 30);
    assert_eq!(cfg.message_buffer_size, 1024);
    let flat = ConfigFFI {
        enable_forward_secrecy: 1,
        enable_post_compromise_security: 0,
        max_skipped_messages: 10,
        key_rotation_interval: 60,
        handshake_timeout: 5,
        message_buffer_size: 256,
    };
    let lifted = Config::from(flat);
    assert!(lifted.enable_forward_secrecy);
    assert!(!lifted.enable_post_compromise_security);
    assert_eq!(lifted.max_skipped_messages, 10);
}

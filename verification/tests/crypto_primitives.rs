use secure_protocol::hkdf_expand;
use secure_protocol::hkdf_extract;
use secure_protocol::CryptoError;
use secure_protocol::CryptoHandler;
use secure_protocol::Encryptor;
use secure_protocol::SecureRandom;

fn hex(bytes: &[u8]) -> String {
    let mut s = String::new();
    for b in bytes {
        s.push_str(&format!("{:02x}", b));
    }
    s
}

#[test]
fn hkdf_rfc5869_case_one() {
    // RFC 5869, test case 1 (SHA-256).
    let ikm = vec![0x0bu8; 22];
    let salt: Vec<u8> = (0u8..=12).collect();
    let info: Vec<u8> = (0xf0u8..=0xf9).collect();
    let prk = hkdf_extract(&salt, &ikm);
    assert_eq!(hex(&prk), "077709362c2e32df0ddc3f0dc47bba6390b6c73bb50f9c3122ec844ad7c2b3e5");
    let okm = hkdf_expand(&prk, &info, 42).expect("expand");
    assert_eq!(
        hex(&okm),
        "3cb25f25faacd57a90434f64d0362f2a2d2d0a90cf1a5a4c5db02d56ecc4c5bf34007208d5b887185865"
    );
}

#[test]
fn hkdf_expand_rejects_bad_inputs() {
    let prk_short = vec![1u8; 16];
    assert_eq!(hkdf_expand(&prk_short, &Vec::new(), 32), Err(CryptoError::KeyDerivationFailed));
    let prk = vec![1u8; 32];
    assert_eq!(hkdf_expand(&prk, &Vec::new(), 8161), Err(CryptoError::KeyDerivationFailed));
    assert_eq!(hkdf_expand(&prk, &Vec::new(), 8160).expect("max length").len(), 8160);
}

#[test]
fn handler_roundtrip_and_tampering() {
    let key = vec![3u8; 32];
    let handler = CryptoHandler::new(&key).expect("new");
    let ad = b"header".to_vec();
    let ct = handler.encrypt(&b"secret".to_vec(), &ad).expect("encrypt");
    assert_eq!(ct.len(), 6 + 28);
    assert_eq!(handler.decrypt(&ct, &ad).expect("decrypt"), b"secret".to_vec());
    let mut bad = ct.clone();
    bad[20] ^= 1;
    assert_eq!(handler.decrypt(&bad, &ad), Err(CryptoError::DecryptionFailed));
    assert_eq!(handler.decrypt(&ct, &b"other".to_vec()), Err(CryptoError::DecryptionFailed));
    let other = CryptoHandler::new(&vec![4u8; 32]).unwrap();
    assert_eq!(other.decrypt(&ct, &ad), Err(CryptoError::DecryptionFailed));
}

#[test]
fn handler_rejects_bad_lengths() {
    assert!(matches!(CryptoHandler::new(&vec![1u8; 16]), Err(CryptoError::InvalidKeyLength)));
    let handler = CryptoHandler::new(&vec![1u8; 32]).unwrap();
    let r = handler.encrypt_with_nonce(&b"x".to_vec(), &Vec::new(), &vec![0u8; 11]);
    assert_eq!(r, Err(CryptoError::InvalidNonceLength));
    assert_eq!(handler.decrypt(&vec![0u8; 5], &Vec::new()), Err(CryptoError::DecryptionFailed));
}

#[test]
fn handler_nonce_is_prefix() {
    let handler = CryptoHandler::new(&vec![5u8; 32]).unwrap();
    let nonce: Vec<u8> = (1u8..=12).collect();
    let ct = handler.encrypt_with_nonce(&b"abc".to_vec(), &Vec::new(), &nonce).unwrap();
    assert_eq!(&ct[..12], nonce.as_slice());
    assert_eq!(handler.decrypt(&ct, &Vec::new()).unwrap(), b"abc".to_vec());
}

#[test]
fn encryptor_counter_enforced() {
    let key = vec![9u8; 32];
    let mut enc = Encryptor::new(&key, 2).expect("new");
    assert_eq!(enc.message_count(), 0);
    enc.encrypt_message(&b"a".to_vec(), &b"ctx".to_vec()).expect("first");
    enc.encrypt_message(&b"b".to_vec(), &b"ctx".to_vec()).expect("second");
    assert_eq!(enc.message_count(), 2);
    assert_eq!(
        enc.encrypt_message(&b"c".to_vec(), &b"ctx".to_vec()),
        Err(CryptoError::EncryptionFailed)
    );
    enc.reset_counter();
    assert_eq!(enc.message_count(), 0);
    enc.encrypt_message(&b"d".to_vec(), &b"ctx".to_vec()).expect("after reset");
}

#[test]
fn encryptor_decrypts_context_bound_payloads() {
    let key = vec![8u8; 32];
    let enc = Encryptor::new(&key, 100).unwrap();
    // decrypt_message authenticates against the caller's context alone.
    let handler = CryptoHandler::new(&key).unwrap();
    let ct = handler.encrypt(&b"pt".to_vec(), &b"ctx".to_vec()).unwrap();
    assert_eq!(enc.decrypt_message(&ct, &b"ctx".to_vec()).expect("decrypt"), b"pt".to_vec());
    assert_eq!(enc.decrypt_message(&ct, &b"bad".to_vec()), Err(CryptoError::DecryptionFailed));
    assert_eq!(
        enc.decrypt_message(&vec![0u8; 4], &b"ctx".to_vec()),
        Err(CryptoError::InvalidCiphertext)
    );
}

#[test]
fn encryptor_rejects_short_keys() {
    assert!(matches!(Encryptor::new(&vec![0u8; 31], 5), Err(CryptoError::InvalidKeyLength)));
}

#[test]
fn random_source_fills_and_reseeds() {
    let mut rng = SecureRandom::new().expect("new");
    let mut buf = vec![0u8; 64];
    rng.fill_bytes(&mut buf).expect("fill");
    assert_eq!(buf.len(), 64);
    assert_ne!(buf, vec![0u8; 64]);
    let mut other = vec![0u8; 64];
    rng.fill_bytes(&mut other).expect("fill");
    assert_ne!(buf, other);
    // Cross a reseed boundary.
    for _ in 0..1100 {
        let mut small = vec![0u8; 8];
        rng.fill_bytes(&mut small).expect("fill");
    }
}

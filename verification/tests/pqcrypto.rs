use neuroquantum_core::pqcrypto::{PQCryptoError, PQCryptoManager, QuantumTokenClaims};

#[test]
fn test_mlkem_key_generation() {
    let manager = PQCryptoManager::new();
    let pk = manager.get_mlkem_public_key_base64();
    assert!(!pk.is_empty());
}

#[test]
fn public_keys_are_base64_of_the_standard_sizes() {
    let manager = PQCryptoManager::new();
    let kem = manager.get_mlkem_public_key_base64();
    let sig = manager.get_mldsa_public_key_base64();
    // 1184 bytes and 1952 bytes, four characters per three bytes, padded.
    assert_eq!(kem.len(), 1580);
    assert_eq!(sig.len(), 2604);
    let alphabet = |c: char| c.is_ascii_alphanumeric() || c == '+' || c == '/' || c == '=';
    assert!(kem.chars().all(alphabet));
    assert!(sig.chars().all(alphabet));
}

#[test]
fn test_signature_sign_verify() {
    let manager = PQCryptoManager::new();
    let message = b"Hello, Quantum World!";
    let signed = manager.sign_message(message);
    let verified = manager.verify_signature(&signed).unwrap();
    assert_eq!(verified, message);
}

#[test]
fn signed_message_is_signature_then_message() {
    let manager = PQCryptoManager::new();
    let message = b"abc";
    let signed = manager.sign_message(message);
    assert_eq!(signed.len(), 3 + 3309);
    assert_eq!(&signed[3309..], message);
}

#[test]
fn signature_from_another_key_is_refused() {
    let alice = PQCryptoManager::new();
    let bob = PQCryptoManager::new();
    let signed = alice.sign_message(b"payload");
    assert!(matches!(bob.verify_signature(&signed), Err(PQCryptoError::SignatureVerificationFailed)));
}

#[test]
fn test_kem_encapsulate_decapsulate() {
    let manager = PQCryptoManager::new();
    let (ciphertext, shared_secret_sender) = manager.encapsulate();
    assert!(!ciphertext.is_empty(), "Ciphertext should not be empty");
    assert!(!shared_secret_sender.is_empty(), "Shared secret should not be empty");
    assert_eq!(ciphertext.len(), 1088, "ML-KEM-768 ciphertext should be 1088 bytes");
    assert_eq!(shared_secret_sender.len(), 32, "ML-KEM-768 shared secret should be 32 bytes");
    let (ciphertext2, _shared_secret2) = manager.encapsulate();
    assert_ne!(ciphertext, ciphertext2, "Ciphertexts should be different due to randomness");
    let shared_secret_receiver = manager.decapsulate(&ciphertext).unwrap();
    assert_eq!(
        shared_secret_sender, shared_secret_receiver,
        "Decapsulated shared secret must match the encapsulated one"
    );
}

#[test]
fn test_kem_decapsulation_with_invalid_ciphertext() {
    let manager = PQCryptoManager::new();
    let short_ciphertext = vec![0u8; 100];
    let result = manager.decapsulate(&short_ciphertext);
    assert!(result.is_err(), "Should fail with invalid ciphertext length");
    let invalid_ciphertext = vec![0u8; 1088];
    let result = manager.decapsulate(&invalid_ciphertext);
    if let Ok(secret) = result {
        assert_eq!(secret.len(), 32);
    }
}

#[test]
fn decapsulation_length_error_message() {
    let manager = PQCryptoManager::new();
    match manager.decapsulate(&[1u8; 100]) {
        Err(e @ PQCryptoError::InvalidCiphertext(_)) => assert_eq!(
            e.to_display_string(),
            "Invalid ciphertext: Invalid ciphertext length: expected 1088 bytes, got 100 bytes"
        ),
        _ => panic!("expected an invalid ciphertext error"),
    }
}

#[test]
fn decapsulation_is_deterministic_per_ciphertext() {
    let manager = PQCryptoManager::new();
    let garbage = vec![7u8; 1088];
    let first = manager.decapsulate(&garbage).unwrap();
    let second = manager.decapsulate(&garbage).unwrap();
    assert_eq!(first, second);
    assert_eq!(first.len(), 32);
}

#[test]
fn test_kem_multiple_roundtrips() {
    let manager = PQCryptoManager::new();
    for _ in 0..5 {
        let (ciphertext, expected_secret) = manager.encapsulate();
        let decapsulated_secret = manager.decapsulate(&ciphertext).unwrap();
        assert_eq!(expected_secret, decapsulated_secret, "Each roundtrip must produce matching secrets");
    }
}

#[test]
fn test_quantum_claims_generation_verification() {
    let manager = PQCryptoManager::new();
    let claims = manager.generate_quantum_claims("user123", "session456").unwrap();
    assert_eq!(claims.user_id, "user123");
    assert_eq!(claims.session_id, "session456");
    manager.verify_quantum_claims(&claims).unwrap();
}

#[test]
fn tampered_claims_are_refused() {
    let manager = PQCryptoManager::new();
    let claims = manager.generate_quantum_claims("user123", "session456").unwrap();
    let mut other_user = claims.clone();
    other_user.user_id = "mallory".to_string();
    assert!(matches!(
        manager.verify_quantum_claims(&other_user),
        Err(PQCryptoError::SignatureVerificationFailed)
    ));
    let mut later = claims.clone();
    later.timestamp += 1;
    assert!(matches!(manager.verify_quantum_claims(&later), Err(PQCryptoError::SignatureVerificationFailed)));
    let mut garbled = claims.clone();
    garbled.quantum_signature = "not base64!".to_string();
    match manager.verify_quantum_claims(&garbled) {
        Err(PQCryptoError::EncodingError(m)) => assert!(m.starts_with("Invalid base64: ")),
        _ => panic!("expected an encoding error"),
    }
}

#[test]
fn claims_from_another_manager_are_refused() {
    let alice = PQCryptoManager::new();
    let bob = PQCryptoManager::new();
    let claims: QuantumTokenClaims = alice.generate_quantum_claims("u", "s").unwrap();
    assert!(bob.verify_quantum_claims(&claims).is_err());
    let ciphertext_chars = claims.kem_ciphertext.len();
    assert_eq!(ciphertext_chars, 1452);
}

#[test]
fn test_invalid_signature_fails() {
    let manager = PQCryptoManager::new();
    let invalid_signed = vec![0u8; 100];
    let result = manager.verify_signature(&invalid_signed);
    assert!(result.is_err());
}

#[test]
fn error_messages() {
    assert_eq!(PQCryptoError::SignatureVerificationFailed.to_display_string(), "Signature verification failed");
    assert_eq!(PQCryptoError::KeyGenerationFailed("x".to_string()).to_display_string(), "Key generation failed: x");
    assert_eq!(PQCryptoError::EncodingError("y".to_string()).to_display_string(), "Encoding error: y");
    assert_eq!(PQCryptoError::DecapsulationFailed("z".to_string()).to_display_string(), "Decapsulation failed: z");
    assert_eq!(PQCryptoError::InvalidKeyFormat("w".to_string()).to_display_string(), "Invalid key format: w");
}

#[test]
fn encapsulations_are_fresh_and_decapsulate_to_their_secret() {
    let manager = PQCryptoManager::new();
    let (c1, s1) = manager.encapsulate();
    let (c2, s2) = manager.encapsulate();
    assert_eq!((c1.len(), s1.len()), (1088, 32));
    assert_ne!(c1, c2);
    assert_ne!(s1, vec![0u8; 32]);
    assert_eq!(manager.decapsulate(&c1).unwrap(), s1);
    assert_eq!(manager.decapsulate(&c2).unwrap(), s2);
    let other = PQCryptoManager::new();
    assert_ne!(other.decapsulate(&c1).unwrap(), s1);
}

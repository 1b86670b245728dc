use base64::Engine;
use ed25519_dalek::Signer;
use nrtm4_validator::crypto::check_expected_hash;
use nrtm4_validator::crypto::check_signature;
use nrtm4_validator::crypto::open_envelope;
use nrtm4_validator::crypto::parse_public_key;
use nrtm4_validator::errors::NrtmError;

fn b64(bytes: &[u8]) -> String {
    base64::engine::general_purpose::STANDARD.encode(bytes)
}

#[test]
fn digest_matches_known_vector() {
    let data = b"hello".to_vec();
    let expected = String::from("2cf24dba5fb0a30e26e83b2ac5b9e29e1b161e5c1fa7425e73043362938b9824");
    assert!(check_expected_hash(&data, Some(&expected), "https://x/y").is_ok());
}

#[test]
fn hash_check_is_case_normalized() {
    let data = b"hello".to_vec();
    let lower = String::from("2cf24dba5fb0a30e26e83b2ac5b9e29e1b161e5c1fa7425e73043362938b9824");
    let upper = lower.to_uppercase();
    assert!(check_expected_hash(&data, Some(&lower), "https://x/y").is_ok());
    assert!(check_expected_hash(&data, Some(&upper), "https://x/y").is_ok());
    assert!(check_expected_hash(&data, None, "https://x/y").is_ok());
}

#[test]
fn tampering_any_byte_breaks_the_hash() {
    let data = b"The quick brown fox jumps over the lazy dog".to_vec();
    let expected = sha256::digest(&data);
    assert!(check_expected_hash(&data, Some(&expected), "https://x/y").is_ok());
    for i in 0..data.len() {
        let mut tampered = data.clone();
        tampered[i] ^= 0x01;
        let r = check_expected_hash(&tampered, Some(&expected), "https://x/y");
        match r.unwrap_err() {
            NrtmError::Integrity { url, expected_hash, actual_hash } => {
                assert_eq!(url, "https://x/y");
                assert_eq!(expected_hash, expected);
                assert_eq!(actual_hash, sha256::digest(&tampered));
            },
            other => panic!("unexpected error {:?}", other),
        }
    }
}

#[test]
fn detached_signature_round_trip() {
    let sk = ed25519_dalek::SigningKey::from_bytes(&[7u8; 32]);
    let vk_b64 = b64(&sk.verifying_key().to_bytes());
    let key = parse_public_key(&vk_b64).unwrap();
    let message = b"notification bytes".to_vec();
    let sig_b64: Vec<u8> = b64(&sk.sign(&message).to_bytes()).into_bytes();
    assert!(check_signature(&key, &message, &sig_b64).is_ok());
}

#[test]
fn any_bit_flip_in_message_rejects_the_signature() {
    let sk = ed25519_dalek::SigningKey::from_bytes(&[9u8; 32]);
    let key = parse_public_key(&b64(&sk.verifying_key().to_bytes())).unwrap();
    let message = b"signed once".to_vec();
    let sig_b64: Vec<u8> = b64(&sk.sign(&message).to_bytes()).into_bytes();
    for i in 0..message.len() {
        for bit in 0..8u8 {
            let mut tampered = message.clone();
            tampered[i] ^= 1 << bit;
            assert_eq!(
                check_signature(&key, &tampered, &sig_b64).unwrap_err(),
                NrtmError::AuthenticitySignature,
            );
        }
    }
}

#[test]
fn malformed_signature_material_is_rejected() {
    let sk = ed25519_dalek::SigningKey::from_bytes(&[1u8; 32]);
    let key = parse_public_key(&b64(&sk.verifying_key().to_bytes())).unwrap();
    let message = b"m".to_vec();
    // not base64
    assert_eq!(
        check_signature(&key, &message, &b"!!!".to_vec()).unwrap_err(),
        NrtmError::AuthenticitySignature,
    );
    // wrong length
    assert_eq!(
        check_signature(&key, &message, &b64(&[0u8; 12]).into_bytes()).unwrap_err(),
        NrtmError::AuthenticitySignature,
    );
}

#[test]
fn malformed_trust_anchor_is_rejected() {
    assert_eq!(parse_public_key("not base64 !!!").unwrap_err(), NrtmError::AuthenticityKey);
    assert_eq!(parse_public_key(&b64(&[0u8; 16])).unwrap_err(), NrtmError::AuthenticityKey);
}

#[test]
fn envelope_recovers_payload_only_when_signature_holds() {
    let alg = josekit::jws::alg::ecdsa::EcdsaJwsAlgorithm::Es256;
    let key_pair = alg.generate_key_pair().unwrap();
    let public_pem = String::from_utf8(josekit::jwk::KeyPair::to_pem_public_key(&key_pair)).unwrap();
    let signer = alg.signer_from_pem(josekit::jwk::KeyPair::to_pem_private_key(&key_pair)).unwrap();
    let payload = b"{\"doc\": true}";
    let header = josekit::jws::JwsHeader::new();
    let envelope = josekit::jws::serialize_compact(payload, &header, &signer).unwrap();

    let recovered = open_envelope(envelope.clone().into_bytes(), &public_pem).unwrap();
    assert_eq!(recovered, payload.to_vec());

    // flip one bit somewhere in the payload part of the envelope
    let mut broken = envelope.into_bytes();
    let dot = broken.iter().position(|b| *b == b'.').unwrap();
    broken[dot + 1] ^= 0x01;
    assert_eq!(
        open_envelope(broken, &public_pem).unwrap_err(),
        NrtmError::AuthenticityEnvelope,
    );
}

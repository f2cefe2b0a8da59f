use tynkerbase::crypt_utils::aes_utils::{AesEncryption, AesMsg};
use tynkerbase::crypt_utils::compression_utils;
use tynkerbase::crypt_utils::hash_utils;
use tynkerbase::crypt_utils::{self, BinaryPacket, CompressionType, CryptError};
use tynkerbase::secure_packet::{PacketState, SecurePacket};

#[test]
fn apikey_generation() {
    let key = crypt_utils::gen_apikey("keys", "salt");
    assert!(key.starts_with("tyb_key_"));
    assert!(key.len() > 64);
}

#[test]
fn aes_keygen() {
    let key = crypt_utils::gen_apikey("keys", "salt");
    let aes = AesEncryption::from_tyb_apikey(&key);

    let plaintext = "hey!!";
    let mut msg = AesMsg::from_str(&plaintext);

    aes.encrypt(&mut msg).unwrap();

    let mut msg2 = msg.clone();

    aes.decrypt(&mut msg2).unwrap();

    let res: String = msg2.extract_str().unwrap();

    assert_eq!(res, plaintext);
}

#[test]
fn sha256_known_vectors() {
    assert_eq!(
        hash_utils::sha256(b""),
        "e3b0c44298fc1c149afbf4c8996fb92427ae41e4649b934ca495991b7852b855"
    );
    assert_eq!(
        hash_utils::sha256(b"abc"),
        "ba7816bf8f01cfea414140de5dae2223b00361a396177a9cb410ff61f20015ad"
    );
    assert_eq!(hash_utils::sha256(b"abc"), hash_utils::sha256(b"abc"));
}

#[test]
fn sha384_and_sha512_known_vectors() {
    assert_eq!(
        hash_utils::sha384(b"abc"),
        "cb00753f45a35e8bb5a03d699ac65007272c32ab0eded1631a8b605a43ff5bed8086072ba1e7cc2358baeca134c825a7"
    );
    assert_eq!(
        hash_utils::sha512(b"abc"),
        "ddaf35a193617abacc417349ae20413112e6fa4e89a97ea20a9eeee64b55d39a2192992a274fc1a836ba3c23a3feebbd454d4423643ce80e2a9ac94fa54ca49f"
    );
}

#[test]
fn derived_credentials_differ_by_salt_and_have_fixed_shape() {
    let a = crypt_utils::gen_apikey("secret", "salt1");
    let b = crypt_utils::gen_apikey("secret", "salt2");
    assert_ne!(a, b);
    for k in [&a, &b] {
        assert!(k.starts_with("tyb_key_"));
        let hex = &k["tyb_key_".len()..];
        assert_eq!(hex.len(), 128);
        assert!(hex.chars().all(|c| c.is_ascii_digit() || ('a'..='f').contains(&c)));
    }
    assert_eq!(a, crypt_utils::gen_apikey("secret", "salt1"));
}

#[test]
fn credential_framing_separates_secret_and_salt() {
    assert_ne!(crypt_utils::gen_apikey("ab", "c"), crypt_utils::gen_apikey("a", "bc"));
}

#[test]
fn salt_has_tag_and_alphanumeric_body() {
    let s = crypt_utils::gen_salt();
    assert!(s.starts_with("tyb_salt_"));
    let body = &s["tyb_salt_".len()..];
    assert_eq!(body.len(), 64);
    assert!(body.chars().all(|c| c.is_ascii_alphanumeric()));
}

#[test]
fn salt_from_draws_picks_alphabet_characters() {
    assert_eq!(crypt_utils::salt_from_draws(&[0, 9, 10, 35, 36, 61]), "tyb_salt_09AZaz");
    assert_eq!(crypt_utils::salt_from_draws(&[]), "tyb_salt_");
}

#[test]
fn binary_packet_from_text_is_length_prefixed() {
    let p = BinaryPacket::from("hey");
    assert_eq!(p.data, vec![3, 0, 0, 0, 0, 0, 0, 0, b'h', b'e', b'y']);
    assert_eq!(p.compression_type, CompressionType::Uncompressed);
    assert!(BinaryPacket::new().data.is_empty());
}

#[test]
fn binary_packet_compression_round_trip() {
    let text = "the quick brown fox jumps over the lazy dog ".repeat(50);
    let mut p = BinaryPacket::from(&text);
    let before = p.data.clone();
    compression_utils::compress_brotli(&mut p).unwrap();
    assert_eq!(p.compression_type, CompressionType::Brotli);
    assert!(p.data.len() < before.len());
    assert_eq!(compression_utils::compress_brotli(&mut p), Err(CryptError::AlreadyCompressed));
    compression_utils::decompress_brotli(&mut p).unwrap();
    assert_eq!(p.data, before);
    assert_eq!(p.compression_type, CompressionType::Uncompressed);
    assert_eq!(compression_utils::decompress_brotli(&mut p), Err(CryptError::NotCompressed));
    assert_eq!(compression_utils::decompress(&mut p), Err(CryptError::NotCompressed));
    assert_eq!(p.data, before);
}

#[test]
fn binary_packet_corrupt_stream() {
    let mut p = BinaryPacket { data: vec![0xff; 32], compression_type: CompressionType::Brotli };
    assert_eq!(compression_utils::decompress(&mut p), Err(CryptError::CorruptStream));
    assert_eq!(p.data, vec![0xff; 32]);
}

#[test]
fn aes_round_trip_and_wrong_key() {
    let k1 = AesEncryption::from(&[7u8; 32]);
    let k2 = AesEncryption::from(&[8u8; 32]);
    let mut msg = AesMsg::from_bytes(vec![1, 2, 3, 4, 5]);
    k1.encrypt(&mut msg).unwrap();
    assert!(msg.is_encrypted);
    assert_eq!(msg.data.len(), 5 + 16);
    assert_eq!(msg.nonce.as_ref().map(|n| n.len()), Some(12));
    assert_eq!(k1.encrypt(&mut msg), Err(CryptError::AlreadyEncrypted));
    assert_eq!(msg.extract_str(), Err(CryptError::InvalidState));
    let mut wrong = msg.clone();
    assert_eq!(k2.decrypt(&mut wrong), Err(CryptError::AuthenticationFailure));
    k1.decrypt(&mut msg).unwrap();
    assert_eq!(msg.data, vec![1, 2, 3, 4, 5]);
    assert!(msg.nonce.is_none());
    assert_eq!(k1.decrypt(&mut msg), Err(CryptError::NotEncrypted));
}

#[test]
fn aes_tampered_ciphertext_fails_authentication() {
    let k = AesEncryption::from(&[3u8; 32]);
    let mut msg = AesMsg::from_str("attack at dawn");
    k.encrypt(&mut msg).unwrap();
    for i in 0..msg.data.len() {
        let mut t = msg.clone();
        t.data[i] ^= 0x01;
        assert_eq!(k.decrypt(&mut t), Err(CryptError::AuthenticationFailure));
    }
}

#[test]
fn aes_nonce_errors() {
    let k = AesEncryption::from(&[3u8; 32]);
    let mut msg = AesMsg::from_str("x");
    k.encrypt(&mut msg).unwrap();
    let mut no_nonce = msg.clone();
    no_nonce.nonce = None;
    assert_eq!(k.decrypt(&mut no_nonce), Err(CryptError::MissingNonce));
    let mut short = msg.clone();
    short.nonce = Some(vec![0; 11]);
    assert_eq!(k.decrypt(&mut short), Err(CryptError::InvalidNonce));
}

#[test]
fn aes_fresh_nonce_per_encryption() {
    let k = AesEncryption::new().unwrap();
    let mut a = AesMsg::from_str("same");
    let mut b = AesMsg::from_str("same");
    k.encrypt(&mut a).unwrap();
    k.encrypt(&mut b).unwrap();
    assert_ne!(a.nonce, b.nonce);
    assert_ne!(a.data, b.data);
}

#[test]
fn apikey_key_is_first_hex_characters_of_digest() {
    let apikey = "tyb_key_example";
    let hex = hash_utils::sha256(apikey.as_bytes());
    let mut raw = [0u8; 32];
    raw.copy_from_slice(&hex.as_bytes()[..32]);
    let derived = AesEncryption::from_tyb_apikey(apikey);
    let direct = AesEncryption::from(&raw);
    let mut msg = AesMsg::from_str("payload");
    derived.encrypt(&mut msg).unwrap();
    direct.decrypt(&mut msg).unwrap();
    assert_eq!(msg.extract_str().unwrap(), "payload");
}

#[test]
fn extract_str_rejects_invalid_text() {
    let msg = AesMsg::from_bytes(vec![0xc3]);
    assert_eq!(msg.extract_str(), Err(CryptError::InvalidText));
}

#[test]
fn secure_packet_full_pipeline() {
    let key = AesEncryption::from(&[42u8; 32]);
    let payload = b"bundle bytes bundle bytes bundle bytes".to_vec();
    let mut p = SecurePacket::from_plaintext(payload.clone());
    p.compress().unwrap();
    assert_eq!(p.state(), PacketState::Compressed);
    p.encrypt_symmetric(&key).unwrap();
    assert_eq!(p.state(), PacketState::Encrypted { from_compressed: true });
    assert_eq!(p.compress(), Err(CryptError::AlreadyCompressed));
    assert_eq!(p.decompress(), Err(CryptError::InvalidState));
    assert_eq!(p.encrypt_symmetric(&key), Err(CryptError::AlreadyEncrypted));
    p.decrypt_symmetric(&key).unwrap();
    assert_eq!(p.state(), PacketState::Compressed);
    p.decompress().unwrap();
    assert_eq!(p.state(), PacketState::Plain);
    assert_eq!(p.into_payload(), payload);
}

#[test]
fn secure_packet_state_errors() {
    let key = AesEncryption::from(&[1u8; 32]);
    let other = AesEncryption::from(&[2u8; 32]);
    let mut p = SecurePacket::from_plaintext(vec![9; 100]);
    assert_eq!(p.decompress(), Err(CryptError::NotCompressed));
    assert_eq!(p.decrypt_symmetric(&key), Err(CryptError::NotEncrypted));
    p.encrypt_symmetric(&key).unwrap();
    assert_eq!(p.state(), PacketState::Encrypted { from_compressed: false });
    assert_eq!(p.compress(), Err(CryptError::InvalidState));
    assert_eq!(p.decompress(), Err(CryptError::NotCompressed));
    assert_eq!(p.decrypt_symmetric(&other), Err(CryptError::AuthenticationFailure));
    p.decrypt_symmetric(&key).unwrap();
    assert_eq!(p.payload(), &vec![9; 100]);
    assert_eq!(p.state(), PacketState::Plain);
}

#[test]
fn secure_packet_compress_round_trip_empty_payload() {
    let mut p = SecurePacket::from_plaintext(vec![]);
    p.compress().unwrap();
    assert_eq!(p.compress(), Err(CryptError::AlreadyCompressed));
    p.decompress().unwrap();
    assert!(p.payload().is_empty());
}

#[test]
fn apikey_from_digest_is_tagged_hex() {
    assert_eq!(crypt_utils::apikey_from_digest(&[0x00, 0xab, 0xff, 0x10]), "tyb_key_00abff10");
    assert_eq!(crypt_utils::apikey_from_digest(&[]), "tyb_key_");
}

#[test]
fn gen_apikey_hashes_length_prefixed_secret_then_salt() {
    let mut framed = vec![4u8, 0, 0, 0, 0, 0, 0, 0];
    framed.extend_from_slice(b"keys");
    framed.extend_from_slice(&[4, 0, 0, 0, 0, 0, 0, 0]);
    framed.extend_from_slice(b"salt");
    let expected = format!("tyb_key_{}", hash_utils::sha512(&framed));
    assert_eq!(crypt_utils::gen_apikey("keys", "salt"), expected);
}

#[test]
fn key_from_hex_text_uses_first_characters_as_bytes() {
    let text = "0123456789abcdef0123456789abcdefTRAILING";
    let mut raw = [0u8; 32];
    raw.copy_from_slice(&text.as_bytes()[..32]);
    let a = AesEncryption::from_hex_text(text);
    let b = AesEncryption::from(&raw);
    let mut msg = AesMsg::from_bytes(vec![5; 40]);
    a.encrypt(&mut msg).unwrap();
    b.decrypt(&mut msg).unwrap();
    assert_eq!(msg.data, vec![5; 40]);
}

#[test]
fn aes_gcm_known_answer_with_injected_nonce() {
    let key = AesEncryption::from(&[0u8; 32]);
    let mut empty = AesMsg::from_bytes(vec![]);
    empty.aad = vec![];
    key.encrypt_with_nonce(&mut empty, vec![0u8; 12]).unwrap();
    assert_eq!(hex::encode(&empty.data), "530f8afbc74536b9a963b4f1c4cb738b");

    let mut block = AesMsg::from_bytes(vec![0u8; 16]);
    block.aad = vec![];
    key.encrypt_with_nonce(&mut block, vec![0u8; 12]).unwrap();
    assert_eq!(
        hex::encode(&block.data),
        "cea7403d4d606b6e074ec5d3baf39d18d0d1c8a799996bf0265b98b5d48ab919"
    );
    assert_eq!(block.nonce, Some(vec![0u8; 12]));
    key.decrypt(&mut block).unwrap();
    assert_eq!(block.data, vec![0u8; 16]);
}

#[test]
fn injected_nonce_must_have_cipher_length() {
    let key = AesEncryption::from(&[0u8; 32]);
    let mut msg = AesMsg::from_str("x");
    assert_eq!(key.encrypt_with_nonce(&mut msg, vec![0u8; 8]), Err(CryptError::InvalidNonce));
    assert!(!msg.is_encrypted);
    let mut p = SecurePacket::from_plaintext(vec![1]);
    assert_eq!(p.encrypt_symmetric_with_nonce(&key, vec![0u8; 13]), Err(CryptError::InvalidNonce));
    assert_eq!(p.state(), PacketState::Plain);
}

#[test]
fn secure_packet_injected_nonce_is_deterministic() {
    let key = AesEncryption::from(&[9u8; 32]);
    let mut a = SecurePacket::from_plaintext(b"same input".to_vec());
    let mut b = SecurePacket::from_plaintext(b"same input".to_vec());
    a.encrypt_symmetric_with_nonce(&key, vec![5u8; 12]).unwrap();
    b.encrypt_symmetric_with_nonce(&key, vec![5u8; 12]).unwrap();
    assert_eq!(a.payload(), b.payload());
    assert_eq!(a.payload().len(), 10 + 16);
    a.decrypt_symmetric(&key).unwrap();
    assert_eq!(a.into_payload(), b"same input".to_vec());
}

#[test]
fn aes_short_payload_fails_authentication() {
    let key = AesEncryption::from(&[0u8; 32]);
    let msg = AesMsg { data: vec![1, 2, 3], aad: vec![], nonce: Some(vec![0; 12]), is_encrypted: true };
    let mut m = msg.clone();
    assert_eq!(key.decrypt(&mut m), Err(CryptError::AuthenticationFailure));
    assert_eq!(m.data, msg.data);
    assert!(m.is_encrypted);
}

#[test]
fn apikey_key_bytes_are_hex_digits() {
    let k = AesEncryption::from_tyb_apikey("tyb_key_example");
    let mut msg = AesMsg::from_str("z");
    k.encrypt(&mut msg).unwrap();
    let hex = hash_utils::sha256(b"tyb_key_example");
    assert!(hex.as_bytes()[..32].iter().all(|b| b.is_ascii_hexdigit() && !b.is_ascii_uppercase()));
    let mut raw = [0u8; 32];
    raw.copy_from_slice(&hex.as_bytes()[..32]);
    AesEncryption::from(&raw).decrypt(&mut msg).unwrap();
    assert_eq!(msg.data, b"z".to_vec());
}

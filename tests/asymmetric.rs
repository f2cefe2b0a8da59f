use tynkerbase::crypt_utils::rsa_utils::{decrypt_chunks, encrypt_chunks, AsymPrivateKey, AsymPublicKey};
use tynkerbase::crypt_utils::CryptError;
use tynkerbase::secure_packet::{PacketState, SecurePacket};

// A 2048-bit keypair made for these tests only, in PKCS#1 DER.
const PRIVATE_DER_HEX: &[&str] = &[
    "308204a40201000282010100b18c701f7099e917796e99e46a1dc1b8993e36c21bd5d421e7a5c0ecabc85eb04d8255a1",
    "f47ac76933201c9013597505fa51133cb148314eeb4365c775c30db595e06aae7ea40d0f0e45265e6b6e1d693293bb40",
    "8fecca10ba78f530c58bd2d7ff6c4c40a404f86241d0e059126ab693a9f53bd5964aee53537140a99f8c3ff33250bcc3",
    "744adb2fee6088dbca87ef8bfc545188e7924a29248dcfc84c6a9b10866d7d95662c55821383b2fe529d3f678ed6b567",
    "c70085fdcb6fffdf5e1530e43925f13834fbd817c6896da1adb8c97d3d6c0f920d4456b74dad9c271f751513c319c63a",
    "deaa389f1f181793aeb6d6c3147db47c9b9f1f886bd59c7a44fe93fd02030100010282010019a0b39b7a29a1295c0410",
    "af1579239a0576a3394c02c6aab930e602d37de9db0969177ab7db14171583dc539893684e9b55e210b7e73b84d0752b",
    "4709f2c4731245f1282c4bfa3d92d9fce2929fb39b986b161388e2cd3cf2699cbcb43b0d4d53c75a4f574d875bc973c0",
    "ba62abe81c32e35cc664f9fe6225307afcb0f4b1d32781c33bbda03c002713aa72b565ec0b0c0eddf663d6ed3536f5cf",
    "928778c6b1ceda0a5a37fe70fd021159433cd25756cac05c2706a4bc8d219fa44ec605e2a53638fa2135f3b9411a59dd",
    "54d2e4358dc48caf16c4b12c338bdffc590ca779b312d89481b9e2ad7050413bff10656b19a431273fff6f99ec6444b9",
    "5a6192a61102818100d82b26aa2c69bdde19bc661365e0e37128920586a11336ceb43cb23d345853b5e0a531d2023cda",
    "27214cb4523fc1b367cb0de3a492d7beb0acf0d09c67c54a47aeac84e458bc8ea3a24309d014dc16118b9b8c00301c8c",
    "d0b3e46846ad9285ecd42e0e4e5b4e2784085f656d1bd810781dbca7c1c689d9d45526776d91a57dd102818100d2438d",
    "0f58974087c89018842224e16a4ff81f6ad087fdc2bea925b4f531977d3ec12e0c8420d1004ce593979799fa5e31fd8d",
    "6670ce116f39e04e29743a3836e2d02caa74e470de10fe8060ab0358cf95a1767e4c159271dc1ef151156f05967464ae",
    "d45b3e278dd3960787b20a14a7f4628cfabbfafa8306d7cd5872fe626d02818100b9223bbb02ce8d0dea7cafef6d116d",
    "b93c45d2f5ba7dfa328daa6dfc7d1828995c0c1edefd8ba04a62fa8e74e2a5c240e266c2cfeff3561d79ffc4aa2f3588",
    "a85bb0e51fabdfd149d36e16b95f241ec2680e8f98999bd9fde4137a3b0decaf4665720c4e8f641ff3b437ff65b2b319",
    "67c6100c9ca8ace72232cafefd97ff6401028180031203744ee9de825d166595405e638046ecaba0c6acc5b2db4fe302",
    "127687ecc746d0e253e79ac5b359c2defad2bfca3256ae82e970c8e663e4f79f3958444be0e20354f5e20417ea0d9d58",
    "4c06ff7c00865c119a10d293a1103e9bdd814286a0ea7b77146202f7da381da208a2870cb0cfe39921b79782e44db06c",
    "f338edbd02818100d68b49a69b926496799b377967c59657b5406b1b202b73fc58d0ce5624a3b7246035b8b3be437e46",
    "e99bd6c615a0e8f7e6f25e0ef670618f32a290715fe7c973f6dbdc250859205e5e5fab70e2772d12a28ca9306ceaed51",
    "eeb66b3dae4a5831ec5c94ea61b757cbe3369df0422dac0a9ba3919066f8ecf195a94f434964b8aa",
];

const PUBLIC_DER_HEX: &[&str] = &[
    "3082010a0282010100b18c701f7099e917796e99e46a1dc1b8993e36c21bd5d421e7a5c0ecabc85eb04d8255a1f47ac7",
    "6933201c9013597505fa51133cb148314eeb4365c775c30db595e06aae7ea40d0f0e45265e6b6e1d693293bb408fecca",
    "10ba78f530c58bd2d7ff6c4c40a404f86241d0e059126ab693a9f53bd5964aee53537140a99f8c3ff33250bcc3744adb",
    "2fee6088dbca87ef8bfc545188e7924a29248dcfc84c6a9b10866d7d95662c55821383b2fe529d3f678ed6b567c70085",
    "fdcb6fffdf5e1530e43925f13834fbd817c6896da1adb8c97d3d6c0f920d4456b74dad9c271f751513c319c63adeaa38",
    "9f1f181793aeb6d6c3147db47c9b9f1f886bd59c7a44fe93fd0203010001",
];

fn private_key() -> AsymPrivateKey {
    AsymPrivateKey::from_der(hex::decode(PRIVATE_DER_HEX.concat()).unwrap())
}

fn public_der() -> Vec<u8> {
    hex::decode(PUBLIC_DER_HEX.concat()).unwrap()
}

#[test]
fn public_key_matches_exported_der() {
    let public = private_key().public_key().unwrap();
    assert_eq!(public.to_der(), public_der());
}

#[test]
fn asymmetric_chunks_round_trip_across_block_sizes() {
    let private = private_key();
    let public = AsymPublicKey::from_der(public_der());
    for len in [0usize, 1, 244, 245, 246, 490, 1000] {
        let plain: Vec<u8> = (0..len).map(|i| (i % 251) as u8).collect();
        let cipher = encrypt_chunks(&public, &plain).unwrap();
        assert_eq!(cipher.len(), 256 * ((len + 244) / 245));
        assert_eq!(decrypt_chunks(&private, &cipher).unwrap(), plain);
    }
}

#[test]
fn asymmetric_ragged_ciphertext_is_rejected() {
    let private = private_key();
    let public = AsymPublicKey::from_der(public_der());
    let mut cipher = encrypt_chunks(&public, b"hello").unwrap();
    cipher.pop();
    assert_eq!(decrypt_chunks(&private, &cipher), Err(CryptError::DecryptionFailure));
    assert_eq!(decrypt_chunks(&private, &[0u8; 10]), Err(CryptError::DecryptionFailure));
}

#[test]
fn asymmetric_tampered_block_is_rejected() {
    let private = private_key();
    let public = AsymPublicKey::from_der(public_der());
    let mut cipher = encrypt_chunks(&public, b"hello").unwrap();
    cipher[100] ^= 0x55;
    assert!(decrypt_chunks(&private, &cipher).is_err());
}

#[test]
fn asymmetric_bad_public_key_fails_to_encrypt() {
    let public = AsymPublicKey::from_der(vec![1, 2, 3]);
    assert_eq!(encrypt_chunks(&public, b"x"), Err(CryptError::TransformFailure));
    let bad = AsymPrivateKey::from_der(vec![1, 2, 3]);
    assert_eq!(bad.public_key().err(), Some(CryptError::InvalidKey));
}

#[test]
fn secure_packet_asymmetric_pipeline() {
    let private = private_key();
    let public = private.public_key().unwrap();
    let payload: Vec<u8> = b"small packet for key exchange ".repeat(20);
    let mut p = SecurePacket::from_plaintext(payload.clone());
    p.compress().unwrap();
    p.encrypt_asymmetric(&public).unwrap();
    assert_eq!(p.state(), PacketState::Encrypted { from_compressed: true });
    assert_eq!(p.payload().len() % 256, 0);
    assert_eq!(p.encrypt_asymmetric(&public), Err(CryptError::AlreadyEncrypted));
    assert_eq!(p.decrypt_symmetric(&tynkerbase::crypt_utils::aes_utils::AesEncryption::from(&[0u8; 32])), Err(CryptError::MissingNonce));
    p.decrypt_asymmetric(&private).unwrap();
    assert_eq!(p.state(), PacketState::Compressed);
    p.decompress().unwrap();
    assert_eq!(p.into_payload(), payload);
}

#[test]
fn secure_packet_asymmetric_state_errors() {
    let private = private_key();
    let mut p = SecurePacket::from_plaintext(vec![1, 2, 3]);
    assert_eq!(p.decrypt_asymmetric(&private), Err(CryptError::NotEncrypted));
}

#[test]
fn generated_keypair_round_trip() {
    let private = AsymPrivateKey::generate().unwrap();
    let public = private.public_key().unwrap();
    let cipher = encrypt_chunks(&public, b"fresh key").unwrap();
    assert_eq!(decrypt_chunks(&private, &cipher).unwrap(), b"fresh key".to_vec());
}

#[test]
fn asymmetric_empty_payload_encrypts_to_nothing() {
    let public = AsymPublicKey::from_der(vec![1, 2, 3]);
    assert_eq!(encrypt_chunks(&public, &[]), Ok(vec![]));
    let mut p = SecurePacket::from_plaintext(vec![]);
    p.encrypt_asymmetric(&public).unwrap();
    assert!(p.payload().is_empty());
}

use markx::crypto::EcdsaSigningKey;
use markx::crypto::{
    ecdsa_p256_keypair, ecdsa_p256_sign, ecdsa_p256_verify, hmac_sha256, hmac_sha256_verify,
    mlkem768_decaps, mlkem768_encaps, mlkem768_keypair, sha256, sha256_concat, MLKEM768_CT_LEN,
    MLKEM768_PK_LEN, MLKEM768_SK_LEN,
};
use markx::MarkXError;

fn hex(s: &str) -> Vec<u8> {
    (0..s.len()).step_by(2).map(|i| u8::from_str_radix(&s[i..i + 2], 16).unwrap()).collect()
}

#[test]
fn mlkem768_endpoint_consistent() {
    let kp = mlkem768_keypair();
    assert_eq!(kp.pk.len(), MLKEM768_PK_LEN);
    assert_eq!(kp.sk.len(), MLKEM768_SK_LEN);
    let (ct, ss_a) = mlkem768_encaps(&kp.pk).unwrap();
    assert_eq!(ct.len(), MLKEM768_CT_LEN);
    let ss_b = mlkem768_decaps(&kp.sk, &ct).unwrap();
    assert_eq!(ss_a, ss_b);
}

#[test]
fn mlkem768_decaps_wrong_sk_yields_nonmatching_ss() {
    // ML-KEM uses implicit rejection: wrong sk does not error but
    // produces a different shared secret.
    let kp1 = mlkem768_keypair();
    let kp2 = mlkem768_keypair();
    let (ct, ss_a) = mlkem768_encaps(&kp1.pk).unwrap();
    let ss_b = mlkem768_decaps(&kp2.sk, &ct).unwrap();
    assert_ne!(ss_a, ss_b);
}

#[test]
fn mlkem768_rejects_wrong_lengths() {
    let kp = mlkem768_keypair();
    assert_eq!(mlkem768_encaps(&kp.pk[..100]).unwrap_err(), MarkXError::MalformedMessage);
    let (ct, _) = mlkem768_encaps(&kp.pk).unwrap();
    assert_eq!(mlkem768_decaps(&kp.sk[..10], &ct).unwrap_err(), MarkXError::DecryptError);
    assert_eq!(mlkem768_decaps(&kp.sk, &ct[..1000]).unwrap_err(), MarkXError::DecryptError);
    // Deterministic decapsulation.
    assert_eq!(mlkem768_decaps(&kp.sk, &ct).unwrap(), mlkem768_decaps(&kp.sk, &ct).unwrap());
}

#[test]
fn ecdsa_p256_roundtrip() {
    let (sk, pk) = ecdsa_p256_keypair();
    let msg = b"hello MARK-X";
    let sig = ecdsa_p256_sign(&sk, msg);
    assert!(ecdsa_p256_verify(&pk, msg, &sig).is_ok());
    assert!(ecdsa_p256_verify(&pk, b"different", &sig).is_err());
}

#[test]
fn ecdsa_p256_deterministic_and_bad_encodings() {
    let (sk, pk) = ecdsa_p256_keypair();
    let a = ecdsa_p256_sign(&sk, b"m");
    let b = ecdsa_p256_sign(&sk, b"m");
    assert_eq!(a, b);
    assert!(a.len() <= 73);
    assert_eq!(pk.sec1.len(), 65);
    assert_eq!(ecdsa_p256_verify(&pk, b"m", &[0x30, 0x00]), Err(MarkXError::BadSignature));
    let (_, other_pk) = ecdsa_p256_keypair();
    assert_eq!(ecdsa_p256_verify(&other_pk, b"m", &a), Err(MarkXError::BadSignature));
}

#[test]
fn hmac_verify_constant_time() {
    let key = [0u8; 32];
    let data = b"some data";
    let tag = hmac_sha256(&key, data);
    assert!(hmac_sha256_verify(&key, data, &tag).is_ok());
    // Flip one bit
    let mut bad = tag;
    bad[0] ^= 1;
    assert!(hmac_sha256_verify(&key, data, &bad).is_err());
}

#[test]
fn hmac_known_answer_and_short_tag() {
    // RFC 4231, test case 2.
    let tag = hmac_sha256(b"Jefe", b"what do ya want for nothing?");
    assert_eq!(tag.to_vec(), hex("5bdcc146bf60754e6a042426089575c75a003f089d2739839dec58b964ec3843"));
    assert_eq!(
        hmac_sha256_verify(b"Jefe", b"what do ya want for nothing?", &tag[..16]),
        Err(MarkXError::DecryptError)
    );
}

#[test]
fn sha256_known_answers() {
    assert_eq!(
        sha256(b"abc").to_vec(),
        hex("ba7816bf8f01cfea414140de5dae2223b00361a396177a9cb410ff61f20015ad")
    );
    let parts: [&[u8]; 3] = [b"a", b"", b"bc"];
    assert_eq!(sha256_concat(&parts), sha256(b"abc"));
}

#[test]
fn mlkem768_secret_key_embeds_public_key() {
    let kp = mlkem768_keypair();
    assert_eq!(&kp.sk[1152..2336], &kp.pk[..]);
}

#[test]
fn signing_key_from_existing_bytes() {
    let (sk, pk) = ecdsa_p256_keypair();
    let bytes = sk.to_bytes();
    assert_eq!(bytes.len(), 32);
    let restored = EcdsaSigningKey::from_bytes(&bytes).unwrap();
    assert_eq!(restored.verifying_key().sec1, pk.sec1);
    let sig = ecdsa_p256_sign(&restored, b"pinned");
    assert!(ecdsa_p256_verify(&pk, b"pinned", &sig).is_ok());
    assert!(EcdsaSigningKey::from_bytes(&[0u8; 32]).is_none());
    assert!(EcdsaSigningKey::from_bytes(&[0xFFu8; 32]).is_none());
    assert!(EcdsaSigningKey::from_bytes(&[1u8; 10]).is_none());
}

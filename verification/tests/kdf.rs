use sha2::Sha256;
use hkdf::Hkdf;
use markx::kdf::{derive_k1, derive_k_chain, derive_k_trans};

#[test]
fn k1_is_deterministic() {
    let k_pq = [0xAA; 32];
    let k_class = [0xBB; 32];
    let tr = [0xCC; 32];
    let k1_a = derive_k1(&k_pq, &k_class, &tr);
    let k1_b = derive_k1(&k_pq, &k_class, &tr);
    assert_eq!(k1_a, k1_b);
}

#[test]
fn domain_separation() {
    // Same inputs into k_trans and k_chain with same epoch/ctr/transcript
    // must produce different outputs (different info labels).
    let k_pq = [0xAA; 32];
    let k_class = [0xBB; 32];
    let tr = [0xCC; 32];
    let ph = [0xDD; 32];
    let kt = derive_k_trans(&k_pq, &k_class, 1, 1, &ph, &tr);
    let kc = derive_k_chain(&k_pq, &k_class, 1, 1, &tr);
    assert_ne!(kt, kc);
}

#[test]
fn epoch_separation() {
    let k_pq = [0xAA; 32];
    let k_class = [0xBB; 32];
    let tr = [0xCC; 32];
    let ph = [0xDD; 32];
    let k1 = derive_k_trans(&k_pq, &k_class, 1, 1, &ph, &tr);
    let k2 = derive_k_trans(&k_pq, &k_class, 2, 1, &ph, &tr);
    assert_ne!(k1, k2);
}

#[test]
fn derivations_depend_on_every_input() {
    let k_pq = [0xAA; 32];
    let k_class = [0xBB; 32];
    let tr = [0xCC; 32];
    let ph = [0xDD; 32];
    let base = derive_k_trans(&k_pq, &k_class, 1, 1, &ph, &tr);
    assert_ne!(base, derive_k_trans(&k_pq, &k_class, 1, 2, &ph, &tr));
    assert_ne!(base, derive_k_trans(&k_pq, &k_class, 1, 1, &[0xDE; 32], &tr));
    assert_ne!(base, derive_k_trans(&k_pq, &[0xBC; 32], 1, 1, &ph, &tr));
    let k1 = derive_k1(&k_pq, &k_class, &tr);
    assert_ne!(k1, tr);
    assert_ne!(k1, k_pq);
    assert_ne!(k1, derive_k1(&k_pq, &k_class, &[0xCD; 32]));
    assert_ne!(derive_k_chain(&k_pq, &k_class, 1, 1, &tr), derive_k_chain(&k_pq, &k_class, 2, 1, &tr));
}

#[test]
fn k1_is_hkdf_over_documented_label() {
    let k_pq = [0xAA; 32];
    let k_class = [0xBB; 32];
    let tr = [0xCC; 32];
    let ikm: Vec<u8> = [&k_pq[..], &k_class[..]].concat();
    let info: Vec<u8> = [&b"MARK-X-Phase2"[..], &tr[..]].concat();
    let mut okm = [0u8; 32];
    Hkdf::<Sha256>::new(None, &ikm).expand(&info, &mut okm).unwrap();
    assert_eq!(derive_k1(&k_pq, &k_class, &tr), okm);

    let ph = [0xDD; 32];
    let mut info_t = b"MARK-X-Trans".to_vec();
    info_t.extend_from_slice(&7u32.to_be_bytes());
    info_t.extend_from_slice(&9u32.to_be_bytes());
    info_t.extend_from_slice(&ph);
    info_t.extend_from_slice(&tr);
    Hkdf::<Sha256>::new(None, &ikm).expand(&info_t, &mut okm).unwrap();
    assert_eq!(derive_k_trans(&k_pq, &k_class, 7, 9, &ph, &tr), okm);

    let mut info_c = b"MARK-X-Chain".to_vec();
    info_c.extend_from_slice(&7u32.to_be_bytes());
    info_c.extend_from_slice(&9u32.to_be_bytes());
    info_c.extend_from_slice(&tr);
    Hkdf::<Sha256>::new(None, &ikm).expand(&info_c, &mut okm).unwrap();
    assert_eq!(derive_k_chain(&k_pq, &k_class, 7, 9, &tr), okm);
}

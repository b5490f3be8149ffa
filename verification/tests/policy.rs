use markx::policy::{alg_id, param_id, variant, MarkXPolicy};
use markx::MarkXError;

#[test]
fn canonical_encoding_is_stable() {
    // Permuted construction -> same canonical bytes
    let p1 = MarkXPolicy {
        allowed_algorithms: vec![alg_id::ML_KEM, alg_id::ML_DSA],
        allowed_parameter_sets: vec![(alg_id::ML_KEM, 0x02), (alg_id::ML_DSA, 0x01)],
        allowed_variants: vec![variant::A2, variant::A1],
        min_epoch: 5,
        allowed_modes: 0b11,
    };
    let p2 = MarkXPolicy {
        allowed_algorithms: vec![alg_id::ML_DSA, alg_id::ML_KEM],
        allowed_parameter_sets: vec![(alg_id::ML_DSA, 0x01), (alg_id::ML_KEM, 0x02)],
        allowed_variants: vec![variant::A1, variant::A2],
        min_epoch: 5,
        allowed_modes: 0b11,
    };
    assert_eq!(p1.canonical_encode(), p2.canonical_encode());
    assert_eq!(p1.hash(), p2.hash());
}

#[test]
fn canonical_encoding_layout_of_reference() {
    let p = MarkXPolicy::reference();
    let expected: Vec<u8> = vec![
        0, 0, 0, 1, 0x03, 0x01, // one algorithm
        0, 0, 0, 1, 0x03, 0x01, 0x02, // one parameter set
        0, 0, 0, 2, 0x01, 0x02, // two variants
        0, 0, 0, 1, // min_epoch
        0x01, // modes
    ];
    assert_eq!(p.canonical_encode(), expected);
}

#[test]
fn canonical_encoding_ignores_repetition_and_sorts() {
    let p1 = MarkXPolicy {
        allowed_algorithms: vec![0x0401, 0x0301, 0x0401],
        allowed_parameter_sets: vec![(0x0301, 3), (0x0301, 2), (0x0301, 3)],
        allowed_variants: vec![2, 2, 1],
        min_epoch: 9,
        allowed_modes: 3,
    };
    let expected: Vec<u8> = vec![
        0, 0, 0, 2, 0x03, 0x01, 0x04, 0x01, //
        0, 0, 0, 2, 0x03, 0x01, 0x02, 0x03, 0x01, 0x03, //
        0, 0, 0, 2, 0x01, 0x02, //
        0, 0, 0, 9, 0x03,
    ];
    assert_eq!(p1.canonical_encode(), expected);
}

#[test]
fn hash_depends_on_modes() {
    let a = MarkXPolicy::reference();
    let mut b = MarkXPolicy::reference();
    b.allowed_modes = 0b11;
    assert_ne!(a.hash(), b.hash());
}

#[test]
fn accepts_happy_path() {
    let p = MarkXPolicy::reference();
    assert!(p.accepts(alg_id::ML_KEM, param_id::MLKEM_768, variant::A1, 1).is_ok());
}

#[test]
fn rejects_disallowed_alg() {
    let p = MarkXPolicy::reference();
    assert_eq!(
        p.accepts(0x9999, param_id::MLKEM_768, variant::A1, 1),
        Err(MarkXError::AlgorithmNotAllowed)
    );
}

#[test]
fn rejects_disallowed_param() {
    let p = MarkXPolicy::reference();
    assert_eq!(
        p.accepts(alg_id::ML_KEM, param_id::MLKEM_512, variant::A1, 1),
        Err(MarkXError::AlgorithmNotAllowed)
    );
}

#[test]
fn rejects_disallowed_variant() {
    let mut p = MarkXPolicy::reference();
    p.allowed_variants = vec![variant::A1]; // remove A2
    assert_eq!(
        p.accepts(alg_id::ML_KEM, param_id::MLKEM_768, variant::A2, 1),
        Err(MarkXError::AlgorithmNotAllowed)
    );
}

#[test]
fn rejects_low_epoch() {
    let mut p = MarkXPolicy::reference();
    p.min_epoch = 10;
    assert_eq!(
        p.accepts(alg_id::ML_KEM, param_id::MLKEM_768, variant::A1, 5),
        Err(MarkXError::EpochRollback)
    );
}

#[test]
fn allow_list_checked_before_epoch_floor() {
    let mut p = MarkXPolicy::reference();
    p.min_epoch = 10;
    assert_eq!(
        p.accepts(0x9999, param_id::MLKEM_768, variant::A1, 5),
        Err(MarkXError::AlgorithmNotAllowed)
    );
    assert!(p.accepts(alg_id::ML_KEM, param_id::MLKEM_768, variant::A2, 10).is_ok());
}

#[test]
fn different_allow_sets_give_different_encodings() {
    let a = MarkXPolicy::reference();
    let mut b = MarkXPolicy::reference();
    b.allowed_variants = vec![variant::A1];
    assert_ne!(a.canonical_encode(), b.canonical_encode());
    let mut c = MarkXPolicy::reference();
    c.allowed_parameter_sets = vec![(alg_id::ML_KEM, param_id::MLKEM_1024)];
    assert_ne!(a.canonical_encode(), c.canonical_encode());
    let mut d = MarkXPolicy::reference();
    d.min_epoch = 2;
    assert_ne!(a.canonical_encode(), d.canonical_encode());
}

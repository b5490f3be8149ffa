use markx::codec::Ctx1;
use markx::messages::{MarkXBootstrap, MarkXConfirm, MarkXPromote};
use markx::MarkXError;

fn dummy_ctx1() -> Ctx1 {
    Ctx1 {
        alg_id: 0x0301,
        param_id: 0x02,
        epoch: 1,
        counter: 1,
        policy_hash: [0xAB; 32],
        variant: 0x01,
        pq_public_key: vec![0xCC; 100],
        ecdh_share: vec![],
    }
}

#[test]
fn bootstrap_roundtrip() {
    let m = MarkXBootstrap {
        ctx_1: dummy_ctx1(),
        signature: vec![0xDE; 71], // typical DER-encoded ECDSA P-256 sig
    };
    let b = m.encode();
    let m2 = MarkXBootstrap::decode(&b).unwrap();
    assert_eq!(m.signature, m2.signature);
}

#[test]
fn confirm_roundtrip() {
    let m = MarkXConfirm {
        kem_ciphertext: vec![0xCC; 1088],
        ecdh_share: vec![],
        tag1: [0xEE; 32],
    };
    let b = m.encode();
    let m2 = MarkXConfirm::decode(&b).unwrap();
    assert_eq!(m.kem_ciphertext, m2.kem_ciphertext);
    assert_eq!(m.tag1, m2.tag1);
}

#[test]
fn promote_roundtrip() {
    let m = MarkXPromote::new(5, 9, [0xFF; 32]);
    let b = m.encode();
    let m2 = MarkXPromote::decode(&b).unwrap();
    assert_eq!(m.epoch, m2.epoch);
    assert_eq!(m.counter, m2.counter);
    assert_eq!(m.tag2, m2.tag2);
}

#[test]
fn promote_wrong_label_rejected() {
    let mut m = MarkXPromote::new(5, 9, [0xFF; 32]);
    m.label[0] ^= 1;
    let b = m.encode();
    assert!(MarkXPromote::decode(&b).is_err());
}

#[test]
fn promote_wire_size_and_label() {
    let m = MarkXPromote::new(1, 2, [0x00; 32]);
    let b = m.encode();
    assert_eq!(b.len(), 53);
    assert_eq!(&b[..13], b"promote-to-PQ");
    assert_eq!(&b[13..21], &[0, 0, 0, 1, 0, 0, 0, 2]);
}

#[test]
fn bootstrap_layout_and_rejections() {
    let m = MarkXBootstrap { ctx_1: dummy_ctx1(), signature: vec![0x01, 0x02] };
    let b = m.encode();
    let ctx_len = dummy_ctx1().encode().len();
    assert_eq!(&b[..4], &(ctx_len as u32).to_be_bytes());
    assert_eq!(b.len(), 4 + ctx_len + 2 + 2);
    let m2 = MarkXBootstrap::decode(&b).unwrap();
    assert_eq!(m2.ctx_1.pq_public_key, vec![0xCC; 100]);
    assert_eq!(MarkXBootstrap::decode(&b[..b.len() - 1]).unwrap_err(), MarkXError::MalformedMessage);
    let mut longer = b.clone();
    longer.push(0);
    assert_eq!(MarkXBootstrap::decode(&longer).unwrap_err(), MarkXError::MalformedMessage);
}

#[test]
fn confirm_rejects_trailing_and_short() {
    let m = MarkXConfirm { kem_ciphertext: vec![1, 2, 3], ecdh_share: vec![9], tag1: [7; 32] };
    let b = m.encode();
    assert_eq!(b.len(), 2 + 3 + 2 + 1 + 32);
    let m2 = MarkXConfirm::decode(&b).unwrap();
    assert_eq!(m2.ecdh_share, vec![9]);
    assert_eq!(MarkXConfirm::decode(&b[..b.len() - 1]).unwrap_err(), MarkXError::MalformedMessage);
    let mut longer = b.clone();
    longer.push(0);
    assert_eq!(MarkXConfirm::decode(&longer).unwrap_err(), MarkXError::MalformedMessage);
}

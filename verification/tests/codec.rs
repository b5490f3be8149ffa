use markx::codec::{Ctx1, Reader};
use markx::MarkXError;

fn sample_ctx1(pk_len: usize) -> Ctx1 {
    Ctx1 {
        alg_id: 0x0301,
        param_id: 0x02,
        epoch: 7,
        counter: 3,
        policy_hash: [0xAB; 32],
        variant: 0x01,
        pq_public_key: vec![0xCC; pk_len],
        ecdh_share: vec![],
    }
}

#[test]
fn ctx1_roundtrip() {
    let c = sample_ctx1(1184); // ML-KEM-768 pk size
    let bytes = c.encode();
    let c2 = Ctx1::decode(&bytes).unwrap();
    assert_eq!(c.alg_id, c2.alg_id);
    assert_eq!(c.param_id, c2.param_id);
    assert_eq!(c.epoch, c2.epoch);
    assert_eq!(c.counter, c2.counter);
    assert_eq!(c.policy_hash, c2.policy_hash);
    assert_eq!(c.variant, c2.variant);
    assert_eq!(c.pq_public_key, c2.pq_public_key);
    assert_eq!(c.ecdh_share, c2.ecdh_share);
}

#[test]
fn ctx1_truncated_rejected() {
    let c = sample_ctx1(100);
    let bytes = c.encode();
    // Truncate by one byte
    assert!(Ctx1::decode(&bytes[..bytes.len() - 1]).is_err());
}

#[test]
fn ctx1_trailing_garbage_rejected() {
    let c = sample_ctx1(100);
    let mut bytes = c.encode();
    bytes.push(0xFF);
    assert!(Ctx1::decode(&bytes).is_err());
}

#[test]
fn ctx1_encoding_layout_is_exact() {
    let c = Ctx1 {
        alg_id: 0x0301,
        param_id: 0x02,
        epoch: 0x0102_0304,
        counter: 0x0A0B_0C0D,
        policy_hash: [0x11; 32],
        variant: 0x01,
        pq_public_key: vec![0xAA, 0xBB],
        ecdh_share: vec![0xEE],
    };
    let mut expected = vec![0x03, 0x01, 0x02, 0x01, 0x02, 0x03, 0x04, 0x0A, 0x0B, 0x0C, 0x0D];
    expected.extend_from_slice(&[0x11; 32]);
    expected.extend_from_slice(&[0x01, 0x00, 0x02, 0xAA, 0xBB, 0x00, 0x01, 0xEE]);
    assert_eq!(c.encode(), expected);
    assert_eq!(expected.len(), 48 + 2 + 1);
}

#[test]
fn ctx1_every_strict_prefix_rejected() {
    let bytes = sample_ctx1(5).encode();
    for n in 0..bytes.len() {
        assert_eq!(Ctx1::decode(&bytes[..n]).unwrap_err(), MarkXError::MalformedMessage);
    }
    assert!(Ctx1::decode(&bytes).is_ok());
}

#[test]
fn reader_reads_big_endian_and_stays_on_failure() {
    let buf = [0x01, 0x02, 0x03, 0x04, 0x05, 0x06, 0x07];
    let mut r = Reader::new(&buf);
    assert_eq!(r.read_u8(), Ok(0x01));
    assert_eq!(r.read_u16(), Ok(0x0203));
    assert_eq!(r.read_u32(), Ok(0x0405_0607));
    assert_eq!(r.pos, 7);
    assert_eq!(r.read_u8(), Err(MarkXError::MalformedMessage));
    assert_eq!(r.pos, 7);
    assert!(r.finish().is_ok());
}

#[test]
fn reader_lp16_and_fixed() {
    let buf = [0x00, 0x02, 0xAA, 0xBB, 0xCC];
    let mut r = Reader::new(&buf);
    assert_eq!(r.read_lp16().unwrap(), &[0xAA, 0xBB]);
    assert_eq!(r.read_fixed(2), Err(MarkXError::MalformedMessage));
    assert_eq!(r.pos, 4);
    assert_eq!(r.read_fixed(1).unwrap(), &[0xCC]);
    assert!(r.finish().is_ok());

    let short = [0x00, 0x05, 0x01];
    let mut r = Reader::new(&short);
    assert_eq!(r.read_lp16(), Err(MarkXError::MalformedMessage));
    let r2 = Reader::new(&short);
    assert_eq!(r2.finish(), Err(MarkXError::MalformedMessage));
}

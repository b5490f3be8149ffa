use markx::state::{crc32_ieee, decode, encode, MigrationState, StateStore};
use markx::MarkXError;

#[test]
fn encode_decode_roundtrip() {
    let s = MigrationState {
        epoch_accepted: 7,
        counter_current: 42,
        pk_pq_active: vec![1, 2, 3, 4, 5],
        k_chain_active: vec![0xAA; 32],
    };
    let bytes = encode(&s);
    let s2 = decode(&bytes).unwrap();
    assert_eq!(s, s2);
}

#[test]
fn corrupt_crc_rejected() {
    let s = MigrationState::fresh();
    let mut bytes = encode(&s);
    let last = bytes.len() - 1;
    bytes[last] ^= 0xFF;
    assert!(decode(&bytes).is_err());
}

#[test]
fn rejects_non_advancing_commit() {
    let mut store = StateStore::new(None);

    let s1 = MigrationState {
        epoch_accepted: 5,
        counter_current: 1,
        pk_pq_active: vec![1, 2, 3],
        k_chain_active: vec![],
    };
    store.commit(&s1).unwrap();

    // Equal - must reject
    let s2 = s1.clone();
    assert_eq!(store.commit(&s2), Err(MarkXError::EpochRollback));

    // Lower epoch - must reject
    let s3 = MigrationState {
        epoch_accepted: 4,
        counter_current: 999,
        pk_pq_active: vec![],
        k_chain_active: vec![],
    };
    assert_eq!(store.commit(&s3), Err(MarkXError::EpochRollback));

    // Higher counter at same epoch - accepted
    let s4 = MigrationState {
        epoch_accepted: 5,
        counter_current: 2,
        pk_pq_active: vec![1, 2, 3],
        k_chain_active: vec![],
    };
    assert!(store.commit(&s4).is_ok());
}

#[test]
fn crc32_check_value() {
    assert_eq!(crc32_ieee(b"123456789"), 0xCBF4_3926);
    assert_eq!(crc32_ieee(b""), 0);
}

#[test]
fn fresh_state_layout() {
    let bytes = encode(&MigrationState::fresh());
    assert_eq!(bytes.len(), 20);
    assert_eq!(&bytes[..16], &[0u8; 16]);
    let crc = crc32_ieee(&[0u8; 16]);
    assert_eq!(&bytes[16..], &crc.to_be_bytes());
}

#[test]
fn would_advance_is_lexicographic() {
    let s = MigrationState { epoch_accepted: 3, counter_current: 5, pk_pq_active: vec![], k_chain_active: vec![] };
    assert!(s.would_advance(4, 0));
    assert!(s.would_advance(3, 6));
    assert!(!s.would_advance(3, 5));
    assert!(!s.would_advance(2, 100));
}

#[test]
fn decode_error_messages() {
    assert_eq!(decode(&[0u8; 19]), Err(MarkXError::StorageError("state file too short".to_string())));
    let s = MigrationState { epoch_accepted: 1, counter_current: 1, pk_pq_active: vec![7; 3], k_chain_active: vec![8; 2] };
    let mut bytes = encode(&s);
    bytes[0] ^= 1;
    assert_eq!(decode(&bytes), Err(MarkXError::StorageError("state CRC mismatch".to_string())));

    // Body with trailing byte but a valid CRC.
    let mut body = encode(&s);
    body.truncate(body.len() - 4);
    body.push(0xEE);
    let crc = crc32_ieee(&body);
    body.extend_from_slice(&crc.to_be_bytes());
    assert_eq!(decode(&body), Err(MarkXError::StorageError("trailing bytes in state".to_string())));

    // pk length pointing past the end, valid CRC.
    let mut body: Vec<u8> = vec![0, 0, 0, 1, 0, 0, 0, 1, 0, 0, 0, 99, 0, 0, 0, 0];
    let crc = crc32_ieee(&body);
    body.extend_from_slice(&crc.to_be_bytes());
    assert_eq!(decode(&body), Err(MarkXError::StorageError("pk_pq truncated".to_string())));
}

#[test]
fn load_after_commit_and_storage_error() {
    let mut store = StateStore::new(None);
    assert_eq!(store.load().unwrap(), MigrationState::fresh());
    let s = MigrationState { epoch_accepted: 2, counter_current: 3, pk_pq_active: vec![1], k_chain_active: vec![2; 32] };
    store.commit(&s).unwrap();
    assert_eq!(store.load().unwrap(), s);
    assert_eq!(store.image().unwrap(), encode(&s).as_slice());

    let mut broken = StateStore::new(Some(vec![1, 2, 3]));
    assert_eq!(broken.load(), Err(MarkXError::StorageError("state file too short".to_string())));
    assert_eq!(
        broken.commit(&s),
        Err(MarkXError::StorageError("state file too short".to_string()))
    );
    assert_eq!(broken.image().unwrap(), &[1, 2, 3]);
}

use markx::crypto::EcdsaSigningKey;
use markx::crypto::ecdsa_p256_keypair;
use markx::policy::{alg_id, param_id, variant};
use markx::{MarkXClient, MarkXError, MarkXPolicy, MarkXServer, MigrationState, StateStore};

fn shared_psk() -> [u8; 32] {
    let mut k = [0u8; 32];
    for (i, b) in k.iter_mut().enumerate() {
        *b = (i as u8).wrapping_mul(13).wrapping_add(7);
    }
    k
}

/// A server and a client sharing the reference policy, each with its own
/// empty state store.
fn setup() -> (MarkXServer, MarkXClient, [u8; 32]) {
    let (sk_sig, pk_sig) = ecdsa_p256_keypair();
    let policy = MarkXPolicy::reference();
    let server = MarkXServer::new(sk_sig, policy.clone(), StateStore::new(None));
    let client = MarkXClient::new(pk_sig, policy, StateStore::new(None));
    (server, client, shared_psk())
}

#[test]
fn happy_path_mode_a_variant_a1() {
    let (mut server, mut client, k_class) = setup();

    let m1 = server.initiate_migration(k_class).expect("server m1");
    let m2 = client.handle_bootstrap(&m1, k_class).expect("client m2");
    let m3 = server.handle_confirm_and_promote(&m2).expect("server m3");
    let k_trans = client.handle_promote(&m3).expect("client K_trans");

    assert_eq!(k_trans.len(), 32);
    assert_ne!(k_trans, [0u8; 32]);

    let server_state: MigrationState = server.state_store().load().unwrap();
    let client_state: MigrationState = client.state_store().load().unwrap();
    assert_eq!(server_state.epoch_accepted, 1);
    assert_eq!(server_state.counter_current, 1);
    assert_eq!(client_state.epoch_accepted, 1);
    assert_eq!(client_state.counter_current, 1);
    assert!(!server_state.pk_pq_active.is_empty());
    assert_eq!(server_state.pk_pq_active, client_state.pk_pq_active);
    // Both sides commit the same state, chain key included.
    assert_eq!(server_state, client_state);
    assert_eq!(m2.len(), 2 + 1088 + 2 + 32);
    assert_eq!(m3.len(), 53);
}

#[test]
fn rejects_bad_signature() {
    let (mut server, mut client, k_class) = setup();

    let mut m1 = server.initiate_migration(k_class).unwrap();
    let last = m1.len() - 1;
    m1[last] ^= 0xFF;

    let err = client.handle_bootstrap(&m1, k_class).unwrap_err();
    assert_eq!(err, MarkXError::BadSignature);
}

#[test]
fn rejects_policy_hash_mismatch() {
    let (sk_sig, pk_sig) = ecdsa_p256_keypair();
    let mut server_policy = MarkXPolicy::reference();
    server_policy.min_epoch = 1;
    let mut client_policy = MarkXPolicy::reference();
    client_policy.min_epoch = 1;
    server_policy.allowed_modes = 0b01;
    client_policy.allowed_modes = 0b11;

    let mut server = MarkXServer::new(sk_sig, server_policy, StateStore::new(None));
    let mut client = MarkXClient::new(pk_sig, client_policy, StateStore::new(None));

    let k_class = shared_psk();
    let m1 = server.initiate_migration(k_class).unwrap();
    let err = client.handle_bootstrap(&m1, k_class).unwrap_err();
    assert_eq!(err, MarkXError::PolicyMismatch);
}

#[test]
fn rejects_low_epoch_via_min_epoch_floor() {
    let (sk_sig, pk_sig) = ecdsa_p256_keypair();
    let mut policy = MarkXPolicy::reference();
    policy.min_epoch = 5; // both must agree on the floor
    let mut server = MarkXServer::new(sk_sig, policy.clone(), StateStore::new(None));
    let mut client = MarkXClient::new(pk_sig, policy, StateStore::new(None));

    let k_class = shared_psk();
    let m1 = server.initiate_migration(k_class).unwrap();
    let err = client.handle_bootstrap(&m1, k_class).unwrap_err();
    assert_eq!(err, MarkXError::EpochRollback);
}

#[test]
fn rejects_epoch_rollback_replay() {
    let (mut server, mut client, k_class) = setup();

    let m1_first = server.initiate_migration(k_class).unwrap();
    let m2 = client.handle_bootstrap(&m1_first, k_class).unwrap();
    let m3 = server.handle_confirm_and_promote(&m2).unwrap();
    let _ = client.handle_promote(&m3).unwrap();

    let err = client.handle_bootstrap(&m1_first, k_class).unwrap_err();
    assert_eq!(err, MarkXError::EpochRollback);
}

#[test]
fn rejects_tampered_tag1() {
    let (mut server, mut client, k_class) = setup();

    let m1 = server.initiate_migration(k_class).unwrap();
    let mut m2 = client.handle_bootstrap(&m1, k_class).unwrap();
    let last = m2.len() - 1;
    m2[last] ^= 0xFF;

    let err = server.handle_confirm_and_promote(&m2).unwrap_err();
    assert_eq!(err, MarkXError::DecryptError);
}

#[test]
fn rejects_tampered_tag2() {
    let (mut server, mut client, k_class) = setup();

    let m1 = server.initiate_migration(k_class).unwrap();
    let m2 = client.handle_bootstrap(&m1, k_class).unwrap();
    let mut m3 = server.handle_confirm_and_promote(&m2).unwrap();
    let last = m3.len() - 1;
    m3[last] ^= 0xFF;

    let err = client.handle_promote(&m3).unwrap_err();
    assert_eq!(err, MarkXError::DecryptError);
}

#[test]
fn rejects_tampered_ciphertext_via_mac() {
    let (mut server, mut client, k_class) = setup();

    let m1 = server.initiate_migration(k_class).unwrap();
    let mut m2 = client.handle_bootstrap(&m1, k_class).unwrap();
    m2[10] ^= 0xFF;

    let err = server.handle_confirm_and_promote(&m2).unwrap_err();
    assert_eq!(err, MarkXError::DecryptError);
}

#[test]
fn two_migrations_have_independent_keys() {
    let (mut server, mut client, k_class) = setup();

    let m1a = server.initiate_migration(k_class).unwrap();
    let m2a = client.handle_bootstrap(&m1a, k_class).unwrap();
    let m3a = server.handle_confirm_and_promote(&m2a).unwrap();
    let k_a = client.handle_promote(&m3a).unwrap();

    let m1b = server.initiate_migration(k_class).unwrap();
    let m2b = client.handle_bootstrap(&m1b, k_class).unwrap();
    let m3b = server.handle_confirm_and_promote(&m2b).unwrap();
    let k_b = client.handle_promote(&m3b).unwrap();

    assert_ne!(k_a, k_b);
    assert_eq!(server.state_store().load().unwrap().epoch_accepted, 2);
    assert_eq!(client.state_store().load().unwrap().counter_current, 2);
}

#[test]
fn rejects_malformed_m1_truncated() {
    let (mut server, mut client, k_class) = setup();

    let m1 = server.initiate_migration(k_class).unwrap();
    let truncated = &m1[..m1.len() / 2];

    let err = client.handle_bootstrap(truncated, k_class).unwrap_err();
    assert_eq!(err, MarkXError::MalformedMessage);
}

#[test]
fn smoke_policy_constants() {
    assert_ne!(alg_id::ML_KEM, alg_id::ML_DSA);
    assert_ne!(param_id::MLKEM_768, param_id::MLKEM_1024);
    assert_ne!(variant::A1, variant::A2);
}

#[test]
fn out_of_order_calls_are_invalid_state() {
    let (mut server, mut client, _) = setup();
    assert_eq!(
        server.handle_confirm_and_promote(&[0u8; 4]).unwrap_err(),
        MarkXError::InvalidState("no pending migration")
    );
    assert_eq!(
        client.handle_promote(&[0u8; 4]).unwrap_err(),
        MarkXError::InvalidState("no pending bootstrap")
    );
}

#[test]
fn refusals_leave_state_untouched_and_retry_succeeds() {
    let (mut server, mut client, k_class) = setup();
    let m1 = server.initiate_migration(k_class).unwrap();
    let m2 = client.handle_bootstrap(&m1, k_class).unwrap();
    let mut bad = m2.clone();
    let last = bad.len() - 1;
    bad[last] ^= 1;
    assert_eq!(server.handle_confirm_and_promote(&bad).unwrap_err(), MarkXError::DecryptError);
    assert_eq!(server.state_store().load().unwrap(), MigrationState::fresh());
    // The tentative migration survived the refusal.
    let m3 = server.handle_confirm_and_promote(&m2).unwrap();
    let mut bad3 = m3.clone();
    bad3[0] ^= 1; // label
    assert_eq!(client.handle_promote(&bad3).unwrap_err(), MarkXError::MalformedMessage);
    assert_eq!(client.state_store().load().unwrap(), MigrationState::fresh());
    assert!(client.handle_promote(&m3).is_ok());
}

#[test]
fn wrong_shared_secret_fails_tag1() {
    let (mut server, mut client, k_class) = setup();
    let m1 = server.initiate_migration(k_class).unwrap();
    let m2 = client.handle_bootstrap(&m1, [0x55; 32]).unwrap();
    assert_eq!(server.handle_confirm_and_promote(&m2).unwrap_err(), MarkXError::DecryptError);
}

#[test]
fn promote_with_wrong_epoch_is_rollback() {
    let (mut server, mut client, k_class) = setup();
    let m1 = server.initiate_migration(k_class).unwrap();
    let _m2 = client.handle_bootstrap(&m1, k_class).unwrap();
    let m3 = markx::messages::MarkXPromote::new(9, 9, [0; 32]).encode();
    assert_eq!(client.handle_promote(&m3).unwrap_err(), MarkXError::EpochRollback);
}

#[test]
fn server_storage_error_is_reported() {
    let (sk_sig, _) = ecdsa_p256_keypair();
    let mut server =
        MarkXServer::new(sk_sig, MarkXPolicy::reference(), StateStore::new(Some(vec![0u8; 3])));
    assert_eq!(
        server.initiate_migration(shared_psk()).unwrap_err(),
        MarkXError::StorageError("state file too short".to_string())
    );
}

#[test]
fn reloaded_store_is_used_by_next_step() {
    let (mut server, mut client, k_class) = setup();
    let m1 = server.initiate_migration(k_class).unwrap();
    let m2 = client.handle_bootstrap(&m1, k_class).unwrap();
    let m3 = server.handle_confirm_and_promote(&m2).unwrap();
    let image = client.state_store().image().map(|b| b.to_vec());
    client.handle_promote(&m3).unwrap();
    // Put back the image from before the promotion; a replay of m_1 is then
    // judged against it and passes monotonicity again.
    client.set_state_store(StateStore::new(image));
    assert!(client.handle_bootstrap(&m1, k_class).is_ok());
    let committed = server.state_store().image().unwrap().to_vec();
    client.set_state_store(StateStore::new(Some(committed)));
    assert_eq!(client.handle_bootstrap(&m1, k_class).unwrap_err(), MarkXError::EpochRollback);
}

#[test]
fn restarted_server_keeps_pinned_key() {
    let (sk_sig, pk_sig) = ecdsa_p256_keypair();
    let stored = sk_sig.to_bytes();
    let policy = MarkXPolicy::reference();
    let restored = EcdsaSigningKey::from_bytes(&stored).unwrap();
    let mut server = MarkXServer::new(restored, policy.clone(), StateStore::new(None));
    let mut client = MarkXClient::new(pk_sig, policy, StateStore::new(None));
    let m1 = server.initiate_migration(shared_psk()).unwrap();
    assert!(client.handle_bootstrap(&m1, shared_psk()).is_ok());
}

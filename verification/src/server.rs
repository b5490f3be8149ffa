//! Server-side driver for MARK-X Mode A, Variant A1 (pre-shared
//! `K_class`).
//!
//! After sending `m_1` the server keeps the tentative migration in memory;
//! on a valid `m_2` it emits `m_3` and advances its persistent state.

use vstd::prelude::*;
use vstd::slice::slice_to_vec;
use crate::codec::{Ctx1, Ctx1Model, ctx1_bytes};
use crate::crypto::{EcdsaSigningKey, PqKemKeyPair, ecdsa_p256_sign, hmac_sha256, hmac_sha256_verify,
    mlkem768_decaps, mlkem768_keypair, spec_ecdsa_p256_sign, spec_mlkem768_decaps};
use crate::error::{ErrorModel, MarkXError, Result};
use crate::kdf::{derive_k1, derive_k_chain, derive_k_trans};
use crate::messages::{BootstrapModel, MarkXBootstrap, MarkXConfirm, MarkXPromote, PromoteModel,
    bootstrap_bytes, bootstrap_parse, confirm_parse, lemma_bootstrap_roundtrip, promote_bytes, promote_label};
use crate::policy::{alg_id, param_id, variant, MarkXPolicy, PolicyModel, policy_hash};
use crate::protocol::{bootstrap_digest, sha256_concat_for_sig, transcript_hash, transcript_of,
    tag1_input_bytes, tag2_input_bytes, tag1_of, tag2_of, k_trans_of, k_chain_of};
use crate::state::{MigrationState, StateModel, StateStore, advances, state_bytes, store_load};

verus! {

/// The `ctx_1` a server announces: ML-KEM-768, Variant A1, its policy's
/// hash, and no ECDH share.
pub open spec fn announced_ctx1(policy: PolicyModel, epoch: u32, counter: u32, pk: Seq<u8>) -> Ctx1Model {
    Ctx1Model {
        alg_id: alg_id::ML_KEM,
        param_id: param_id::MLKEM_768,
        epoch,
        counter,
        policy_hash: policy_hash(policy),
        variant: variant::A1,
        pq_public_key: pk,
        ecdh_share: Seq::empty(),
    }
}

/// `m_1`: the announced `ctx_1` with the signature of its bootstrap digest.
pub open spec fn announced_bootstrap(sk: Seq<u8>, ctx: Ctx1Model) -> BootstrapModel {
    BootstrapModel { ctx_1: ctx, signature: spec_ecdsa_p256_sign(sk, bootstrap_digest(ctx)) }
}

/// Abstract value of a tentative migration.
pub ghost struct PendingMigrationModel {
    pub epoch: u32,
    pub counter: u32,
    pub pk: Seq<u8>,
    pub sk: Seq<u8>,
    pub ctx_1_bytes: Seq<u8>,
    pub m1: Seq<u8>,
    pub k_class: Seq<u8>,
}

/// Tentative server-side state held between sending `m_1` and receiving
/// the corresponding `m_2`.
pub struct PendingMigration {
    epoch: u32,
    counter: u32,
    pq_keypair: PqKemKeyPair,
    /// The exact `ctx_1` bytes that the server signed; kept for audit.
    ctx_1_bytes: Vec<u8>,
    /// The `m_1` bytes sent; the transcript is recomputed from them.
    m1_bytes: Vec<u8>,
    /// Pre-shared classical channel secret (Variant A1).
    k_class: [u8; 32],
}

impl View for PendingMigration {
    type V = PendingMigrationModel;

    closed spec fn view(&self) -> PendingMigrationModel {
        PendingMigrationModel {
            epoch: self.epoch,
            counter: self.counter,
            pk: self.pq_keypair.pk@,
            sk: self.pq_keypair.sk@,
            ctx_1_bytes: self.ctx_1_bytes@,
            m1: self.m1_bytes@,
            k_class: self.k_class@,
        }
    }
}

/// Abstract value of a server.
pub ghost struct ServerModel {
    pub sk: Seq<u8>,
    pub policy: PolicyModel,
    pub store: Option<Seq<u8>>,
    pub pending: Option<PendingMigrationModel>,
}

/// What a server does with an `m_2`: either the `m_3` it sends and the state
/// image it commits, or the refusal.
pub open spec fn server_confirm_outcome(s: ServerModel, m2: Seq<u8>) -> core::result::Result<
    (Seq<u8>, Seq<u8>),
    ErrorModel,
> {
    match s.pending {
        None => Err(ErrorModel::InvalidState("no pending migration"@)),
        Some(p) => match confirm_parse(m2) {
            None => Err(ErrorModel::MalformedMessage),
            Some(m) => if m.ecdh_share.len() != 0 {
                Err(ErrorModel::MalformedMessage)
            } else if p.sk.len() != 2400 || m.kem_ciphertext.len() != 1088 {
                Err(ErrorModel::DecryptError)
            } else {
                let k_pq = spec_mlkem768_decaps(p.sk, m.kem_ciphertext)@;
                let tr = transcript_of(p.m1, m.kem_ciphertext, m.ecdh_share);
                if m.tag1 != tag1_of(k_pq, p.k_class, tr) {
                    Err(ErrorModel::DecryptError)
                } else {
                    let ph = policy_hash(s.policy);
                    let kt = k_trans_of(k_pq, p.k_class, p.epoch, p.counter, ph, tr);
                    let kc = k_chain_of(k_pq, p.k_class, p.epoch, p.counter, tr);
                    let next = StateModel { epoch: p.epoch, counter: p.counter, pk_pq: p.pk, k_chain: kc };
                    match store_load(s.store) {
                        Err(msg) => Err(ErrorModel::StorageError(msg)),
                        Ok(cur) => if !advances(cur, p.epoch, p.counter) {
                            Err(ErrorModel::EpochRollback)
                        } else {
                            Ok(
                                (
                                    promote_bytes(
                                        PromoteModel {
                                            label: promote_label(),
                                            epoch: p.epoch,
                                            counter: p.counter,
                                            tag2: tag2_of(kt, p.epoch, p.counter, ph),
                                        },
                                    ),
                                    state_bytes(next),
                                ),
                            )
                        },
                    }
                }
            },
        },
    }
}

/// A server promotes only on an `m_2` that parses, carries no ECDH share,
/// and whose `tag_1` is the one computed from the decapsulated secret over
/// the transcript of its own `m_1`; an `m_2` with an ECDH share is refused
/// as malformed, whatever its tag.  With no migration pending nothing is
/// promoted.
pub proof fn lemma_confirm_requires_a1(s: ServerModel, m2: Seq<u8>)
    ensures
        server_confirm_outcome(s, m2) is Ok ==> (s.pending matches Some(p) && confirm_parse(m2) matches Some(
            m,
        ) && {
            &&& m.ecdh_share.len() == 0
            &&& p.sk.len() == 2400
            &&& m.kem_ciphertext.len() == 1088
            &&& m.tag1 == tag1_of(
                spec_mlkem768_decaps(p.sk, m.kem_ciphertext)@,
                p.k_class,
                transcript_of(p.m1, m.kem_ciphertext, Seq::empty()),
            )
            &&& store_load(s.store) matches Ok(cur) && advances(cur, p.epoch, p.counter)
        }),
        (confirm_parse(m2) matches Some(m) && s.pending is Some && m.ecdh_share.len() != 0)
            ==> server_confirm_outcome(s, m2) == Err::<(Seq<u8>, Seq<u8>), ErrorModel>(
            ErrorModel::MalformedMessage,
        ),
        s.pending is None ==> server_confirm_outcome(s, m2) is Err,
{
}

/// The server side of a MARK-X migration.
pub struct MarkXServer {
    sk_sig: EcdsaSigningKey,
    policy: MarkXPolicy,
    state_store: StateStore,
    pending: Option<PendingMigration>,
}

impl View for MarkXServer {
    type V = ServerModel;

    closed spec fn view(&self) -> ServerModel {
        ServerModel {
            sk: self.sk_sig.secret(),
            policy: self.policy@,
            store: self.state_store@,
            pending: match self.pending {
                None => None,
                Some(p) => Some(p@),
            },
        }
    }
}

impl MarkXServer {
    /// A server with no migration under way.
    pub fn new(sk_sig: EcdsaSigningKey, policy: MarkXPolicy, state_store: StateStore) -> (s: Self)
        ensures
            s@ == (ServerModel { sk: sk_sig.secret(), policy: policy@, store: state_store@, pending: None }),
    {
        MarkXServer { sk_sig, policy, state_store, pending: None }
    }

    /// Replaces the state store, for instance with one read afresh from
    /// persistent storage; the tentative migration is kept.
    pub fn set_state_store(&mut self, state_store: StateStore)
        ensures
            final(self)@ == (ServerModel {
                sk: old(self)@.sk,
                policy: old(self)@.policy,
                store: state_store@,
                pending: old(self)@.pending,
            }),
    {
        self.state_store = state_store;
    }

    /// The server's persistent state store.
    pub fn state_store(&self) -> (st: &StateStore)
        ensures
            st@ == self@.store,
    {
        &self.state_store
    }

    /// Phase 1: generates a fresh ML-KEM-768 key pair, announces the next
    /// `(epoch, counter)` (the stored ones plus one, saturating) with the
    /// local policy's hash, signs `ctx_1`, and returns the encoded `m_1`.
    /// The tentative migration replaces any earlier one.
    pub fn initiate_migration(&mut self, k_class: [u8; 32]) -> (res: Result<Vec<u8>>)
        ensures
            final(self)@.sk == old(self)@.sk,
            final(self)@.policy == old(self)@.policy,
            final(self)@.store == old(self)@.store,
            match store_load(old(self)@.store) {
                Err(msg) => res matches Err(e) && e@ == ErrorModel::StorageError(msg) && final(self)@
                    == old(self)@,
                Ok(st) => res matches Ok(m1) && final(self)@.pending matches Some(p) && {
                    &&& p.epoch == st.epoch.saturating_add(1)
                    &&& p.counter == st.counter.saturating_add(1)
                    &&& p.pk.len() == 1184
                    &&& p.sk.len() == 2400
                    &&& p.sk.subrange(1152, 2336) == p.pk
                    &&& p.k_class == k_class@
                    &&& p.ctx_1_bytes == ctx1_bytes(announced_ctx1(old(self)@.policy, p.epoch, p.counter, p.pk))
                    &&& p.m1 == bootstrap_bytes(
                        announced_bootstrap(
                            old(self)@.sk,
                            announced_ctx1(old(self)@.policy, p.epoch, p.counter, p.pk),
                        ),
                    )
                    &&& bootstrap_parse(p.m1) == Some(
                        announced_bootstrap(
                            old(self)@.sk,
                            announced_ctx1(old(self)@.policy, p.epoch, p.counter, p.pk),
                        ),
                    )
                    &&& spec_ecdsa_p256_sign(
                        old(self)@.sk,
                        bootstrap_digest(announced_ctx1(old(self)@.policy, p.epoch, p.counter, p.pk)),
                    ).len() <= 73
                    &&& m1@ == p.m1
                },
            },
    {
        let st = self.state_store.load()?;
        let new_epoch = st.epoch_accepted.saturating_add(1);
        let new_counter = st.counter_current.saturating_add(1);

        let pq_keypair = mlkem768_keypair();
        let policy_hash = self.policy.hash();
        let ctx_1 = Ctx1 {
            alg_id: alg_id::ML_KEM,
            param_id: param_id::MLKEM_768,
            epoch: new_epoch,
            counter: new_counter,
            policy_hash,
            variant: variant::A1,
            pq_public_key: slice_to_vec(pq_keypair.pk.as_slice()),
            ecdh_share: Vec::new(),
        };
        assert(ctx_1@ =~= announced_ctx1(self.policy@, new_epoch, new_counter, pq_keypair.pk@));
        let ctx_1_bytes = ctx_1.encode();

        let to_sign = sha256_concat_for_sig(ctx_1_bytes.as_slice());
        let signature = ecdsa_p256_sign(&self.sk_sig, to_sign.as_slice());

        let m1 = MarkXBootstrap { ctx_1, signature };
        let m1_bytes = m1.encode();
        proof {
            lemma_bootstrap_roundtrip(m1@);
        }

        self.pending = Some(
            PendingMigration {
                epoch: new_epoch,
                counter: new_counter,
                pq_keypair,
                ctx_1_bytes,
                m1_bytes: slice_to_vec(m1_bytes.as_slice()),
                k_class,
            },
        );
        Ok(m1_bytes)
    }

    /// Phase 2 (server side): consumes `m_2`, decapsulates, verifies
    /// `tag_1`, derives `K_trans` and `K_chain`, commits the new state and
    /// returns the encoded `m_3`.  Any refusal leaves the server as it was.
    pub fn handle_confirm_and_promote(&mut self, m2_bytes: &[u8]) -> (res: Result<Vec<u8>>)
        ensures
            res is Ok ==> (old(self)@.pending matches Some(p) && confirm_parse(m2_bytes@) matches Some(m)
                && {
                &&& m.ecdh_share.len() == 0
                &&& m.tag1 == tag1_of(
                    spec_mlkem768_decaps(p.sk, m.kem_ciphertext)@,
                    p.k_class,
                    transcript_of(p.m1, m.kem_ciphertext, Seq::empty()),
                )
                &&& final(self)@.pending is None
            }),
            (confirm_parse(m2_bytes@) matches Some(m) && old(self)@.pending is Some && m.ecdh_share.len() != 0)
                ==> (res matches Err(x) && x@ == ErrorModel::MalformedMessage && final(self)@ == old(self)@),
            res is Err ==> final(self)@ == old(self)@,
            match server_confirm_outcome(old(self)@, m2_bytes@) {
                Ok((m3, img)) => res matches Ok(v) && v@ == m3 && final(self)@ == (ServerModel {
                    sk: old(self)@.sk,
                    policy: old(self)@.policy,
                    store: Some(img),
                    pending: None,
                }),
                Err(e) => res matches Err(x) && x@ == e && final(self)@ == old(self)@,
            },
    {
        proof {
            lemma_confirm_requires_a1(self@, m2_bytes@);
        }
        let pending = match &self.pending {
            None => {
                return Err(MarkXError::InvalidState("no pending migration"));
            },
            Some(p) => p,
        };

        let m2 = MarkXConfirm::decode(m2_bytes)?;
        // A1 must have no ECDH share
        if m2.ecdh_share.len() != 0 {
            return Err(MarkXError::MalformedMessage);
        }

        let k_pq = mlkem768_decaps(pending.pq_keypair.sk.as_slice(), m2.kem_ciphertext.as_slice())?;

        let transcript = transcript_hash(
            pending.m1_bytes.as_slice(),
            m2.kem_ciphertext.as_slice(),
            m2.ecdh_share.as_slice(),
        );

        let k1 = derive_k1(k_pq.as_slice(), pending.k_class.as_slice(), &transcript);
        let tag1_input = tag1_input_bytes(&transcript);
        hmac_sha256_verify(k1.as_slice(), tag1_input.as_slice(), m2.tag1.as_slice())?;

        let policy_hash = self.policy.hash();
        let k_trans = derive_k_trans(
            k_pq.as_slice(),
            pending.k_class.as_slice(),
            pending.epoch,
            pending.counter,
            &policy_hash,
            &transcript,
        );
        let k_chain = derive_k_chain(
            k_pq.as_slice(),
            pending.k_class.as_slice(),
            pending.epoch,
            pending.counter,
            &transcript,
        );

        let tag2_input = tag2_input_bytes(pending.epoch, pending.counter, &policy_hash);
        let tag2 = hmac_sha256(k_trans.as_slice(), tag2_input.as_slice());

        let m3 = MarkXPromote::new(pending.epoch, pending.counter, tag2);
        let m3_bytes = m3.encode();

        let new_state = MigrationState {
            epoch_accepted: pending.epoch,
            counter_current: pending.counter,
            pk_pq_active: slice_to_vec(pending.pq_keypair.pk.as_slice()),
            k_chain_active: slice_to_vec(k_chain.as_slice()),
        };
        self.state_store.commit(&new_state)?;

        self.pending = None;
        Ok(m3_bytes)
    }
}

} // verus!

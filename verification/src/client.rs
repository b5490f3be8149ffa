//! Client-side driver for MARK-X Mode A, Variant A1.
//!
//! Runs every check of Phase 1 in order: signature first, then policy
//! acceptance, then monotonicity against persistent state.  Any failure
//! aborts with its own error and leaves the client as it was.  The
//! persistent state is advanced only once `m_3` verifies.

use vstd::prelude::*;
use vstd::slice::slice_to_vec;
use crate::bytes::bytes_eq;
use crate::codec::Ctx1Model;
use crate::crypto::{EcdsaVerifyingKey, ecdsa_p256_verify, hmac_sha256, hmac_sha256_verify,
    mlkem768_encaps, spec_ecdsa_p256_verify, spec_mlkem768_encapsulates, spec_sha256};
use crate::error::{ErrorModel, MarkXError, Result};
use crate::kdf::{derive_k1, derive_k_chain, derive_k_trans};
use crate::messages::{MarkXBootstrap, MarkXConfirm, MarkXPromote, bootstrap_parse,
    confirm_parse, promote_parse, lemma_confirm_roundtrip};
use crate::policy::{variant, MarkXPolicy, PolicyModel, policy_hash, policy_accepts,
    policy_canonical_bytes};
use crate::protocol::{bootstrap_digest, sha256_concat_for_sig, transcript_hash, transcript_of,
    tag1_input_bytes, tag2_input_bytes, tag1_of, tag2_of, k_trans_of, k_chain_of};
use crate::state::{MigrationState, StateModel, StateStore, advances, state_bytes, store_load};

verus! {

/// Abstract value of the tentative client state.
pub ghost struct PendingClientModel {
    pub epoch: u32,
    pub counter: u32,
    pub pk_pq: Seq<u8>,
    pub transcript: Seq<u8>,
    pub k_pq: Seq<u8>,
    pub k_class: Seq<u8>,
    pub policy_hash: Seq<u8>,
}

/// Tentative client-side state held between sending `m_2` and receiving
/// `m_3`.
pub struct PendingClient {
    epoch: u32,
    counter: u32,
    pk_pq: Vec<u8>,
    transcript: [u8; 32],
    k_pq: [u8; 32],
    k_class: [u8; 32],
    /// `ctx_1.policy_hash`, an input of `K_trans`.
    policy_hash: [u8; 32],
}

impl View for PendingClient {
    type V = PendingClientModel;

    closed spec fn view(&self) -> PendingClientModel {
        PendingClientModel {
            epoch: self.epoch,
            counter: self.counter,
            pk_pq: self.pk_pq@,
            transcript: self.transcript@,
            k_pq: self.k_pq@,
            k_class: self.k_class@,
            policy_hash: self.policy_hash@,
        }
    }
}

/// Abstract value of a client.
pub ghost struct ClientModel {
    pub pk: Seq<u8>,
    pub policy: PolicyModel,
    pub store: Option<Seq<u8>>,
    pub pending: Option<PendingClientModel>,
}

/// Every check a client runs on `m_1`, in order, up to encapsulation: the
/// accepted `ctx_1`, or the refusal.
pub open spec fn client_bootstrap_check(c: ClientModel, m1: Seq<u8>) -> core::result::Result<
    Ctx1Model,
    ErrorModel,
> {
    match bootstrap_parse(m1) {
        None => Err(ErrorModel::MalformedMessage),
        Some(b) => {
            let ctx = b.ctx_1;
            if !spec_ecdsa_p256_verify(c.pk, bootstrap_digest(ctx), b.signature) {
                Err(ErrorModel::BadSignature)
            } else if policy_hash(c.policy) != ctx.policy_hash {
                Err(ErrorModel::PolicyMismatch)
            } else if policy_accepts(c.policy, ctx.alg_id, ctx.param_id, ctx.variant, ctx.epoch) is Err {
                Err(policy_accepts(c.policy, ctx.alg_id, ctx.param_id, ctx.variant, ctx.epoch)->Err_0@)
            } else if ctx.variant != variant::A1 {
                Err(ErrorModel::AlgorithmNotAllowed)
            } else if ctx.ecdh_share.len() != 0 {
                Err(ErrorModel::MalformedMessage)
            } else {
                match store_load(c.store) {
                    Err(msg) => Err(ErrorModel::StorageError(msg)),
                    Ok(st) => if !advances(st, ctx.epoch, ctx.counter) {
                        Err(ErrorModel::EpochRollback)
                    } else if ctx.pq_public_key.len() != 1184 {
                        Err(ErrorModel::MalformedMessage)
                    } else {
                        Ok(ctx)
                    },
                }
            }
        },
    }
}

/// What an accepted `m_1` carries: a well-formed message signed under the
/// server's key, announcing the hash of the client's own canonical policy,
/// an algorithm, parameter pair and variant the policy allows, an epoch at
/// or above its floor, Variant A1 with no ECDH share, an ML-KEM-768 public
/// key, and an `(epoch, counter)` that advances the stored state.
pub open spec fn bootstrap_acceptable(c: ClientModel, m1: Seq<u8>) -> bool {
    bootstrap_parse(m1) matches Some(b) && {
        let ctx = b.ctx_1;
        &&& spec_ecdsa_p256_verify(c.pk, bootstrap_digest(ctx), b.signature)
        &&& ctx.policy_hash == spec_sha256(policy_canonical_bytes(c.policy))@
        &&& c.policy.algs.contains(ctx.alg_id)
        &&& c.policy.params.contains((ctx.alg_id, ctx.param_id))
        &&& c.policy.variants.contains(ctx.variant)
        &&& c.policy.min_epoch <= ctx.epoch
        &&& ctx.variant == variant::A1
        &&& ctx.ecdh_share.len() == 0
        &&& ctx.pq_public_key.len() == 1184
        &&& store_load(c.store) matches Ok(st) && advances(st, ctx.epoch, ctx.counter)
    }
}

/// A client accepts an `m_1` exactly when it is acceptable, and then the
/// accepted `ctx_1` is the one the message carries.  In particular every
/// announcement of a variant other than A1, even one the policy allows, and
/// every announcement with an ECDH share, is refused.
pub proof fn lemma_bootstrap_check_exact(c: ClientModel, m1: Seq<u8>)
    ensures
        client_bootstrap_check(c, m1) is Ok <==> bootstrap_acceptable(c, m1),
        client_bootstrap_check(c, m1) matches Ok(ctx) ==> bootstrap_parse(m1) matches Some(b) && ctx
            == b.ctx_1,
        bootstrap_parse(m1) matches Some(b) && b.ctx_1.variant != variant::A1 ==> client_bootstrap_check(
            c,
            m1,
        ) is Err,
        bootstrap_parse(m1) matches Some(b) && b.ctx_1.ecdh_share.len() != 0 ==> client_bootstrap_check(
            c,
            m1,
        ) is Err,
        bootstrap_parse(m1) is None ==> client_bootstrap_check(c, m1) == Err::<Ctx1Model, ErrorModel>(
            ErrorModel::MalformedMessage,
        ),
        bootstrap_parse(m1) matches Some(b) && !spec_ecdsa_p256_verify(c.pk, bootstrap_digest(b.ctx_1), b.signature)
            ==> client_bootstrap_check(c, m1) == Err::<Ctx1Model, ErrorModel>(ErrorModel::BadSignature),
        bootstrap_parse(m1) matches Some(b) && spec_ecdsa_p256_verify(c.pk, bootstrap_digest(b.ctx_1), b.signature)
            && b.ctx_1.policy_hash != spec_sha256(policy_canonical_bytes(c.policy))@
            ==> client_bootstrap_check(c, m1) == Err::<Ctx1Model, ErrorModel>(ErrorModel::PolicyMismatch),
{
    if let Some(b) = bootstrap_parse(m1) {
        let ctx = b.ctx_1;
        crate::policy::lemma_policy_accepts_exactly(c.policy, ctx.alg_id, ctx.param_id, ctx.variant, ctx.epoch);
    }
}

/// What a client does with an `m_3`: either `K_trans` and the state image it
/// commits, or the refusal.
pub open spec fn client_promote_outcome(c: ClientModel, m3: Seq<u8>) -> core::result::Result<
    (Seq<u8>, Seq<u8>),
    ErrorModel,
> {
    match c.pending {
        None => Err(ErrorModel::InvalidState("no pending bootstrap"@)),
        Some(p) => match promote_parse(m3) {
            None => Err(ErrorModel::MalformedMessage),
            Some(m) => if m.epoch != p.epoch || m.counter != p.counter {
                Err(ErrorModel::EpochRollback)
            } else {
                let kt = k_trans_of(p.k_pq, p.k_class, p.epoch, p.counter, p.policy_hash, p.transcript);
                let kc = k_chain_of(p.k_pq, p.k_class, p.epoch, p.counter, p.transcript);
                if m.tag2 != tag2_of(kt, p.epoch, p.counter, p.policy_hash) {
                    Err(ErrorModel::DecryptError)
                } else {
                    match store_load(c.store) {
                        Err(msg) => Err(ErrorModel::StorageError(msg)),
                        Ok(cur) => if !advances(cur, p.epoch, p.counter) {
                            Err(ErrorModel::EpochRollback)
                        } else {
                            Ok(
                                (
                                    kt,
                                    state_bytes(
                                        StateModel {
                                            epoch: p.epoch,
                                            counter: p.counter,
                                            pk_pq: p.pk_pq,
                                            k_chain: kc,
                                        },
                                    ),
                                ),
                            )
                        },
                    }
                }
            },
        },
    }
}

/// A client promotes only on an `m_3` that names the pending `(epoch,
/// counter)` and carries the `tag_2` computed from the pending secrets; an
/// `m_3` whose epoch or counter differs from the pending one is refused as
/// a rollback, whatever its tag.  With no migration pending nothing is
/// promoted.
pub proof fn lemma_promote_matches_pending(c: ClientModel, m3: Seq<u8>)
    ensures
        client_promote_outcome(c, m3) matches Ok((kt, img)) ==> c.pending matches Some(p)
            && promote_parse(m3) matches Some(m) && {
            &&& m.epoch == p.epoch
            &&& m.counter == p.counter
            &&& kt == k_trans_of(p.k_pq, p.k_class, p.epoch, p.counter, p.policy_hash, p.transcript)
            &&& m.tag2 == tag2_of(kt, p.epoch, p.counter, p.policy_hash)
            &&& store_load(c.store) matches Ok(cur) && advances(cur, p.epoch, p.counter)
            &&& img == state_bytes(
                StateModel {
                    epoch: p.epoch,
                    counter: p.counter,
                    pk_pq: p.pk_pq,
                    k_chain: k_chain_of(p.k_pq, p.k_class, p.epoch, p.counter, p.transcript),
                },
            )
        },
        c.pending matches Some(p) && promote_parse(m3) matches Some(m) && (m.epoch != p.epoch || m.counter
            != p.counter) ==> client_promote_outcome(c, m3) == Err::<(Seq<u8>, Seq<u8>), ErrorModel>(
            ErrorModel::EpochRollback,
        ),
        c.pending is None ==> client_promote_outcome(c, m3) is Err,
{
}

/// The client side of a MARK-X migration.
pub struct MarkXClient {
    pk_sig: EcdsaVerifyingKey,
    policy: MarkXPolicy,
    state_store: StateStore,
    pending: Option<PendingClient>,
}

impl View for MarkXClient {
    type V = ClientModel;

    closed spec fn view(&self) -> ClientModel {
        ClientModel {
            pk: self.pk_sig@,
            policy: self.policy@,
            store: self.state_store@,
            pending: match self.pending {
                None => None,
                Some(p) => Some(p@),
            },
        }
    }
}

impl MarkXClient {
    /// A client with no migration under way.
    pub fn new(pk_sig: EcdsaVerifyingKey, policy: MarkXPolicy, state_store: StateStore) -> (c: Self)
        ensures
            c@ == (ClientModel { pk: pk_sig@, policy: policy@, store: state_store@, pending: None }),
    {
        MarkXClient { pk_sig, policy, state_store, pending: None }
    }

    /// Replaces the state store, for instance with one read afresh from
    /// persistent storage; the tentative migration is kept.
    pub fn set_state_store(&mut self, state_store: StateStore)
        ensures
            final(self)@ == (ClientModel {
                pk: old(self)@.pk,
                policy: old(self)@.policy,
                store: state_store@,
                pending: old(self)@.pending,
            }),
    {
        self.state_store = state_store;
    }

    /// The client's persistent state store.
    pub fn state_store(&self) -> (st: &StateStore)
        ensures
            st@ == self@.store,
    {
        &self.state_store
    }

    /// Phase 1 (client side): runs every check on `m_1`; on success
    /// encapsulates to the announced key, derives `k_1`, keeps the tentative
    /// state and returns the encoded `m_2`.  The persistent state is not
    /// touched.  `k_class` is the pre-shared classical secret.
    pub fn handle_bootstrap(&mut self, m1_bytes: &[u8], k_class: [u8; 32]) -> (res: Result<Vec<u8>>)
        ensures
            final(self)@.pk == old(self)@.pk,
            final(self)@.policy == old(self)@.policy,
            final(self)@.store == old(self)@.store,
            res is Ok <==> bootstrap_acceptable(old(self)@, m1_bytes@),
            res is Ok ==> (bootstrap_parse(m1_bytes@) matches Some(b) && final(self)@.pending matches Some(p)
                && {
                &&& b.ctx_1.variant == variant::A1
                &&& b.ctx_1.ecdh_share.len() == 0
                &&& p.epoch == b.ctx_1.epoch
                &&& p.counter == b.ctx_1.counter
                &&& p.pk_pq == b.ctx_1.pq_public_key
            }),
            res is Err ==> final(self)@ == old(self)@,
            match client_bootstrap_check(old(self)@, m1_bytes@) {
                Err(e) => res matches Err(x) && x@ == e && final(self)@ == old(self)@,
                Ok(ctx) => res matches Ok(m2) && final(self)@.pending matches Some(p)
                    && confirm_parse(m2@) matches Some(cm) && {
                    &&& cm.ecdh_share.len() == 0
                    &&& cm.kem_ciphertext.len() == 1088
                    &&& spec_mlkem768_encapsulates(ctx.pq_public_key, cm.kem_ciphertext, p.k_pq)
                    &&& p.epoch == ctx.epoch
                    &&& p.counter == ctx.counter
                    &&& p.pk_pq == ctx.pq_public_key
                    &&& p.policy_hash == ctx.policy_hash
                    &&& p.k_class == k_class@
                    &&& p.k_pq.len() == 32
                    &&& p.transcript == transcript_of(m1_bytes@, cm.kem_ciphertext, Seq::empty())
                    &&& cm.tag1 == tag1_of(p.k_pq, k_class@, p.transcript)
                },
            },
    {
        proof {
            lemma_bootstrap_check_exact(self@, m1_bytes@);
        }
        // (a) Parse
        let m1 = MarkXBootstrap::decode(m1_bytes)?;
        let ctx_1_bytes = m1.ctx_1.encode();

        // (b) Signature
        let to_verify = sha256_concat_for_sig(ctx_1_bytes.as_slice());
        ecdsa_p256_verify(&self.pk_sig, to_verify.as_slice(), m1.signature.as_slice())?;

        // (c) Local-policy acceptance
        let expected = self.policy.hash();
        if !bytes_eq(expected.as_slice(), m1.ctx_1.policy_hash.as_slice()) {
            return Err(MarkXError::PolicyMismatch);
        }
        self.policy.accepts(m1.ctx_1.alg_id, m1.ctx_1.param_id, m1.ctx_1.variant, m1.ctx_1.epoch)?;

        // Only Variant A1 is implemented.
        if m1.ctx_1.variant != variant::A1 {
            return Err(MarkXError::AlgorithmNotAllowed);
        }
        if m1.ctx_1.ecdh_share.len() != 0 {
            // A1 must have no ECDH share
            return Err(MarkXError::MalformedMessage);
        }

        // (d) Monotonicity against persistent state
        let stored = self.state_store.load()?;
        if !stored.would_advance(m1.ctx_1.epoch, m1.ctx_1.counter) {
            return Err(MarkXError::EpochRollback);
        }

        // (e) Tentative install: encapsulate and prepare m_2
        let (ct_pq, k_pq) = mlkem768_encaps(m1.ctx_1.pq_public_key.as_slice())?;
        let empty: Vec<u8> = Vec::new();
        let transcript = transcript_hash(m1_bytes, ct_pq.as_slice(), empty.as_slice());

        let k1 = derive_k1(k_pq.as_slice(), k_class.as_slice(), &transcript);
        let tag1_input = tag1_input_bytes(&transcript);
        let tag1 = hmac_sha256(k1.as_slice(), tag1_input.as_slice());

        let m2 = MarkXConfirm { kem_ciphertext: ct_pq, ecdh_share: Vec::new(), tag1 };
        proof {
            lemma_confirm_roundtrip(m2@);
        }

        self.pending = Some(
            PendingClient {
                epoch: m1.ctx_1.epoch,
                counter: m1.ctx_1.counter,
                pk_pq: slice_to_vec(m1.ctx_1.pq_public_key.as_slice()),
                transcript,
                k_pq,
                k_class,
                policy_hash: m1.ctx_1.policy_hash,
            },
        );

        Ok(m2.encode())
    }

    /// Phase 3 (client side): verifies `m_3` and, on success, commits the
    /// new migration state and returns `K_trans`.  Any refusal leaves the
    /// client as it was.
    pub fn handle_promote(&mut self, m3_bytes: &[u8]) -> (res: Result<[u8; 32]>)
        ensures
            res matches Ok(k) ==> old(self)@.pending matches Some(p) && promote_parse(m3_bytes@) matches Some(
                m,
            ) && {
                &&& m.epoch == p.epoch
                &&& m.counter == p.counter
                &&& k@ == k_trans_of(p.k_pq, p.k_class, p.epoch, p.counter, p.policy_hash, p.transcript)
                &&& m.tag2 == tag2_of(k@, p.epoch, p.counter, p.policy_hash)
                &&& final(self)@.pending is None
            },
            old(self)@.pending matches Some(p) && promote_parse(m3_bytes@) matches Some(m) && (m.epoch
                != p.epoch || m.counter != p.counter) ==> (res matches Err(x) && x@ == ErrorModel::EpochRollback
                && final(self)@ == old(self)@),
            res is Err ==> final(self)@ == old(self)@,
            match client_promote_outcome(old(self)@, m3_bytes@) {
                Ok((kt, img)) => res matches Ok(k) && k@ == kt && final(self)@ == (ClientModel {
                    pk: old(self)@.pk,
                    policy: old(self)@.policy,
                    store: Some(img),
                    pending: None,
                }),
                Err(e) => res matches Err(x) && x@ == e && final(self)@ == old(self)@,
            },
    {
        proof {
            lemma_promote_matches_pending(self@, m3_bytes@);
        }
        let pending = match &self.pending {
            None => {
                return Err(MarkXError::InvalidState("no pending bootstrap"));
            },
            Some(p) => p,
        };

        let m3 = MarkXPromote::decode(m3_bytes)?;
        if m3.epoch != pending.epoch || m3.counter != pending.counter {
            return Err(MarkXError::EpochRollback);
        }

        let k_trans = derive_k_trans(
            pending.k_pq.as_slice(),
            pending.k_class.as_slice(),
            pending.epoch,
            pending.counter,
            &pending.policy_hash,
            &pending.transcript,
        );
        let k_chain = derive_k_chain(
            pending.k_pq.as_slice(),
            pending.k_class.as_slice(),
            pending.epoch,
            pending.counter,
            &pending.transcript,
        );

        // tag_2 = MAC(K_trans, "promote-to-PQ" || e || ctr || alg_id || policy_hash)
        let tag2_input = tag2_input_bytes(pending.epoch, pending.counter, &pending.policy_hash);
        hmac_sha256_verify(k_trans.as_slice(), tag2_input.as_slice(), m3.tag2.as_slice())?;

        let new_state = MigrationState {
            epoch_accepted: pending.epoch,
            counter_current: pending.counter,
            pk_pq_active: slice_to_vec(pending.pk_pq.as_slice()),
            k_chain_active: slice_to_vec(k_chain.as_slice()),
        };
        self.state_store.commit(&new_state)?;
        self.pending = None;

        Ok(k_trans)
    }
}

} // verus!

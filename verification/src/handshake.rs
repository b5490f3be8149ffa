//! Properties of a run between an honest server and an honest client.

use vstd::prelude::*;
use crate::client::{ClientModel, client_bootstrap_check, client_promote_outcome};
use crate::crypto::{spec_ecdsa_p256_sign, spec_ecdsa_p256_verify, spec_mlkem768_decaps};
use crate::messages::{ConfirmModel, PromoteModel, bootstrap_bytes, bootstrap_parse, confirm_parse, promote_label,
    lemma_bootstrap_roundtrip, lemma_promote_roundtrip};
use crate::policy::{alg_id, param_id, variant, PolicyModel, policy_accepts, policy_hash};
use crate::protocol::{bootstrap_digest, transcript_of, tag1_of, tag2_of, k_trans_of};
use crate::server::{ServerModel, announced_bootstrap, announced_ctx1, server_confirm_outcome};
use crate::state::{StateModel, advances, state_bytes, state_wf, store_load, lemma_load_after_commit};

verus! {

/// Whether signatures made with secret `sk` verify under public key `pk`.
pub open spec fn keys_match(sk: Seq<u8>, pk: Seq<u8>) -> bool {
    forall|msg: Seq<u8>| spec_ecdsa_p256_verify(pk, msg, #[trigger] spec_ecdsa_p256_sign(sk, msg))
}

/// Phase 1 of an honest run: an `m_1` announced by a server whose signing
/// key matches the client's verifying key, under a policy with the same
/// hash as the client's, for an `(epoch, counter)` that the client's policy
/// admits and that advances its stored state, passes every check of the
/// client.
pub proof fn lemma_honest_bootstrap_accepted(
    server_sk: Seq<u8>,
    server_policy: PolicyModel,
    c: ClientModel,
    epoch: u32,
    counter: u32,
    kem_pk: Seq<u8>,
)
    requires
        keys_match(server_sk, c.pk),
        policy_hash(c.policy) == policy_hash(server_policy),
        policy_accepts(c.policy, alg_id::ML_KEM, param_id::MLKEM_768, variant::A1, epoch) is Ok,
        store_load(c.store) is Ok,
        advances(store_load(c.store)->Ok_0, epoch, counter),
        kem_pk.len() == 1184,
        spec_ecdsa_p256_sign(server_sk, bootstrap_digest(announced_ctx1(server_policy, epoch, counter, kem_pk))).len()
            <= u16::MAX,
    ensures
        client_bootstrap_check(
            c,
            bootstrap_bytes(announced_bootstrap(server_sk, announced_ctx1(server_policy, epoch, counter, kem_pk))),
        ) == Ok::<_, crate::error::ErrorModel>(announced_ctx1(server_policy, epoch, counter, kem_pk)),
{
    let ctx = announced_ctx1(server_policy, epoch, counter, kem_pk);
    let m = announced_bootstrap(server_sk, ctx);
    lemma_bootstrap_roundtrip(m);
}

/// Phases 2 and 3 of an honest run.  The client has answered the server's
/// `m_1` with `m_2` (the relations below are what `handle_bootstrap`
/// ensures), and decapsulating the ciphertext under the server's secret key
/// gives the client's shared secret (ML-KEM correctness).  Then, wherever
/// both stored states are advanced by the announced `(epoch, counter)`, the
/// server accepts `m_2`, the client accepts the server's `m_3`, both commit
/// the same state, and the client's `K_trans` is the one the server
/// derived.
pub proof fn lemma_honest_confirm_and_promote(
    s: ServerModel,
    c: ClientModel,
    m2: Seq<u8>,
    cm: ConfirmModel,
)
    requires
        s.pending is Some,
        c.pending is Some,
        confirm_parse(m2) == Some(cm),
        ({
            let q = s.pending->Some_0;
            let p = c.pending->Some_0;
            &&& cm.ecdh_share.len() == 0
            &&& cm.kem_ciphertext.len() == 1088
            &&& q.sk.len() == 2400
            &&& p.transcript == transcript_of(q.m1, cm.kem_ciphertext, Seq::empty())
            &&& cm.tag1 == tag1_of(p.k_pq, p.k_class, p.transcript)
            &&& spec_mlkem768_decaps(q.sk, cm.kem_ciphertext)@ == p.k_pq
            &&& q.k_class == p.k_class
            &&& q.epoch == p.epoch
            &&& q.counter == p.counter
            &&& q.pk == p.pk_pq
            &&& p.policy_hash == policy_hash(s.policy)
        }),
        store_load(s.store) is Ok,
        advances(store_load(s.store)->Ok_0, s.pending->Some_0.epoch, s.pending->Some_0.counter),
        store_load(c.store) is Ok,
        advances(store_load(c.store)->Ok_0, c.pending->Some_0.epoch, c.pending->Some_0.counter),
    ensures
        server_confirm_outcome(s, m2) is Ok,
        client_promote_outcome(c, server_confirm_outcome(s, m2)->Ok_0.0) is Ok,
        client_promote_outcome(c, server_confirm_outcome(s, m2)->Ok_0.0)->Ok_0.1 == server_confirm_outcome(
            s,
            m2,
        )->Ok_0.1,
        ({
            let p = c.pending->Some_0;
            client_promote_outcome(c, server_confirm_outcome(s, m2)->Ok_0.0)->Ok_0.0 == k_trans_of(
                p.k_pq,
                p.k_class,
                p.epoch,
                p.counter,
                policy_hash(s.policy),
                p.transcript,
            )
        }),
{
    let q = s.pending->Some_0;
    let p = c.pending->Some_0;
    assert(cm.ecdh_share =~= Seq::<u8>::empty());
    let kt = k_trans_of(p.k_pq, p.k_class, p.epoch, p.counter, p.policy_hash, p.transcript);
    let m3 = PromoteModel {
        label: promote_label(),
        epoch: p.epoch,
        counter: p.counter,
        tag2: tag2_of(kt, p.epoch, p.counter, p.policy_hash),
    };
    lemma_promote_roundtrip(m3);
}

/// The pair a server announces (its stored pair plus one, each saturating)
/// advances its own stored state, except when both have reached `u32::MAX`.
pub proof fn lemma_announced_pair_advances(stored: StateModel)
    ensures
        advances(stored, stored.epoch.saturating_add(1), stored.counter.saturating_add(1)) <==> !(
        stored.epoch == u32::MAX && stored.counter == u32::MAX),
{
}

/// Replay protection: once a client has committed `(epoch, counter)`, an
/// `m_1` announcing the same or an older pair is refused, however often it
/// is replayed; with every earlier check passing, the refusal is
/// `EpochRollback`.
pub proof fn lemma_replayed_bootstrap_refused(c: ClientModel, m1: Seq<u8>, committed: StateModel)
    requires
        state_wf(committed),
        c.store == Some(state_bytes(committed)),
        bootstrap_parse(m1) is Some,
        !advances(committed, bootstrap_parse(m1)->Some_0.ctx_1.epoch, bootstrap_parse(m1)->Some_0.ctx_1.counter),
    ensures
        client_bootstrap_check(c, m1) is Err,
        ({
            let b = bootstrap_parse(m1)->Some_0;
            let ctx = b.ctx_1;
            (spec_ecdsa_p256_verify(c.pk, bootstrap_digest(ctx), b.signature)
                && policy_hash(c.policy) == ctx.policy_hash
                && policy_accepts(c.policy, ctx.alg_id, ctx.param_id, ctx.variant, ctx.epoch) is Ok
                && ctx.variant == variant::A1 && ctx.ecdh_share.len() == 0)
                ==> client_bootstrap_check(c, m1) == Err::<crate::codec::Ctx1Model, crate::error::ErrorModel>(
                crate::error::ErrorModel::EpochRollback,
            )
        }),
{
    lemma_load_after_commit(committed);
}

} // verus!

//! The values both drivers compute from shared inputs: transcript, digest
//! signed in `m_1`, confirmation and promotion tags, derived keys.  Both
//! sides build them with the same functions, so they agree byte for byte.

use vstd::prelude::*;
use crate::bytes::{be16, be32, push_all, push_u16, push_u32};
use crate::codec::{Ctx1Model, ctx1_bytes};
use crate::crypto::{spec_sha256, spec_hmac_sha256, sha256_concat, concat_parts};
use crate::kdf::{spec_hkdf_sha256, k1_info, k_trans_info, k_chain_info};
use crate::labels::{bootstrap_label, client_confirm_label, bootstrap_label_bytes,
    client_confirm_label_bytes};
use crate::messages::{promote_label, promote_label_bytes};
use crate::policy::alg_id;

verus! {

/// The digest the server signs and the client verifies:
/// `SHA-256("MARK-X-v2-Bootstrap" ‖ ctx_1)`.
pub open spec fn bootstrap_digest(ctx: Ctx1Model) -> Seq<u8> {
    spec_sha256(bootstrap_label() + ctx1_bytes(ctx))@
}

/// The transcript hash `SHA-256(m_1 ‖ ct_pq ‖ X)`.
pub open spec fn transcript_of(m1: Seq<u8>, ct: Seq<u8>, x: Seq<u8>) -> Seq<u8> {
    spec_sha256(m1 + ct + x)@
}

/// `k_1`, the key of the confirmation MAC.
pub open spec fn k1_of(k_pq: Seq<u8>, k_class: Seq<u8>, transcript: Seq<u8>) -> Seq<u8> {
    spec_hkdf_sha256(k_pq + k_class, k1_info(transcript))@
}

/// Input of the confirmation MAC: `"client-confirm" ‖ transcript`.
pub open spec fn tag1_input(transcript: Seq<u8>) -> Seq<u8> {
    client_confirm_label() + transcript
}

/// `tag_1 = MAC(k_1, "client-confirm" ‖ transcript)`.
pub open spec fn tag1_of(k_pq: Seq<u8>, k_class: Seq<u8>, transcript: Seq<u8>) -> Seq<u8> {
    spec_hmac_sha256(k1_of(k_pq, k_class, transcript), tag1_input(transcript))@
}

/// `K_trans`.
pub open spec fn k_trans_of(
    k_pq: Seq<u8>,
    k_class: Seq<u8>,
    epoch: u32,
    counter: u32,
    policy_hash: Seq<u8>,
    transcript: Seq<u8>,
) -> Seq<u8> {
    spec_hkdf_sha256(k_pq + k_class, k_trans_info(epoch, counter, policy_hash, transcript))@
}

/// `K_chain`.
pub open spec fn k_chain_of(k_pq: Seq<u8>, k_class: Seq<u8>, epoch: u32, counter: u32, transcript: Seq<u8>) -> Seq<u8> {
    spec_hkdf_sha256(k_pq + k_class, k_chain_info(epoch, counter, transcript))@
}

/// Input of the promotion MAC:
/// `"promote-to-PQ" ‖ e ‖ ctr ‖ alg_id ‖ policy_hash`.
pub open spec fn tag2_input(epoch: u32, counter: u32, policy_hash: Seq<u8>) -> Seq<u8> {
    promote_label() + be32(epoch) + be32(counter) + be16(alg_id::ML_KEM) + policy_hash
}

/// `tag_2 = MAC(K_trans, "promote-to-PQ" ‖ e ‖ ctr ‖ alg_id ‖ policy_hash)`.
pub open spec fn tag2_of(k_trans: Seq<u8>, epoch: u32, counter: u32, policy_hash: Seq<u8>) -> Seq<u8> {
    spec_hmac_sha256(k_trans, tag2_input(epoch, counter, policy_hash))@
}

/// The digest signed in `m_1`.
pub fn sha256_concat_for_sig(ctx_1_bytes: &[u8]) -> (d: [u8; 32])
    ensures
        d@ == spec_sha256(bootstrap_label() + ctx_1_bytes@)@,
{
    let label = bootstrap_label_bytes();
    let parts: [&[u8]; 2] = [label.as_slice(), ctx_1_bytes];
    proof {
        assert(parts@.drop_last().drop_last() =~= Seq::<&[u8]>::empty());
        assert(concat_parts(parts@) =~= bootstrap_label() + ctx_1_bytes@) by {
            reveal_with_fuel(concat_parts, 3);
        }
    }
    sha256_concat(parts.as_slice())
}

/// The transcript hash `SHA-256(m_1 ‖ ct_pq ‖ X)`.
pub fn transcript_hash(m1: &[u8], ct: &[u8], x: &[u8]) -> (t: [u8; 32])
    ensures
        t@ == transcript_of(m1@, ct@, x@),
{
    let parts: [&[u8]; 3] = [m1, ct, x];
    proof {
        assert(parts@.drop_last().drop_last().drop_last() =~= Seq::<&[u8]>::empty());
        assert(concat_parts(parts@) =~= m1@ + ct@ + x@) by {
            reveal_with_fuel(concat_parts, 4);
        }
    }
    sha256_concat(parts.as_slice())
}

/// Input of the confirmation MAC.
pub fn tag1_input_bytes(transcript: &[u8; 32]) -> (out: Vec<u8>)
    ensures
        out@ == tag1_input(transcript@),
{
    let label = client_confirm_label_bytes();
    let mut out: Vec<u8> = Vec::new();
    push_all(&mut out, label.as_slice());
    push_all(&mut out, transcript.as_slice());
    out
}

/// Input of the promotion MAC.
pub fn tag2_input_bytes(epoch: u32, counter: u32, policy_hash: &[u8; 32]) -> (out: Vec<u8>)
    ensures
        out@ == tag2_input(epoch, counter, policy_hash@),
{
    let label = promote_label_bytes();
    let mut out: Vec<u8> = Vec::new();
    push_all(&mut out, label.as_slice());
    push_u32(&mut out, epoch);
    push_u32(&mut out, counter);
    push_u16(&mut out, alg_id::ML_KEM);
    push_all(&mut out, policy_hash.as_slice());
    out
}

} // verus!

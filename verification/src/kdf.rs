//! HKDF-SHA-256 key derivations with domain-separated labels.
//!
//! All three derivations (`k_1`, `K_trans`, `K_chain`) extract from
//! `K_pq ‖ K_class` with no salt and expand 32 bytes under an info string
//! that opens with a distinct ASCII label.

use vstd::prelude::*;
use hkdf::Hkdf;
use sha2::Sha256;
use crate::bytes::{be32, push_all, push_u32};
use crate::labels::{phase2_label, trans_label, chain_label, phase2_label_bytes, trans_label_bytes,
    chain_label_bytes};

verus! {

/// Length of every derived key.
pub const KEY_LEN: usize = 32;

/// HKDF-SHA-256 with no salt, input key material `ikm`, expanded to 32
/// bytes under `info`.
pub uninterp spec fn spec_hkdf_sha256(ikm: Seq<u8>, info: Seq<u8>) -> [u8; 32];

/// Calls `hkdf::Hkdf::<Sha256>::new(None, ikm)` and `expand(info, ..)` into
/// 32 bytes (which never fails: the limit is 255 * 32 bytes).  The contract
/// claims that the output is `spec_hkdf_sha256` of `ikm` and `info`.
#[verifier::external_body]
fn hkdf_sha256_32(ikm: &[u8], info: &[u8]) -> (okm: [u8; 32])
    ensures
        okm@ == spec_hkdf_sha256(ikm@, info@)@,
{
    let hk = Hkdf::<Sha256>::new(None, ikm);
    let mut okm = [0u8; 32];
    hk.expand(info, &mut okm).expect("HKDF expand never fails for 32 bytes");
    okm
}

/// Info string of `k_1`.
pub open spec fn k1_info(transcript: Seq<u8>) -> Seq<u8> {
    phase2_label() + transcript
}

/// Info string of `K_trans`.
pub open spec fn k_trans_info(epoch: u32, counter: u32, policy_hash: Seq<u8>, transcript: Seq<u8>) -> Seq<u8> {
    trans_label() + be32(epoch) + be32(counter) + policy_hash + transcript
}

/// Info string of `K_chain`: no policy hash, so that the chain key survives
/// compatible policy changes.
pub open spec fn k_chain_info(epoch: u32, counter: u32, transcript: Seq<u8>) -> Seq<u8> {
    chain_label() + be32(epoch) + be32(counter) + transcript
}

fn concat2(a: &[u8], b: &[u8]) -> (out: Vec<u8>)
    ensures
        out@ == a@ + b@,
{
    let mut out: Vec<u8> = Vec::new();
    push_all(&mut out, a);
    push_all(&mut out, b);
    assert(out@ =~= a@ + b@);
    out
}

/// `k_1 = HKDF(K_pq ‖ K_class, "MARK-X-Phase2" ‖ transcript)`, the key
/// of the client's confirmation MAC.
pub fn derive_k1(k_pq: &[u8], k_class: &[u8], transcript: &[u8; 32]) -> (k: [u8; KEY_LEN])
    ensures
        k@ == spec_hkdf_sha256(k_pq@ + k_class@, k1_info(transcript@))@,
{
    let ikm = concat2(k_pq, k_class);
    let label = phase2_label_bytes();
    let info = concat2(label.as_slice(), transcript.as_slice());
    hkdf_sha256_32(ikm.as_slice(), info.as_slice())
}

/// `K_trans = HKDF(K_pq ‖ K_class, "MARK-X-Trans" ‖ e ‖ ctr ‖
/// policy_hash ‖ transcript)`.
pub fn derive_k_trans(
    k_pq: &[u8],
    k_class: &[u8],
    epoch: u32,
    counter: u32,
    policy_hash: &[u8; 32],
    transcript: &[u8; 32],
) -> (k: [u8; KEY_LEN])
    ensures
        k@ == spec_hkdf_sha256(k_pq@ + k_class@, k_trans_info(epoch, counter, policy_hash@, transcript@))@,
{
    let ikm = concat2(k_pq, k_class);
    let mut info: Vec<u8> = Vec::new();
    let label = trans_label_bytes();
    push_all(&mut info, label.as_slice());
    push_u32(&mut info, epoch);
    push_u32(&mut info, counter);
    push_all(&mut info, policy_hash.as_slice());
    push_all(&mut info, transcript.as_slice());
    hkdf_sha256_32(ikm.as_slice(), info.as_slice())
}

/// `K_chain = HKDF(K_pq ‖ K_class, "MARK-X-Chain" ‖ e ‖ ctr ‖
/// transcript)`.
pub fn derive_k_chain(k_pq: &[u8], k_class: &[u8], epoch: u32, counter: u32, transcript: &[u8; 32]) -> (k: [u8; KEY_LEN])
    ensures
        k@ == spec_hkdf_sha256(k_pq@ + k_class@, k_chain_info(epoch, counter, transcript@))@,
{
    let ikm = concat2(k_pq, k_class);
    let mut info: Vec<u8> = Vec::new();
    let label = chain_label_bytes();
    push_all(&mut info, label.as_slice());
    push_u32(&mut info, epoch);
    push_u32(&mut info, counter);
    push_all(&mut info, transcript.as_slice());
    hkdf_sha256_32(ikm.as_slice(), info.as_slice())
}

/// Domain separation: on any inputs, the info strings of `K_trans`,
/// `K_chain` and `k_1` pairwise differ, so the three keys are expansions of
/// one PRK under distinct labels.
pub proof fn lemma_kdf_domain_separation(
    epoch: u32,
    counter: u32,
    policy_hash: Seq<u8>,
    transcript: Seq<u8>,
    epoch2: u32,
    counter2: u32,
    transcript2: Seq<u8>,
    transcript3: Seq<u8>,
)
    ensures
        k_trans_info(epoch, counter, policy_hash, transcript) != k_chain_info(epoch2, counter2, transcript2),
        k_trans_info(epoch, counter, policy_hash, transcript) != k1_info(transcript3),
        k_chain_info(epoch2, counter2, transcript2) != k1_info(transcript3),
{
    let t = k_trans_info(epoch, counter, policy_hash, transcript);
    let c = k_chain_info(epoch2, counter2, transcript2);
    let p = k1_info(transcript3);
    assert(t[7] == 0x54u8);
    assert(c[7] == 0x43u8);
    assert(p[7] == 0x50u8);
}

/// Epoch and counter separation: different `(epoch, counter)` pairs give
/// different info strings for `K_trans`, and for `K_chain`.
pub proof fn lemma_kdf_epoch_separation(
    e1: u32,
    c1: u32,
    e2: u32,
    c2: u32,
    policy_hash: Seq<u8>,
    transcript: Seq<u8>,
)
    requires
        e1 != e2 || c1 != c2,
    ensures
        k_trans_info(e1, c1, policy_hash, transcript) != k_trans_info(e2, c2, policy_hash, transcript),
        k_chain_info(e1, c1, transcript) != k_chain_info(e2, c2, transcript),
{
    let t1 = k_trans_info(e1, c1, policy_hash, transcript);
    let t2 = k_trans_info(e2, c2, policy_hash, transcript);
    let h1 = k_chain_info(e1, c1, transcript);
    let h2 = k_chain_info(e2, c2, transcript);
    crate::bytes::lemma_be32_roundtrip(e1);
    crate::bytes::lemma_be32_roundtrip(e2);
    crate::bytes::lemma_be32_roundtrip(c1);
    crate::bytes::lemma_be32_roundtrip(c2);
    assert(t1.subrange(12, 16) =~= be32(e1));
    assert(t2.subrange(12, 16) =~= be32(e2));
    assert(t1.subrange(16, 20) =~= be32(c1));
    assert(t2.subrange(16, 20) =~= be32(c2));
    assert(h1.subrange(12, 16) =~= be32(e1));
    assert(h2.subrange(12, 16) =~= be32(e2));
    assert(h1.subrange(16, 20) =~= be32(c1));
    assert(h2.subrange(16, 20) =~= be32(c2));
}

} // verus!

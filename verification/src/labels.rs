//! The ASCII labels that separate the uses of hashes, MACs and key
//! derivations in the protocol.

use vstd::prelude::*;

verus! {

/// `MARK-X-Phase2`: the HKDF info prefix of `k_1`.
pub open spec fn phase2_label() -> Seq<u8> {
    seq![0x4du8, 0x41, 0x52, 0x4b, 0x2d, 0x58, 0x2d, 0x50, 0x68, 0x61, 0x73, 0x65, 0x32]
}

/// `MARK-X-Phase2`: the HKDF info prefix of `k_1`.
pub fn phase2_label_bytes() -> (l: [u8; 13])
    ensures
        l@ == phase2_label(),
{
    let l: [u8; 13] = [0x4d, 0x41, 0x52, 0x4b, 0x2d, 0x58, 0x2d, 0x50, 0x68, 0x61, 0x73, 0x65, 0x32];
    assert(l@ =~= phase2_label());
    l
}

/// `MARK-X-Trans`: the HKDF info prefix of `K_trans`.
pub open spec fn trans_label() -> Seq<u8> {
    seq![0x4du8, 0x41, 0x52, 0x4b, 0x2d, 0x58, 0x2d, 0x54, 0x72, 0x61, 0x6e, 0x73]
}

/// `MARK-X-Trans`: the HKDF info prefix of `K_trans`.
pub fn trans_label_bytes() -> (l: [u8; 12])
    ensures
        l@ == trans_label(),
{
    let l: [u8; 12] = [0x4d, 0x41, 0x52, 0x4b, 0x2d, 0x58, 0x2d, 0x54, 0x72, 0x61, 0x6e, 0x73];
    assert(l@ =~= trans_label());
    l
}

/// `MARK-X-Chain`: the HKDF info prefix of `K_chain`.
pub open spec fn chain_label() -> Seq<u8> {
    seq![0x4du8, 0x41, 0x52, 0x4b, 0x2d, 0x58, 0x2d, 0x43, 0x68, 0x61, 0x69, 0x6e]
}

/// `MARK-X-Chain`: the HKDF info prefix of `K_chain`.
pub fn chain_label_bytes() -> (l: [u8; 12])
    ensures
        l@ == chain_label(),
{
    let l: [u8; 12] = [0x4d, 0x41, 0x52, 0x4b, 0x2d, 0x58, 0x2d, 0x43, 0x68, 0x61, 0x69, 0x6e];
    assert(l@ =~= chain_label());
    l
}

/// `MARK-X-v2-Bootstrap`: the domain prefix of the signed digest of `ctx_1`.
pub open spec fn bootstrap_label() -> Seq<u8> {
    seq![0x4du8, 0x41, 0x52, 0x4b, 0x2d, 0x58, 0x2d, 0x76, 0x32, 0x2d, 0x42, 0x6f, 0x6f, 0x74, 0x73, 0x74, 0x72, 0x61, 0x70]
}

/// `MARK-X-v2-Bootstrap`: the domain prefix of the signed digest of `ctx_1`.
pub fn bootstrap_label_bytes() -> (l: [u8; 19])
    ensures
        l@ == bootstrap_label(),
{
    let l: [u8; 19] = [0x4d, 0x41, 0x52, 0x4b, 0x2d, 0x58, 0x2d, 0x76, 0x32, 0x2d, 0x42, 0x6f, 0x6f, 0x74, 0x73, 0x74, 0x72, 0x61, 0x70];
    assert(l@ =~= bootstrap_label());
    l
}

/// `client-confirm`: the prefix of the MAC input of `tag_1`.
pub open spec fn client_confirm_label() -> Seq<u8> {
    seq![0x63u8, 0x6c, 0x69, 0x65, 0x6e, 0x74, 0x2d, 0x63, 0x6f, 0x6e, 0x66, 0x69, 0x72, 0x6d]
}

/// `client-confirm`: the prefix of the MAC input of `tag_1`.
pub fn client_confirm_label_bytes() -> (l: [u8; 14])
    ensures
        l@ == client_confirm_label(),
{
    let l: [u8; 14] = [0x63, 0x6c, 0x69, 0x65, 0x6e, 0x74, 0x2d, 0x63, 0x6f, 0x6e, 0x66, 0x69, 0x72, 0x6d];
    assert(l@ =~= client_confirm_label());
    l
}

} // verus!

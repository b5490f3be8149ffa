//! Wire forms of the three protocol messages `m_1`, `m_2`, `m_3`.
//!
//! All three use the big-endian, length-prefixed encoding of
//! [`crate::codec`]; each decoder accepts exactly the encodings of values.

use vstd::prelude::*;
use vstd::slice::slice_to_vec;
use crate::bytes::{be16, be32, lp16, u16_at, u32_at, lemma_be16_roundtrip, lemma_be32_roundtrip,
    lemma_be16_of_u16_at, lemma_be32_of_u32_at, push_u32, push_all, push_lp16, bytes_eq};
use crate::codec::{Reader, Ctx1, Ctx1Model, ctx1_wf, ctx1_bytes, ctx1_parse, lemma_ctx1_roundtrip,
    lemma_ctx1_canonical, lemma_ctx1_len, array32_from};
use crate::error::{MarkXError, Result};

verus! {

// ---------------------------------------------------------------- m_1

/// Abstract value of `m_1`.
pub ghost struct BootstrapModel {
    pub ctx_1: Ctx1Model,
    pub signature: Seq<u8>,
}

/// Values of `m_1` that have an encoding.
pub open spec fn bootstrap_wf(m: BootstrapModel) -> bool {
    ctx1_wf(m.ctx_1) && m.signature.len() <= u16::MAX
}

/// `m_1` on the wire: the encoded `ctx_1` behind its 32-bit length, then the
/// signature behind its 16-bit length.
pub closed spec fn bootstrap_bytes(m: BootstrapModel) -> Seq<u8> {
    be32(ctx1_bytes(m.ctx_1).len() as u32) + ctx1_bytes(m.ctx_1) + lp16(m.signature)
}

/// Reading `m_1` back from bytes.
pub closed spec fn bootstrap_parse(b: Seq<u8>) -> Option<BootstrapModel> {
    if b.len() < 4 {
        None
    } else {
        let n = u32_at(b, 0) as int;
        if b.len() < 4 + n {
            None
        } else {
            match ctx1_parse(b.subrange(4, 4 + n)) {
                None => None,
                Some(c) => {
                    if b.len() < 6 + n {
                        None
                    } else {
                        let s = u16_at(b, 4 + n) as int;
                        if b.len() != 6 + n + s {
                            None
                        } else {
                            Some(BootstrapModel { ctx_1: c, signature: b.subrange(6 + n, 6 + n + s) })
                        }
                    }
                }
            }
        }
    }
}

/// The layout of `m_1`: the encoded `ctx_1` behind its 32-bit big-endian
/// length, then the signature behind its 16-bit big-endian length.
pub proof fn lemma_bootstrap_bytes_layout(m: BootstrapModel)
    ensures
        bootstrap_bytes(m) == be32(ctx1_bytes(m.ctx_1).len() as u32) + ctx1_bytes(m.ctx_1) + lp16(m.signature),
{
}

/// What the decoder of `m_1` accepts: a 32-bit length `n`, then `n` bytes
/// that decode as `ctx_1`, then a 16-bit length and exactly that many
/// signature bytes.
pub proof fn lemma_bootstrap_parse_layout(b: Seq<u8>)
    ensures
        bootstrap_parse(b) == (if b.len() < 4 {
            None
        } else {
            let n = u32_at(b, 0) as int;
            if b.len() < 4 + n {
                None
            } else {
                match ctx1_parse(b.subrange(4, 4 + n)) {
                    None => None,
                    Some(c) => {
                        if b.len() < 6 + n {
                            None
                        } else {
                            let s = u16_at(b, 4 + n) as int;
                            if b.len() != 6 + n + s {
                                None
                            } else {
                                Some(BootstrapModel { ctx_1: c, signature: b.subrange(6 + n, 6 + n + s) })
                            }
                        }
                    }
                }
            }
        }),
{
}

/// Decoding the encoding of `m_1` gives it back.
pub proof fn lemma_bootstrap_roundtrip(m: BootstrapModel)
    requires
        bootstrap_wf(m),
    ensures
        bootstrap_parse(bootstrap_bytes(m)) == Some(m),
{
    let cb = ctx1_bytes(m.ctx_1);
    let b = bootstrap_bytes(m);
    let n = cb.len() as int;
    let s = m.signature.len() as int;
    lemma_ctx1_roundtrip(m.ctx_1);
    lemma_ctx1_len(m.ctx_1);
    lemma_be32_roundtrip(n as u32);
    lemma_be16_roundtrip(s as u16);
    assert(n <= 48 + 2 * 65535);
    assert(u32_at(b, 0) == u32_at(be32(n as u32), 0));
    assert(b.subrange(4, 4 + n) =~= cb);
    assert(u16_at(b, 4 + n) == u16_at(be16(s as u16), 0));
    assert(b.subrange(6 + n, 6 + n + s) =~= m.signature);
}

/// A byte string that decodes as `m_1` is the encoding of what it decodes to.
pub proof fn lemma_bootstrap_canonical(b: Seq<u8>)
    requires
        bootstrap_parse(b) is Some,
    ensures
        bootstrap_wf(bootstrap_parse(b).unwrap()),
        bootstrap_bytes(bootstrap_parse(b).unwrap()) == b,
{
    let m = bootstrap_parse(b).unwrap();
    let n = u32_at(b, 0) as int;
    let s = u16_at(b, 4 + n) as int;
    lemma_ctx1_canonical(b.subrange(4, 4 + n));
    assert(m.ctx_1 == ctx1_parse(b.subrange(4, 4 + n)).unwrap());
    lemma_be32_of_u32_at(b, 0);
    lemma_be16_of_u16_at(b, 4 + n);
    assert(ctx1_bytes(m.ctx_1).len() == n);
    assert(lp16(m.signature) =~= b.subrange(4 + n, 6 + n + s));
    assert(b =~= b.subrange(0, 4) + b.subrange(4, 4 + n) + b.subrange(4 + n, 6 + n + s));
}

/// Prefix-freeness of `m_1`: of two byte strings that both decode, neither
/// is a proper prefix of the other.
pub proof fn lemma_bootstrap_prefix_free(a: Seq<u8>, b: Seq<u8>)
    requires
        bootstrap_parse(a) is Some,
        bootstrap_parse(b) is Some,
        a.len() <= b.len(),
        b.subrange(0, a.len() as int) == a,
    ensures
        a == b,
{
    assert forall|i: int| 0 <= i < a.len() implies a[i] == b[i] by {
        assert(b.subrange(0, a.len() as int)[i] == b[i]);
    }
    let n = u32_at(a, 0) as int;
    assert(u32_at(b, 0) == u32_at(a, 0));
    assert(u16_at(b, 4 + n) == u16_at(a, 4 + n));
    assert(a =~= b);
}

/// A truncated encoding of `m_1`, and an encoding followed by further bytes,
/// are refused.
pub proof fn lemma_bootstrap_truncated_or_extended_refused(m: BootstrapModel, k: int, x: Seq<u8>)
    requires
        bootstrap_wf(m),
        0 <= k < bootstrap_bytes(m).len(),
        x.len() > 0,
    ensures
        bootstrap_parse(bootstrap_bytes(m).subrange(0, k)) is None,
        bootstrap_parse(bootstrap_bytes(m) + x) is None,
{
    let b = bootstrap_bytes(m);
    lemma_bootstrap_roundtrip(m);
    if bootstrap_parse(b.subrange(0, k)) is Some {
        assert(b.subrange(0, b.subrange(0, k).len() as int) =~= b.subrange(0, k));
        lemma_bootstrap_prefix_free(b.subrange(0, k), b);
    }
    if bootstrap_parse(b + x) is Some {
        assert((b + x).subrange(0, b.len() as int) =~= b);
        lemma_bootstrap_prefix_free(b, b + x);
        assert((b + x).len() == b.len());
    }
}

/// `m_1 = (ctx_1, sigma_1)`, sent by the server to the client.
#[derive(Clone, Debug)]
pub struct MarkXBootstrap {
    pub ctx_1: Ctx1,
    /// DER-encoded ECDSA signature.
    pub signature: Vec<u8>,
}

impl View for MarkXBootstrap {
    type V = BootstrapModel;

    open spec fn view(&self) -> BootstrapModel {
        BootstrapModel { ctx_1: self.ctx_1@, signature: self.signature@ }
    }
}

impl MarkXBootstrap {
    /// The wire encoding of `m_1`.
    pub fn encode(&self) -> (out: Vec<u8>)
        requires
            bootstrap_wf(self@),
        ensures
            out@ == bootstrap_bytes(self@),
    {
        let ctx_bytes = self.ctx_1.encode();
        let mut out: Vec<u8> = Vec::new();
        push_u32(&mut out, ctx_bytes.len() as u32);
        push_all(&mut out, ctx_bytes.as_slice());
        push_lp16(&mut out, self.signature.as_slice());
        assert(out@ =~= bootstrap_bytes(self@));
        out
    }

    /// Decodes `m_1`; refuses anything that is not exactly the encoding of
    /// a value.
    pub fn decode(bytes: &[u8]) -> (res: Result<Self>)
        ensures
            res matches Ok(m) ==> bootstrap_parse(bytes@) == Some(m@) && bootstrap_wf(m@)
                && bootstrap_bytes(m@) == bytes@,
            res is Err ==> bootstrap_parse(bytes@) is None && res == Err::<Self, MarkXError>(
                MarkXError::MalformedMessage,
            ),
    {
        let ghost b = bytes@;
        let mut r = Reader::new(bytes);
        let ctx_len = r.read_u32()?;
        let ctx_bytes = r.read_fixed(ctx_len as usize)?;
        let ctx_1 = Ctx1::decode(ctx_bytes)?;
        let ghost n = ctx_len as int;
        assert(r.pos == 4 + n);
        let sig = r.read_lp16()?;
        let signature = slice_to_vec(sig);
        r.finish()?;
        let m = MarkXBootstrap { ctx_1, signature };
        assert(m@ == bootstrap_parse(b).unwrap());
        proof {
            lemma_bootstrap_canonical(b);
        }
        Ok(m)
    }
}

// ---------------------------------------------------------------- m_2

/// Abstract value of `m_2`.
pub ghost struct ConfirmModel {
    pub kem_ciphertext: Seq<u8>,
    pub ecdh_share: Seq<u8>,
    pub tag1: Seq<u8>,
}

/// Values of `m_2` that have an encoding.
pub open spec fn confirm_wf(m: ConfirmModel) -> bool {
    m.kem_ciphertext.len() <= u16::MAX && m.ecdh_share.len() <= u16::MAX && m.tag1.len() == 32
}

/// `m_2` on the wire: two length-prefixed fields, then the 32-byte tag.
pub closed spec fn confirm_bytes(m: ConfirmModel) -> Seq<u8> {
    lp16(m.kem_ciphertext) + lp16(m.ecdh_share) + m.tag1
}

/// Reading `m_2` back from bytes.
pub closed spec fn confirm_parse(b: Seq<u8>) -> Option<ConfirmModel> {
    if b.len() < 2 {
        None
    } else {
        let n = u16_at(b, 0) as int;
        if b.len() < 4 + n {
            None
        } else {
            let m = u16_at(b, 2 + n) as int;
            if b.len() != 36 + n + m {
                None
            } else {
                Some(
                    ConfirmModel {
                        kem_ciphertext: b.subrange(2, 2 + n),
                        ecdh_share: b.subrange(4 + n, 4 + n + m),
                        tag1: b.subrange(4 + n + m, 36 + n + m),
                    },
                )
            }
        }
    }
}

/// The layout of `m_2`: the ciphertext and the ECDH share, each behind its
/// 16-bit big-endian length, then the 32-byte `tag_1`.
pub proof fn lemma_confirm_bytes_layout(m: ConfirmModel)
    ensures
        confirm_bytes(m) == lp16(m.kem_ciphertext) + lp16(m.ecdh_share) + m.tag1,
{
}

/// What the decoder of `m_2` accepts: two length-prefixed fields followed
/// by exactly 32 bytes of tag.
pub proof fn lemma_confirm_parse_layout(b: Seq<u8>)
    ensures
        confirm_parse(b) == (if b.len() < 2 {
            None
        } else {
            let n = u16_at(b, 0) as int;
            if b.len() < 4 + n {
                None
            } else {
                let m = u16_at(b, 2 + n) as int;
                if b.len() != 36 + n + m {
                    None
                } else {
                    Some(
                        ConfirmModel {
                            kem_ciphertext: b.subrange(2, 2 + n),
                            ecdh_share: b.subrange(4 + n, 4 + n + m),
                            tag1: b.subrange(4 + n + m, 36 + n + m),
                        },
                    )
                }
            }
        }),
{
}

/// Decoding the encoding of `m_2` gives it back.
pub proof fn lemma_confirm_roundtrip(m: ConfirmModel)
    requires
        confirm_wf(m),
    ensures
        confirm_parse(confirm_bytes(m)) == Some(m),
{
    let b = confirm_bytes(m);
    let n = m.kem_ciphertext.len() as int;
    let k = m.ecdh_share.len() as int;
    lemma_be16_roundtrip(n as u16);
    lemma_be16_roundtrip(k as u16);
    assert(u16_at(b, 0) == u16_at(be16(n as u16), 0));
    assert(u16_at(b, 2 + n) == u16_at(be16(k as u16), 0));
    let d = confirm_parse(b).unwrap();
    assert(d.kem_ciphertext =~= m.kem_ciphertext);
    assert(d.ecdh_share =~= m.ecdh_share);
    assert(d.tag1 =~= m.tag1);
}

/// A byte string that decodes as `m_2` is the encoding of what it decodes to.
pub proof fn lemma_confirm_canonical(b: Seq<u8>)
    requires
        confirm_parse(b) is Some,
    ensures
        confirm_wf(confirm_parse(b).unwrap()),
        confirm_bytes(confirm_parse(b).unwrap()) == b,
{
    let c = confirm_parse(b).unwrap();
    let n = u16_at(b, 0) as int;
    let m = u16_at(b, 2 + n) as int;
    lemma_be16_of_u16_at(b, 0);
    lemma_be16_of_u16_at(b, 2 + n);
    assert(lp16(c.kem_ciphertext) =~= b.subrange(0, 2 + n));
    assert(lp16(c.ecdh_share) =~= b.subrange(2 + n, 4 + n + m));
    assert(b =~= b.subrange(0, 2 + n) + b.subrange(2 + n, 4 + n + m) + b.subrange(
        4 + n + m,
        36 + n + m,
    ));
}

/// Prefix-freeness of `m_2`: of two byte strings that both decode, neither
/// is a proper prefix of the other.
pub proof fn lemma_confirm_prefix_free(a: Seq<u8>, b: Seq<u8>)
    requires
        confirm_parse(a) is Some,
        confirm_parse(b) is Some,
        a.len() <= b.len(),
        b.subrange(0, a.len() as int) == a,
    ensures
        a == b,
{
    assert forall|i: int| 0 <= i < a.len() implies a[i] == b[i] by {
        assert(b.subrange(0, a.len() as int)[i] == b[i]);
    }
    let n = u16_at(a, 0) as int;
    assert(u16_at(b, 0) == u16_at(a, 0));
    assert(u16_at(b, 2 + n) == u16_at(a, 2 + n));
    assert(a =~= b);
}

/// A truncated encoding of `m_2`, and an encoding followed by further bytes,
/// are refused.
pub proof fn lemma_confirm_truncated_or_extended_refused(m: ConfirmModel, k: int, x: Seq<u8>)
    requires
        confirm_wf(m),
        0 <= k < confirm_bytes(m).len(),
        x.len() > 0,
    ensures
        confirm_parse(confirm_bytes(m).subrange(0, k)) is None,
        confirm_parse(confirm_bytes(m) + x) is None,
{
    let b = confirm_bytes(m);
    lemma_confirm_roundtrip(m);
    if confirm_parse(b.subrange(0, k)) is Some {
        assert(b.subrange(0, b.subrange(0, k).len() as int) =~= b.subrange(0, k));
        lemma_confirm_prefix_free(b.subrange(0, k), b);
    }
    if confirm_parse(b + x) is Some {
        assert((b + x).subrange(0, b.len() as int) =~= b);
        lemma_confirm_prefix_free(b, b + x);
        assert((b + x).len() == b.len());
    }
}

/// `m_2 = (ct_pq, X, tag_1)`, sent by the client to the server.  `X` is
/// empty for Variant A1.
#[derive(Clone, Debug)]
pub struct MarkXConfirm {
    pub kem_ciphertext: Vec<u8>,
    /// Empty for A1.
    pub ecdh_share: Vec<u8>,
    pub tag1: [u8; 32],
}

impl View for MarkXConfirm {
    type V = ConfirmModel;

    open spec fn view(&self) -> ConfirmModel {
        ConfirmModel {
            kem_ciphertext: self.kem_ciphertext@,
            ecdh_share: self.ecdh_share@,
            tag1: self.tag1@,
        }
    }
}

impl MarkXConfirm {
    /// The wire encoding of `m_2`.
    pub fn encode(&self) -> (out: Vec<u8>)
        requires
            confirm_wf(self@),
        ensures
            out@ == confirm_bytes(self@),
    {
        let mut out: Vec<u8> = Vec::new();
        push_lp16(&mut out, self.kem_ciphertext.as_slice());
        push_lp16(&mut out, self.ecdh_share.as_slice());
        push_all(&mut out, self.tag1.as_slice());
        out
    }

    /// Decodes `m_2`; refuses anything that is not exactly the encoding of
    /// a value.
    pub fn decode(bytes: &[u8]) -> (res: Result<Self>)
        ensures
            res matches Ok(m) ==> confirm_parse(bytes@) == Some(m@) && confirm_wf(m@)
                && confirm_bytes(m@) == bytes@,
            res is Err ==> confirm_parse(bytes@) is None && res == Err::<Self, MarkXError>(
                MarkXError::MalformedMessage,
            ),
    {
        let ghost b = bytes@;
        let mut r = Reader::new(bytes);
        let ct = r.read_lp16()?;
        let kem_ciphertext = slice_to_vec(ct);
        let ghost n = u16_at(b, 0) as int;
        let x = r.read_lp16()?;
        let ecdh_share = slice_to_vec(x);
        let t = r.read_fixed(32)?;
        let tag1 = array32_from(t);
        r.finish()?;
        let m = MarkXConfirm { kem_ciphertext, ecdh_share, tag1 };
        assert(m@ == confirm_parse(b).unwrap());
        proof {
            lemma_confirm_canonical(b);
        }
        Ok(m)
    }
}

// ---------------------------------------------------------------- m_3

/// The ASCII label `promote-to-PQ` that opens `m_3`.
pub open spec fn promote_label() -> Seq<u8> {
    seq![0x70u8, 0x72, 0x6f, 0x6d, 0x6f, 0x74, 0x65, 0x2d, 0x74, 0x6f, 0x2d, 0x50, 0x51]
}

/// The ASCII label `promote-to-PQ` that opens `m_3`.
pub fn promote_label_bytes() -> (l: [u8; 13])
    ensures
        l@ == promote_label(),
{
    let l: [u8; 13] = [0x70, 0x72, 0x6f, 0x6d, 0x6f, 0x74, 0x65, 0x2d, 0x74, 0x6f, 0x2d, 0x50, 0x51];
    assert(l@ =~= promote_label());
    l
}

/// Abstract value of `m_3`.
pub ghost struct PromoteModel {
    pub label: Seq<u8>,
    pub epoch: u32,
    pub counter: u32,
    pub tag2: Seq<u8>,
}

/// `m_3` on the wire: 13-byte label, epoch, counter, 32-byte tag.
pub closed spec fn promote_bytes(m: PromoteModel) -> Seq<u8> {
    m.label + be32(m.epoch) + be32(m.counter) + m.tag2
}

/// Reading `m_3` back from bytes: exactly 53 bytes opening with the label.
pub closed spec fn promote_parse(b: Seq<u8>) -> Option<PromoteModel> {
    if b.len() != 53 || b.subrange(0, 13) != promote_label() {
        None
    } else {
        Some(
            PromoteModel {
                label: b.subrange(0, 13),
                epoch: u32_at(b, 13),
                counter: u32_at(b, 17),
                tag2: b.subrange(21, 53),
            },
        )
    }
}

/// The layout of `m_3`: the 13-byte label, big-endian epoch and counter,
/// then the 32-byte `tag_2`.
pub proof fn lemma_promote_bytes_layout(m: PromoteModel)
    ensures
        promote_bytes(m) == m.label + be32(m.epoch) + be32(m.counter) + m.tag2,
{
}

/// What the decoder of `m_3` accepts: exactly 53 bytes opening with
/// `promote-to-PQ`; epoch, counter and tag are read at offsets 13, 17 and
/// 21.
pub proof fn lemma_promote_parse_layout(b: Seq<u8>)
    ensures
        promote_parse(b) == (if b.len() != 53 || b.subrange(0, 13) != promote_label() {
            None
        } else {
            Some(
                PromoteModel {
                    label: b.subrange(0, 13),
                    epoch: u32_at(b, 13),
                    counter: u32_at(b, 17),
                    tag2: b.subrange(21, 53),
                },
            )
        }),
{
}

/// Decoding the encoding of an `m_3` that carries the label gives it back.
pub proof fn lemma_promote_roundtrip(m: PromoteModel)
    requires
        m.label == promote_label(),
        m.tag2.len() == 32,
    ensures
        promote_parse(promote_bytes(m)) == Some(m),
{
    let b = promote_bytes(m);
    lemma_be32_roundtrip(m.epoch);
    lemma_be32_roundtrip(m.counter);
    assert(b.subrange(0, 13) =~= m.label);
    assert(u32_at(b, 13) == u32_at(be32(m.epoch), 0));
    assert(u32_at(b, 17) == u32_at(be32(m.counter), 0));
    assert(b.subrange(21, 53) =~= m.tag2);
}

/// A byte string that decodes as `m_3` is the encoding of what it decodes to.
pub proof fn lemma_promote_canonical(b: Seq<u8>)
    requires
        promote_parse(b) is Some,
    ensures
        promote_parse(b).unwrap().label == promote_label(),
        promote_bytes(promote_parse(b).unwrap()) == b,
{
    lemma_be32_of_u32_at(b, 13);
    lemma_be32_of_u32_at(b, 17);
    assert(b =~= b.subrange(0, 13) + b.subrange(13, 17) + b.subrange(17, 21) + b.subrange(21, 53));
}

/// An `m_3` whose label is not `promote-to-PQ` is refused.
pub proof fn lemma_promote_wrong_label_refused(m: PromoteModel)
    requires
        m.label.len() == 13,
        m.label != promote_label(),
    ensures
        promote_parse(promote_bytes(m)) is None,
{
    assert(promote_bytes(m).subrange(0, 13) =~= m.label);
}

/// Every byte string that decodes as `m_3` is 53 bytes long, so a truncated
/// or extended encoding is refused.
pub proof fn lemma_promote_length(b: Seq<u8>)
    requires
        promote_parse(b) is Some,
    ensures
        b.len() == 53,
{
}

/// `m_3 = ("promote-to-PQ", e, ctr, tag_2)`, sent by the server to the
/// client.
#[derive(Clone, Debug)]
pub struct MarkXPromote {
    /// ASCII `promote-to-PQ`.
    pub label: [u8; 13],
    pub epoch: u32,
    pub counter: u32,
    pub tag2: [u8; 32],
}

impl View for MarkXPromote {
    type V = PromoteModel;

    open spec fn view(&self) -> PromoteModel {
        PromoteModel {
            label: self.label@,
            epoch: self.epoch,
            counter: self.counter,
            tag2: self.tag2@,
        }
    }
}

impl MarkXPromote {
    /// An `m_3` carrying the label.
    pub fn new(epoch: u32, counter: u32, tag2: [u8; 32]) -> (m: Self)
        ensures
            m@ == (PromoteModel { label: promote_label(), epoch, counter, tag2: tag2@ }),
    {
        MarkXPromote { label: promote_label_bytes(), epoch, counter, tag2 }
    }

    /// The wire encoding of `m_3`.
    pub fn encode(&self) -> (out: Vec<u8>)
        ensures
            out@ == promote_bytes(self@),
    {
        let mut out: Vec<u8> = Vec::new();
        push_all(&mut out, self.label.as_slice());
        push_u32(&mut out, self.epoch);
        push_u32(&mut out, self.counter);
        push_all(&mut out, self.tag2.as_slice());
        out
    }

    /// Decodes `m_3`; refuses anything that is not exactly the encoding of a
    /// value carrying the label.
    pub fn decode(bytes: &[u8]) -> (res: Result<Self>)
        ensures
            res matches Ok(m) ==> promote_parse(bytes@) == Some(m@) && promote_bytes(m@) == bytes@,
            res is Err ==> promote_parse(bytes@) is None && res == Err::<Self, MarkXError>(
                MarkXError::MalformedMessage,
            ),
    {
        let ghost b = bytes@;
        let mut r = Reader::new(bytes);
        let l = r.read_fixed(13)?;
        let expected = promote_label_bytes();
        if !bytes_eq(l, expected.as_slice()) {
            return Err(MarkXError::MalformedMessage);
        }
        let label = expected;
        let epoch = r.read_u32()?;
        let counter = r.read_u32()?;
        let t = r.read_fixed(32)?;
        let tag2 = array32_from(t);
        r.finish()?;
        let m = MarkXPromote { label, epoch, counter, tag2 };
        assert(m@ == promote_parse(b).unwrap());
        proof {
            lemma_promote_canonical(b);
        }
        Ok(m)
    }
}

} // verus!

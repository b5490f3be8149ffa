//! Injective wire encoding of `ctx_1`, and the cursor that every decoder of
//! the library reads through.
//!
//! Each variable-length field is preceded by its length, so a byte string
//! is the encoding of at most one value, and a decoder accepts exactly the
//! encodings of values.

use vstd::prelude::*;
use vstd::slice::slice_subrange;
use vstd::slice::slice_to_vec;
use crate::bytes::{be16, be32, lp16, u16_at, u32_at, lemma_be16_roundtrip, lemma_be32_roundtrip, lemma_be16_of_u16_at, lemma_be32_of_u32_at, push_u16, push_u32, push_all, push_lp16};
use crate::error::{MarkXError, Result};

verus! {

/// Copies a 32-byte slice into an array.
pub fn array32_from(s: &[u8]) -> (out: [u8; 32])
    requires
        s@.len() == 32,
    ensures
        out@ == s@,
{
    let mut out = [0u8; 32];
    let mut i: usize = 0;
    while i < 32
        invariant
            i <= 32,
            s@.len() == 32,
            forall|j: int| 0 <= j < i ==> out@[j] == s@[j],
        decreases 32 - i,
    {
        out[i] = s[i];
        i = i + 1;
    }
    assert(out@ =~= s@);
    out
}

/// Cursor over a byte buffer; every read past the end is refused with
/// `MalformedMessage` and leaves the cursor where it was.
pub struct Reader<'a> {
    pub buf: &'a [u8],
    pub pos: usize,
}

impl<'a> Reader<'a> {
    /// A cursor at the start of `buf`.
    pub fn new(buf: &'a [u8]) -> (r: Self)
        ensures
            r.buf@ == buf@,
            r.pos == 0,
    {
        Reader { buf, pos: 0 }
    }

    /// Whether `n` more bytes are available.
    pub open spec fn has(&self, n: int) -> bool {
        self.pos + n <= self.buf@.len()
    }

    /// Reads one byte.
    pub fn read_u8(&mut self) -> (res: Result<u8>)
        ensures
            final(self).buf@ == old(self).buf@,
            old(self).has(1) ==> res == Ok::<u8, MarkXError>(old(self).buf@[old(self).pos as int])
                && final(self).pos == old(self).pos + 1,
            !old(self).has(1) ==> res == Err::<u8, MarkXError>(MarkXError::MalformedMessage)
                && final(self).pos == old(self).pos,
    {
        if self.pos >= self.buf.len() {
            return Err(MarkXError::MalformedMessage);
        }
        let v = self.buf[self.pos];
        self.pos = self.pos + 1;
        Ok(v)
    }

    /// Reads a big-endian 16-bit value.
    pub fn read_u16(&mut self) -> (res: Result<u16>)
        ensures
            final(self).buf@ == old(self).buf@,
            old(self).has(2) ==> res == Ok::<u16, MarkXError>(u16_at(old(self).buf@, old(self).pos as int))
                && final(self).pos == old(self).pos + 2,
            !old(self).has(2) ==> res == Err::<u16, MarkXError>(MarkXError::MalformedMessage)
                && final(self).pos == old(self).pos,
    {
        if self.pos > self.buf.len() || self.buf.len() - self.pos < 2 {
            return Err(MarkXError::MalformedMessage);
        }
        let v = (self.buf[self.pos] as u16) * 256 + (self.buf[self.pos + 1] as u16);
        self.pos = self.pos + 2;
        Ok(v)
    }

    /// Reads a big-endian 32-bit value.
    pub fn read_u32(&mut self) -> (res: Result<u32>)
        ensures
            final(self).buf@ == old(self).buf@,
            old(self).has(4) ==> res == Ok::<u32, MarkXError>(u32_at(old(self).buf@, old(self).pos as int))
                && final(self).pos == old(self).pos + 4,
            !old(self).has(4) ==> res == Err::<u32, MarkXError>(MarkXError::MalformedMessage)
                && final(self).pos == old(self).pos,
    {
        if self.pos > self.buf.len() || self.buf.len() - self.pos < 4 {
            return Err(MarkXError::MalformedMessage);
        }
        let v = (self.buf[self.pos] as u32) * 0x100_0000 + (self.buf[self.pos + 1] as u32) * 0x1_0000
            + (self.buf[self.pos + 2] as u32) * 256 + (self.buf[self.pos + 3] as u32);
        self.pos = self.pos + 4;
        Ok(v)
    }

    /// Reads the next `n` bytes.
    pub fn read_fixed(&mut self, n: usize) -> (res: Result<&'a [u8]>)
        ensures
            final(self).buf@ == old(self).buf@,
            old(self).has(n as int) ==> res is Ok && res->Ok_0@ == old(self).buf@.subrange(
                old(self).pos as int,
                old(self).pos + n,
            ) && final(self).pos == old(self).pos + n,
            !old(self).has(n as int) ==> res == Err::<&'a [u8], MarkXError>(MarkXError::MalformedMessage)
                && final(self).pos == old(self).pos,
    {
        if self.pos > self.buf.len() || self.buf.len() - self.pos < n {
            return Err(MarkXError::MalformedMessage);
        }
        let v = slice_subrange(self.buf, self.pos, self.pos + n);
        self.pos = self.pos + n;
        Ok(v)
    }

    /// Reads a field preceded by its 16-bit length.  The cursor does not
    /// move when the field is cut short.
    pub fn read_lp16(&mut self) -> (res: Result<&'a [u8]>)
        ensures
            final(self).buf@ == old(self).buf@,
            ({
                let b = old(self).buf@;
                let p = old(self).pos as int;
                if !old(self).has(2) {
                    res == Err::<&'a [u8], MarkXError>(MarkXError::MalformedMessage)
                        && final(self).pos == old(self).pos
                } else if p + 2 + u16_at(b, p) > b.len() {
                    res == Err::<&'a [u8], MarkXError>(MarkXError::MalformedMessage)
                        && final(self).pos == old(self).pos + 2
                } else {
                    res is Ok && res->Ok_0@ == b.subrange(p + 2, p + 2 + u16_at(b, p))
                        && final(self).pos == p + 2 + u16_at(b, p)
                }
            }),
    {
        let n = self.read_u16()?;
        self.read_fixed(n as usize)
    }

    /// Succeeds exactly when every byte has been read.
    pub fn finish(self) -> (res: Result<()>)
        ensures
            self.pos == self.buf@.len() ==> res == Ok::<(), MarkXError>(()),
            self.pos != self.buf@.len() ==> res == Err::<(), MarkXError>(MarkXError::MalformedMessage),
    {
        if self.pos != self.buf.len() {
            return Err(MarkXError::MalformedMessage);
        }
        Ok(())
    }
}

/// Abstract value of a `ctx_1`.
pub ghost struct Ctx1Model {
    pub alg_id: u16,
    pub param_id: u8,
    pub epoch: u32,
    pub counter: u32,
    pub policy_hash: Seq<u8>,
    pub variant: u8,
    pub pq_public_key: Seq<u8>,
    pub ecdh_share: Seq<u8>,
}

/// Values that have an encoding: a 32-byte policy hash and variable fields
/// whose length fits the 16-bit prefix.
pub open spec fn ctx1_wf(c: Ctx1Model) -> bool {
    &&& c.policy_hash.len() == 32
    &&& c.pq_public_key.len() <= u16::MAX
    &&& c.ecdh_share.len() <= u16::MAX
}

/// The wire encoding of `ctx_1`.
pub closed spec fn ctx1_bytes(c: Ctx1Model) -> Seq<u8> {
    be16(c.alg_id) + seq![c.param_id] + be32(c.epoch) + be32(c.counter) + c.policy_hash
        + seq![c.variant] + lp16(c.pq_public_key) + lp16(c.ecdh_share)
}

/// Reading `ctx_1` back from bytes: the fixed fields, then two
/// length-prefixed fields that must end exactly at the end of the input.
pub closed spec fn ctx1_parse(b: Seq<u8>) -> Option<Ctx1Model> {
    if b.len() < 46 {
        None
    } else {
        let n = u16_at(b, 44) as int;
        if b.len() < 48 + n {
            None
        } else {
            let m = u16_at(b, 46 + n) as int;
            if b.len() != 48 + n + m {
                None
            } else {
                Some(
                    Ctx1Model {
                        alg_id: u16_at(b, 0),
                        param_id: b[2],
                        epoch: u32_at(b, 3),
                        counter: u32_at(b, 7),
                        policy_hash: b.subrange(11, 43),
                        variant: b[43],
                        pq_public_key: b.subrange(46, 46 + n),
                        ecdh_share: b.subrange(48 + n, 48 + n + m),
                    },
                )
            }
        }
    }
}

/// The layout of the encoding of `ctx_1`: big-endian `alg_id`, `param_id`,
/// big-endian `epoch` and `counter`, the 32-byte policy hash, `variant`,
/// then the public key and the ECDH share, each behind its 16-bit
/// big-endian length.
pub proof fn lemma_ctx1_bytes_layout(c: Ctx1Model)
    ensures
        ctx1_bytes(c) == be16(c.alg_id) + seq![c.param_id] + be32(c.epoch) + be32(c.counter) + c.policy_hash
        + seq![c.variant] + lp16(c.pq_public_key) + lp16(c.ecdh_share),
{
}

/// What the decoder of `ctx_1` accepts: at least 46 bytes, the key length
/// at offset 44, the share length right after the key, and nothing after
/// the share; and which fields it reads from where.
pub proof fn lemma_ctx1_parse_layout(b: Seq<u8>)
    ensures
        ctx1_parse(b) == (if b.len() < 46 {
            None
        } else {
            let n = u16_at(b, 44) as int;
            if b.len() < 48 + n {
                None
            } else {
                let m = u16_at(b, 46 + n) as int;
                if b.len() != 48 + n + m {
                    None
                } else {
                    Some(
                        Ctx1Model {
                            alg_id: u16_at(b, 0),
                            param_id: b[2],
                            epoch: u32_at(b, 3),
                            counter: u32_at(b, 7),
                            policy_hash: b.subrange(11, 43),
                            variant: b[43],
                            pq_public_key: b.subrange(46, 46 + n),
                            ecdh_share: b.subrange(48 + n, 48 + n + m),
                        },
                    )
                }
            }
        }),
{
}

/// Decoding the encoding of a value gives the value back.
pub proof fn lemma_ctx1_roundtrip(c: Ctx1Model)
    requires
        ctx1_wf(c),
    ensures
        ctx1_parse(ctx1_bytes(c)) == Some(c),
{
    let b = ctx1_bytes(c);
    let n = c.pq_public_key.len() as int;
    let m = c.ecdh_share.len() as int;
    lemma_be16_roundtrip(c.alg_id);
    lemma_be32_roundtrip(c.epoch);
    lemma_be32_roundtrip(c.counter);
    lemma_be16_roundtrip(n as u16);
    lemma_be16_roundtrip(m as u16);
    assert(b.len() == 48 + n + m);
    assert(u16_at(b, 0) == u16_at(be16(c.alg_id), 0));
    assert(u32_at(b, 3) == u32_at(be32(c.epoch), 0));
    assert(u32_at(b, 7) == u32_at(be32(c.counter), 0));
    assert(u16_at(b, 44) == u16_at(be16(n as u16), 0));
    assert(u16_at(b, 46 + n) == u16_at(be16(m as u16), 0));
    let d = ctx1_parse(b).unwrap();
    assert(d.policy_hash =~= c.policy_hash);
    assert(d.pq_public_key =~= c.pq_public_key);
    assert(d.ecdh_share =~= c.ecdh_share);
}

/// A byte string that decodes is the encoding of what it decodes to: the
/// encoding is canonical.
pub proof fn lemma_ctx1_canonical(b: Seq<u8>)
    requires
        ctx1_parse(b) is Some,
    ensures
        ctx1_wf(ctx1_parse(b).unwrap()),
        ctx1_bytes(ctx1_parse(b).unwrap()) == b,
{
    let c = ctx1_parse(b).unwrap();
    let n = u16_at(b, 44) as int;
    let m = u16_at(b, 46 + n) as int;
    lemma_be16_of_u16_at(b, 0);
    lemma_be32_of_u32_at(b, 3);
    lemma_be32_of_u32_at(b, 7);
    lemma_be16_of_u16_at(b, 44);
    lemma_be16_of_u16_at(b, 46 + n);
    assert(c.pq_public_key.len() == n);
    assert(c.ecdh_share.len() == m);
    assert(lp16(c.pq_public_key) =~= b.subrange(44, 46 + n));
    assert(lp16(c.ecdh_share) =~= b.subrange(46 + n, 48 + n + m));
    assert(seq![c.param_id] =~= b.subrange(2, 3));
    assert(seq![c.variant] =~= b.subrange(43, 44));
    assert(b =~= b.subrange(0, 2) + b.subrange(2, 3) + b.subrange(3, 7) + b.subrange(7, 11)
        + b.subrange(11, 43) + b.subrange(43, 44) + b.subrange(44, 46 + n) + b.subrange(
        46 + n,
        48 + n + m,
    ));
}

/// Prefix-freeness: of two byte strings that both decode, neither is a
/// proper prefix of the other.
pub proof fn lemma_ctx1_prefix_free(a: Seq<u8>, b: Seq<u8>)
    requires
        ctx1_parse(a) is Some,
        ctx1_parse(b) is Some,
        a.len() <= b.len(),
        b.subrange(0, a.len() as int) == a,
    ensures
        a == b,
{
    assert forall|i: int| 0 <= i < a.len() implies a[i] == b[i] by {
        assert(b.subrange(0, a.len() as int)[i] == b[i]);
    }
    let n = u16_at(a, 44) as int;
    assert(u16_at(b, 44) == u16_at(a, 44));
    assert(u16_at(b, 46 + n) == u16_at(a, 46 + n));
    assert(a =~= b);
}

/// A truncated encoding of `ctx_1`, and an encoding followed by further
/// bytes, are refused.
pub proof fn lemma_ctx1_truncated_or_extended_refused(c: Ctx1Model, k: int, x: Seq<u8>)
    requires
        ctx1_wf(c),
        0 <= k < ctx1_bytes(c).len(),
        x.len() > 0,
    ensures
        ctx1_parse(ctx1_bytes(c).subrange(0, k)) is None,
        ctx1_parse(ctx1_bytes(c) + x) is None,
{
    let b = ctx1_bytes(c);
    lemma_ctx1_roundtrip(c);
    if ctx1_parse(b.subrange(0, k)) is Some {
        assert(b.subrange(0, b.subrange(0, k).len() as int) =~= b.subrange(0, k));
        lemma_ctx1_prefix_free(b.subrange(0, k), b);
    }
    if ctx1_parse(b + x) is Some {
        assert((b + x).subrange(0, b.len() as int) =~= b);
        lemma_ctx1_prefix_free(b, b + x);
        assert((b + x).len() == b.len());
    }
}

/// Length of the encoding of `ctx_1`.
pub proof fn lemma_ctx1_len(c: Ctx1Model)
    requires
        ctx1_wf(c),
    ensures
        ctx1_bytes(c).len() == 48 + c.pq_public_key.len() + c.ecdh_share.len(),
{
}

/// Two values with the same encoding are the same value.
pub proof fn lemma_ctx1_injective(c1: Ctx1Model, c2: Ctx1Model)
    requires
        ctx1_wf(c1),
        ctx1_wf(c2),
        ctx1_bytes(c1) == ctx1_bytes(c2),
    ensures
        c1 == c2,
{
    lemma_ctx1_roundtrip(c1);
    lemma_ctx1_roundtrip(c2);
}

/// The structured form of `ctx_1`, announced by the server and checked by
/// the client.
#[derive(Clone, Debug)]
pub struct Ctx1 {
    pub alg_id: u16,
    pub param_id: u8,
    pub epoch: u32,
    pub counter: u32,
    pub policy_hash: [u8; 32],
    pub variant: u8,
    pub pq_public_key: Vec<u8>,
    /// ECDH share for variant A2.  Empty for A1.
    pub ecdh_share: Vec<u8>,
}

impl View for Ctx1 {
    type V = Ctx1Model;

    open spec fn view(&self) -> Ctx1Model {
        Ctx1Model {
            alg_id: self.alg_id,
            param_id: self.param_id,
            epoch: self.epoch,
            counter: self.counter,
            policy_hash: self.policy_hash@,
            variant: self.variant,
            pq_public_key: self.pq_public_key@,
            ecdh_share: self.ecdh_share@,
        }
    }
}

impl Ctx1 {
    /// Whether both variable fields fit their 16-bit length prefix.
    pub open spec fn wf(&self) -> bool {
        ctx1_wf(self@)
    }

    /// The canonical injective encoding.
    pub fn encode(&self) -> (out: Vec<u8>)
        requires
            self.wf(),
        ensures
            out@ == ctx1_bytes(self@),
    {
        let mut out: Vec<u8> = Vec::new();
        push_u16(&mut out, self.alg_id);
        out.push(self.param_id);
        push_u32(&mut out, self.epoch);
        push_u32(&mut out, self.counter);
        push_all(&mut out, self.policy_hash.as_slice());
        out.push(self.variant);
        push_lp16(&mut out, self.pq_public_key.as_slice());
        push_lp16(&mut out, self.ecdh_share.as_slice());
        assert(out@ =~= ctx1_bytes(self@));
        out
    }

    /// Decodes `ctx_1`; refuses anything that is not exactly the encoding
    /// of a value.
    pub fn decode(bytes: &[u8]) -> (res: Result<Self>)
        ensures
            res matches Ok(c) ==> ctx1_parse(bytes@) == Some(c@) && c.wf() && ctx1_bytes(c@) == bytes@,
            res is Err ==> ctx1_parse(bytes@) is None && res == Err::<Self, MarkXError>(
                MarkXError::MalformedMessage,
            ),
            (exists|c: Ctx1Model| ctx1_wf(c) && ctx1_bytes(c) == bytes@) <==> res is Ok,
    {
        let res = Self::decode_fields(bytes);
        proof {
            if ctx1_parse(bytes@) is Some {
                lemma_ctx1_canonical(bytes@);
            }
            if exists|c: Ctx1Model| ctx1_wf(c) && ctx1_bytes(c) == bytes@ {
                let c = choose|c: Ctx1Model| ctx1_wf(c) && ctx1_bytes(c) == bytes@;
                lemma_ctx1_roundtrip(c);
            }
        }
        res
    }

    fn decode_fields(bytes: &[u8]) -> (res: Result<Self>)
        ensures
            res matches Ok(c) ==> ctx1_parse(bytes@) == Some(c@),
            res is Err ==> ctx1_parse(bytes@) is None && res == Err::<Self, MarkXError>(
                MarkXError::MalformedMessage,
            ),
    {
        let ghost b = bytes@;
        let mut r = Reader::new(bytes);
        let alg_id = r.read_u16()?;
        let param_id = r.read_u8()?;
        let epoch = r.read_u32()?;
        let counter = r.read_u32()?;
        let ph = r.read_fixed(32)?;
        let policy_hash = array32_from(ph);
        let variant = r.read_u8()?;
        assert(r.pos == 44);
        let pk = r.read_lp16()?;
        let pq_public_key = slice_to_vec(pk);
        let ghost n = u16_at(b, 44) as int;
        assert(r.pos == 46 + n);
        let ecdh = r.read_lp16()?;
        let ecdh_share = slice_to_vec(ecdh);
        let ghost m = u16_at(b, 46 + n) as int;
        r.finish()?;
        let c = Ctx1 { alg_id, param_id, epoch, counter, policy_hash, variant, pq_public_key, ecdh_share };
        assert(c@ == ctx1_parse(b).unwrap());
        Ok(c)
    }
}

} // verus!

//! Persistent monotonic migration state.
//!
//! The state is stored as a byte image (a file in a deployment, see the
//! application crate) carrying a CRC-32 over its contents.  `commit`
//! refuses any state that does not strictly exceed the stored one in the
//! lexicographic order of `(epoch, counter)`.

use vstd::prelude::*;
use vstd::slice::slice_to_vec;
use crate::bytes::{be32, u32_at, lemma_be32_roundtrip, lemma_be32_of_u32_at, push_u32, push_all};
use crate::error::{MarkXError, Result};

verus! {

// ---------------------------------------------------------------- CRC-32 (IEEE)

/// One shift of the reflected CRC-32 register.
pub open spec fn crc_step(c: u32) -> u32 {
    if c & 1 == 1 {
        (c >> 1) ^ 0xEDB8_8320u32
    } else {
        c >> 1
    }
}

/// `n` shifts of the register.
pub open spec fn crc_steps(c: u32, n: nat) -> u32
    decreases n,
{
    if n == 0 {
        c
    } else {
        crc_step(crc_steps(c, (n - 1) as nat))
    }
}

/// The register after all of `s` has been fed in.
pub open spec fn crc_register(s: Seq<u8>) -> u32
    decreases s.len(),
{
    if s.len() == 0 {
        0xFFFF_FFFFu32
    } else {
        crc_steps(crc_register(s.drop_last()) ^ (s.last() as u32), 8)
    }
}

/// CRC-32 (IEEE 802.3, reflected, polynomial 0xEDB88320) of `s`.
pub open spec fn crc32(s: Seq<u8>) -> u32 {
    !crc_register(s)
}

/// CRC-32 (IEEE) of `data`.
pub fn crc32_ieee(data: &[u8]) -> (crc: u32)
    ensures
        crc == crc32(data@),
{
    let mut crc: u32 = 0xFFFF_FFFF;
    let mut i: usize = 0;
    while i < data.len()
        invariant
            i <= data@.len(),
            crc == crc_register(data@.subrange(0, i as int)),
        decreases data@.len() - i,
    {
        assert(data@.subrange(0, i + 1).drop_last() =~= data@.subrange(0, i as int));
        let ghost start = crc ^ (data@[i as int] as u32);
        crc = crc ^ (data[i] as u32);
        let mut j: usize = 0;
        while j < 8
            invariant
                j <= 8,
                crc == crc_steps(start, j as nat),
            decreases 8 - j,
        {
            crc = if crc & 1 == 1 {
                (crc >> 1) ^ 0xEDB8_8320u32
            } else {
                crc >> 1
            };
            j = j + 1;
        }
        i = i + 1;
    }
    assert(data@.subrange(0, i as int) =~= data@);
    !crc
}

// ---------------------------------------------------------------- the state

/// Abstract value of a migration state.
pub ghost struct StateModel {
    pub epoch: u32,
    pub counter: u32,
    pub pk_pq: Seq<u8>,
    pub k_chain: Seq<u8>,
}

/// The initial state: epoch and counter 0, no keys.
pub open spec fn fresh_state() -> StateModel {
    StateModel { epoch: 0, counter: 0, pk_pq: Seq::empty(), k_chain: Seq::empty() }
}

/// `(e, c)` strictly exceeds the state's `(epoch, counter)`
/// lexicographically.
pub open spec fn advances(s: StateModel, e: u32, c: u32) -> bool {
    e > s.epoch || (e == s.epoch && c > s.counter)
}

/// States whose variable fields fit their 32-bit length prefix.
pub open spec fn state_wf(s: StateModel) -> bool {
    s.pk_pq.len() <= u32::MAX && s.k_chain.len() <= u32::MAX
}

/// The stored body: epoch, counter, then the two length-prefixed keys.
pub open spec fn state_body(s: StateModel) -> Seq<u8> {
    be32(s.epoch) + be32(s.counter) + be32(s.pk_pq.len() as u32) + s.pk_pq + be32(
        s.k_chain.len() as u32,
    ) + s.k_chain
}

/// The stored image: the body followed by its CRC-32.
pub open spec fn state_bytes(s: StateModel) -> Seq<u8> {
    state_body(s) + be32(crc32(state_body(s)))
}

/// Reading a stored image back: the CRC is checked first, then the layout;
/// each refusal carries its own message.
pub open spec fn state_parse(b: Seq<u8>) -> core::result::Result<StateModel, Seq<char>> {
    if b.len() < 20 {
        Err("state file too short"@)
    } else {
        let body = b.subrange(0, b.len() - 4);
        if crc32(body) != u32_at(b, b.len() - 4) {
            Err("state CRC mismatch"@)
        } else {
            let pl = u32_at(body, 8) as int;
            if 12 + pl > body.len() {
                Err("pk_pq truncated"@)
            } else if 16 + pl > body.len() {
                Err("truncated state"@)
            } else {
                let kl = u32_at(body, 12 + pl) as int;
                if 16 + pl + kl > body.len() {
                    Err("k_chain truncated"@)
                } else if 16 + pl + kl != body.len() {
                    Err("trailing bytes in state"@)
                } else {
                    Ok(
                        StateModel {
                            epoch: u32_at(body, 0),
                            counter: u32_at(body, 4),
                            pk_pq: body.subrange(12, 12 + pl),
                            k_chain: body.subrange(16 + pl, 16 + pl + kl),
                        },
                    )
                }
            }
        }
    }
}

/// Reading back the image of a state gives the state.
pub proof fn lemma_state_roundtrip(s: StateModel)
    requires
        state_wf(s),
    ensures
        state_parse(state_bytes(s)) == Ok::<StateModel, Seq<char>>(s),
{
    let body = state_body(s);
    let b = state_bytes(s);
    let pl = s.pk_pq.len() as int;
    let kl = s.k_chain.len() as int;
    lemma_be32_roundtrip(s.epoch);
    lemma_be32_roundtrip(s.counter);
    lemma_be32_roundtrip(pl as u32);
    lemma_be32_roundtrip(kl as u32);
    lemma_be32_roundtrip(crc32(body));
    assert(b.subrange(0, b.len() - 4) =~= body);
    assert(u32_at(b, b.len() - 4) == u32_at(be32(crc32(body)), 0));
    assert(u32_at(body, 0) == u32_at(be32(s.epoch), 0));
    assert(u32_at(body, 4) == u32_at(be32(s.counter), 0));
    assert(u32_at(body, 8) == u32_at(be32(pl as u32), 0));
    assert(u32_at(body, 12 + pl) == u32_at(be32(kl as u32), 0));
    assert(body.subrange(12, 12 + pl) =~= s.pk_pq);
    assert(body.subrange(16 + pl, 16 + pl + kl) =~= s.k_chain);
}

/// An image that reads back as a state is the image of that state.
pub proof fn lemma_state_canonical(b: Seq<u8>)
    requires
        state_parse(b) is Ok,
    ensures
        state_wf(state_parse(b)->Ok_0),
        state_bytes(state_parse(b)->Ok_0) == b,
{
    let s = state_parse(b)->Ok_0;
    let body = b.subrange(0, b.len() - 4);
    let pl = u32_at(body, 8) as int;
    let kl = u32_at(body, 12 + pl) as int;
    lemma_be32_of_u32_at(body, 0);
    lemma_be32_of_u32_at(body, 4);
    lemma_be32_of_u32_at(body, 8);
    lemma_be32_of_u32_at(body, 12 + pl);
    lemma_be32_of_u32_at(b, b.len() - 4);
    assert(body =~= body.subrange(0, 4) + body.subrange(4, 8) + body.subrange(8, 12) + body.subrange(
        12,
        12 + pl,
    ) + body.subrange(12 + pl, 16 + pl) + body.subrange(16 + pl, 16 + pl + kl));
    assert(state_body(s) =~= body);
    assert(b =~= body + b.subrange(b.len() - 4, b.len() as int));
}

/// A party's migration state.
#[derive(Clone, Debug, PartialEq, Eq)]
pub struct MigrationState {
    pub epoch_accepted: u32,
    pub counter_current: u32,
    /// Active PQ public key for this party (encoded form).  Empty in the
    /// initial state.
    pub pk_pq_active: Vec<u8>,
    /// Active chaining key (32 bytes when populated).  Empty before the
    /// first migration.
    pub k_chain_active: Vec<u8>,
}

impl View for MigrationState {
    type V = StateModel;

    open spec fn view(&self) -> StateModel {
        StateModel {
            epoch: self.epoch_accepted,
            counter: self.counter_current,
            pk_pq: self.pk_pq_active@,
            k_chain: self.k_chain_active@,
        }
    }
}

impl MigrationState {
    /// The initial state.
    pub fn fresh() -> (s: Self)
        ensures
            s@ == fresh_state(),
    {
        let s = MigrationState {
            epoch_accepted: 0,
            counter_current: 0,
            pk_pq_active: Vec::new(),
            k_chain_active: Vec::new(),
        };
        assert(s@ =~= fresh_state());
        s
    }

    /// Whether `(e, c)` strictly exceeds this state lexicographically.
    pub fn would_advance(&self, e: u32, c: u32) -> (b: bool)
        ensures
            b == advances(self@, e, c),
    {
        e > self.epoch_accepted || (e == self.epoch_accepted && c > self.counter_current)
    }
}

/// The stored image of a state.
///
/// ```text
/// u32  epoch_accepted
/// u32  counter_current
/// u32  len(pk_pq_active)
/// [u8] pk_pq_active
/// u32  len(k_chain_active)
/// [u8] k_chain_active
/// u32  CRC32 over the above
/// ```
pub fn encode(s: &MigrationState) -> (out: Vec<u8>)
    ensures
        out@ == state_bytes(s@),
{
    let mut out: Vec<u8> = Vec::new();
    push_u32(&mut out, s.epoch_accepted);
    push_u32(&mut out, s.counter_current);
    push_u32(&mut out, s.pk_pq_active.len() as u32);
    push_all(&mut out, s.pk_pq_active.as_slice());
    push_u32(&mut out, s.k_chain_active.len() as u32);
    push_all(&mut out, s.k_chain_active.as_slice());
    assert(out@ =~= state_body(s@));
    let crc = crc32_ieee(out.as_slice());
    push_u32(&mut out, crc);
    out
}

/// Whether an error is the storage error with the given message.
pub open spec fn is_storage_error(e: MarkXError, msg: Seq<char>) -> bool {
    e matches MarkXError::StorageError(t) && t@ == msg
}

/// Reads a stored image back.
pub fn decode(bytes: &[u8]) -> (res: Result<MigrationState>)
    ensures
        res matches Ok(s) ==> state_parse(bytes@) == Ok::<StateModel, Seq<char>>(s@),
        res matches Err(e) ==> state_parse(bytes@) is Err && is_storage_error(e, state_parse(bytes@)->Err_0),
{
    let ghost b = bytes@;
    if bytes.len() < 4 + 4 + 4 + 4 + 4 {
        return Err(MarkXError::StorageError("state file too short".to_owned()));
    }
    let crc_offset = bytes.len() - 4;
    let body = vstd::slice::slice_subrange(bytes, 0, crc_offset);
    let expected_crc = (bytes[crc_offset] as u32) * 0x100_0000 + (bytes[crc_offset + 1] as u32)
        * 0x1_0000 + (bytes[crc_offset + 2] as u32) * 256 + (bytes[crc_offset + 3] as u32);
    if crc32_ieee(body) != expected_crc {
        return Err(MarkXError::StorageError("state CRC mismatch".to_owned()));
    }
    let epoch_accepted = read_be32(body, 0);
    let counter_current = read_be32(body, 4);
    let pk_len = read_be32(body, 8) as usize;
    let p: usize = 12;
    if pk_len > body.len() - p {
        return Err(MarkXError::StorageError("pk_pq truncated".to_owned()));
    }
    let pk_pq_active = slice_to_vec(vstd::slice::slice_subrange(body, p, p + pk_len));
    let p = p + pk_len;
    if body.len() - p < 4 {
        return Err(MarkXError::StorageError("truncated state".to_owned()));
    }
    let kc_len = read_be32(body, p) as usize;
    let p = p + 4;
    if kc_len > body.len() - p {
        return Err(MarkXError::StorageError("k_chain truncated".to_owned()));
    }
    let k_chain_active = slice_to_vec(vstd::slice::slice_subrange(body, p, p + kc_len));
    let p = p + kc_len;
    if p != body.len() {
        return Err(MarkXError::StorageError("trailing bytes in state".to_owned()));
    }
    let s = MigrationState { epoch_accepted, counter_current, pk_pq_active, k_chain_active };
    assert(s@ == state_parse(b)->Ok_0);
    Ok(s)
}

fn read_be32(b: &[u8], p: usize) -> (v: u32)
    requires
        p + 4 <= b@.len(),
    ensures
        v == u32_at(b@, p as int),
{
    (b[p] as u32) * 0x100_0000 + (b[p + 1] as u32) * 0x1_0000 + (b[p + 2] as u32) * 256 + (b[p + 3] as u32)
}

// ---------------------------------------------------------------- the store

/// What loading a store gives: the fresh state where nothing is stored,
/// else the stored image read back.
pub open spec fn store_load(image: Option<Seq<u8>>) -> core::result::Result<StateModel, Seq<char>> {
    match image {
        None => Ok(fresh_state()),
        Some(b) => state_parse(b),
    }
}

/// Monotonic state store over a byte image; the image is what a deployment
/// persists (a file, an NV counter region).
pub struct StateStore {
    image: Option<Vec<u8>>,
}

impl View for StateStore {
    type V = Option<Seq<u8>>;

    closed spec fn view(&self) -> Option<Seq<u8>> {
        match self.image {
            None => None,
            Some(v) => Some(v@),
        }
    }
}

impl StateStore {
    /// A store over `image`: the persisted bytes, or `None` where nothing has
    /// been persisted yet.
    pub fn new(image: Option<Vec<u8>>) -> (st: Self)
        ensures
            st@ == (match image {
                None => None,
                Some(v) => Some(v@),
            }),
    {
        StateStore { image }
    }

    /// The bytes to persist.
    pub fn image(&self) -> (out: Option<&[u8]>)
        ensures
            self@ == (match out {
                None => None,
                Some(v) => Some(v@),
            }),
    {
        match &self.image {
            None => None,
            Some(v) => Some(v.as_slice()),
        }
    }

    /// The current state: fresh if nothing is stored, else the stored image
    /// read back.
    pub fn load(&self) -> (res: Result<MigrationState>)
        ensures
            res matches Ok(s) ==> store_load(self@) == Ok::<StateModel, Seq<char>>(s@),
            res matches Err(e) ==> store_load(self@) is Err && is_storage_error(e, store_load(self@)->Err_0),
    {
        match &self.image {
            None => Ok(MigrationState::fresh()),
            Some(b) => decode(b.as_slice()),
        }
    }

    /// Commits a new state.  Refused with `EpochRollback`, leaving the store
    /// as it was, unless the new `(epoch, counter)` strictly exceeds the
    /// stored one; a stored image that does not read back is a storage
    /// error.
    pub fn commit(&mut self, new_state: &MigrationState) -> (res: Result<()>)
        ensures
            match store_load(old(self)@) {
                Err(msg) => res matches Err(e) && is_storage_error(e, msg) && final(self)@ == old(self)@,
                Ok(cur) => if advances(cur, new_state.epoch_accepted, new_state.counter_current) {
                    res is Ok && final(self)@ == Some(state_bytes(new_state@))
                } else {
                    res == Err::<(), MarkXError>(MarkXError::EpochRollback) && final(self)@ == old(self)@
                },
            },
    {
        let current = self.load()?;
        if !current.would_advance(new_state.epoch_accepted, new_state.counter_current) {
            return Err(MarkXError::EpochRollback);
        }
        let bytes = encode(new_state);
        self.image = Some(bytes);
        Ok(())
    }
}

/// What a read gives back of a write: after a successful commit of a state,
/// loading gives that state back.
pub proof fn lemma_load_after_commit(s: StateModel)
    requires
        state_wf(s),
    ensures
        store_load(Some(state_bytes(s))) == Ok::<StateModel, Seq<char>>(s),
{
    lemma_state_roundtrip(s);
}

/// Monotonicity across commits: each successful commit strictly advances
/// `(epoch, counter)`, so a chain of commits is strictly increasing and a
/// stale or equal state is never stored again.
pub proof fn lemma_commit_strictly_increases(a: StateModel, b: StateModel, c: StateModel)
    requires
        advances(a, b.epoch, b.counter),
        advances(b, c.epoch, c.counter),
    ensures
        advances(a, c.epoch, c.counter),
        !advances(c, a.epoch, a.counter),
        !advances(b, b.epoch, b.counter),
{
}

} // verus!

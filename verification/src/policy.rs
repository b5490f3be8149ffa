//! The trusted local migration policy and its acceptance check.
//!
//! * `policy_hash` is computed over a canonical encoding: the allow-lists
//!   are encoded as sorted sets, so two policies that allow the same
//!   things hash alike, whatever the order or repetition of their lists.
//! * Each announced field is re-checked against its allow-list.
//! * The announced epoch must reach the policy's floor.

pub mod alg_id;
pub mod param_id;
pub mod variant;

use vstd::prelude::*;
use crate::bytes::{be16, be32, u32_at, push_u16, push_u32};
use crate::crypto::{sha256, spec_sha256};
use crate::error::{MarkXError, Result};

verus! {

broadcast use vstd::seq_lib::group_seq_properties;

// ---------------------------------------------------------------- sorted sets of keys

/// Strictly increasing: sorted without repetition.
pub open spec fn strictly_sorted(r: Seq<u32>) -> bool {
    forall|i: int, j: int| 0 <= i < j < r.len() ==> r[i] < r[j]
}

/// The elements of a finite set of keys, in increasing order.
pub open spec fn sorted_elements(s: Set<u32>) -> Seq<u32> {
    choose|r: Seq<u32>| strictly_sorted(r) && r.to_set() == s
}

/// A strictly increasing sequence is determined by its set of elements.
pub proof fn lemma_sorted_unique(a: Seq<u32>, b: Seq<u32>)
    requires
        strictly_sorted(a),
        strictly_sorted(b),
        a.to_set() == b.to_set(),
    ensures
        a == b,
    decreases a.len(),
{
    if a.len() == 0 {
        if b.len() > 0 {
            assert(b.to_set().contains(b[0]));
            assert(!a.contains(b[0]));
        }
        assert(a =~= b);
    } else {
        assert(a.to_set().contains(a[0]));
        assert(b.len() > 0) by {
            if b.len() == 0 {
                assert(b.to_set().contains(a[0]));
            }
        }
        assert(b.to_set().contains(a[0]));
        assert(a.to_set().contains(b[0]));
        let j = choose|j: int| 0 <= j < b.len() && b[j] == a[0];
        let i = choose|i: int| 0 <= i < a.len() && a[i] == b[0];
        assert(a[0] == b[0]);
        let a1 = a.drop_first();
        let b1 = b.drop_first();
        assert forall|x: u32| a1.to_set().contains(x) <==> b1.to_set().contains(x) by {
            if a1.to_set().contains(x) {
                let k = choose|k: int| 0 <= k < a1.len() && a1[k] == x;
                assert(a[k + 1] == x);
                assert(x != a[0]);
                assert(a.to_set().contains(x));
                assert(b.to_set().contains(x));
                let m = choose|m: int| 0 <= m < b.len() && b[m] == x;
                assert(m != 0);
                assert(b1[m - 1] == x);
            }
            if b1.to_set().contains(x) {
                let k = choose|k: int| 0 <= k < b1.len() && b1[k] == x;
                assert(b[k + 1] == x);
                assert(x != b[0]);
                assert(b.to_set().contains(x));
                assert(a.to_set().contains(x));
                let m = choose|m: int| 0 <= m < a.len() && a[m] == x;
                assert(m != 0);
                assert(a1[m - 1] == x);
            }
        }
        assert(a1.to_set() =~= b1.to_set());
        lemma_sorted_unique(a1, b1);
        assert(a =~= seq![a[0]] + a1);
        assert(b =~= seq![b[0]] + b1);
    }
}

/// Inserts `x` into a strictly increasing vector, unless it is there.
fn insert_sorted(v: &mut Vec<u32>, x: u32)
    requires
        strictly_sorted(old(v)@),
    ensures
        strictly_sorted(final(v)@),
        final(v)@.to_set() == old(v)@.to_set().insert(x),
        forall|k: int| 0 <= k < final(v)@.len() ==> final(v)@[k] == x || old(v)@.contains(final(v)@[k]),
{
    let mut i: usize = 0;
    while i < v.len() && v[i] < x
        invariant
            i <= v@.len(),
            forall|k: int| 0 <= k < i ==> v@[k] < x,
        decreases v@.len() - i,
    {
        i = i + 1;
    }
    if i < v.len() && v[i] == x {
        assert(v@.to_set().contains(x));
        assert(v@.to_set().insert(x) =~= v@.to_set());
        return;
    }
    let ghost old_v = v@;
    v.insert(i, x);
    assert(v@ =~= old_v.subrange(0, i as int) + seq![x] + old_v.subrange(i as int, old_v.len() as int));
    assert forall|y: u32| v@.to_set().contains(y) <==> old_v.to_set().insert(x).contains(y) by {
        if v@.to_set().contains(y) {
            let k = choose|k: int| 0 <= k < v@.len() && v@[k] == y;
            if k < i {
                assert(old_v[k] == y);
            } else if k > i {
                assert(old_v[k - 1] == y);
            }
        }
        if old_v.to_set().insert(x).contains(y) && y != x {
            let k = choose|k: int| 0 <= k < old_v.len() && old_v[k] == y;
            if k < i {
                assert(v@[k] == y);
            } else {
                assert(v@[k + 1] == y);
            }
        }
        if y == x {
            assert(v@[i as int] == x);
        }
    }
    assert(v@.to_set() =~= old_v.to_set().insert(x));
}

/// Keys of allowed algorithms.
pub open spec fn alg_keys(s: Seq<u16>) -> Seq<u32> {
    s.map_values(|a: u16| a as u32)
}

/// Key of an `(alg_id, param_id)` pair; orders pairs lexicographically.
pub open spec fn param_key(p: (u16, u8)) -> u32 {
    (p.0 as int * 256 + p.1 as int) as u32
}

/// Keys of allowed parameter sets.
pub open spec fn param_keys(s: Seq<(u16, u8)>) -> Seq<u32> {
    s.map_values(|p: (u16, u8)| param_key(p))
}

/// Keys of allowed variants.
pub open spec fn variant_keys(s: Seq<u8>) -> Seq<u32> {
    s.map_values(|v: u8| v as u32)
}

/// Sorted distinct keys of `s`.
fn sorted_alg_keys(s: &Vec<u16>) -> (r: Vec<u32>)
    ensures
        strictly_sorted(r@),
        r@.to_set() == alg_keys(s@).to_set(),
        forall|k: int| 0 <= k < r@.len() ==> r@[k] <= u16::MAX,
{
    let mut r: Vec<u32> = Vec::new();
    let mut i: usize = 0;
    while i < s.len()
        invariant
            i <= s@.len(),
            strictly_sorted(r@),
            forall|k: int| 0 <= k < r@.len() ==> r@[k] <= u16::MAX,
            r@.to_set() == alg_keys(s@.subrange(0, i as int)).to_set(),
        decreases s@.len() - i,
    {
        insert_sorted(&mut r, s[i] as u32);
        assert(alg_keys(s@.subrange(0, i + 1)) =~= alg_keys(s@.subrange(0, i as int)).push(s@[i as int] as u32));
        i = i + 1;
    }
    assert(s@.subrange(0, i as int) =~= s@);
    r
}

/// Sorted distinct keys of `s`.
fn sorted_param_keys(s: &Vec<(u16, u8)>) -> (r: Vec<u32>)
    ensures
        strictly_sorted(r@),
        r@.to_set() == param_keys(s@).to_set(),
        forall|k: int| 0 <= k < r@.len() ==> r@[k] <= 0xff_ffff,
{
    let mut r: Vec<u32> = Vec::new();
    let mut i: usize = 0;
    while i < s.len()
        invariant
            i <= s@.len(),
            strictly_sorted(r@),
            forall|k: int| 0 <= k < r@.len() ==> r@[k] <= 0xff_ffff,
            r@.to_set() == param_keys(s@.subrange(0, i as int)).to_set(),
        decreases s@.len() - i,
    {
        let (a, p) = s[i];
        insert_sorted(&mut r, (a as u32) * 256 + (p as u32));
        assert(param_keys(s@.subrange(0, i + 1)) =~= param_keys(s@.subrange(0, i as int)).push(
            param_key(s@[i as int]),
        ));
        i = i + 1;
    }
    assert(s@.subrange(0, i as int) =~= s@);
    r
}

/// Sorted distinct keys of `s`.
fn sorted_variant_keys(s: &Vec<u8>) -> (r: Vec<u32>)
    ensures
        strictly_sorted(r@),
        r@.to_set() == variant_keys(s@).to_set(),
        forall|k: int| 0 <= k < r@.len() ==> r@[k] <= u8::MAX,
{
    let mut r: Vec<u32> = Vec::new();
    let mut i: usize = 0;
    while i < s.len()
        invariant
            i <= s@.len(),
            strictly_sorted(r@),
            forall|k: int| 0 <= k < r@.len() ==> r@[k] <= u8::MAX,
            r@.to_set() == variant_keys(s@.subrange(0, i as int)).to_set(),
        decreases s@.len() - i,
    {
        insert_sorted(&mut r, s[i] as u32);
        assert(variant_keys(s@.subrange(0, i + 1)) =~= variant_keys(s@.subrange(0, i as int)).push(
            s@[i as int] as u32,
        ));
        i = i + 1;
    }
    assert(s@.subrange(0, i as int) =~= s@);
    r
}

// ---------------------------------------------------------------- canonical encoding

/// Algorithm ids, each as two big-endian bytes.
pub open spec fn enc_algs(r: Seq<u32>) -> Seq<u8>
    decreases r.len(),
{
    if r.len() == 0 {
        Seq::empty()
    } else {
        enc_algs(r.drop_last()) + be16(r.last() as u16)
    }
}

/// Parameter-set pairs, each as a big-endian algorithm id and a byte.
pub open spec fn enc_params(r: Seq<u32>) -> Seq<u8>
    decreases r.len(),
{
    if r.len() == 0 {
        Seq::empty()
    } else {
        enc_params(r.drop_last()) + be16((r.last() / 256) as u16) + seq![(r.last() % 256) as u8]
    }
}

/// Variants, one byte each.
pub open spec fn enc_variants(r: Seq<u32>) -> Seq<u8>
    decreases r.len(),
{
    if r.len() == 0 {
        Seq::empty()
    } else {
        enc_variants(r.drop_last()) + seq![r.last() as u8]
    }
}

/// Abstract value of a policy.
pub ghost struct PolicyModel {
    pub algs: Seq<u16>,
    pub params: Seq<(u16, u8)>,
    pub variants: Seq<u8>,
    pub min_epoch: u32,
    pub modes: u8,
}

/// The canonical encoding of a policy: each allow-list as the count and
/// the sorted distinct entries, then the epoch floor and the mode mask.
pub open spec fn policy_canonical_bytes(p: PolicyModel) -> Seq<u8> {
    let a = sorted_elements(alg_keys(p.algs).to_set());
    let q = sorted_elements(param_keys(p.params).to_set());
    let v = sorted_elements(variant_keys(p.variants).to_set());
    be32(a.len() as u32) + enc_algs(a) + be32(q.len() as u32) + enc_params(q) + be32(v.len() as u32)
        + enc_variants(v) + be32(p.min_epoch) + seq![p.modes]
}

/// `policy_hash`: SHA-256 of the canonical encoding.
pub open spec fn policy_hash(p: PolicyModel) -> Seq<u8> {
    spec_sha256(policy_canonical_bytes(p))@
}

/// The acceptance check against announced fields.
pub open spec fn policy_accepts(p: PolicyModel, alg: u16, param: u8, var: u8, epoch: u32) -> Result<()> {
    if !p.algs.contains(alg) {
        Err(MarkXError::AlgorithmNotAllowed)
    } else if !p.params.contains((alg, param)) {
        Err(MarkXError::AlgorithmNotAllowed)
    } else if !p.variants.contains(var) {
        Err(MarkXError::AlgorithmNotAllowed)
    } else if epoch < p.min_epoch {
        Err(MarkXError::EpochRollback)
    } else {
        Ok(())
    }
}

/// The policy hash is SHA-256 of exactly the canonical encoding, epoch floor
/// included: policies whose floors differ have different encodings, so the
/// hash a client compares is taken over different inputs.
pub proof fn lemma_policy_hash_covers_encoding(p1: PolicyModel, p2: PolicyModel)
    ensures
        policy_hash(p1) == spec_sha256(policy_canonical_bytes(p1))@,
        policy_hash(p2) == spec_sha256(policy_canonical_bytes(p2))@,
        p1.min_epoch != p2.min_epoch ==> policy_canonical_bytes(p1) != policy_canonical_bytes(p2),
        p1.modes != p2.modes ==> policy_canonical_bytes(p1) != policy_canonical_bytes(p2),
{
    if policy_canonical_bytes(p1) == policy_canonical_bytes(p2) {
        lemma_canonical_encoding_injective(p1, p2);
    }
}

/// Acceptance is exactly membership of the announced algorithm, of the
/// announced `(alg_id, param_id)` pair itself, and of the variant, with the
/// epoch at or above the floor.  A known algorithm with a parameter set that
/// is allowed only for another algorithm is refused as not allowed; a
/// refused epoch is reported as a rollback.
pub proof fn lemma_policy_accepts_exactly(p: PolicyModel, alg: u16, param: u8, var: u8, epoch: u32)
    ensures
        policy_accepts(p, alg, param, var, epoch) is Ok <==> {
            &&& p.algs.contains(alg)
            &&& p.params.contains((alg, param))
            &&& p.variants.contains(var)
            &&& p.min_epoch <= epoch
        },
        p.algs.contains(alg) && !p.params.contains((alg, param)) ==> policy_accepts(p, alg, param, var, epoch)
            == Err::<(), MarkXError>(MarkXError::AlgorithmNotAllowed),
        (forall|x: u16| p.params.contains((x, param)) ==> x != alg) ==> policy_accepts(p, alg, param, var, epoch)
            is Err,
        policy_accepts(p, alg, param, var, epoch) matches Err(e) ==> (e == MarkXError::AlgorithmNotAllowed
            || e == MarkXError::EpochRollback),
        policy_accepts(p, alg, param, var, epoch) == Err::<(), MarkXError>(MarkXError::EpochRollback) <==> {
            &&& p.algs.contains(alg)
            &&& p.params.contains((alg, param))
            &&& p.variants.contains(var)
            &&& epoch < p.min_epoch
        },
{
}

/// Canonical encoding is stable: two policies that allow the same sets of
/// algorithms, parameter sets and variants, with the same epoch floor and
/// modes, have the same canonical encoding and so the same hash, whatever
/// the order or repetition of their lists.
pub proof fn lemma_canonical_encoding_stable(p1: PolicyModel, p2: PolicyModel)
    requires
        p1.algs.to_set() == p2.algs.to_set(),
        p1.params.to_set() == p2.params.to_set(),
        p1.variants.to_set() == p2.variants.to_set(),
        p1.min_epoch == p2.min_epoch,
        p1.modes == p2.modes,
    ensures
        policy_canonical_bytes(p1) == policy_canonical_bytes(p2),
        policy_hash(p1) == policy_hash(p2),
{
    p1.algs.lemma_to_set_map_commutes(|a: u16| a as u32);
    p2.algs.lemma_to_set_map_commutes(|a: u16| a as u32);
    p1.params.lemma_to_set_map_commutes(|p: (u16, u8)| param_key(p));
    p2.params.lemma_to_set_map_commutes(|p: (u16, u8)| param_key(p));
    p1.variants.lemma_to_set_map_commutes(|v: u8| v as u32);
    p2.variants.lemma_to_set_map_commutes(|v: u8| v as u32);
}

// ---------------------------------------------------------------- sorted sets exist

/// Where `x` goes in a strictly increasing sequence: the number of elements
/// below it.
pub open spec fn insert_pos(r: Seq<u32>, x: u32) -> int
    decreases r.len(),
{
    if r.len() == 0 || r[0] >= x {
        0
    } else {
        1 + insert_pos(r.drop_first(), x)
    }
}

/// `r` with `x` inserted in order, unless it is there.
pub open spec fn sorted_insert(r: Seq<u32>, x: u32) -> Seq<u32> {
    let i = insert_pos(r, x);
    if i < r.len() && r[i] == x {
        r
    } else {
        r.subrange(0, i) + seq![x] + r.subrange(i, r.len() as int)
    }
}

proof fn lemma_insert_pos(r: Seq<u32>, x: u32)
    requires
        strictly_sorted(r),
    ensures
        0 <= insert_pos(r, x) <= r.len(),
        forall|k: int| 0 <= k < insert_pos(r, x) ==> r[k] < x,
        insert_pos(r, x) < r.len() ==> r[insert_pos(r, x)] >= x,
    decreases r.len(),
{
    if r.len() == 0 || r[0] >= x {
    } else {
        let t = r.drop_first();
        lemma_insert_pos(t, x);
        assert forall|k: int| 0 <= k < insert_pos(r, x) implies r[k] < x by {
            if k > 0 {
                assert(r[k] == t[k - 1]);
            }
        }
    }
}

proof fn lemma_sorted_insert(r: Seq<u32>, x: u32)
    requires
        strictly_sorted(r),
    ensures
        strictly_sorted(sorted_insert(r, x)),
        sorted_insert(r, x).to_set() == r.to_set().insert(x),
{
    lemma_insert_pos(r, x);
    let i = insert_pos(r, x);
    let v = sorted_insert(r, x);
    if i < r.len() && r[i] == x {
        assert(r.to_set().contains(x));
        assert(r.to_set().insert(x) =~= r.to_set());
    } else {
        assert(v.len() == r.len() + 1);
        assert forall|k: int| 0 <= k < v.len() implies v[k] == (if k < i {
            r[k]
        } else if k == i {
            x
        } else {
            r[k - 1]
        }) by {}
        assert forall|y: u32| v.to_set().contains(y) <==> r.to_set().insert(x).contains(y) by {
            if v.to_set().contains(y) {
                let k = choose|k: int| 0 <= k < v.len() && v[k] == y;
                if k < i {
                    assert(r[k] == y);
                } else if k > i {
                    assert(r[k - 1] == y);
                }
            }
            if r.to_set().insert(x).contains(y) && y != x {
                let k = choose|k: int| 0 <= k < r.len() && r[k] == y;
                if k < i {
                    assert(v[k] == y);
                } else {
                    assert(v[k + 1] == y);
                }
            }
            if y == x {
                assert(v[i] == x);
            }
        }
        assert(v.to_set() =~= r.to_set().insert(x));
    }
}

/// Every finite sequence of keys has its sorted, repetition-free form, so
/// `sorted_elements` of its set is that form.
pub proof fn lemma_sorted_elements(s: Seq<u32>)
    ensures
        strictly_sorted(sorted_elements(s.to_set())),
        sorted_elements(s.to_set()).to_set() == s.to_set(),
    decreases s.len(),
{
    if s.len() == 0 {
        let e = Seq::<u32>::empty();
        assert(e.to_set() =~= s.to_set());
        assert(strictly_sorted(e) && e.to_set() == s.to_set());
    } else {
        let t = s.drop_last();
        lemma_sorted_elements(t);
        let r = sorted_elements(t.to_set());
        lemma_sorted_insert(r, s.last());
        assert(s =~= t.push(s.last()));
        assert(s.to_set() =~= t.to_set().insert(s.last()));
        let w = sorted_insert(r, s.last());
        assert(strictly_sorted(w) && w.to_set() == s.to_set());
    }
}

// ---------------------------------------------------------------- the canonical encoding is injective

proof fn lemma_sorted_ge_index(r: Seq<u32>, i: int)
    requires
        strictly_sorted(r),
        0 <= i < r.len(),
    ensures
        r[i] >= i,
    decreases i,
{
    if i > 0 {
        lemma_sorted_ge_index(r, i - 1);
    }
}

/// A strictly increasing sequence of keys at most `m` has at most `m + 1`
/// elements.
proof fn lemma_sorted_len_bound(r: Seq<u32>, m: int)
    requires
        0 <= m,
        strictly_sorted(r),
        forall|k: int| 0 <= k < r.len() ==> r[k] <= m,
    ensures
        r.len() <= m + 1,
{
    if r.len() > 0 {
        let last: int = r.len() - 1;
        lemma_sorted_ge_index(r, last);
        assert(r[last] <= m);
        assert(last <= m);
    }
}

proof fn lemma_enc_algs_len(r: Seq<u32>)
    ensures
        enc_algs(r).len() == 2 * r.len(),
    decreases r.len(),
{
    if r.len() > 0 {
        lemma_enc_algs_len(r.drop_last());
    }
}

proof fn lemma_enc_params_len(r: Seq<u32>)
    ensures
        enc_params(r).len() == 3 * r.len(),
    decreases r.len(),
{
    if r.len() > 0 {
        lemma_enc_params_len(r.drop_last());
    }
}

proof fn lemma_enc_variants_len(r: Seq<u32>)
    ensures
        enc_variants(r).len() == r.len(),
    decreases r.len(),
{
    if r.len() > 0 {
        lemma_enc_variants_len(r.drop_last());
    }
}

proof fn lemma_enc_algs_injective(r1: Seq<u32>, r2: Seq<u32>)
    requires
        r1.len() == r2.len(),
        forall|k: int| 0 <= k < r1.len() ==> r1[k] <= 0xffff,
        forall|k: int| 0 <= k < r2.len() ==> r2[k] <= 0xffff,
        enc_algs(r1) == enc_algs(r2),
    ensures
        r1 == r2,
    decreases r1.len(),
{
    if r1.len() > 0 {
        let (t1, t2) = (r1.drop_last(), r2.drop_last());
        lemma_enc_algs_len(t1);
        lemma_enc_algs_len(t2);
        let e = enc_algs(r1);
        assert(enc_algs(t1) =~= e.subrange(0, e.len() - 2));
        assert(enc_algs(t2) =~= e.subrange(0, e.len() - 2));
        lemma_enc_algs_injective(t1, t2);
        assert(be16(r1.last() as u16) =~= e.subrange(e.len() - 2, e.len() as int));
        assert(be16(r2.last() as u16) =~= e.subrange(e.len() - 2, e.len() as int));
        crate::bytes::lemma_be16_roundtrip(r1.last() as u16);
        crate::bytes::lemma_be16_roundtrip(r2.last() as u16);
        assert(r1 =~= t1.push(r1.last()));
        assert(r2 =~= t2.push(r2.last()));
    } else {
        assert(r1 =~= r2);
    }
}

proof fn lemma_enc_params_injective(r1: Seq<u32>, r2: Seq<u32>)
    requires
        r1.len() == r2.len(),
        forall|k: int| 0 <= k < r1.len() ==> r1[k] <= 0xff_ffff,
        forall|k: int| 0 <= k < r2.len() ==> r2[k] <= 0xff_ffff,
        enc_params(r1) == enc_params(r2),
    ensures
        r1 == r2,
    decreases r1.len(),
{
    if r1.len() > 0 {
        let (t1, t2) = (r1.drop_last(), r2.drop_last());
        lemma_enc_params_len(t1);
        lemma_enc_params_len(t2);
        let e = enc_params(r1);
        assert(enc_params(t1) =~= e.subrange(0, e.len() - 3));
        assert(enc_params(t2) =~= e.subrange(0, e.len() - 3));
        lemma_enc_params_injective(t1, t2);
        let (x1, x2) = (r1.last(), r2.last());
        assert(be16((x1 / 256) as u16) =~= e.subrange(e.len() - 3, e.len() - 1));
        assert(be16((x2 / 256) as u16) =~= e.subrange(e.len() - 3, e.len() - 1));
        assert(e[e.len() - 1] == (x1 % 256) as u8);
        assert(e[e.len() - 1] == (x2 % 256) as u8);
        crate::bytes::lemma_be16_roundtrip((x1 / 256) as u16);
        crate::bytes::lemma_be16_roundtrip((x2 / 256) as u16);
        assert(x1 == (x1 / 256) * 256 + x1 % 256);
        assert(x2 == (x2 / 256) * 256 + x2 % 256);
        assert(r1 =~= t1.push(x1));
        assert(r2 =~= t2.push(x2));
    } else {
        assert(r1 =~= r2);
    }
}

proof fn lemma_enc_variants_injective(r1: Seq<u32>, r2: Seq<u32>)
    requires
        r1.len() == r2.len(),
        forall|k: int| 0 <= k < r1.len() ==> r1[k] <= 0xff,
        forall|k: int| 0 <= k < r2.len() ==> r2[k] <= 0xff,
        enc_variants(r1) == enc_variants(r2),
    ensures
        r1 == r2,
    decreases r1.len(),
{
    if r1.len() > 0 {
        let (t1, t2) = (r1.drop_last(), r2.drop_last());
        lemma_enc_variants_len(t1);
        lemma_enc_variants_len(t2);
        let e = enc_variants(r1);
        assert(enc_variants(t1) =~= e.subrange(0, e.len() - 1));
        assert(enc_variants(t2) =~= e.subrange(0, e.len() - 1));
        lemma_enc_variants_injective(t1, t2);
        assert(e[e.len() - 1] == r1.last() as u8);
        assert(e[e.len() - 1] == r2.last() as u8);
        assert(r1 =~= t1.push(r1.last()));
        assert(r2 =~= t2.push(r2.last()));
    } else {
        assert(r1 =~= r2);
    }
}

/// The sorted keys of a list are the keys of its elements, each at most `m`.
proof fn lemma_sorted_keys_bounded(keys: Seq<u32>, m: int)
    requires
        0 <= m,
        forall|k: int| 0 <= k < keys.len() ==> keys[k] <= m,
    ensures
        strictly_sorted(sorted_elements(keys.to_set())),
        sorted_elements(keys.to_set()).to_set() == keys.to_set(),
        forall|k: int|
            0 <= k < sorted_elements(keys.to_set()).len() ==> sorted_elements(keys.to_set())[k] <= m,
        sorted_elements(keys.to_set()).len() <= m + 1,
{
    lemma_sorted_elements(keys);
    let r = sorted_elements(keys.to_set());
    assert forall|k: int| 0 <= k < r.len() implies r[k] <= m by {
        assert(r.to_set().contains(r[k]));
        assert(keys.to_set().contains(r[k]));
    }
    lemma_sorted_len_bound(r, m);
}

proof fn lemma_param_key_injective(p1: (u16, u8), p2: (u16, u8))
    requires
        param_key(p1) == param_key(p2),
    ensures
        p1 == p2,
{
    let (a1, b1, a2, b2) = (p1.0 as int, p1.1 as int, p2.0 as int, p2.1 as int);
    assert(a1 * 256 + b1 <= 0xff_ffff) by (nonlinear_arith)
        requires
            0 <= a1 <= 0xffff,
            0 <= b1 <= 0xff,
    ;
    assert(a2 * 256 + b2 <= 0xff_ffff) by (nonlinear_arith)
        requires
            0 <= a2 <= 0xffff,
            0 <= b2 <= 0xff,
    ;
    assert(a1 == a2 && b1 == b2) by (nonlinear_arith)
        requires
            a1 * 256 + b1 == a2 * 256 + b2,
            0 <= b1 < 256,
            0 <= b2 < 256,
    ;
}

/// The sorted keys of a policy's three allow-lists, with their bounds.
proof fn lemma_policy_keys(p: PolicyModel)
    ensures
        ({
            let a = sorted_elements(alg_keys(p.algs).to_set());
            let q = sorted_elements(param_keys(p.params).to_set());
            let v = sorted_elements(variant_keys(p.variants).to_set());
            &&& a.to_set() == alg_keys(p.algs).to_set()
            &&& q.to_set() == param_keys(p.params).to_set()
            &&& v.to_set() == variant_keys(p.variants).to_set()
            &&& forall|k: int| 0 <= k < a.len() ==> a[k] <= 0xffff
            &&& forall|k: int| 0 <= k < q.len() ==> q[k] <= 0xff_ffff
            &&& forall|k: int| 0 <= k < v.len() ==> v[k] <= 0xff
            &&& a.len() <= 0x1_0000 && q.len() <= 0x100_0000 && v.len() <= 0x100
            &&& enc_algs(a).len() == 2 * a.len()
            &&& enc_params(q).len() == 3 * q.len()
            &&& enc_variants(v).len() == v.len()
        }),
{
    let kq = param_keys(p.params);
    assert forall|k: int| 0 <= k < kq.len() implies kq[k] <= 0xff_ffff by {
        let x = p.params[k];
        assert(x.0 as int * 256 + x.1 as int <= 0xff_ffff) by (nonlinear_arith)
            requires
                0 <= x.0 <= 0xffff,
                0 <= x.1 <= 0xff,
        ;
    }
    lemma_sorted_keys_bounded(alg_keys(p.algs), 0xffff);
    lemma_sorted_keys_bounded(kq, 0xff_ffff);
    lemma_sorted_keys_bounded(variant_keys(p.variants), 0xff);
    lemma_enc_algs_len(sorted_elements(alg_keys(p.algs).to_set()));
    lemma_enc_params_len(sorted_elements(kq.to_set()));
    lemma_enc_variants_len(sorted_elements(variant_keys(p.variants).to_set()));
}

/// Two policies whose canonical encodings agree have the same sorted keys,
/// floor and modes.
#[verifier::rlimit(80)]
#[verifier::spinoff_prover]
proof fn lemma_canonical_sections(p1: PolicyModel, p2: PolicyModel)
    requires
        policy_canonical_bytes(p1) == policy_canonical_bytes(p2),
    ensures
        sorted_elements(alg_keys(p1.algs).to_set()) == sorted_elements(alg_keys(p2.algs).to_set()),
        sorted_elements(param_keys(p1.params).to_set()) == sorted_elements(param_keys(p2.params).to_set()),
        sorted_elements(variant_keys(p1.variants).to_set()) == sorted_elements(
            variant_keys(p2.variants).to_set(),
        ),
        p1.min_epoch == p2.min_epoch,
        p1.modes == p2.modes,
{
    lemma_policy_keys(p1);
    lemma_policy_keys(p2);
    let (a1, a2) = (sorted_elements(alg_keys(p1.algs).to_set()), sorted_elements(alg_keys(p2.algs).to_set()));
    let (q1, q2) = (
        sorted_elements(param_keys(p1.params).to_set()),
        sorted_elements(param_keys(p2.params).to_set()),
    );
    let (v1, v2) = (
        sorted_elements(variant_keys(p1.variants).to_set()),
        sorted_elements(variant_keys(p2.variants).to_set()),
    );
    let b = policy_canonical_bytes(p1);
    let b2 = policy_canonical_bytes(p2);
    let (x1, x2) = (be32(a1.len() as u32) + enc_algs(a1), be32(a2.len() as u32) + enc_algs(a2));
    let (y1, y2) = (be32(q1.len() as u32) + enc_params(q1), be32(q2.len() as u32) + enc_params(q2));
    let (z1, z2) = (be32(v1.len() as u32) + enc_variants(v1), be32(v2.len() as u32) + enc_variants(v2));
    let (w1, w2) = (be32(p1.min_epoch) + seq![p1.modes], be32(p2.min_epoch) + seq![p2.modes]);
    assert(b =~= x1 + y1 + z1 + w1);
    assert(b2 =~= x2 + y2 + z2 + w2);
    crate::bytes::lemma_be32_roundtrip(a1.len() as u32);
    crate::bytes::lemma_be32_roundtrip(a2.len() as u32);
    assert(u32_at(b, 0) == u32_at(x1, 0));
    assert(u32_at(b2, 0) == u32_at(x2, 0));
    assert(a1.len() == a2.len());
    assert(x1.len() == x2.len());
    assert(x1 =~= b.subrange(0, x1.len() as int));
    assert(x2 =~= b2.subrange(0, x1.len() as int));
    assert(enc_algs(a1) =~= x1.subrange(4, x1.len() as int));
    assert(enc_algs(a2) =~= x2.subrange(4, x2.len() as int));
    lemma_enc_algs_injective(a1, a2);
    let r1 = b.subrange(x1.len() as int, b.len() as int);
    let r2 = b2.subrange(x2.len() as int, b2.len() as int);
    assert(r1 =~= y1 + z1 + w1);
    assert(r2 =~= y2 + z2 + w2);
    crate::bytes::lemma_be32_roundtrip(q1.len() as u32);
    crate::bytes::lemma_be32_roundtrip(q2.len() as u32);
    assert(u32_at(r1, 0) == u32_at(y1, 0));
    assert(u32_at(r2, 0) == u32_at(y2, 0));
    assert(q1.len() == q2.len());
    assert(enc_params(q1) =~= r1.subrange(4, y1.len() as int));
    assert(enc_params(q2) =~= r2.subrange(4, y2.len() as int));
    lemma_enc_params_injective(q1, q2);
    let t1 = r1.subrange(y1.len() as int, r1.len() as int);
    let t2 = r2.subrange(y2.len() as int, r2.len() as int);
    assert(t1 =~= z1 + w1);
    assert(t2 =~= z2 + w2);
    crate::bytes::lemma_be32_roundtrip(v1.len() as u32);
    crate::bytes::lemma_be32_roundtrip(v2.len() as u32);
    assert(u32_at(t1, 0) == u32_at(z1, 0));
    assert(u32_at(t2, 0) == u32_at(z2, 0));
    assert(v1.len() == v2.len());
    assert(enc_variants(v1) =~= t1.subrange(4, z1.len() as int));
    assert(enc_variants(v2) =~= t2.subrange(4, z2.len() as int));
    lemma_enc_variants_injective(v1, v2);
    let u1 = t1.subrange(z1.len() as int, t1.len() as int);
    let u2 = t2.subrange(z2.len() as int, t2.len() as int);
    assert(u1 =~= w1);
    assert(u2 =~= w2);
    crate::bytes::lemma_be32_roundtrip(p1.min_epoch);
    crate::bytes::lemma_be32_roundtrip(p2.min_epoch);
    assert(u32_at(u1, 0) == u32_at(w1, 0));
    assert(u32_at(u2, 0) == u32_at(w2, 0));
    assert(u1[4] == p1.modes);
    assert(u2[4] == p2.modes);
}

proof fn lemma_algs_from_keys(s1: Seq<u16>, s2: Seq<u16>)
    requires
        alg_keys(s1).to_set() == alg_keys(s2).to_set(),
    ensures
        s1.to_set() == s2.to_set(),
{
    assert forall|x: u16| s1.to_set().contains(x) implies s2.to_set().contains(x) by {
        let j = choose|j: int| 0 <= j < s1.len() && s1[j] == x;
        assert(alg_keys(s1)[j] == x as u32);
        assert(alg_keys(s2).to_set().contains(x as u32));
        let i = choose|i: int| 0 <= i < s2.len() && alg_keys(s2)[i] == x as u32;
        assert(s2[i] == x);
    }
    assert forall|x: u16| s2.to_set().contains(x) implies s1.to_set().contains(x) by {
        let j = choose|j: int| 0 <= j < s2.len() && s2[j] == x;
        assert(alg_keys(s2)[j] == x as u32);
        assert(alg_keys(s1).to_set().contains(x as u32));
        let i = choose|i: int| 0 <= i < s1.len() && alg_keys(s1)[i] == x as u32;
        assert(s1[i] == x);
    }
    assert(s1.to_set() =~= s2.to_set());
}

proof fn lemma_params_from_keys(s1: Seq<(u16, u8)>, s2: Seq<(u16, u8)>)
    requires
        param_keys(s1).to_set() == param_keys(s2).to_set(),
    ensures
        s1.to_set() == s2.to_set(),
{
    assert forall|x: (u16, u8)| s1.to_set().contains(x) implies s2.to_set().contains(x) by {
        let j = choose|j: int| 0 <= j < s1.len() && s1[j] == x;
        assert(param_keys(s1)[j] == param_key(x));
        assert(param_keys(s2).to_set().contains(param_key(x)));
        let i = choose|i: int| 0 <= i < s2.len() && param_keys(s2)[i] == param_key(x);
        lemma_param_key_injective(s2[i], x);
    }
    assert forall|x: (u16, u8)| s2.to_set().contains(x) implies s1.to_set().contains(x) by {
        let j = choose|j: int| 0 <= j < s2.len() && s2[j] == x;
        assert(param_keys(s2)[j] == param_key(x));
        assert(param_keys(s1).to_set().contains(param_key(x)));
        let i = choose|i: int| 0 <= i < s1.len() && param_keys(s1)[i] == param_key(x);
        lemma_param_key_injective(s1[i], x);
    }
    assert(s1.to_set() =~= s2.to_set());
}

proof fn lemma_variants_from_keys(s1: Seq<u8>, s2: Seq<u8>)
    requires
        variant_keys(s1).to_set() == variant_keys(s2).to_set(),
    ensures
        s1.to_set() == s2.to_set(),
{
    assert forall|x: u8| s1.to_set().contains(x) implies s2.to_set().contains(x) by {
        let j = choose|j: int| 0 <= j < s1.len() && s1[j] == x;
        assert(variant_keys(s1)[j] == x as u32);
        assert(variant_keys(s2).to_set().contains(x as u32));
        let i = choose|i: int| 0 <= i < s2.len() && variant_keys(s2)[i] == x as u32;
        assert(s2[i] == x);
    }
    assert forall|x: u8| s2.to_set().contains(x) implies s1.to_set().contains(x) by {
        let j = choose|j: int| 0 <= j < s2.len() && s2[j] == x;
        assert(variant_keys(s2)[j] == x as u32);
        assert(variant_keys(s1).to_set().contains(x as u32));
        let i = choose|i: int| 0 <= i < s1.len() && variant_keys(s1)[i] == x as u32;
        assert(s1[i] == x);
    }
    assert(s1.to_set() =~= s2.to_set());
}

/// The canonical encoding determines the policy's allow-sets, epoch floor
/// and modes: two policies with the same canonical encoding allow the same
/// sets of algorithms, parameter sets and variants, with the same floor and
/// modes.  With [`lemma_canonical_encoding_stable`], equal encodings are
/// exactly equal allow-sets, floor and modes.
pub proof fn lemma_canonical_encoding_injective(p1: PolicyModel, p2: PolicyModel)
    requires
        policy_canonical_bytes(p1) == policy_canonical_bytes(p2),
    ensures
        p1.algs.to_set() == p2.algs.to_set(),
        p1.params.to_set() == p2.params.to_set(),
        p1.variants.to_set() == p2.variants.to_set(),
        p1.min_epoch == p2.min_epoch,
        p1.modes == p2.modes,
{
    lemma_policy_keys(p1);
    lemma_policy_keys(p2);
    lemma_canonical_sections(p1, p2);
    lemma_algs_from_keys(p1.algs, p2.algs);
    lemma_params_from_keys(p1.params, p2.params);
    lemma_variants_from_keys(p1.variants, p2.variants);
}

/// The trusted local policy of a client (and the policy a server announces).
#[derive(Clone, Debug, PartialEq, Eq)]
pub struct MarkXPolicy {
    pub allowed_algorithms: Vec<u16>,
    /// Each entry is an `(alg_id, param_id)` pair.
    pub allowed_parameter_sets: Vec<(u16, u8)>,
    pub allowed_variants: Vec<u8>,
    pub min_epoch: u32,
    /// Bitmask: bit 0 = HYBRID allowed, bit 1 = PQ_ONLY allowed.
    pub allowed_modes: u8,
}

impl View for MarkXPolicy {
    type V = PolicyModel;

    open spec fn view(&self) -> PolicyModel {
        PolicyModel {
            algs: self.allowed_algorithms@,
            params: self.allowed_parameter_sets@,
            variants: self.allowed_variants@,
            min_epoch: self.min_epoch,
            modes: self.allowed_modes,
        }
    }
}

fn contains_u16(s: &Vec<u16>, x: u16) -> (b: bool)
    ensures
        b == s@.contains(x),
{
    let mut i: usize = 0;
    while i < s.len()
        invariant
            i <= s@.len(),
            forall|k: int| 0 <= k < i ==> s@[k] != x,
        decreases s@.len() - i,
    {
        if s[i] == x {
            assert(s@[i as int] == x);
            return true;
        }
        i = i + 1;
    }
    false
}

fn contains_u8(s: &Vec<u8>, x: u8) -> (b: bool)
    ensures
        b == s@.contains(x),
{
    let mut i: usize = 0;
    while i < s.len()
        invariant
            i <= s@.len(),
            forall|k: int| 0 <= k < i ==> s@[k] != x,
        decreases s@.len() - i,
    {
        if s[i] == x {
            assert(s@[i as int] == x);
            return true;
        }
        i = i + 1;
    }
    false
}

fn contains_pair(s: &Vec<(u16, u8)>, a: u16, p: u8) -> (b: bool)
    ensures
        b == s@.contains((a, p)),
{
    let mut i: usize = 0;
    while i < s.len()
        invariant
            i <= s@.len(),
            forall|k: int| 0 <= k < i ==> s@[k] != (a, p),
        decreases s@.len() - i,
    {
        let (x, y) = s[i];
        if x == a && y == p {
            assert(s@[i as int] == (a, p));
            return true;
        }
        i = i + 1;
    }
    false
}

impl MarkXPolicy {
    /// A conservative reference policy: ML-KEM-768 only, both variants
    /// allowed, hybrid mode only, minimum epoch 1.
    pub fn reference() -> (p: Self)
        ensures
            p@ == (PolicyModel {
                algs: seq![alg_id::ML_KEM],
                params: seq![(alg_id::ML_KEM, param_id::MLKEM_768)],
                variants: seq![variant::A1, variant::A2],
                min_epoch: 1,
                modes: 1,
            }),
    {
        let mut algs: Vec<u16> = Vec::new();
        algs.push(alg_id::ML_KEM);
        let mut params: Vec<(u16, u8)> = Vec::new();
        params.push((alg_id::ML_KEM, param_id::MLKEM_768));
        let mut variants: Vec<u8> = Vec::new();
        variants.push(variant::A1);
        variants.push(variant::A2);
        let p = MarkXPolicy {
            allowed_algorithms: algs,
            allowed_parameter_sets: params,
            allowed_variants: variants,
            min_epoch: 1,
            allowed_modes: 0b01,
        };
        assert(p@.algs =~= seq![alg_id::ML_KEM]);
        assert(p@.params =~= seq![(alg_id::ML_KEM, param_id::MLKEM_768)]);
        assert(p@.variants =~= seq![variant::A1, variant::A2]);
        p
    }

    /// The canonical byte encoding that `policy_hash` is computed over:
    /// ```text
    /// u32 len_algs ‖ (u16)^*               — sorted asc, distinct
    /// u32 len_params ‖ (u16‖u8)^*          — sorted lex, distinct
    /// u32 len_variants ‖ u8^*              — sorted asc, distinct
    /// u32 min_epoch
    /// u8 allowed_modes
    /// ```
    pub fn canonical_encode(&self) -> (out: Vec<u8>)
        ensures
            out@ == policy_canonical_bytes(self@),
    {
        let algs = sorted_alg_keys(&self.allowed_algorithms);
        let params = sorted_param_keys(&self.allowed_parameter_sets);
        let variants = sorted_variant_keys(&self.allowed_variants);
        proof {
            lemma_sorted_unique(algs@, sorted_elements(alg_keys(self@.algs).to_set()));
            lemma_sorted_unique(params@, sorted_elements(param_keys(self@.params).to_set()));
            lemma_sorted_unique(variants@, sorted_elements(variant_keys(self@.variants).to_set()));
        }
        let mut out: Vec<u8> = Vec::new();
        push_u32(&mut out, algs.len() as u32);
        let ghost start = out@;
        let mut i: usize = 0;
        while i < algs.len()
            invariant
                i <= algs@.len(),
                out@ == start + enc_algs(algs@.subrange(0, i as int)),
                forall|k: int| 0 <= k < algs@.len() ==> algs@[k] <= u16::MAX,
            decreases algs@.len() - i,
        {
            push_u16(&mut out, algs[i] as u16);
            assert(algs@.subrange(0, i + 1).drop_last() =~= algs@.subrange(0, i as int));
            i = i + 1;
        }
        assert(algs@.subrange(0, i as int) =~= algs@);
        push_u32(&mut out, params.len() as u32);
        let ghost start = out@;
        let mut i: usize = 0;
        while i < params.len()
            invariant
                i <= params@.len(),
                out@ == start + enc_params(params@.subrange(0, i as int)),
                forall|k: int| 0 <= k < params@.len() ==> params@[k] <= 0xff_ffff,
            decreases params@.len() - i,
        {
            let k = params[i];
            push_u16(&mut out, (k / 256) as u16);
            out.push((k % 256) as u8);
            assert(params@.subrange(0, i + 1).drop_last() =~= params@.subrange(0, i as int));
            i = i + 1;
        }
        assert(params@.subrange(0, i as int) =~= params@);
        push_u32(&mut out, variants.len() as u32);
        let ghost start = out@;
        let mut i: usize = 0;
        while i < variants.len()
            invariant
                i <= variants@.len(),
                out@ == start + enc_variants(variants@.subrange(0, i as int)),
                forall|k: int| 0 <= k < variants@.len() ==> variants@[k] <= u8::MAX,
            decreases variants@.len() - i,
        {
            out.push(variants[i] as u8);
            assert(variants@.subrange(0, i + 1).drop_last() =~= variants@.subrange(0, i as int));
            i = i + 1;
        }
        assert(variants@.subrange(0, i as int) =~= variants@);
        push_u32(&mut out, self.min_epoch);
        out.push(self.allowed_modes);
        assert(out@ =~= policy_canonical_bytes(self@));
        out
    }

    /// `policy_hash`: SHA-256 of the canonical encoding.
    pub fn hash(&self) -> (h: [u8; 32])
        ensures
            h@ == spec_sha256(policy_canonical_bytes(self@))@,
            h@ == policy_hash(self@),
    {
        let bytes = self.canonical_encode();
        sha256(bytes.as_slice())
    }

    /// The acceptance check: `Ok` iff the announced algorithm, parameter set
    /// and variant are allowed and the epoch reaches the floor.  The policy
    /// hash is compared by the caller.
    pub fn accepts(&self, alg: u16, param: u8, var: u8, epoch: u32) -> (res: Result<()>)
        ensures
            res is Ok <==> {
                &&& self@.algs.contains(alg)
                &&& self@.params.contains((alg, param))
                &&& self@.variants.contains(var)
                &&& self@.min_epoch <= epoch
            },
            !self@.algs.contains(alg) ==> res == Err::<(), MarkXError>(MarkXError::AlgorithmNotAllowed),
            self@.algs.contains(alg) && !self@.params.contains((alg, param)) ==> res == Err::<
                (),
                MarkXError,
            >(MarkXError::AlgorithmNotAllowed),
            self@.params.contains((alg, param)) && !self@.variants.contains(var) ==> res == Err::<
                (),
                MarkXError,
            >(MarkXError::AlgorithmNotAllowed),
            self@.algs.contains(alg) && self@.params.contains((alg, param)) && self@.variants.contains(var)
                && epoch < self@.min_epoch ==> res == Err::<(), MarkXError>(MarkXError::EpochRollback),
            res == policy_accepts(self@, alg, param, var, epoch),
    {
        if !contains_u16(&self.allowed_algorithms, alg) {
            return Err(MarkXError::AlgorithmNotAllowed);
        }
        if !contains_pair(&self.allowed_parameter_sets, alg, param) {
            return Err(MarkXError::AlgorithmNotAllowed);
        }
        if !contains_u8(&self.allowed_variants, var) {
            return Err(MarkXError::AlgorithmNotAllowed);
        }
        if epoch < self.min_epoch {
            return Err(MarkXError::EpochRollback);
        }
        Ok(())
    }
}

} // verus!

//! Concrete cryptographic primitives: ML-KEM-768 (`pqcrypto-mlkem`),
//! ECDSA-P256 (`p256`, `ecdsa`), SHA-256 (`sha2`) and HMAC-SHA-256
//! (`hmac`).
//!
//! Each outside call sits in a small trusted function whose contract says
//! what the crate's source shows; the deterministic results are given names
//! (`spec_*`), the random ones are described by what holds of every
//! outcome.  Keys travel through the library as plain bytes.

use vstd::prelude::*;
use crate::bytes::push_all;
use crate::error::{MarkXError, Result};
use ecdsa::signature::{Signer, Verifier};
use hmac::{Hmac, Mac};
use pqcrypto_traits::kem::{
    Ciphertext as KemCiphertext, PublicKey as KemPublicKey, SecretKey as KemSecretKey,
    SharedSecret as KemSharedSecret,
};
use sha2::{Digest, Sha256};

verus! {

// ---------------------------------------------------------------- names

/// SHA-256 of `data` (32 bytes).
pub uninterp spec fn spec_sha256(data: Seq<u8>) -> [u8; 32];

/// HMAC-SHA-256 of `data` under `key` (32 bytes).
pub uninterp spec fn spec_hmac_sha256(key: Seq<u8>, data: Seq<u8>) -> [u8; 32];

/// The ML-KEM-768 shared secret that decapsulating ciphertext `ct` under
/// secret key `sk` yields (implicit rejection: every well-sized input has
/// one).
pub uninterp spec fn spec_mlkem768_decaps(sk: Seq<u8>, ct: Seq<u8>) -> [u8; 32];

/// Whether `(ct, ss)` is an outcome of ML-KEM-768 encapsulation to the
/// public key `pk`: a ciphertext made for `pk` together with the shared
/// secret it carries.
pub uninterp spec fn spec_mlkem768_encapsulates(pk: Seq<u8>, ct: Seq<u8>, ss: Seq<u8>) -> bool;

/// Whether `sk` is the big-endian encoding of a valid P-256 secret scalar.
pub uninterp spec fn spec_p256_secret_valid(sk: Seq<u8>) -> bool;

/// The uncompressed SEC1 encoding of the P-256 public key of secret `sk`.
pub uninterp spec fn spec_p256_public_key(sk: Seq<u8>) -> Seq<u8>;

/// The DER-encoded deterministic (RFC 6979) ECDSA-P256/SHA-256 signature of
/// `msg` under secret `sk`.
pub uninterp spec fn spec_ecdsa_p256_sign(sk: Seq<u8>, msg: Seq<u8>) -> Seq<u8>;

/// Whether `sig` is a DER-encoded ECDSA-P256/SHA-256 signature of `msg`
/// that verifies under the SEC1-encoded public key `pk`.
pub uninterp spec fn spec_ecdsa_p256_verify(pk: Seq<u8>, msg: Seq<u8>, sig: Seq<u8>) -> bool;

// ---------------------------------------------------------------- ML-KEM-768

/// Length of an ML-KEM-768 public key.
pub const MLKEM768_PK_LEN: usize = 1184;
/// Length of an ML-KEM-768 secret key.
pub const MLKEM768_SK_LEN: usize = 2400;
/// Length of an ML-KEM-768 ciphertext.
pub const MLKEM768_CT_LEN: usize = 1088;
/// Length of an ML-KEM-768 shared secret.
pub const MLKEM768_SS_LEN: usize = 32;

/// An ML-KEM-768 key pair in encoded form.
pub struct PqKemKeyPair {
    /// 1184 bytes.
    pub pk: Vec<u8>,
    /// 2400 bytes, kept opaque.
    pub sk: Vec<u8>,
}

/// Calls `pqcrypto_mlkem::mlkem768::keypair` and returns both keys as bytes.
/// The contract claims their lengths, which are the fixed sizes of the
/// crate's key types, and that the secret key holds a copy of the public key
/// at offset 1152 (PQClean's `crypto_kem_keypair_derand` copies it there,
/// after the 1152-byte IND-CPA secret key); the keys themselves are random.
#[verifier::external_body]
pub fn mlkem768_keypair() -> (kp: PqKemKeyPair)
    ensures
        kp.pk@.len() == MLKEM768_PK_LEN,
        kp.sk@.len() == MLKEM768_SK_LEN,
        kp.sk@.subrange(1152, 2336) == kp.pk@,
{
    let (pk, sk) = pqcrypto_mlkem::mlkem768::keypair();
    PqKemKeyPair { pk: pk.as_bytes().to_vec(), sk: sk.as_bytes().to_vec() }
}

/// Calls `pqcrypto_mlkem::mlkem768::encapsulate` on the public key decoded
/// by `PublicKey::from_bytes` (which accepts exactly 1184 bytes).  The
/// contract claims the size of the ciphertext and that the pair is an
/// encapsulation to `pk`; which one is random.
#[verifier::external_body]
fn kem_encapsulate(pk: &[u8]) -> (res: (Vec<u8>, [u8; 32]))
    requires
        pk@.len() == MLKEM768_PK_LEN,
    ensures
        res.0@.len() == MLKEM768_CT_LEN,
        spec_mlkem768_encapsulates(pk@, res.0@, res.1@),
{
    let pk = pqcrypto_mlkem::mlkem768::PublicKey::from_bytes(pk).expect("1184-byte public key");
    let (ss, ct) = pqcrypto_mlkem::mlkem768::encapsulate(&pk);
    let mut k = [0u8; 32];
    k.copy_from_slice(ss.as_bytes());
    (ct.as_bytes().to_vec(), k)
}

/// Calls `pqcrypto_mlkem::mlkem768::decapsulate` on the secret key and
/// ciphertext decoded by their `from_bytes` (which accept exactly 2400 and
/// 1088 bytes).  The contract claims that the shared secret is
/// `spec_mlkem768_decaps` of the two byte strings: decapsulation is a
/// deterministic function of them.
#[verifier::external_body]
fn kem_decapsulate(sk: &[u8], ct: &[u8]) -> (ss: [u8; 32])
    requires
        sk@.len() == MLKEM768_SK_LEN,
        ct@.len() == MLKEM768_CT_LEN,
    ensures
        ss@ == spec_mlkem768_decaps(sk@, ct@)@,
{
    let sk = pqcrypto_mlkem::mlkem768::SecretKey::from_bytes(sk).expect("2400-byte secret key");
    let ct = pqcrypto_mlkem::mlkem768::Ciphertext::from_bytes(ct).expect("1088-byte ciphertext");
    let ss = pqcrypto_mlkem::mlkem768::decapsulate(&ct, &sk);
    let mut k = [0u8; 32];
    k.copy_from_slice(ss.as_bytes());
    k
}

/// Encapsulates to an encoded ML-KEM-768 public key, returning the
/// ciphertext and the shared secret.  A key of the wrong length is a
/// malformed message.
pub fn mlkem768_encaps(pk_bytes: &[u8]) -> (res: Result<(Vec<u8>, [u8; MLKEM768_SS_LEN])>)
    ensures
        pk_bytes@.len() != MLKEM768_PK_LEN ==> res == Err::<(Vec<u8>, [u8; 32]), MarkXError>(
            MarkXError::MalformedMessage,
        ),
        pk_bytes@.len() == MLKEM768_PK_LEN ==> res is Ok && res->Ok_0.0@.len() == MLKEM768_CT_LEN
            && spec_mlkem768_encapsulates(pk_bytes@, res->Ok_0.0@, res->Ok_0.1@),
{
    if pk_bytes.len() != MLKEM768_PK_LEN {
        return Err(MarkXError::MalformedMessage);
    }
    Ok(kem_encapsulate(pk_bytes))
}

/// Decapsulates an encoded ciphertext under an encoded secret key.  Inputs
/// of the wrong length are a decryption error; a well-sized but wrong
/// ciphertext yields a different shared secret (implicit rejection).
pub fn mlkem768_decaps(sk_bytes: &[u8], ct_bytes: &[u8]) -> (res: Result<[u8; MLKEM768_SS_LEN]>)
    ensures
        sk_bytes@.len() != MLKEM768_SK_LEN || ct_bytes@.len() != MLKEM768_CT_LEN ==> res == Err::<
            [u8; 32],
            MarkXError,
        >(MarkXError::DecryptError),
        sk_bytes@.len() == MLKEM768_SK_LEN && ct_bytes@.len() == MLKEM768_CT_LEN ==> res is Ok
            && res->Ok_0@ == spec_mlkem768_decaps(sk_bytes@, ct_bytes@)@,
{
    if sk_bytes.len() != MLKEM768_SK_LEN {
        return Err(MarkXError::DecryptError);
    }
    if ct_bytes.len() != MLKEM768_CT_LEN {
        return Err(MarkXError::DecryptError);
    }
    Ok(kem_decapsulate(sk_bytes, ct_bytes))
}

// ---------------------------------------------------------------- ECDSA-P256

/// An ECDSA-P256 signing key: a valid secret scalar, big-endian.
pub struct EcdsaSigningKey {
    scalar: Vec<u8>,
}

impl EcdsaSigningKey {
    #[verifier::type_invariant]
    spec fn valid(self) -> bool {
        spec_p256_secret_valid(self.scalar@)
    }

    /// The secret scalar.
    pub closed spec fn secret(&self) -> Seq<u8> {
        self.scalar@
    }

    /// A signing key from an existing secret scalar (big-endian, as kept in
    /// an HSM or key store); `None` where the bytes are not a valid P-256
    /// secret scalar.
    pub fn from_bytes(bytes: &[u8]) -> (k: Option<Self>)
        ensures
            k is Some <==> spec_p256_secret_valid(bytes@),
            k matches Some(key) ==> key.secret() == bytes@,
    {
        if p256_secret_check(bytes) {
            Some(EcdsaSigningKey { scalar: vstd::slice::slice_to_vec(bytes) })
        } else {
            None
        }
    }

    /// The secret scalar, for storing the key.
    pub fn to_bytes(&self) -> (bytes: Vec<u8>)
        ensures
            bytes@ == self.secret(),
    {
        vstd::slice::slice_to_vec(self.scalar.as_slice())
    }

    /// The verifying key of this signing key.
    pub fn verifying_key(&self) -> (pk: EcdsaVerifyingKey)
        ensures
            pk@ == spec_p256_public_key(self.secret()),
            forall|msg: Seq<u8>|
                spec_ecdsa_p256_verify(pk@, msg, #[trigger] spec_ecdsa_p256_sign(self.secret(), msg)),
    {
        proof {
            use_type_invariant(self);
        }
        EcdsaVerifyingKey { sec1: p256_public_key_of(self.scalar.as_slice()) }
    }
}

/// An ECDSA-P256 verifying key, SEC1-encoded.
#[derive(Clone, Debug)]
pub struct EcdsaVerifyingKey {
    pub sec1: Vec<u8>,
}

impl View for EcdsaVerifyingKey {
    type V = Seq<u8>;

    open spec fn view(&self) -> Seq<u8> {
        self.sec1@
    }
}

/// Calls `p256::ecdsa::SigningKey::random` with `rand::rngs::OsRng`, and
/// returns the secret scalar (`to_bytes`) and the uncompressed SEC1 encoding
/// of its verifying key.  The contract claims that the scalar is valid,
/// that the public key is the one of the scalar, and that a signature made
/// with the scalar verifies under the public key (ECDSA correctness); the
/// key itself is random.
#[verifier::external_body]
fn p256_random_keypair() -> (res: (Vec<u8>, Vec<u8>))
    ensures
        spec_p256_secret_valid(res.0@),
        res.1@ == spec_p256_public_key(res.0@),
        forall|msg: Seq<u8>|
            spec_ecdsa_p256_verify(res.1@, msg, #[trigger] spec_ecdsa_p256_sign(res.0@, msg)),
{
    let sk = p256::ecdsa::SigningKey::random(&mut rand::rngs::OsRng);
    let pk = sk.verifying_key().to_encoded_point(false);
    (sk.to_bytes().to_vec(), pk.as_bytes().to_vec())
}

/// Calls `p256::ecdsa::SigningKey::from_slice`, which accepts a big-endian
/// scalar of 24 to 32 bytes (shorter ones zero-padded) that is non-zero and
/// below the group order.  The contract claims that it succeeds exactly when
/// `spec_p256_secret_valid` holds of the bytes.
#[verifier::external_body]
fn p256_secret_check(sk: &[u8]) -> (ok: bool)
    ensures
        ok == spec_p256_secret_valid(sk@),
{
    p256::ecdsa::SigningKey::from_slice(sk).is_ok()
}

/// Calls `p256::ecdsa::SigningKey::from_slice`, `verifying_key` and
/// `to_encoded_point(false)`.  The contract claims that the result is the
/// uncompressed SEC1 encoding of the scalar's public key, under which the
/// scalar's signatures verify (ECDSA correctness).
#[verifier::external_body]
fn p256_public_key_of(sk: &[u8]) -> (pk: Vec<u8>)
    requires
        spec_p256_secret_valid(sk@),
    ensures
        pk@ == spec_p256_public_key(sk@),
        forall|msg: Seq<u8>| spec_ecdsa_p256_verify(pk@, msg, #[trigger] spec_ecdsa_p256_sign(sk@, msg)),
{
    let key = p256::ecdsa::SigningKey::from_slice(sk).expect("valid secret scalar");
    key.verifying_key().to_encoded_point(false).as_bytes().to_vec()
}

/// Calls `p256::ecdsa::SigningKey::from_slice` then `sign` (deterministic,
/// RFC 6979) and returns the DER encoding of the signature.  The contract
/// claims that the result is `spec_ecdsa_p256_sign` of the scalar and the
/// message, and that it fits the crate's DER buffer of 73 bytes
/// (`ecdsa::der::MaxSize`).
#[verifier::external_body]
fn p256_sign(sk: &[u8], msg: &[u8]) -> (sig: Vec<u8>)
    requires
        spec_p256_secret_valid(sk@),
    ensures
        sig@ == spec_ecdsa_p256_sign(sk@, msg@),
        sig@.len() <= 73,
{
    let key = p256::ecdsa::SigningKey::from_slice(sk).expect("valid secret scalar");
    let sig: p256::ecdsa::Signature = key.sign(msg);
    sig.to_der().as_bytes().to_vec()
}

/// Calls `p256::ecdsa::VerifyingKey::from_sec1_bytes`,
/// `p256::ecdsa::Signature::from_der` and `verify`; a key or signature that
/// does not decode counts as a failed verification.  The contract claims
/// that the outcome is `spec_ecdsa_p256_verify` of the three byte strings.
#[verifier::external_body]
fn p256_verify(pk: &[u8], msg: &[u8], sig: &[u8]) -> (ok: bool)
    ensures
        ok == spec_ecdsa_p256_verify(pk@, msg@, sig@),
{
    match (p256::ecdsa::VerifyingKey::from_sec1_bytes(pk), p256::ecdsa::Signature::from_der(sig)) {
        (Ok(key), Ok(sig)) => key.verify(msg, &sig).is_ok(),
        _ => false,
    }
}

/// A fresh ECDSA-P256 key pair.
pub fn ecdsa_p256_keypair() -> (keys: (EcdsaSigningKey, EcdsaVerifyingKey))
    ensures
        keys.1@ == spec_p256_public_key(keys.0.secret()),
        forall|msg: Seq<u8>|
            spec_ecdsa_p256_verify(keys.1@, msg, #[trigger] spec_ecdsa_p256_sign(keys.0.secret(), msg)),
{
    let (sk, pk) = p256_random_keypair();
    (EcdsaSigningKey { scalar: sk }, EcdsaVerifyingKey { sec1: pk })
}

/// Signs `message` (the library hashes it with SHA-256 inside ECDSA) and
/// returns the DER-encoded signature.
pub fn ecdsa_p256_sign(sk: &EcdsaSigningKey, message: &[u8]) -> (sig: Vec<u8>)
    ensures
        sig@ == spec_ecdsa_p256_sign(sk.secret(), message@),
        sig@.len() <= 73,
{
    proof {
        use_type_invariant(sk);
    }
    p256_sign(sk.scalar.as_slice(), message)
}

/// Verifies a DER-encoded signature of `message`.
pub fn ecdsa_p256_verify(pk: &EcdsaVerifyingKey, message: &[u8], sig_der: &[u8]) -> (res: Result<()>)
    ensures
        spec_ecdsa_p256_verify(pk@, message@, sig_der@) ==> res == Ok::<(), MarkXError>(()),
        !spec_ecdsa_p256_verify(pk@, message@, sig_der@) ==> res == Err::<(), MarkXError>(
            MarkXError::BadSignature,
        ),
{
    if p256_verify(pk.sec1.as_slice(), message, sig_der) {
        Ok(())
    } else {
        Err(MarkXError::BadSignature)
    }
}

// ---------------------------------------------------------------- hashing and MAC

/// Calls `sha2::Sha256` (`new`, `update`, `finalize`) on `input`.  The
/// contract claims that the digest is `spec_sha256` of the input.
#[verifier::external_body]
pub fn sha256(input: &[u8]) -> (out: [u8; 32])
    ensures
        out@ == spec_sha256(input@)@,
{
    let mut h = Sha256::new();
    h.update(input);
    h.finalize().into()
}

/// The concatenation of the parts, in order.
pub open spec fn concat_parts(parts: Seq<&[u8]>) -> Seq<u8>
    decreases parts.len(),
{
    if parts.len() == 0 {
        Seq::empty()
    } else {
        concat_parts(parts.drop_last()) + parts.last()@
    }
}

/// SHA-256 of the concatenation of `parts`.
pub fn sha256_concat(parts: &[&[u8]]) -> (out: [u8; 32])
    ensures
        out@ == spec_sha256(concat_parts(parts@))@,
{
    let mut all: Vec<u8> = Vec::new();
    let mut i: usize = 0;
    while i < parts.len()
        invariant
            i <= parts@.len(),
            all@ == concat_parts(parts@.subrange(0, i as int)),
        decreases parts@.len() - i,
    {
        push_all(&mut all, parts[i]);
        assert(parts@.subrange(0, i + 1).drop_last() =~= parts@.subrange(0, i as int));
        i = i + 1;
    }
    assert(parts@.subrange(0, i as int) =~= parts@);
    sha256(all.as_slice())
}

/// Calls `hmac::Hmac::<Sha256>::new_from_slice` (which accepts keys of any
/// length), `update` and `finalize`.  The contract claims that the tag is
/// `spec_hmac_sha256` of the key and data.
#[verifier::external_body]
pub fn hmac_sha256(key: &[u8], data: &[u8]) -> (tag: [u8; 32])
    ensures
        tag@ == spec_hmac_sha256(key@, data@)@,
{
    let mut mac = Hmac::<Sha256>::new_from_slice(key).expect("HMAC accepts any key length");
    mac.update(data);
    let out = mac.finalize().into_bytes();
    let mut tag = [0u8; 32];
    tag.copy_from_slice(&out);
    tag
}

/// Calls `hmac::Hmac::<Sha256>::new_from_slice`, `update` and
/// `verify_slice`, which compares in constant time and refuses a tag whose
/// length is not 32.  The contract claims that it succeeds exactly when
/// `tag` is `spec_hmac_sha256` of the key and data.
#[verifier::external_body]
fn hmac_sha256_check(key: &[u8], data: &[u8], tag: &[u8]) -> (ok: bool)
    ensures
        ok == (tag@ == spec_hmac_sha256(key@, data@)@),
{
    let mut mac = Hmac::<Sha256>::new_from_slice(key).expect("HMAC accepts any key length");
    mac.update(data);
    mac.verify_slice(tag).is_ok()
}

/// Constant-time verification of an HMAC-SHA-256 tag.
pub fn hmac_sha256_verify(key: &[u8], data: &[u8], expected_tag: &[u8]) -> (res: Result<()>)
    ensures
        expected_tag@ == spec_hmac_sha256(key@, data@)@ ==> res == Ok::<(), MarkXError>(()),
        expected_tag@ != spec_hmac_sha256(key@, data@)@ ==> res == Err::<(), MarkXError>(
            MarkXError::DecryptError,
        ),
{
    if hmac_sha256_check(key, data, expected_tag) {
        Ok(())
    } else {
        Err(MarkXError::DecryptError)
    }
}

} // verus!

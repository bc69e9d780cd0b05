//! The calls into `pq-mayo`, one wrapper per operation and parameter set.
//!
//! Nothing in this file is proved: each contract states what the source of
//! `pq-mayo` 0.6.0 shows of the function that the wrapper calls.

use vstd::prelude::*;
use crate::params::Variant;
use signature::{Signer, Verifier};

verus! {

/// The compact public key that `pq-mayo` derives from the compact secret key
/// `csk` for the parameter set `v` (its `derive_cpk_from_csk`, which both
/// `KeyPair::from_seed` and `SigningKey::try_from` run). A deterministic
/// function of `v` and `csk`.
pub uninterp spec fn mayo_public_key(v: Variant, csk: Seq<u8>) -> Seq<u8>;

/// Whether `pq-mayo`'s verification (`mayo_verify`) accepts `sig` as a
/// signature of `msg` under the compact public key `cpk`, for the parameter
/// set `v`. A deterministic function of its arguments.
pub uninterp spec fn mayo_accepts(v: Variant, cpk: Seq<u8>, msg: Seq<u8>, sig: Seq<u8>) -> bool;

/// `pq_mayo::KeyPair::<Mayo1>::from_seed`: fails exactly when the seed is not
/// 24 bytes long; otherwise the secret key is the seed and the public key is
/// derived from it.
#[verifier::external_body]
pub(crate) fn mayo1_keypair_from_seed(seed: &[u8]) -> (r: Result<(Vec<u8>, Vec<u8>), pq_mayo::Error>)
    ensures
        r is Ok <==> seed@.len() == 24,
        r matches Ok(kp) ==> {
            &&& kp.0@ == seed@
            &&& kp.1@ == mayo_public_key(Variant::Mayo1, seed@)
            &&& kp.1@.len() == 1420
        },
{
    match pq_mayo::KeyPair::<pq_mayo::Mayo1>::from_seed(seed) {
        Ok(kp) => Ok((kp.signing_key().as_ref().to_vec(), kp.verifying_key().as_ref().to_vec())),
        Err(e) => Err(e),
    }
}

/// `pq_mayo::SigningKey::<Mayo1>::try_from` followed by
/// `VerifyingKey::from(&SigningKey)`: fails exactly when `csk` is not 24 bytes
/// long, and otherwise gives the derived public key.
#[verifier::external_body]
pub(crate) fn mayo1_public_key(csk: &[u8]) -> (r: Result<Vec<u8>, pq_mayo::Error>)
    ensures
        r is Ok <==> csk@.len() == 24,
        r matches Ok(pk) ==> pk@ == mayo_public_key(Variant::Mayo1, csk@) && pk@.len() == 1420,
{
    match pq_mayo::SigningKey::<pq_mayo::Mayo1>::try_from(csk) {
        Ok(sk) => Ok(pq_mayo::VerifyingKey::from(&sk).as_ref().to_vec()),
        Err(e) => Err(e),
    }
}

/// `signature::Signer::try_sign` of `pq_mayo::SigningKey::<Mayo1>`. Signing
/// draws a fresh random salt, so the signature itself is not determined; what
/// holds of every outcome is that a returned signature has 454 bytes and
/// passes verification under the key's own public key, since `pq-mayo`
/// verifies each signature against that key before releasing it.
#[verifier::external_body]
pub(crate) fn mayo1_sign(csk: &[u8], msg: &[u8]) -> (r: Option<Vec<u8>>)
    requires
        csk@.len() == 24,
    ensures
        r matches Some(sig) ==> sig@.len() == 454 && mayo_accepts(
            Variant::Mayo1,
            mayo_public_key(Variant::Mayo1, csk@),
            msg@,
            sig@,
        ),
{
    match pq_mayo::SigningKey::<pq_mayo::Mayo1>::try_from(csk) {
        Ok(sk) => match sk.try_sign(msg) {
            Ok(sig) => Some(sig.as_ref().to_vec()),
            Err(_) => None,
        },
        Err(_) => None,
    }
}

/// `signature::Verifier::verify` of `pq_mayo::VerifyingKey::<Mayo1>`, with the
/// key and signature rebuilt from their bytes (`try_from` checks the lengths
/// only).
#[verifier::external_body]
pub(crate) fn mayo1_verify(cpk: &[u8], msg: &[u8], sig: &[u8]) -> (ok: bool)
    requires
        cpk@.len() == 1420,
        sig@.len() == 454,
    ensures
        ok == mayo_accepts(Variant::Mayo1, cpk@, msg@, sig@),
{
    match (
        pq_mayo::VerifyingKey::<pq_mayo::Mayo1>::try_from(cpk),
        pq_mayo::Signature::<pq_mayo::Mayo1>::try_from(sig),
    ) {
        (Ok(vk), Ok(s)) => vk.verify(msg, &s).is_ok(),
        _ => false,
    }
}

/// `pq_mayo::KeyPair::<Mayo2>::from_seed`: fails exactly when the seed is not
/// 24 bytes long; otherwise the secret key is the seed and the public key is
/// derived from it.
#[verifier::external_body]
pub(crate) fn mayo2_keypair_from_seed(seed: &[u8]) -> (r: Result<(Vec<u8>, Vec<u8>), pq_mayo::Error>)
    ensures
        r is Ok <==> seed@.len() == 24,
        r matches Ok(kp) ==> {
            &&& kp.0@ == seed@
            &&& kp.1@ == mayo_public_key(Variant::Mayo2, seed@)
            &&& kp.1@.len() == 4368
        },
{
    match pq_mayo::KeyPair::<pq_mayo::Mayo2>::from_seed(seed) {
        Ok(kp) => Ok((kp.signing_key().as_ref().to_vec(), kp.verifying_key().as_ref().to_vec())),
        Err(e) => Err(e),
    }
}

/// `pq_mayo::SigningKey::<Mayo2>::try_from` followed by
/// `VerifyingKey::from(&SigningKey)`: fails exactly when `csk` is not 24 bytes
/// long, and otherwise gives the derived public key.
#[verifier::external_body]
pub(crate) fn mayo2_public_key(csk: &[u8]) -> (r: Result<Vec<u8>, pq_mayo::Error>)
    ensures
        r is Ok <==> csk@.len() == 24,
        r matches Ok(pk) ==> pk@ == mayo_public_key(Variant::Mayo2, csk@) && pk@.len() == 4368,
{
    match pq_mayo::SigningKey::<pq_mayo::Mayo2>::try_from(csk) {
        Ok(sk) => Ok(pq_mayo::VerifyingKey::from(&sk).as_ref().to_vec()),
        Err(e) => Err(e),
    }
}

/// `signature::Signer::try_sign` of `pq_mayo::SigningKey::<Mayo2>`. Signing
/// draws a fresh random salt, so the signature itself is not determined; what
/// holds of every outcome is that a returned signature has 216 bytes and
/// passes verification under the key's own public key, since `pq-mayo`
/// verifies each signature against that key before releasing it.
#[verifier::external_body]
pub(crate) fn mayo2_sign(csk: &[u8], msg: &[u8]) -> (r: Option<Vec<u8>>)
    requires
        csk@.len() == 24,
    ensures
        r matches Some(sig) ==> sig@.len() == 216 && mayo_accepts(
            Variant::Mayo2,
            mayo_public_key(Variant::Mayo2, csk@),
            msg@,
            sig@,
        ),
{
    match pq_mayo::SigningKey::<pq_mayo::Mayo2>::try_from(csk) {
        Ok(sk) => match sk.try_sign(msg) {
            Ok(sig) => Some(sig.as_ref().to_vec()),
            Err(_) => None,
        },
        Err(_) => None,
    }
}

/// `signature::Verifier::verify` of `pq_mayo::VerifyingKey::<Mayo2>`, with the
/// key and signature rebuilt from their bytes (`try_from` checks the lengths
/// only).
#[verifier::external_body]
pub(crate) fn mayo2_verify(cpk: &[u8], msg: &[u8], sig: &[u8]) -> (ok: bool)
    requires
        cpk@.len() == 4368,
        sig@.len() == 216,
    ensures
        ok == mayo_accepts(Variant::Mayo2, cpk@, msg@, sig@),
{
    match (
        pq_mayo::VerifyingKey::<pq_mayo::Mayo2>::try_from(cpk),
        pq_mayo::Signature::<pq_mayo::Mayo2>::try_from(sig),
    ) {
        (Ok(vk), Ok(s)) => vk.verify(msg, &s).is_ok(),
        _ => false,
    }
}

/// `pq_mayo::KeyPair::<Mayo3>::from_seed`: fails exactly when the seed is not
/// 32 bytes long; otherwise the secret key is the seed and the public key is
/// derived from it.
#[verifier::external_body]
pub(crate) fn mayo3_keypair_from_seed(seed: &[u8]) -> (r: Result<(Vec<u8>, Vec<u8>), pq_mayo::Error>)
    ensures
        r is Ok <==> seed@.len() == 32,
        r matches Ok(kp) ==> {
            &&& kp.0@ == seed@
            &&& kp.1@ == mayo_public_key(Variant::Mayo3, seed@)
            &&& kp.1@.len() == 2986
        },
{
    match pq_mayo::KeyPair::<pq_mayo::Mayo3>::from_seed(seed) {
        Ok(kp) => Ok((kp.signing_key().as_ref().to_vec(), kp.verifying_key().as_ref().to_vec())),
        Err(e) => Err(e),
    }
}

/// `pq_mayo::SigningKey::<Mayo3>::try_from` followed by
/// `VerifyingKey::from(&SigningKey)`: fails exactly when `csk` is not 32 bytes
/// long, and otherwise gives the derived public key.
#[verifier::external_body]
pub(crate) fn mayo3_public_key(csk: &[u8]) -> (r: Result<Vec<u8>, pq_mayo::Error>)
    ensures
        r is Ok <==> csk@.len() == 32,
        r matches Ok(pk) ==> pk@ == mayo_public_key(Variant::Mayo3, csk@) && pk@.len() == 2986,
{
    match pq_mayo::SigningKey::<pq_mayo::Mayo3>::try_from(csk) {
        Ok(sk) => Ok(pq_mayo::VerifyingKey::from(&sk).as_ref().to_vec()),
        Err(e) => Err(e),
    }
}

/// `signature::Signer::try_sign` of `pq_mayo::SigningKey::<Mayo3>`. Signing
/// draws a fresh random salt, so the signature itself is not determined; what
/// holds of every outcome is that a returned signature has 681 bytes and
/// passes verification under the key's own public key, since `pq-mayo`
/// verifies each signature against that key before releasing it.
#[verifier::external_body]
pub(crate) fn mayo3_sign(csk: &[u8], msg: &[u8]) -> (r: Option<Vec<u8>>)
    requires
        csk@.len() == 32,
    ensures
        r matches Some(sig) ==> sig@.len() == 681 && mayo_accepts(
            Variant::Mayo3,
            mayo_public_key(Variant::Mayo3, csk@),
            msg@,
            sig@,
        ),
{
    match pq_mayo::SigningKey::<pq_mayo::Mayo3>::try_from(csk) {
        Ok(sk) => match sk.try_sign(msg) {
            Ok(sig) => Some(sig.as_ref().to_vec()),
            Err(_) => None,
        },
        Err(_) => None,
    }
}

/// `signature::Verifier::verify` of `pq_mayo::VerifyingKey::<Mayo3>`, with the
/// key and signature rebuilt from their bytes (`try_from` checks the lengths
/// only).
#[verifier::external_body]
pub(crate) fn mayo3_verify(cpk: &[u8], msg: &[u8], sig: &[u8]) -> (ok: bool)
    requires
        cpk@.len() == 2986,
        sig@.len() == 681,
    ensures
        ok == mayo_accepts(Variant::Mayo3, cpk@, msg@, sig@),
{
    match (
        pq_mayo::VerifyingKey::<pq_mayo::Mayo3>::try_from(cpk),
        pq_mayo::Signature::<pq_mayo::Mayo3>::try_from(sig),
    ) {
        (Ok(vk), Ok(s)) => vk.verify(msg, &s).is_ok(),
        _ => false,
    }
}

/// `pq_mayo::KeyPair::<Mayo5>::from_seed`: fails exactly when the seed is not
/// 40 bytes long; otherwise the secret key is the seed and the public key is
/// derived from it.
#[verifier::external_body]
pub(crate) fn mayo5_keypair_from_seed(seed: &[u8]) -> (r: Result<(Vec<u8>, Vec<u8>), pq_mayo::Error>)
    ensures
        r is Ok <==> seed@.len() == 40,
        r matches Ok(kp) ==> {
            &&& kp.0@ == seed@
            &&& kp.1@ == mayo_public_key(Variant::Mayo5, seed@)
            &&& kp.1@.len() == 5554
        },
{
    match pq_mayo::KeyPair::<pq_mayo::Mayo5>::from_seed(seed) {
        Ok(kp) => Ok((kp.signing_key().as_ref().to_vec(), kp.verifying_key().as_ref().to_vec())),
        Err(e) => Err(e),
    }
}

/// `pq_mayo::SigningKey::<Mayo5>::try_from` followed by
/// `VerifyingKey::from(&SigningKey)`: fails exactly when `csk` is not 40 bytes
/// long, and otherwise gives the derived public key.
#[verifier::external_body]
pub(crate) fn mayo5_public_key(csk: &[u8]) -> (r: Result<Vec<u8>, pq_mayo::Error>)
    ensures
        r is Ok <==> csk@.len() == 40,
        r matches Ok(pk) ==> pk@ == mayo_public_key(Variant::Mayo5, csk@) && pk@.len() == 5554,
{
    match pq_mayo::SigningKey::<pq_mayo::Mayo5>::try_from(csk) {
        Ok(sk) => Ok(pq_mayo::VerifyingKey::from(&sk).as_ref().to_vec()),
        Err(e) => Err(e),
    }
}

/// `signature::Signer::try_sign` of `pq_mayo::SigningKey::<Mayo5>`. Signing
/// draws a fresh random salt, so the signature itself is not determined; what
/// holds of every outcome is that a returned signature has 964 bytes and
/// passes verification under the key's own public key, since `pq-mayo`
/// verifies each signature against that key before releasing it.
#[verifier::external_body]
pub(crate) fn mayo5_sign(csk: &[u8], msg: &[u8]) -> (r: Option<Vec<u8>>)
    requires
        csk@.len() == 40,
    ensures
        r matches Some(sig) ==> sig@.len() == 964 && mayo_accepts(
            Variant::Mayo5,
            mayo_public_key(Variant::Mayo5, csk@),
            msg@,
            sig@,
        ),
{
    match pq_mayo::SigningKey::<pq_mayo::Mayo5>::try_from(csk) {
        Ok(sk) => match sk.try_sign(msg) {
            Ok(sig) => Some(sig.as_ref().to_vec()),
            Err(_) => None,
        },
        Err(_) => None,
    }
}

/// `signature::Verifier::verify` of `pq_mayo::VerifyingKey::<Mayo5>`, with the
/// key and signature rebuilt from their bytes (`try_from` checks the lengths
/// only).
#[verifier::external_body]
pub(crate) fn mayo5_verify(cpk: &[u8], msg: &[u8], sig: &[u8]) -> (ok: bool)
    requires
        cpk@.len() == 5554,
        sig@.len() == 964,
    ensures
        ok == mayo_accepts(Variant::Mayo5, cpk@, msg@, sig@),
{
    match (
        pq_mayo::VerifyingKey::<pq_mayo::Mayo5>::try_from(cpk),
        pq_mayo::Signature::<pq_mayo::Mayo5>::try_from(sig),
    ) {
        (Ok(vk), Ok(s)) => vk.verify(msg, &s).is_ok(),
        _ => false,
    }
}

} // verus!

verus! {

/// `rand::RngCore::fill_bytes` on a `StdRng`: `n` bytes drawn from `rng`.
/// What bytes come out is up to the generator; only their number is stated.
#[verifier::external_body]
pub(crate) fn fill_random(rng: &mut rand::rngs::StdRng, n: usize) -> (out: Vec<u8>)
    ensures
        out@.len() == n,
{
    let mut out = vec![0u8; n];
    rand::RngCore::fill_bytes(rng, &mut out);
    out
}

} // verus!

verus! {

/// `String::push`: appends the character `c`.
#[verifier::external_body]
pub(crate) fn string_push(s: &mut String, c: char)
    ensures
        final(s)@ == old(s)@.push(c),
{
    s.push(c)
}

} // verus!

verus! {

/// Secret bytes held in a `zeroize::Zeroizing<Vec<u8>>`, which wipes them
/// when it is dropped. Verus does not take a declaration of `Zeroizing`
/// (its type parameter is bounded by the outside trait `Zeroize`), so the
/// buffer sits in this opaque struct; `secret_bytes` names what it holds.
#[verifier::external_body]
pub struct SecretBytes {
    bytes: zeroize::Zeroizing<Vec<u8>>,
}

/// The bytes held by a `SecretBytes`.
pub uninterp spec fn secret_bytes(z: SecretBytes) -> Seq<u8>;

/// `zeroize::Zeroizing::new`: moves `v` into a buffer that is wiped on drop.
#[verifier::external_body]
pub(crate) fn zeroizing_new(v: Vec<u8>) -> (z: SecretBytes)
    ensures
        secret_bytes(z) == v@,
{
    SecretBytes { bytes: zeroize::Zeroizing::new(v) }
}

/// `Deref` of `zeroize::Zeroizing<Vec<u8>>`: the bytes it holds.
#[verifier::external_body]
pub(crate) fn zeroizing_as_slice(z: &SecretBytes) -> (s: &[u8])
    ensures
        s@ == secret_bytes(*z),
{
    z.bytes.as_slice()
}

/// `Clone` of `zeroize::Zeroizing<Vec<u8>>`: a new wiping buffer around a
/// clone of the bytes.
#[verifier::external_body]
pub(crate) fn zeroizing_clone(z: &SecretBytes) -> (r: SecretBytes)
    ensures
        secret_bytes(r) == secret_bytes(*z),
{
    SecretBytes { bytes: z.bytes.clone() }
}

/// `Hash::hash` of std on a vector: feeds its length and items to `state`.
/// Nothing is stated of what the hasher makes of them.
#[verifier::external_body]
pub(crate) fn hash_vec<T: core::hash::Hash, H: core::hash::Hasher>(v: &Vec<T>, state: &mut H) {
    core::hash::Hash::hash(v, state)
}

} // verus!

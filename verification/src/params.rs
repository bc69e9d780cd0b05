//! The MAYO parameter sets and what this crate needs to know of each.

use vstd::prelude::*;
use crate::backend::{
    mayo1_keypair_from_seed, mayo1_public_key, mayo1_sign, mayo1_verify, mayo2_keypair_from_seed,
    mayo2_public_key, mayo2_sign, mayo2_verify, mayo3_keypair_from_seed, mayo3_public_key,
    mayo3_sign, mayo3_verify, mayo5_keypair_from_seed, mayo5_public_key, mayo5_sign, mayo5_verify,
    mayo_accepts, mayo_public_key,
};

verus! {

#[verifier::external_type_specification]
#[verifier::external_body]
pub struct ExMayo1(pq_mayo::Mayo1);

#[verifier::external_type_specification]
#[verifier::external_body]
pub struct ExMayo2(pq_mayo::Mayo2);

#[verifier::external_type_specification]
#[verifier::external_body]
pub struct ExMayo3(pq_mayo::Mayo3);

#[verifier::external_type_specification]
#[verifier::external_body]
pub struct ExMayo5(pq_mayo::Mayo5);

#[verifier::external_type_specification]
#[verifier::external_body]
pub struct ExMayoError(pq_mayo::Error);

/// One of the four MAYO parameter sets.
#[derive(Clone, Copy, Debug, PartialEq, Eq, Structural)]
pub enum Variant {
    Mayo1,
    Mayo2,
    Mayo3,
    Mayo5,
}

impl Variant {
    /// Length in bytes of a compact secret key (the secret seed).
    pub open spec fn csk_len(self) -> nat {
        match self {
            Variant::Mayo1 => 24,
            Variant::Mayo2 => 24,
            Variant::Mayo3 => 32,
            Variant::Mayo5 => 40,
        }
    }

    /// Length in bytes of a compact public key.
    pub open spec fn cpk_len(self) -> nat {
        match self {
            Variant::Mayo1 => 1420,
            Variant::Mayo2 => 4368,
            Variant::Mayo3 => 2986,
            Variant::Mayo5 => 5554,
        }
    }

    /// Length in bytes of a signature.
    pub open spec fn sig_len(self) -> nat {
        match self {
            Variant::Mayo1 => 454,
            Variant::Mayo2 => 216,
            Variant::Mayo3 => 681,
            Variant::Mayo5 => 964,
        }
    }

    /// The name of the parameter set.
    pub open spec fn name(self) -> Seq<char> {
        match self {
            Variant::Mayo1 => "MAYO_1"@,
            Variant::Mayo2 => "MAYO_2"@,
            Variant::Mayo3 => "MAYO_3"@,
            Variant::Mayo5 => "MAYO_5"@,
        }
    }

    /// Length in bytes of the seed a key pair is generated from.
    pub open spec fn seed_len(self) -> nat {
        self.csk_len()
    }
}

/// A MAYO parameter set usable by this crate.
///
/// Each method hands its work to `pq-mayo` for the parameter set `Self`.
pub trait Parameter: Sized {
    /// The parameter set `Self` stands for.
    spec fn variant() -> Variant;

    /// The parameter set, at run time.
    fn which() -> (v: Variant)
        ensures
            v == Self::variant(),
    ;

    /// The name of the parameter set.
    fn name() -> (n: &'static str)
        ensures
            n@ == Self::variant().name(),
    ;

    /// Length of a compact secret key.
    fn csk_len() -> (n: usize)
        ensures
            n == Self::variant().csk_len(),
    ;

    /// Length of a compact public key.
    fn cpk_len() -> (n: usize)
        ensures
            n == Self::variant().cpk_len(),
    ;

    /// Length of a signature.
    fn sig_len() -> (n: usize)
        ensures
            n == Self::variant().sig_len(),
    ;

    /// Length of a key generation seed.
    fn seed_len() -> (n: usize)
        ensures
            n == Self::variant().seed_len(),
    ;

    /// The key pair generated from `seed`, as (secret key, public key).
    fn keypair_from_seed(seed: &[u8]) -> (r: Result<(Vec<u8>, Vec<u8>), pq_mayo::Error>)
        ensures
            r is Ok <==> seed@.len() == Self::variant().seed_len(),
            r matches Ok(kp) ==> {
                &&& kp.0@ == seed@
                &&& kp.1@ == mayo_public_key(Self::variant(), seed@)
                &&& kp.1@.len() == Self::variant().cpk_len()
            },
    ;

    /// The public key of the secret key `csk`, if `csk` has the length of one.
    fn public_key_of(csk: &[u8]) -> (r: Result<Vec<u8>, pq_mayo::Error>)
        ensures
            r is Ok <==> csk@.len() == Self::variant().csk_len(),
            r matches Ok(pk) ==> {
                &&& pk@ == mayo_public_key(Self::variant(), csk@)
                &&& pk@.len() == Self::variant().cpk_len()
            },
    ;

    /// A signature of `msg` under the secret key `csk`, or `None` where
    /// signing failed.
    fn sign_bytes(csk: &[u8], msg: &[u8]) -> (r: Option<Vec<u8>>)
        requires
            csk@.len() == Self::variant().csk_len(),
        ensures
            r matches Some(sig) ==> {
                &&& sig@.len() == Self::variant().sig_len()
                &&& mayo_accepts(
                    Self::variant(),
                    mayo_public_key(Self::variant(), csk@),
                    msg@,
                    sig@,
                )
            },
    ;

    /// Whether `sig` is a valid signature of `msg` under the public key `cpk`.
    fn verify_bytes(cpk: &[u8], msg: &[u8], sig: &[u8]) -> (ok: bool)
        requires
            cpk@.len() == Self::variant().cpk_len(),
            sig@.len() == Self::variant().sig_len(),
        ensures
            ok == mayo_accepts(Self::variant(), cpk@, msg@, sig@),
    ;
}

impl Parameter for pq_mayo::Mayo1 {
    open spec fn variant() -> Variant {
        Variant::Mayo1
    }

    fn which() -> (v: Variant) {
        Variant::Mayo1
    }

    fn name() -> (n: &'static str) {
        "MAYO_1"
    }

    fn csk_len() -> (n: usize) {
        24
    }

    fn cpk_len() -> (n: usize) {
        1420
    }

    fn sig_len() -> (n: usize) {
        454
    }

    fn seed_len() -> (n: usize) {
        24
    }

    fn keypair_from_seed(seed: &[u8]) -> (r: Result<(Vec<u8>, Vec<u8>), pq_mayo::Error>) {
        mayo1_keypair_from_seed(seed)
    }

    fn public_key_of(csk: &[u8]) -> (r: Result<Vec<u8>, pq_mayo::Error>) {
        mayo1_public_key(csk)
    }

    fn sign_bytes(csk: &[u8], msg: &[u8]) -> (r: Option<Vec<u8>>) {
        mayo1_sign(csk, msg)
    }

    fn verify_bytes(cpk: &[u8], msg: &[u8], sig: &[u8]) -> (ok: bool) {
        mayo1_verify(cpk, msg, sig)
    }
}

impl Parameter for pq_mayo::Mayo2 {
    open spec fn variant() -> Variant {
        Variant::Mayo2
    }

    fn which() -> (v: Variant) {
        Variant::Mayo2
    }

    fn name() -> (n: &'static str) {
        "MAYO_2"
    }

    fn csk_len() -> (n: usize) {
        24
    }

    fn cpk_len() -> (n: usize) {
        4368
    }

    fn sig_len() -> (n: usize) {
        216
    }

    fn seed_len() -> (n: usize) {
        24
    }

    fn keypair_from_seed(seed: &[u8]) -> (r: Result<(Vec<u8>, Vec<u8>), pq_mayo::Error>) {
        mayo2_keypair_from_seed(seed)
    }

    fn public_key_of(csk: &[u8]) -> (r: Result<Vec<u8>, pq_mayo::Error>) {
        mayo2_public_key(csk)
    }

    fn sign_bytes(csk: &[u8], msg: &[u8]) -> (r: Option<Vec<u8>>) {
        mayo2_sign(csk, msg)
    }

    fn verify_bytes(cpk: &[u8], msg: &[u8], sig: &[u8]) -> (ok: bool) {
        mayo2_verify(cpk, msg, sig)
    }
}

impl Parameter for pq_mayo::Mayo3 {
    open spec fn variant() -> Variant {
        Variant::Mayo3
    }

    fn which() -> (v: Variant) {
        Variant::Mayo3
    }

    fn name() -> (n: &'static str) {
        "MAYO_3"
    }

    fn csk_len() -> (n: usize) {
        32
    }

    fn cpk_len() -> (n: usize) {
        2986
    }

    fn sig_len() -> (n: usize) {
        681
    }

    fn seed_len() -> (n: usize) {
        32
    }

    fn keypair_from_seed(seed: &[u8]) -> (r: Result<(Vec<u8>, Vec<u8>), pq_mayo::Error>) {
        mayo3_keypair_from_seed(seed)
    }

    fn public_key_of(csk: &[u8]) -> (r: Result<Vec<u8>, pq_mayo::Error>) {
        mayo3_public_key(csk)
    }

    fn sign_bytes(csk: &[u8], msg: &[u8]) -> (r: Option<Vec<u8>>) {
        mayo3_sign(csk, msg)
    }

    fn verify_bytes(cpk: &[u8], msg: &[u8], sig: &[u8]) -> (ok: bool) {
        mayo3_verify(cpk, msg, sig)
    }
}

impl Parameter for pq_mayo::Mayo5 {
    open spec fn variant() -> Variant {
        Variant::Mayo5
    }

    fn which() -> (v: Variant) {
        Variant::Mayo5
    }

    fn name() -> (n: &'static str) {
        "MAYO_5"
    }

    fn csk_len() -> (n: usize) {
        40
    }

    fn cpk_len() -> (n: usize) {
        5554
    }

    fn sig_len() -> (n: usize) {
        964
    }

    fn seed_len() -> (n: usize) {
        40
    }

    fn keypair_from_seed(seed: &[u8]) -> (r: Result<(Vec<u8>, Vec<u8>), pq_mayo::Error>) {
        mayo5_keypair_from_seed(seed)
    }

    fn public_key_of(csk: &[u8]) -> (r: Result<Vec<u8>, pq_mayo::Error>) {
        mayo5_public_key(csk)
    }

    fn sign_bytes(csk: &[u8], msg: &[u8]) -> (r: Option<Vec<u8>>) {
        mayo5_sign(csk, msg)
    }

    fn verify_bytes(cpk: &[u8], msg: &[u8], sig: &[u8]) -> (ok: bool) {
        mayo5_verify(cpk, msg, sig)
    }
}

} // verus!

//! MAYO private keys, public keys and signatures, and the namespaced signing
//! and verification built on them.

use vstd::prelude::*;
use core::marker::PhantomData;
use crate::backend::{
    fill_random, hash_vec, mayo_accepts, mayo_public_key, secret_bytes, SecretBytes, zeroizing_as_slice, zeroizing_clone,
    zeroizing_new,
};
use crate::hex::{hex, hex_spec};
use crate::bytes::{append_bytes, bytes_eq, copy_bytes};
use crate::codec::{union_unique, union_unique_spec, CodecError};
use crate::params::Parameter;

verus! {

#[verifier::external_type_specification]
#[verifier::external_body]
pub struct ExStdRng(rand::rngs::StdRng);

/// Whether the MAYO public key `pk` accepts `sig` as a signature of `msg`
/// under `namespace`, for the parameter set `P`.
pub open spec fn accepts<P: Parameter>(pk: Seq<u8>, namespace: Seq<u8>, msg: Seq<u8>, sig: Seq<u8>) -> bool {
    mayo_accepts(P::variant(), pk, union_unique_spec(namespace, msg), sig)
}

/// The result of reading a value of exactly `n` bytes at `pos` in `buf`: the
/// bytes and the position after them.
pub open spec fn parse_fixed(buf: Seq<u8>, pos: int, n: nat) -> Result<(Seq<u8>, int), CodecError> {
    if buf.len() - pos < n {
        Err(CodecError::EndOfBuffer)
    } else {
        Ok((buf.subrange(pos, pos + n), pos + n))
    }
}

/// The result of decoding a whole buffer as a value of exactly `n` bytes.
pub open spec fn decode_fixed(buf: Seq<u8>, n: nat) -> Result<Seq<u8>, CodecError> {
    if buf.len() < n {
        Err(CodecError::EndOfBuffer)
    } else if buf.len() > n {
        Err(CodecError::ExtraData((buf.len() - n) as usize))
    } else {
        Ok(buf)
    }
}

fn read_fixed(buf: &[u8], pos: usize, n: usize) -> (r: Result<(Vec<u8>, usize), CodecError>)
    requires
        pos <= buf@.len(),
    ensures
        match parse_fixed(buf@, pos as int, n as nat) {
            Ok((v, end)) => r matches Ok((w, e)) && w@ == v && e == end,
            Err(err) => r == Err::<(Vec<u8>, usize), CodecError>(err),
        },
{
    let len = buf.len();
    if len - pos < n {
        return Err(CodecError::EndOfBuffer);
    }
    let mut out: Vec<u8> = Vec::with_capacity(n);
    let mut i: usize = 0;
    while i < n
        invariant
            i <= n,
            pos + n <= len,
            len == buf@.len(),
            out@ == buf@.subrange(pos as int, pos + i),
        decreases n - i,
    {
        out.push(buf[pos + i]);
        i = i + 1;
        assert(out@ =~= buf@.subrange(pos as int, pos + i));
    }
    Ok((out, pos + n))
}

/// A MAYO private key (its compact secret key) for the parameter set `P`.
///
/// The secret is held in a buffer that is wiped when the key is dropped.
pub struct PrivateKey<P: Parameter> {
    csk: SecretBytes,
    cpk: Vec<u8>,
    marker: PhantomData<P>,
}

impl<P: Parameter> View for PrivateKey<P> {
    type V = Seq<u8>;

    /// The compact secret key.
    closed spec fn view(&self) -> Seq<u8> {
        secret_bytes(self.csk)
    }
}

impl<P: Parameter> PrivateKey<P> {
    #[verifier::type_invariant]
    spec fn inv(self) -> bool {
        &&& secret_bytes(self.csk).len() == P::variant().csk_len()
        &&& self.cpk@ == mayo_public_key(P::variant(), secret_bytes(self.csk))
        &&& self.cpk@.len() == P::variant().cpk_len()
    }

    /// The public key that belongs to this private key.
    pub open spec fn public_view(&self) -> Seq<u8> {
        mayo_public_key(P::variant(), self@)
    }

    /// The encoded length of a private key.
    pub fn size() -> (n: usize)
        ensures
            n == P::variant().csk_len(),
    {
        P::csk_len()
    }

    /// The key pair generated from `seed`; `None` where the seed does not have
    /// the parameter set's seed length.
    pub fn from_seed(seed: &[u8]) -> (r: Option<Self>)
        ensures
            r is Some <==> seed@.len() == P::variant().seed_len(),
            r matches Some(k) ==> k@ == seed@,
    {
        match P::keypair_from_seed(seed) {
            Ok((csk, cpk)) => Some(PrivateKey { csk: zeroizing_new(csk), cpk, marker: PhantomData }),
            Err(_) => None,
        }
    }

    /// A fresh private key from a seed drawn from `rng`.
    pub fn random(rng: &mut rand::rngs::StdRng) -> (k: Self)
        ensures
            k@.len() == P::variant().csk_len(),
    {
        let seed = fill_random(rng, P::seed_len());
        match Self::from_seed(seed.as_slice()) {
            Some(key) => key,
            None => {
                assert(false);
                PrivateKey { csk: zeroizing_new(Vec::new()), cpk: Vec::new(), marker: PhantomData }
            },
        }
    }

    /// The compact secret key bytes.
    pub fn as_bytes(&self) -> (b: &[u8])
        ensures
            b@ == self@,
            b@.len() == P::variant().csk_len(),
    {
        proof {
            use_type_invariant(self);
        }
        zeroizing_as_slice(&self.csk)
    }

    /// The public key that belongs to this private key.
    pub fn public_key(&self) -> (pk: PublicKey<P>)
        ensures
            pk@ == self.public_view(),
    {
        proof {
            use_type_invariant(self);
        }
        PublicKey { raw: copy_bytes(self.cpk.as_slice()), marker: PhantomData }
    }

    /// `sig` is a signature that this key makes of `msg` under `namespace`:
    /// one that its public key accepts.
    pub open spec fn signs(&self, namespace: Seq<u8>, msg: Seq<u8>, sig: Seq<u8>) -> bool {
        accepts::<P>(self.public_view(), namespace, msg, sig)
    }

    /// The text that stands for the key: the parameter set, and not the
    /// secret.
    pub fn to_string(&self) -> (s: String)
        ensures
            s@ == "PrivateKey { variant: \""@ + P::variant().name() + "\", bytes: \"**FILTERED**\", .. }"@,
    {
        let mut s = "PrivateKey { variant: \"".to_owned();
        s.append(P::name());
        s.append("\", bytes: \"**FILTERED**\", .. }");
        s
    }

    /// Signs `msg` under `namespace`: the MAYO signature of the namespace and
    /// message joined by [`union_unique`]. `None` where MAYO signing failed.
    pub fn sign(&self, namespace: &[u8], msg: &[u8]) -> (r: Option<Signature<P>>)
        requires
            namespace@.len() <= u32::MAX,
        ensures
            r matches Some(sig) ==> self.signs(namespace@, msg@, sig@),
    {
        proof {
            use_type_invariant(self);
        }
        let payload = union_unique(namespace, msg);
        match P::sign_bytes(zeroizing_as_slice(&self.csk), payload.as_slice()) {
            Some(raw) => Some(Signature { raw, marker: PhantomData }),
            None => None,
        }
    }

    /// Whether two private keys hold the same secret key.
    pub fn equals(&self, other: &Self) -> (r: bool)
        ensures
            r == (self@ == other@),
    {
        bytes_eq(zeroizing_as_slice(&self.csk), zeroizing_as_slice(&other.csk))
    }

    /// Appends the encoding of the key (its compact secret key) to `buf`.
    pub fn write(&self, buf: &mut Vec<u8>)
        ensures
            final(buf)@ == old(buf)@ + self@,
    {
        append_bytes(buf, zeroizing_as_slice(&self.csk))
    }

    /// The encoding of the key.
    pub fn encode(&self) -> (out: Vec<u8>)
        ensures
            out@ == self@,
    {
        copy_bytes(zeroizing_as_slice(&self.csk))
    }

    /// Reads a key at `pos` in `buf`: the key and the position after it.
    pub fn read(buf: &[u8], pos: usize) -> (r: Result<(Self, usize), CodecError>)
        requires
            pos <= buf@.len(),
        ensures
            match parse_fixed(buf@, pos as int, P::variant().csk_len()) {
                Ok((v, end)) => r matches Ok((k, e)) && k@ == v && e == end,
                Err(err) => r == Err::<(Self, usize), CodecError>(err),
            },
    {
        match read_fixed(buf, pos, P::csk_len()) {
            Ok((csk, end)) => match P::public_key_of(csk.as_slice()) {
                Ok(cpk) => Ok((PrivateKey { csk: zeroizing_new(csk), cpk, marker: PhantomData }, end)),
                Err(_) => {
                    assert(false);
                    Err(CodecError::EndOfBuffer)
                },
            },
            Err(e) => Err(e),
        }
    }

    /// Decodes a key from the whole of `buf`.
    pub fn decode(buf: &[u8]) -> (r: Result<Self, CodecError>)
        ensures
            match decode_fixed(buf@, P::variant().csk_len()) {
                Ok(v) => r matches Ok(k) && k@ == v,
                Err(err) => r == Err::<Self, CodecError>(err),
            },
    {
        match Self::read(buf, 0) {
            Ok((k, end)) => {
                if end < buf.len() {
                    Err(CodecError::ExtraData(buf.len() - end))
                } else {
                    assert(buf@.subrange(0, end as int) =~= buf@);
                    Ok(k)
                }
            },
            Err(e) => Err(e),
        }
    }
}

impl<P: Parameter> Clone for PrivateKey<P> {
    fn clone(&self) -> (r: Self)
        ensures
            r@ == self@,
    {
        proof {
            use_type_invariant(self);
        }
        PrivateKey {
            csk: zeroizing_clone(&self.csk),
            cpk: copy_bytes(self.cpk.as_slice()),
            marker: PhantomData,
        }
    }
}

impl<P: Parameter> PartialEq for PrivateKey<P> {
    fn eq(&self, other: &Self) -> (r: bool) {
        self.equals(other)
    }
}

impl<P: Parameter> vstd::std_specs::cmp::PartialEqSpecImpl for PrivateKey<P> {
    open spec fn obeys_eq_spec() -> bool {
        true
    }

    open spec fn eq_spec(&self, other: &Self) -> bool {
        self@ == other@
    }
}

impl<P: Parameter> Eq for PrivateKey<P> {}

/// A MAYO public key (its compact public key) for the parameter set `P`.
pub struct PublicKey<P: Parameter> {
    raw: Vec<u8>,
    marker: PhantomData<P>,
}

impl<P: Parameter> View for PublicKey<P> {
    type V = Seq<u8>;

    /// The compact public key.
    closed spec fn view(&self) -> Seq<u8> {
        self.raw@
    }
}

impl<P: Parameter> PublicKey<P> {
    /// The lower-case hexadecimal rendering of the bytes.
    pub fn to_string(&self) -> (s: String)
        ensures
            s@ == hex_spec(self@),
    {
        hex(self.as_bytes())
    }

    #[verifier::type_invariant]
    spec fn inv(self) -> bool {
        self.raw@.len() == P::variant().cpk_len()
    }

    /// The encoded length of a public key.
    pub fn size() -> (n: usize)
        ensures
            n == P::variant().cpk_len(),
    {
        P::cpk_len()
    }

    /// The public key of `value`.
    pub fn from_private_key(value: PrivateKey<P>) -> (r: Self)
        ensures
            r@ == value.public_view(),
    {
        value.public_key()
    }

    /// The compact public key bytes.
    pub fn as_bytes(&self) -> (b: &[u8])
        ensures
            b@ == self@,
            b@.len() == P::variant().cpk_len(),
    {
        proof {
            use_type_invariant(self);
        }
        self.raw.as_slice()
    }

    /// Whether `sig` is a valid signature of `msg` under `namespace` by the
    /// holder of this key.
    pub fn verify(&self, namespace: &[u8], msg: &[u8], sig: &Signature<P>) -> (ok: bool)
        requires
            namespace@.len() <= u32::MAX,
        ensures
            ok == accepts::<P>(self@, namespace@, msg@, sig@),
    {
        proof {
            use_type_invariant(self);
            use_type_invariant(sig);
        }
        let payload = union_unique(namespace, msg);
        P::verify_bytes(self.raw.as_slice(), payload.as_slice(), sig.raw.as_slice())
    }

    /// Whether two public keys hold the same bytes.
    pub fn equals(&self, other: &Self) -> (r: bool)
        ensures
            r == (self@ == other@),
    {
        bytes_eq(self.raw.as_slice(), other.raw.as_slice())
    }

    /// Whether this key comes strictly before `other` in the order of their
    /// bytes.
    pub fn less_than(&self, other: &Self) -> (r: bool)
        ensures
            r == crate::bytes::lex_lt(self@, other@),
    {
        crate::bytes::lex_less(self.raw.as_slice(), other.raw.as_slice())
    }

    /// A copy of this key.
    pub fn duplicate(&self) -> (r: Self)
        ensures
            r@ == self@,
    {
        proof {
            use_type_invariant(self);
        }
        PublicKey { raw: copy_bytes(self.raw.as_slice()), marker: PhantomData }
    }

    /// Appends the encoding of the key (its compact public key) to `buf`.
    pub fn write(&self, buf: &mut Vec<u8>)
        ensures
            final(buf)@ == old(buf)@ + self@,
    {
        append_bytes(buf, self.raw.as_slice())
    }

    /// The encoding of the key.
    pub fn encode(&self) -> (out: Vec<u8>)
        ensures
            out@ == self@,
    {
        copy_bytes(self.raw.as_slice())
    }

    /// Reads a key at `pos` in `buf`: the key and the position after it.
    pub fn read(buf: &[u8], pos: usize) -> (r: Result<(Self, usize), CodecError>)
        requires
            pos <= buf@.len(),
        ensures
            match parse_fixed(buf@, pos as int, P::variant().cpk_len()) {
                Ok((v, end)) => r matches Ok((k, e)) && k@ == v && e == end,
                Err(err) => r == Err::<(Self, usize), CodecError>(err),
            },
    {
        match read_fixed(buf, pos, P::cpk_len()) {
            Ok((raw, end)) => Ok((PublicKey { raw, marker: PhantomData }, end)),
            Err(e) => Err(e),
        }
    }

    /// Decodes a key from the whole of `buf`.
    pub fn decode(buf: &[u8]) -> (r: Result<Self, CodecError>)
        ensures
            match decode_fixed(buf@, P::variant().cpk_len()) {
                Ok(v) => r matches Ok(k) && k@ == v,
                Err(err) => r == Err::<Self, CodecError>(err),
            },
    {
        match Self::read(buf, 0) {
            Ok((k, end)) => {
                if end < buf.len() {
                    Err(CodecError::ExtraData(buf.len() - end))
                } else {
                    assert(buf@.subrange(0, end as int) =~= buf@);
                    Ok(k)
                }
            },
            Err(e) => Err(e),
        }
    }
}

impl<P: Parameter> Clone for PublicKey<P> {
    fn clone(&self) -> (r: Self)
        ensures
            r@ == self@,
    {
        self.duplicate()
    }
}

impl<P: Parameter> PartialEq for PublicKey<P> {
    fn eq(&self, other: &Self) -> (r: bool) {
        self.equals(other)
    }
}

impl<P: Parameter> vstd::std_specs::cmp::PartialEqSpecImpl for PublicKey<P> {
    open spec fn obeys_eq_spec() -> bool {
        true
    }

    open spec fn eq_spec(&self, other: &Self) -> bool {
        self@ == other@
    }
}

impl<P: Parameter> Eq for PublicKey<P> {}

impl<P: Parameter> core::hash::Hash for PublicKey<P> {
    fn hash<H: core::hash::Hasher>(&self, state: &mut H) {
        hash_vec(&self.raw, state);
    }
}

impl<P: Parameter> PartialOrd for PublicKey<P> {
    fn partial_cmp(&self, other: &Self) -> (r: Option<core::cmp::Ordering>) {
        if self.less_than(other) {
            Some(core::cmp::Ordering::Less)
        } else if self.equals(other) {
            Some(core::cmp::Ordering::Equal)
        } else {
            Some(core::cmp::Ordering::Greater)
        }
    }
}

impl<P: Parameter> vstd::std_specs::cmp::PartialOrdSpecImpl for PublicKey<P> {
    open spec fn obeys_partial_cmp_spec() -> bool {
        true
    }

    /// The order of the bytes.
    open spec fn partial_cmp_spec(&self, other: &Self) -> Option<core::cmp::Ordering> {
        if crate::bytes::lex_lt(self@, other@) {
            Some(core::cmp::Ordering::Less)
        } else if self@ == other@ {
            Some(core::cmp::Ordering::Equal)
        } else {
            Some(core::cmp::Ordering::Greater)
        }
    }
}

/// A MAYO signature for the parameter set `P`.
pub struct Signature<P: Parameter> {
    raw: Vec<u8>,
    marker: PhantomData<P>,
}

impl<P: Parameter> View for Signature<P> {
    type V = Seq<u8>;

    /// The signature bytes.
    closed spec fn view(&self) -> Seq<u8> {
        self.raw@
    }
}

impl<P: Parameter> Signature<P> {
    /// The lower-case hexadecimal rendering of the bytes.
    pub fn to_string(&self) -> (s: String)
        ensures
            s@ == hex_spec(self@),
    {
        hex(self.as_bytes())
    }

    #[verifier::type_invariant]
    spec fn inv(self) -> bool {
        self.raw@.len() == P::variant().sig_len()
    }

    /// The encoded length of a signature.
    pub fn size() -> (n: usize)
        ensures
            n == P::variant().sig_len(),
    {
        P::sig_len()
    }

    /// The signature bytes.
    pub fn as_bytes(&self) -> (b: &[u8])
        ensures
            b@ == self@,
            b@.len() == P::variant().sig_len(),
    {
        proof {
            use_type_invariant(self);
        }
        self.raw.as_slice()
    }

    /// Whether two signatures hold the same bytes.
    pub fn equals(&self, other: &Self) -> (r: bool)
        ensures
            r == (self@ == other@),
    {
        bytes_eq(self.raw.as_slice(), other.raw.as_slice())
    }

    /// Whether this signature comes strictly before `other` in the order of
    /// their bytes.
    pub fn less_than(&self, other: &Self) -> (r: bool)
        ensures
            r == crate::bytes::lex_lt(self@, other@),
    {
        crate::bytes::lex_less(self.raw.as_slice(), other.raw.as_slice())
    }

    /// A copy of this signature.
    pub fn duplicate(&self) -> (r: Self)
        ensures
            r@ == self@,
    {
        proof {
            use_type_invariant(self);
        }
        Signature { raw: copy_bytes(self.raw.as_slice()), marker: PhantomData }
    }

    /// Appends the encoding of the signature (its bytes, as many as the
    /// parameter set's signature length) to `buf`.
    pub fn write(&self, buf: &mut Vec<u8>)
        ensures
            final(buf)@ == old(buf)@ + self@,
            self@.len() == P::variant().sig_len(),
    {
        proof {
            use_type_invariant(self);
        }
        append_bytes(buf, self.raw.as_slice())
    }

    /// The encoding of the signature.
    pub fn encode(&self) -> (out: Vec<u8>)
        ensures
            out@ == self@,
    {
        copy_bytes(self.raw.as_slice())
    }

    /// Reads a signature at `pos` in `buf`: the signature and the position
    /// after it.
    pub fn read(buf: &[u8], pos: usize) -> (r: Result<(Self, usize), CodecError>)
        requires
            pos <= buf@.len(),
        ensures
            match parse_fixed(buf@, pos as int, P::variant().sig_len()) {
                Ok((v, end)) => r matches Ok((s, e)) && s@ == v && e == end,
                Err(err) => r == Err::<(Self, usize), CodecError>(err),
            },
    {
        match read_fixed(buf, pos, P::sig_len()) {
            Ok((raw, end)) => Ok((Signature { raw, marker: PhantomData }, end)),
            Err(e) => Err(e),
        }
    }

    /// Decodes a signature from the whole of `buf`.
    pub fn decode(buf: &[u8]) -> (r: Result<Self, CodecError>)
        ensures
            match decode_fixed(buf@, P::variant().sig_len()) {
                Ok(v) => r matches Ok(s) && s@ == v,
                Err(err) => r == Err::<Self, CodecError>(err),
            },
    {
        match Self::read(buf, 0) {
            Ok((s, end)) => {
                if end < buf.len() {
                    Err(CodecError::ExtraData(buf.len() - end))
                } else {
                    assert(buf@.subrange(0, end as int) =~= buf@);
                    Ok(s)
                }
            },
            Err(e) => Err(e),
        }
    }
}

impl<P: Parameter> Clone for Signature<P> {
    fn clone(&self) -> (r: Self)
        ensures
            r@ == self@,
    {
        self.duplicate()
    }
}

impl<P: Parameter> PartialEq for Signature<P> {
    fn eq(&self, other: &Self) -> (r: bool) {
        self.equals(other)
    }
}

impl<P: Parameter> vstd::std_specs::cmp::PartialEqSpecImpl for Signature<P> {
    open spec fn obeys_eq_spec() -> bool {
        true
    }

    open spec fn eq_spec(&self, other: &Self) -> bool {
        self@ == other@
    }
}

impl<P: Parameter> Eq for Signature<P> {}

impl<P: Parameter> core::hash::Hash for Signature<P> {
    fn hash<H: core::hash::Hasher>(&self, state: &mut H) {
        hash_vec(&self.raw, state);
    }
}

impl<P: Parameter> PartialOrd for Signature<P> {
    fn partial_cmp(&self, other: &Self) -> (r: Option<core::cmp::Ordering>) {
        if self.less_than(other) {
            Some(core::cmp::Ordering::Less)
        } else if self.equals(other) {
            Some(core::cmp::Ordering::Equal)
        } else {
            Some(core::cmp::Ordering::Greater)
        }
    }
}

impl<P: Parameter> vstd::std_specs::cmp::PartialOrdSpecImpl for Signature<P> {
    open spec fn obeys_partial_cmp_spec() -> bool {
        true
    }

    /// The order of the bytes.
    open spec fn partial_cmp_spec(&self, other: &Self) -> Option<core::cmp::Ordering> {
        if crate::bytes::lex_lt(self@, other@) {
            Some(core::cmp::Ordering::Less)
        } else if self@ == other@ {
            Some(core::cmp::Ordering::Equal)
        } else {
            Some(core::cmp::Ordering::Greater)
        }
    }
}

/// A signature that a private key makes is accepted by its public key, under
/// the same namespace and message.
pub proof fn lemma_signature_verifies<P: Parameter>(
    sk: PrivateKey<P>,
    pk: PublicKey<P>,
    namespace: Seq<u8>,
    msg: Seq<u8>,
    sig: Seq<u8>,
)
    requires
        pk@ == sk.public_view(),
        sk.signs(namespace, msg, sig),
    ensures
        accepts::<P>(pk@, namespace, msg, sig),
{
}

/// Decoding the encoding of a value of exactly `n` bytes gives it back.
pub proof fn lemma_decode_fixed_roundtrip(v: Seq<u8>, n: nat)
    requires
        v.len() == n,
    ensures
        decode_fixed(v, n) == Ok::<Seq<u8>, CodecError>(v),
{
}

} // verus!

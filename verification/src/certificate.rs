//! Certificates: a bitmap of signers with one MAYO signature per signer, and
//! their encoding.

use vstd::prelude::*;
use crate::backend::hash_vec;
use crate::codec::CodecError;
use crate::params::Parameter;
use crate::scheme::Signature;
use crate::signers::{
    bitmap_encoding, lemma_parse_bitmap_bound, lemma_parse_bitmap_roundtrip, ones, parse_bitmap, Signers,
};
use crate::varint::{
    lemma_parse_varint_bound, lemma_parse_varint_roundtrip, lemma_varint_cap_5, parse_u32, read_u32,
    u32_encode_size, varint, write_u32,
};
use vstd::seq_lib::lemma_flatten_concat;

verus! {

/// The bytes of each signature in `s`.
pub open spec fn sig_views<P: Parameter>(s: Seq<Signature<P>>) -> Seq<Seq<u8>> {
    s.map_values(|x: Signature<P>| x@)
}

/// Decoding of `n` values of exactly `len` bytes each at the front of `s`:
/// the values and the number of bytes read.
pub open spec fn parse_items(s: Seq<u8>, n: nat, len: nat) -> Result<(Seq<Seq<u8>>, nat), CodecError>
    decreases n,
{
    if n == 0 {
        Ok((seq![], 0))
    } else if s.len() < len {
        Err(CodecError::EndOfBuffer)
    } else {
        match parse_items(s.skip(len as int), (n - 1) as nat, len) {
            Ok((rest, k)) => Ok((seq![s.take(len as int)] + rest, k + len)),
            Err(e) => Err(e),
        }
    }
}

/// `r` with `got` in front of its values and `off` added to its length.
pub open spec fn prepend_items(got: Seq<Seq<u8>>, off: nat, r: Result<(Seq<Seq<u8>>, nat), CodecError>) -> Result<(Seq<Seq<u8>>, nat), CodecError> {
    match r {
        Ok((rest, k)) => Ok((got + rest, off + k)),
        Err(e) => Err(e),
    }
}

/// The encoding of a certificate's signers and signatures: the signers'
/// bitmap, the number of signatures, then the signatures.
pub open spec fn certificate_encoding(bits: Seq<bool>, sigs: Seq<Seq<u8>>) -> Seq<u8> {
    bitmap_encoding(bits) + varint(sigs.len()) + sigs.flatten()
}

/// Decoding of a certificate for at most `max` participants, with signatures
/// of `sig_len` bytes, at the front of `s`: its signers, its signatures and
/// the number of bytes read.
pub open spec fn parse_certificate(s: Seq<u8>, max: nat, sig_len: nat) -> Result<(Seq<bool>, Seq<Seq<u8>>, nat), CodecError> {
    match parse_bitmap(s, max) {
        Err(e) => Err(e),
        Ok((bits, k1)) => if ones(bits).len() == 0 {
            Err(CodecError::NoSigners)
        } else {
            match parse_u32(s.skip(k1 as int)) {
                Err(e) => Err(e),
                Ok((n, k2)) => if n > max {
                    Err(CodecError::InvalidLength(n as usize))
                } else {
                    match parse_items(s.skip((k1 + k2) as int), n, sig_len) {
                        Err(e) => Err(e),
                        Ok((sigs, k3)) => if ones(bits).len() != n {
                            Err(CodecError::CountMismatch)
                        } else {
                            Ok((bits, sigs, k1 + k2 + k3))
                        },
                    }
                },
            }
        },
    }
}

/// Values of `len` bytes each are read back from their concatenation.
pub proof fn lemma_parse_items_roundtrip(items: Seq<Seq<u8>>, len: nat, rest: Seq<u8>)
    requires
        forall|i: int| 0 <= i < items.len() ==> (#[trigger] items[i]).len() == len,
    ensures
        parse_items(items.flatten() + rest, items.len(), len) == Ok::<(Seq<Seq<u8>>, nat), CodecError>(
            (items, items.flatten().len()),
        ),
    decreases items.len(),
{
    if items.len() > 0 {
        let s = items.flatten() + rest;
        let tail = items.drop_first();
        assert(items.flatten() == items[0] + tail.flatten());
        assert(s.skip(len as int) =~= tail.flatten() + rest);
        assert(s.take(len as int) =~= items[0]);
        lemma_parse_items_roundtrip(tail, len, rest);
        assert(seq![items[0]] + tail =~= items);
    } else {
        assert(items =~= seq![]);
    }
}

/// A certificate is read back from its encoding, whatever follows it.
pub proof fn lemma_parse_certificate_roundtrip(
    bits: Seq<bool>,
    sigs: Seq<Seq<u8>>,
    max: nat,
    sig_len: nat,
    rest: Seq<u8>,
)
    requires
        bits.len() <= max,
        bits.len() <= u32::MAX,
        sigs.len() <= max,
        sigs.len() <= u32::MAX,
        ones(bits).len() == sigs.len(),
        sigs.len() > 0,
        forall|i: int| 0 <= i < sigs.len() ==> (#[trigger] sigs[i]).len() == sig_len,
    ensures
        parse_certificate(certificate_encoding(bits, sigs) + rest, max, sig_len) == Ok::<
            (Seq<bool>, Seq<Seq<u8>>, nat),
            CodecError,
        >((bits, sigs, certificate_encoding(bits, sigs).len())),
{
    let s = certificate_encoding(bits, sigs) + rest;
    let k1 = bitmap_encoding(bits).len();
    let after = sigs.flatten() + rest;
    let tail = varint(sigs.len()) + after;
    let k2 = varint(sigs.len()).len();
    let k3 = sigs.flatten().len();
    assert(parse_bitmap(s, max) == Ok::<(Seq<bool>, nat), CodecError>((bits, k1))) by {
        assert(s =~= bitmap_encoding(bits) + tail);
        lemma_parse_bitmap_roundtrip(bits, tail, max);
    }
    assert(parse_u32(s.skip(k1 as int)) == Ok::<(nat, nat), CodecError>((sigs.len(), k2))) by {
        assert(s.skip(k1 as int) =~= tail);
        lemma_varint_cap_5();
        lemma_parse_varint_roundtrip(sigs.len(), after, 5);
    }
    assert(parse_items(s.skip((k1 + k2) as int), sigs.len(), sig_len) == Ok::<
        (Seq<Seq<u8>>, nat),
        CodecError,
    >((sigs, k3))) by {
        assert(s.skip((k1 + k2) as int) =~= after);
        lemma_parse_items_roundtrip(sigs, sig_len, rest);
    }
    assert(certificate_encoding(bits, sigs).len() == k1 + k2 + k3);
}

/// A certificate: the bitmap of the participants that signed, and their
/// signatures in increasing order of participant.
pub struct Certificate<P: Parameter> {
    /// The participants that contributed a signature.
    pub signers: Signers,
    /// The signatures, one per signer, ordered by signer index.
    pub signatures: Vec<Signature<P>>,
}

impl<P: Parameter> Certificate<P> {
    /// The signatures' bytes.
    pub open spec fn sigs(&self) -> Seq<Seq<u8>> {
        sig_views(self.signatures@)
    }

    /// Whether two certificates have the same signers and signatures.
    pub fn equals(&self, other: &Self) -> (r: bool)
        ensures
            r == (self.signers@ == other.signers@ && self.sigs() == other.sigs()),
    {
        if !self.signers.same_bits(&other.signers) {
            return false;
        }
        if self.signatures.len() != other.signatures.len() {
            assert(self.sigs().len() != other.sigs().len());
            return false;
        }
        let mut i: usize = 0;
        while i < self.signatures.len()
            invariant
                i <= self.signatures@.len(),
                self.signatures@.len() == other.signatures@.len(),
                self.sigs().take(i as int) == other.sigs().take(i as int),
            decreases self.signatures@.len() - i,
        {
            assert(self.signatures[i as int]@ == self.sigs()[i as int]);
            assert(other.signatures[i as int]@ == other.sigs()[i as int]);
            if !self.signatures[i].equals(&other.signatures[i]) {
                assert(self.sigs()[i as int] != other.sigs()[i as int]);
                return false;
            }
            assert(self.sigs().take(i + 1) =~= self.sigs().take(i as int).push(self.sigs()[i as int]));
            assert(other.sigs().take(i + 1) =~= other.sigs().take(i as int).push(other.sigs()[i as int]));
            i = i + 1;
        }
        assert(self.sigs().take(i as int) =~= self.sigs());
        assert(other.sigs().take(i as int) =~= other.sigs());
        true
    }

    /// A copy of the certificate.
    pub fn duplicate(&self) -> (r: Self)
        ensures
            r.signers@ == self.signers@,
            r.sigs() == self.sigs(),
    {
        let mut signatures: Vec<Signature<P>> = Vec::with_capacity(self.signatures.len());
        let mut i: usize = 0;
        while i < self.signatures.len()
            invariant
                i <= self.signatures@.len(),
                sig_views(signatures@) == self.sigs().take(i as int),
            decreases self.signatures@.len() - i,
        {
            let ghost before = sig_views(signatures@);
            let s = self.signatures[i].duplicate();
            assert(s@ == self.sigs()[i as int]);
            signatures.push(s);
            assert(sig_views(signatures@) =~= before.push(s@));
            i = i + 1;
            assert(sig_views(signatures@) =~= self.sigs().take(i as int));
        }
        assert(self.sigs().take(i as int) =~= self.sigs());
        Certificate { signers: self.signers.duplicate(), signatures }
    }

    /// Appends the encoding of the certificate to `buf`; every signature has
    /// the parameter set's signature length.
    pub fn write(&self, buf: &mut Vec<u8>)
        requires
            self.signatures@.len() <= u32::MAX,
        ensures
            final(buf)@ == old(buf)@ + certificate_encoding(self.signers@, self.sigs()),
            forall|i: int| 0 <= i < self.sigs().len() ==> (#[trigger] self.sigs()[i]).len() == P::variant().sig_len(),
    {
        self.signers.write(buf);
        write_u32(buf, self.signatures.len() as u32);
        let ghost start = buf@;
        let mut i: usize = 0;
        while i < self.signatures.len()
            invariant
                i <= self.signatures@.len(),
                buf@ == start + self.sigs().take(i as int).flatten(),
                forall|k: int| 0 <= k < i ==> (#[trigger] self.sigs()[k]).len() == P::variant().sig_len(),
            decreases self.signatures@.len() - i,
        {
            let ghost before = buf@;
            assert(self.signatures[i as int]@ == self.sigs()[i as int]);
            self.signatures[i].write(buf);
            proof {
                let t = self.sigs().take(i as int);
                t.lemma_flatten_push(self.sigs()[i as int]);
                assert(self.sigs().take(i + 1) =~= t.push(self.sigs()[i as int]));
            }
            i = i + 1;
        }
        assert(self.sigs().take(i as int) =~= self.sigs());
    }

    /// The number of bytes in the encoding of the certificate.
    pub fn encode_size(&self) -> (n: usize)
        requires
            self.signatures@.len() <= u32::MAX,
            certificate_encoding(self.signers@, self.sigs()).len() <= usize::MAX,
        ensures
            n == certificate_encoding(self.signers@, self.sigs()).len(),
    {
        let ghost total = certificate_encoding(self.signers@, self.sigs()).len();
        let ghost head = bitmap_encoding(self.signers@).len() + varint(self.sigs().len()).len();
        proof {
            lemma_flatten_concat(self.sigs().take(0), self.sigs().skip(0));
            assert(self.sigs().take(0) =~= Seq::<Seq<u8>>::empty());
        }
        let mut n: usize = self.signers.encode_size() + u32_encode_size(self.signatures.len() as u32);
        let mut i: usize = 0;
        while i < self.signatures.len()
            invariant
                i <= self.signatures@.len(),
                total == certificate_encoding(self.signers@, self.sigs()).len(),
                total <= usize::MAX,
                head == bitmap_encoding(self.signers@).len() + varint(self.sigs().len()).len(),
                n == head + self.sigs().take(i as int).flatten().len(),
            decreases self.signatures@.len() - i,
        {
            let sig = &self.signatures[i];
            assert(sig@ == self.sigs()[i as int]);
            proof {
                let t = self.sigs().take(i as int);
                t.lemma_flatten_push(self.sigs()[i as int]);
                assert(self.sigs().take(i + 1) =~= t.push(self.sigs()[i as int]));
                lemma_flatten_concat(self.sigs().take(i + 1), self.sigs().skip(i + 1));
                assert(self.sigs().take(i + 1) + self.sigs().skip(i + 1) =~= self.sigs());
            }
            n = n + sig.as_bytes().len();
            i = i + 1;
        }
        assert(self.sigs().take(i as int) =~= self.sigs());
        n
    }

    /// The encoding of the certificate; every signature has the parameter
    /// set's signature length.
    pub fn encode(&self) -> (out: Vec<u8>)
        requires
            self.signatures@.len() <= u32::MAX,
        ensures
            out@ == certificate_encoding(self.signers@, self.sigs()),
            forall|i: int| 0 <= i < self.sigs().len() ==> (#[trigger] self.sigs()[i]).len() == P::variant().sig_len(),
    {
        let mut out: Vec<u8> = Vec::new();
        self.write(&mut out);
        out
    }

    /// Reads a certificate for at most `participants` signers at `pos` in
    /// `buf`: the certificate and the position after it.
    #[verifier::loop_isolation(false)]
    pub fn read(buf: &[u8], pos: usize, participants: usize) -> (r: Result<(Self, usize), CodecError>)
        requires
            pos <= buf@.len(),
        ensures
            match parse_certificate(buf@.skip(pos as int), participants as nat, P::variant().sig_len()) {
                Ok((bits, sigs, k)) => r matches Ok((c, end)) && c.signers@ == bits && c.sigs() == sigs
                    && end == pos + k,
                Err(e) => r == Err::<(Self, usize), CodecError>(e),
            },
    {
        let ghost s = buf@.skip(pos as int);
        let total = buf.len();
        proof {
            lemma_parse_bitmap_bound(s, participants as nat);
        }
        let (signers, p1) = match Signers::read(buf, pos, participants) {
            Ok(v) => v,
            Err(e) => {
                return Err(e);
            },
        };
        let count = signers.count();
        if count == 0 {
            return Err(CodecError::NoSigners);
        }
        let ghost k1 = (p1 - pos) as nat;
        assert(buf@.skip(p1 as int) =~= s.skip(k1 as int));
        proof {
            lemma_parse_varint_bound(s.skip(k1 as int), 5);
            lemma_varint_cap_5();
        }
        let (n, p2) = match read_u32(buf, p1) {
            Ok(v) => v,
            Err(e) => {
                return Err(e);
            },
        };
        if n as u64 > participants as u64 {
            return Err(CodecError::InvalidLength(n as usize));
        }
        let ghost k2 = (p2 - p1) as nat;
        let n = n as usize;
        let mut signatures: Vec<Signature<P>> = Vec::new();
        let mut off: usize = p2;
        let mut i: usize = 0;
        assert(buf@.skip(off as int) =~= s.skip((k1 + k2) as int));
        assert(sig_views(signatures@) =~= seq![]);
        while i < n
            invariant
                p2 <= off <= total,
                total == buf@.len(),
                i <= n,
                parse_items(s.skip((k1 + k2) as int), n as nat, P::variant().sig_len()) == prepend_items(
                    sig_views(signatures@),
                    (off - p2) as nat,
                    parse_items(buf@.skip(off as int), (n - i) as nat, P::variant().sig_len()),
                ),
            decreases n - i,
        {
            let ghost rest = buf@.skip(off as int);
            match Signature::<P>::read(buf, off) {
                Ok((sig, next)) => {
                    let ghost before = sig_views(signatures@);
                    assert(sig@ == rest.take(P::variant().sig_len() as int));
                    assert(buf@.skip(next as int) =~= rest.skip(P::variant().sig_len() as int));
                    signatures.push(sig);
                    assert(sig_views(signatures@) =~= before.push(sig@));
                    assert(before + (seq![sig@] + Seq::<Seq<u8>>::empty()) =~= before.push(sig@));
                    proof {
                        let L = P::variant().sig_len();
                        let inner = parse_items(buf@.skip(next as int), (n - i - 1) as nat, L);
                        match inner {
                            Ok((more, kk)) => {
                                assert(before + (seq![sig@] + more) =~= before.push(sig@) + more);
                            },
                            Err(_) => {},
                        }
                    }
                    off = next;
                },
                Err(e) => {
                    return Err(e);
                },
            }
            i = i + 1;
        }
        if count != n {
            return Err(CodecError::CountMismatch);
        }
        assert(sig_views(signatures@) + Seq::<Seq<u8>>::empty() =~= sig_views(signatures@));
        Ok((Certificate { signers, signatures }, off))
    }

    /// Decodes a certificate for at most `participants` signers from the
    /// whole of `buf`.
    pub fn decode(buf: &[u8], participants: usize) -> (r: Result<Self, CodecError>)
        ensures
            match parse_certificate(buf@, participants as nat, P::variant().sig_len()) {
                Ok((bits, sigs, k)) => if k < buf@.len() {
                    r == Err::<Self, CodecError>(CodecError::ExtraData((buf@.len() - k) as usize))
                } else {
                    r matches Ok(c) && c.signers@ == bits && c.sigs() == sigs
                },
                Err(e) => r == Err::<Self, CodecError>(e),
            },
    {
        assert(buf@.skip(0) =~= buf@);
        match Self::read(buf, 0, participants) {
            Ok((c, end)) => {
                if end < buf.len() {
                    Err(CodecError::ExtraData(buf.len() - end))
                } else {
                    Ok(c)
                }
            },
            Err(e) => Err(e),
        }
    }
}

impl<P: Parameter> Clone for Certificate<P> {
    fn clone(&self) -> (r: Self)
        ensures
            r.signers@ == self.signers@,
            r.sigs() == self.sigs(),
    {
        self.duplicate()
    }
}

impl<P: Parameter> PartialEq for Certificate<P> {
    fn eq(&self, other: &Self) -> (r: bool) {
        self.equals(other)
    }
}

impl<P: Parameter> vstd::std_specs::cmp::PartialEqSpecImpl for Certificate<P> {
    open spec fn obeys_eq_spec() -> bool {
        true
    }

    open spec fn eq_spec(&self, other: &Self) -> bool {
        self.signers@ == other.signers@ && self.sigs() == other.sigs()
    }
}

impl<P: Parameter> Eq for Certificate<P> {}

impl<P: Parameter> core::hash::Hash for Certificate<P> {
    fn hash<H: core::hash::Hasher>(&self, state: &mut H) {
        self.signers.hash(state);
        hash_vec(&self.signatures, state);
    }
}

} // verus!

//! The attributable MAYO certificate scheme: a committee signs a subject one
//! participant at a time, and a quorum of such attestations is assembled into
//! a certificate that names its signers.

use vstd::prelude::*;
use crate::bytes::copy_bytes;
use crate::certificate::{sig_views, Certificate};
use crate::params::Parameter;
use crate::participants::{Faults, Participant, ParticipantSet};
use crate::backend::mayo_accepts;
use crate::codec::union_unique_spec;
use crate::scheme::{accepts, PrivateKey, Signature};
use crate::signers::{lemma_ones, lemma_ones_unique, ones, Signers};

verus! {

/// What a scheme keeps of the namespace it was created with.
pub trait Namespace: Sized {
    /// `self` is the kept form of `namespace`.
    spec fn derived_from(&self, namespace: Seq<u8>) -> bool;

    /// The kept form of `namespace`.
    fn derive(namespace: &[u8]) -> (r: Self)
        ensures
            r.derived_from(namespace@),
    ;
}

impl Namespace for Vec<u8> {
    /// The namespace is kept as it is.
    open spec fn derived_from(&self, namespace: Seq<u8>) -> bool {
        self@ == namespace
    }

    fn derive(namespace: &[u8]) -> (r: Vec<u8>) {
        copy_bytes(namespace)
    }
}

/// Something a committee signs: a message, under a namespace chosen from the
/// scheme's kept namespace.
pub trait Subject {
    /// The kept namespace that subjects of this kind choose from.
    type Namespace;

    /// The namespace this subject is signed under.
    spec fn namespace_of(&self, derived: &Self::Namespace) -> Seq<u8>;

    /// The message this subject stands for.
    spec fn message_of(&self) -> Seq<u8>;

    /// The namespace this subject is signed under.
    fn namespace<'a>(&self, derived: &'a Self::Namespace) -> (r: &'a [u8])
        ensures
            r@ == self.namespace_of(derived),
    ;

    /// The message this subject stands for.
    fn message(&self) -> (r: Vec<u8>)
        ensures
            r@ == self.message_of(),
    ;
}

/// A plain message, signed under the scheme's namespace as it was given.
pub struct Message {
    /// The message bytes.
    pub message: Vec<u8>,
}

impl Clone for Message {
    fn clone(&self) -> (r: Self)
        ensures
            r.message@ == self.message@,
    {
        Message { message: copy_bytes(self.message.as_slice()) }
    }
}

impl Subject for Message {
    type Namespace = Vec<u8>;

    open spec fn namespace_of(&self, derived: &Vec<u8>) -> Seq<u8> {
        derived@
    }

    open spec fn message_of(&self) -> Seq<u8> {
        self.message@
    }

    fn namespace<'a>(&self, derived: &'a Vec<u8>) -> (r: &'a [u8]) {
        derived.as_slice()
    }

    fn message(&self) -> (r: Vec<u8>) {
        copy_bytes(self.message.as_slice())
    }
}

/// One participant's signature of a subject.
pub struct Attestation<P: Parameter> {
    /// The index of the participant that signed.
    pub signer: Participant,
    /// The signature.
    pub signature: Signature<P>,
}

/// Each attestation as its signer's index and its signature's bytes.
pub open spec fn att_views<P: Parameter>(atts: Seq<Attestation<P>>) -> Seq<(nat, Seq<u8>)> {
    atts.map_values(|a: Attestation<P>| (a.signer.0 as nat, a.signature@))
}

/// Each entry as a signer's index and a signature's bytes.
pub open spec fn entry_views<P: Parameter>(e: Seq<(Participant, Signature<P>)>) -> Seq<(nat, Seq<u8>)> {
    e.map_values(|x: (Participant, Signature<P>)| (x.0.0 as nat, x.1@))
}

/// No two attestations come from the same signer.
pub open spec fn signers_distinct(atts: Seq<(nat, Seq<u8>)>) -> bool {
    forall|a: int, b: int| 0 <= a < b < atts.len() ==> (#[trigger] atts[a]).0 != (#[trigger] atts[b]).0
}

/// Every attestation names a participant below `n`.
pub open spec fn all_in_range(atts: Seq<(nat, Seq<u8>)>, n: nat) -> bool {
    forall|j: int| 0 <= j < atts.len() ==> (#[trigger] atts[j]).0 < n
}

/// The signers are in strictly increasing order.
pub open spec fn signers_increasing(e: Seq<(nat, Seq<u8>)>) -> bool {
    forall|a: int, b: int| 0 <= a < b < e.len() ==> (#[trigger] e[a]).0 < (#[trigger] e[b]).0
}

/// The size of a quorum among `n` participants under the fault model `M`.
pub open spec fn quorum_of<M: Faults>(n: nat) -> int {
    n - M::tolerated(n)
}

/// The attestation of participant `signer` with the signature `sig` is valid
/// for the committee `participants`, the namespace `ns` and the message `msg`.
pub open spec fn attestation_valid<P: Parameter>(
    participants: Seq<Seq<u8>>,
    ns: Seq<u8>,
    msg: Seq<u8>,
    signer: nat,
    sig: Seq<u8>,
) -> bool {
    signer < participants.len() && accepts::<P>(participants[signer as int], ns, msg, sig)
}

/// A certificate with the signer bitmap `bits` and the signatures `sigs` is
/// valid for the committee `participants`, a quorum of `quorum`, the namespace
/// `ns` and the message `msg`: the bitmap covers the committee, there is one
/// signature per signer, at least a quorum of them, and each is valid for its
/// signer.
pub open spec fn certificate_valid<P: Parameter>(
    participants: Seq<Seq<u8>>,
    quorum: int,
    ns: Seq<u8>,
    msg: Seq<u8>,
    bits: Seq<bool>,
    sigs: Seq<Seq<u8>>,
) -> bool {
    &&& bits.len() == participants.len()
    &&& ones(bits).len() == sigs.len()
    &&& sigs.len() >= quorum
    &&& forall|m: int|
        0 <= m < sigs.len() ==> accepts::<P>(participants[ones(bits)[m]], ns, msg, #[trigger] sigs[m])
}

/// The bitmap `bits` and signatures `sigs` are what assembling the
/// attestations `atts` of a committee of `n` gives: the bitmap marks exactly
/// the attestations' signers, and the signatures are theirs, one each, in
/// increasing order of signer.
pub open spec fn assembled(n: nat, atts: Seq<(nat, Seq<u8>)>, bits: Seq<bool>, sigs: Seq<Seq<u8>>) -> bool {
    &&& bits.len() == n
    &&& forall|i: int|
        0 <= i < n ==> (#[trigger] bits[i] <==> exists|j: int| 0 <= j < atts.len() && atts[j].0 == i)
    &&& ones(bits).len() == sigs.len()
    &&& sigs.len() == atts.len()
    &&& forall|m: int| 0 <= m < sigs.len() ==> atts.contains((ones(bits)[m] as nat, #[trigger] sigs[m]))
}

/// An attestation that a participant makes with its own key is valid for the
/// committee.
pub proof fn lemma_own_attestation_valid<P: Parameter>(
    participants: Seq<Seq<u8>>,
    index: nat,
    key: PrivateKey<P>,
    ns: Seq<u8>,
    msg: Seq<u8>,
    sig: Seq<u8>,
)
    requires
        index < participants.len(),
        participants[index as int] == key.public_view(),
        key.signs(ns, msg, sig),
    ensures
        attestation_valid::<P>(participants, ns, msg, index, sig),
{
}

/// A certificate assembled from valid attestations, at least a quorum of
/// them, is itself valid.
pub proof fn lemma_assembled_certificate_valid<P: Parameter>(
    participants: Seq<Seq<u8>>,
    quorum: int,
    ns: Seq<u8>,
    msg: Seq<u8>,
    atts: Seq<(nat, Seq<u8>)>,
    bits: Seq<bool>,
    sigs: Seq<Seq<u8>>,
)
    requires
        assembled(participants.len(), atts, bits, sigs),
        atts.len() >= quorum,
        forall|j: int|
            0 <= j < atts.len() ==> attestation_valid::<P>(participants, ns, msg, (#[trigger] atts[j]).0, atts[j].1),
    ensures
        certificate_valid::<P>(participants, quorum, ns, msg, bits, sigs),
{
    lemma_ones(bits);
    assert forall|m: int| 0 <= m < sigs.len() implies accepts::<P>(
        participants[ones(bits)[m]],
        ns,
        msg,
        #[trigger] sigs[m],
    ) by {
        let j = choose|j: int| 0 <= j < atts.len() && atts[j] == (ones(bits)[m] as nat, sigs[m]);
        assert(attestation_valid::<P>(participants, ns, msg, atts[j].0, atts[j].1));
    }
}

/// Assembling does not depend on the order of the attestations: two lists with
/// the same attestations (in particular, one a reordering of the other), no
/// signer attesting twice, assemble to the same bitmap and signatures.
pub proof fn lemma_assembled_order_independent(
    n: nat,
    atts1: Seq<(nat, Seq<u8>)>,
    atts2: Seq<(nat, Seq<u8>)>,
    bits1: Seq<bool>,
    sigs1: Seq<Seq<u8>>,
    bits2: Seq<bool>,
    sigs2: Seq<Seq<u8>>,
)
    requires
        atts1.to_set() == atts2.to_set(),
        signers_distinct(atts1),
        assembled(n, atts1, bits1, sigs1),
        assembled(n, atts2, bits2, sigs2),
    ensures
        bits1 == bits2,
        sigs1 == sigs2,
{
    assert forall|i: int| 0 <= i < n implies bits1[i] == bits2[i] by {
        if bits1[i] {
            let j = choose|j: int| 0 <= j < atts1.len() && atts1[j].0 == i;
            assert(atts1.to_set().contains(atts1[j]));
            assert(atts2.to_set().contains(atts1[j]));
            let k = choose|k: int| 0 <= k < atts2.len() && atts2[k] == atts1[j];
            assert(atts2[k].0 == i);
        }
        if bits2[i] {
            let j = choose|j: int| 0 <= j < atts2.len() && atts2[j].0 == i;
            assert(atts2.to_set().contains(atts2[j]));
            assert(atts1.to_set().contains(atts2[j]));
            let k = choose|k: int| 0 <= k < atts1.len() && atts1[k] == atts2[j];
            assert(atts1[k].0 == i);
        }
    }
    assert(bits1 =~= bits2);
    assert forall|m: int| 0 <= m < sigs1.len() implies sigs1[m] == sigs2[m] by {
        let x1 = (ones(bits1)[m] as nat, sigs1[m]);
        let x2 = (ones(bits1)[m] as nat, sigs2[m]);
        assert(atts1.contains(x1));
        assert(atts2.contains(x2));
        let k = choose|k: int| 0 <= k < atts2.len() && atts2[k] == x2;
        assert(atts2.to_set().contains(x2));
        assert(atts1.to_set().contains(x2));
        let a = choose|a: int| 0 <= a < atts1.len() && atts1[a] == x1;
        let b = choose|b: int| 0 <= b < atts1.len() && atts1[b] == x2;
        if a != b {
            if a < b {
                assert(atts1[a].0 != atts1[b].0);
            } else {
                assert(atts1[b].0 != atts1[a].0);
            }
        }
    }
    assert(sigs1 =~= sigs2);
}

/// Attestations that members of a committee make of one subject, each with
/// its own key at its own index, at least a quorum of them, all name members
/// (so assembling them succeeds), and the certificate assembled from them is
/// valid for that subject.
pub proof fn lemma_signed_quorum_certifies<P: Parameter>(
    participants: Seq<Seq<u8>>,
    quorum: int,
    ns: Seq<u8>,
    msg: Seq<u8>,
    keys: Seq<PrivateKey<P>>,
    atts: Seq<(nat, Seq<u8>)>,
    bits: Seq<bool>,
    sigs: Seq<Seq<u8>>,
)
    requires
        atts.len() == keys.len(),
        atts.len() >= quorum,
        forall|j: int|
            0 <= j < atts.len() ==> (#[trigger] atts[j]).0 < participants.len() && participants[atts[j].0 as int]
                == keys[j].public_view(),
        forall|j: int| 0 <= j < atts.len() ==> #[trigger] keys[j].signs(ns, msg, atts[j].1),
        assembled(participants.len(), atts, bits, sigs),
    ensures
        all_in_range(atts, participants.len()),
        certificate_valid::<P>(participants, quorum, ns, msg, bits, sigs),
{
    assert forall|j: int| 0 <= j < atts.len() implies attestation_valid::<P>(
        participants,
        ns,
        msg,
        (#[trigger] atts[j]).0,
        atts[j].1,
    ) by {
        assert(keys[j].signs(ns, msg, atts[j].1));
        lemma_own_attestation_valid::<P>(participants, atts[j].0, keys[j], ns, msg, atts[j].1);
    }
    lemma_assembled_certificate_valid::<P>(participants, quorum, ns, msg, atts, bits, sigs);
}

/// A plain message, in a scheme that keeps its namespace as given, is signed
/// and checked under exactly the namespace the scheme was made with and over
/// exactly the message's own bytes: an attestation of it is valid when the
/// named participant's key accepts the signature of those bytes under that
/// namespace, a certificate of it when its signatures are accepted so, and a
/// key signs it when its signature is accepted so.
pub proof fn lemma_message_signed_as_given<P: Parameter>(
    g: Generic<P, Vec<u8>>,
    ns: Seq<u8>,
    m: Message,
    key: PrivateKey<P>,
    signer: nat,
    quorum: int,
    bits: Seq<bool>,
    sigs: Seq<Seq<u8>>,
    sig: Seq<u8>,
)
    requires
        g.namespace.derived_from(ns),
    ensures
        m.namespace_of(&g.namespace) == ns,
        m.message_of() == m.message@,
        attestation_valid::<P>(g.participants@, m.namespace_of(&g.namespace), m.message_of(), signer, sig)
            <==> signer < g.participants@.len() && mayo_accepts(
            P::variant(),
            g.participants@[signer as int],
            union_unique_spec(ns, m.message@),
            sig,
        ),
        certificate_valid::<P>(g.participants@, quorum, m.namespace_of(&g.namespace), m.message_of(), bits, sigs)
            <==> {
            &&& bits.len() == g.participants@.len()
            &&& ones(bits).len() == sigs.len()
            &&& sigs.len() >= quorum
            &&& forall|k: int|
                0 <= k < sigs.len() ==> mayo_accepts(
                    P::variant(),
                    g.participants@[ones(bits)[k]],
                    union_unique_spec(ns, m.message@),
                    #[trigger] sigs[k],
                )
        },
        key.signs(m.namespace_of(&g.namespace), m.message_of(), sig) <==> mayo_accepts(
            P::variant(),
            key.public_view(),
            union_unique_spec(ns, m.message@),
            sig,
        ),
{
}

/// `entries` sorted by signer; the signers must differ.
fn sort_by_signer<P: Parameter>(entries: &Vec<(Participant, Signature<P>)>) -> (out: Vec<(Participant, Signature<P>)>)
    requires
        signers_distinct(entry_views(entries@)),
    ensures
        out@.len() == entries@.len(),
        signers_increasing(entry_views(out@)),
        entry_views(out@).to_set() == entry_views(entries@).to_set(),
{
    let ghost input = entry_views(entries@);
    let mut out: Vec<(Participant, Signature<P>)> = Vec::new();
    let mut i: usize = 0;
    while i < entries.len()
        invariant
            i <= entries@.len(),
            input == entry_views(entries@),
            signers_distinct(input),
            out@.len() == i,
            signers_increasing(entry_views(out@)),
            entry_views(out@).to_set() == input.take(i as int).to_set(),
        decreases entries@.len() - i,
    {
        let e = &entries[i];
        let ghost ev = input[i as int];
        assert(ev == (e.0.0 as nat, e.1@));
        let mut j: usize = 0;
        while j < out.len()
            invariant
                j <= out@.len(),
                ev.0 == e.0.0,
                forall|m: int| 0 <= m < j ==> (#[trigger] entry_views(out@)[m]).0 < ev.0,
            ensures
                j <= out@.len(),
                j < out@.len() ==> entry_views(out@)[j as int].0 >= ev.0,
                forall|m: int| 0 <= m < j ==> (#[trigger] entry_views(out@)[m]).0 < ev.0,
            decreases out@.len() - j,
        {
            assert(entry_views(out@)[j as int].0 == out[j as int].0.0);
            if out[j].0.0 >= e.0.0 {
                break;
            }
            j = j + 1;
        }
        let ghost ov = entry_views(out@);
        proof {
            if j < out@.len() {
                assert(ov[j as int].0 != ev.0) by {
                    assert(ov.to_set().contains(ov[j as int]));
                    assert(input.take(i as int).to_set().contains(ov[j as int]));
                    let q = choose|q: int| 0 <= q < i && input.take(i as int)[q] == ov[j as int];
                    assert(input[q].0 != input[i as int].0);
                }
            }
        }
        out.insert(j, (e.0, e.1.duplicate()));
        proof {
            let nv = entry_views(out@);
            assert(nv =~= ov.insert(j as int, ev));
            assert forall|a: int, b: int| 0 <= a < b < nv.len() implies (#[trigger] nv[a]).0 < (
            #[trigger] nv[b]).0 by {
                if a < j && b == j {
                } else if a == j && b > j {
                } else if a < j && b > j {
                    assert(ov[a].0 < ov[b - 1].0);
                }
            }
            let pre = input.take(i as int);
            let pre2 = input.take(i + 1);
            assert(pre2 =~= pre.push(ev));
            assert(nv.to_set() =~= pre2.to_set()) by {
                assert forall|x: (nat, Seq<u8>)| nv.to_set().contains(x) implies pre2.to_set().contains(x) by {
                    let m = choose|m: int| 0 <= m < nv.len() && nv[m] == x;
                    if m == j {
                        assert(pre2[i as int] == x);
                    } else if m < j {
                        assert(ov.to_set().contains(ov[m]));
                        let q = choose|q: int| 0 <= q < pre.len() && pre[q] == x;
                        assert(pre2[q] == x);
                    } else {
                        assert(ov.to_set().contains(ov[m - 1]));
                        let q = choose|q: int| 0 <= q < pre.len() && pre[q] == x;
                        assert(pre2[q] == x);
                    }
                }
                assert forall|x: (nat, Seq<u8>)| pre2.to_set().contains(x) implies nv.to_set().contains(x) by {
                    let m = choose|m: int| 0 <= m < pre2.len() && pre2[m] == x;
                    if m == i {
                        assert(nv[j as int] == x);
                    } else {
                        assert(pre.to_set().contains(pre[m]));
                        let q = choose|q: int| 0 <= q < ov.len() && ov[q] == x;
                        if q < j {
                            assert(nv[q] == x);
                        } else {
                            assert(nv[q + 1] == x);
                        }
                    }
                }
            }
        }
        i = i + 1;
    }
    assert(input.take(i as int) =~= input);
    out
}

/// The MAYO certificate scheme of one committee, for signers and verifiers.
pub struct Generic<P: Parameter, N> {
    /// The committee, in order.
    pub participants: ParticipantSet<P>,
    /// This participant's index and private key, where it signs.
    pub signer: Option<(Participant, PrivateKey<P>)>,
    /// The kept form of the namespace.
    pub namespace: N,
}

impl<P: Parameter, N: Namespace + Clone> Clone for Generic<P, N> {
    /// A copy of the scheme: the same committee and signer, and a clone of the
    /// kept namespace.
    fn clone(&self) -> (r: Self)
        ensures
            r.participants@ == self.participants@,
            r.signer is Some <==> self.signer is Some,
            r.signer matches Some(s) ==> self.signer matches Some(t) && s.0 == t.0 && s.1@ == t.1@,
            cloned::<N>(self.namespace, r.namespace),
    {
        let signer = match &self.signer {
            Some((index, key)) => Some((*index, key.clone())),
            None => None,
        };
        Generic {
            participants: self.participants.clone(),
            signer,
            namespace: self.namespace.clone(),
        }
    }
}

impl<P: Parameter, N: Namespace> Generic<P, N> {
    /// A scheme that signs with `private_key`; `None` where its public key is
    /// not in the committee.
    pub fn signer(namespace: &[u8], participants: ParticipantSet<P>, private_key: PrivateKey<P>) -> (r: Option<Self>)
        ensures
            r is Some <==> participants@.contains(private_key.public_view()),
            r matches Some(g) ==> {
                &&& g.participants@ == participants@
                &&& g.namespace.derived_from(namespace@)
                &&& g.signer matches Some(s) && s.1@ == private_key@ && s.0.0 < participants@.len()
                    && participants@[s.0.0 as int] == private_key.public_view()
            },
    {
        let public_key = private_key.public_key();
        match participants.index(&public_key) {
            Some(index) => Some(Generic {
                participants,
                signer: Some((index, private_key)),
                namespace: N::derive(namespace),
            }),
            None => None,
        }
    }

    /// A scheme that only verifies.
    pub fn new_verifier(namespace: &[u8], participants: ParticipantSet<P>) -> (g: Self)
        ensures
            g.participants@ == participants@,
            g.signer is None,
            g.namespace.derived_from(namespace@),
    {
        Generic { participants, signer: None, namespace: N::derive(namespace) }
    }

    /// This participant's index, where the scheme signs.
    pub fn me(&self) -> (r: Option<Participant>)
        ensures
            r == match self.signer {
                Some(s) => Some(s.0),
                None => None::<Participant>,
            },
    {
        match &self.signer {
            Some((index, _)) => Some(*index),
            None => None,
        }
    }

    /// This participant's attestation of `subject`; `None` where the scheme
    /// does not sign, or MAYO signing failed.
    pub fn sign<S: Subject<Namespace = N>>(&self, subject: S) -> (r: Option<Attestation<P>>)
        requires
            self.signer is Some ==> subject.namespace_of(&self.namespace).len() <= u32::MAX,
        ensures
            self.signer is None ==> r is None,
            r matches Some(a) ==> self.signer matches Some(s) && a.signer == s.0 && s.1.signs(
                subject.namespace_of(&self.namespace),
                subject.message_of(),
                a.signature@,
            ),
    {
        match &self.signer {
            Some((index, private_key)) => {
                let message = subject.message();
                match private_key.sign(subject.namespace(&self.namespace), message.as_slice()) {
                    Some(signature) => Some(Attestation { signer: *index, signature }),
                    None => None,
                }
            },
            None => None,
        }
    }

    /// Whether `attestation` is a valid signature of `subject` by the
    /// participant it names.
    pub fn verify_attestation<S: Subject<Namespace = N>>(&self, subject: S, attestation: &Attestation<P>) -> (ok: bool)
        requires
            attestation.signer.0 < self.participants@.len() ==> subject.namespace_of(&self.namespace).len() <= u32::MAX,
        ensures
            ok == attestation_valid::<P>(
                self.participants@,
                subject.namespace_of(&self.namespace),
                subject.message_of(),
                attestation.signer.0 as nat,
                attestation.signature@,
            ),
    {
        let public_key = match self.participants.key(attestation.signer) {
            Some(k) => k,
            None => {
                return false;
            },
        };
        let message = subject.message();
        public_key.verify(subject.namespace(&self.namespace), message.as_slice(), &attestation.signature)
    }

    /// The certificate of `attestations`, with their signatures ordered by
    /// signer; `None` where one names no participant or there are fewer than a
    /// quorum of them under the fault model `M`. Where all name participants and
    /// there are a quorum of them, no participant may attest twice: the
    /// signers' bitmap is built by `Signers::from`, which takes each signer once
    /// and refuses a repeated one.
    pub fn assemble<M: Faults>(&self, attestations: Vec<Attestation<P>>) -> (r: Option<Certificate<P>>)
        requires
            all_in_range(att_views(attestations@), self.participants@.len()) && attestations@.len()
                >= quorum_of::<M>(self.participants@.len()) ==> signers_distinct(att_views(attestations@)),
        ensures
            r is Some <==> all_in_range(att_views(attestations@), self.participants@.len())
                && attestations@.len() >= quorum_of::<M>(self.participants@.len()),
            r matches Some(c) ==> assembled(self.participants@.len(), att_views(attestations@), c.signers@, c.sigs()),
    {
        let ghost atts = att_views(attestations@);
        let n = self.participants.len();
        let mut entries: Vec<(Participant, Signature<P>)> = Vec::new();
        let mut i: usize = 0;
        while i < attestations.len()
            invariant
                i <= attestations@.len(),
                atts == att_views(attestations@),
                n == self.participants@.len(),
                entry_views(entries@) == atts.take(i as int),
                all_in_range(atts.take(i as int), n as nat),
            decreases attestations@.len() - i,
        {
            let a = &attestations[i];
            assert(atts[i as int] == (a.signer.0 as nat, a.signature@));
            if a.signer.0 as usize >= n {
                assert(!all_in_range(atts, n as nat));
                return None;
            }
            let ghost before = entry_views(entries@);
            entries.push((a.signer, a.signature.duplicate()));
            assert(entry_views(entries@) =~= before.push(atts[i as int]));
            assert(atts.take(i + 1) =~= atts.take(i as int).push(atts[i as int]));
            i = i + 1;
        }
        assert(atts.take(i as int) =~= atts);
        let quorum = self.participants.quorum::<M>();
        if entries.len() < quorum as usize {
            return None;
        }
        let sorted = sort_by_signer(&entries);
        let ghost sv = entry_views(sorted@);
        let mut signer_list: Vec<Participant> = Vec::new();
        let mut signatures: Vec<Signature<P>> = Vec::new();
        let mut k: usize = 0;
        while k < sorted.len()
            invariant
                k <= sorted@.len(),
                sv == entry_views(sorted@),
                signer_list@.len() == k,
                signatures@.len() == k,
                forall|m: int| 0 <= m < k ==> (#[trigger] signer_list@[m]).0 == sv[m].0,
                forall|m: int| 0 <= m < k ==> (#[trigger] signatures@[m])@ == sv[m].1,
            decreases sorted@.len() - k,
        {
            assert(sv[k as int] == (sorted[k as int].0.0 as nat, sorted[k as int].1@));
            signer_list.push(sorted[k].0);
            signatures.push(sorted[k].1.duplicate());
            k = k + 1;
        }
        proof {
            assert forall|j: int| 0 <= j < signer_list@.len() implies (#[trigger] signer_list@[j]).0 < n by {
                assert(sv.to_set().contains(sv[j]));
                assert(atts.to_set().contains(sv[j]));
                let q = choose|q: int| 0 <= q < atts.len() && atts[q] == sv[j];
                assert(atts[q].0 < n);
            }
        }
        let signers = Signers::from(n, signer_list.as_slice());
        proof {
            let bits = signers@;
            let list = Seq::new(sv.len(), |m: int| sv[m].0 as int);
            assert forall|i: int| 0 <= i < bits.len() implies (#[trigger] bits[i] <==> exists|m: int| 0 <= m < list.len() && list[m] == i) by {
                if bits[i] {
                    let j = choose|j: int| 0 <= j < signer_list@.len() && signer_list@[j].0 == i;
                    assert(list[j] == i);
                }
                if exists|m: int| 0 <= m < list.len() && list[m] == i {
                    let m = choose|m: int| 0 <= m < list.len() && list[m] == i;
                    assert(signer_list@[m].0 == i);
                }
            }
            assert forall|a: int, b: int| 0 <= a < b < list.len() implies #[trigger] list[a] < #[trigger] list[b] by {
                assert(sv[a].0 < sv[b].0);
            }
            assert forall|m: int| 0 <= m < list.len() implies 0 <= #[trigger] list[m] < bits.len() by {
                assert(signer_list@[m].0 < n);
            }
            lemma_ones_unique(bits, list);
            let sigs = sig_views(signatures@);
            assert forall|i: int| 0 <= i < n implies (#[trigger] bits[i] <==> exists|j: int| 0 <= j < atts.len() && atts[j].0 == i) by {
                if bits[i] {
                    let m = choose|m: int| 0 <= m < list.len() && list[m] == i;
                    assert(sv.to_set().contains(sv[m]));
                    assert(atts.to_set().contains(sv[m]));
                    let q = choose|q: int| 0 <= q < atts.len() && atts[q] == sv[m];
                    assert(atts[q].0 == i);
                }
                if exists|j: int| 0 <= j < atts.len() && atts[j].0 == i {
                    let j = choose|j: int| 0 <= j < atts.len() && atts[j].0 == i;
                    assert(atts.to_set().contains(atts[j]));
                    assert(sv.to_set().contains(atts[j]));
                    let m = choose|m: int| 0 <= m < sv.len() && sv[m] == atts[j];
                    assert(list[m] == i);
                }
            }
            assert forall|m: int| 0 <= m < sigs.len() implies atts.contains(
                (ones(bits)[m] as nat, #[trigger] sigs[m]),
            ) by {
                assert(sigs[m] == signatures@[m]@);
                assert(sv.to_set().contains(sv[m]));
                assert(atts.to_set().contains(sv[m]));
                assert(sv[m] == (ones(bits)[m] as nat, sigs[m]));
            }
            assert(bits.len() == n);
            assert(ones(bits).len() == sigs.len());
            assert(sigs.len() == atts.len());
            assert(assembled(n as nat, atts, bits, sigs));
        }
        Some(Certificate { signers, signatures })
    }

    /// Whether `certificate` is a valid certificate of `subject` for this
    /// committee under the fault model `M`: it covers the committee, has one
    /// signature per signer and at least a quorum of them, and every signature
    /// is valid for its signer.
    pub fn verify_certificate<S: Subject<Namespace = N>, M: Faults>(&self, subject: S, certificate: &Certificate<P>) -> (ok: bool)
        requires
            certificate.signers@.len() == self.participants@.len() && ones(certificate.signers@).len()
                == certificate.sigs().len() && certificate.sigs().len() >= quorum_of::<M>(
                self.participants@.len(),
            ) ==> subject.namespace_of(&self.namespace).len() <= u32::MAX,
        ensures
            ok == certificate_valid::<P>(
                self.participants@,
                quorum_of::<M>(self.participants@.len()),
                subject.namespace_of(&self.namespace),
                subject.message_of(),
                certificate.signers@,
                certificate.sigs(),
            ),
    {
        let n = self.participants.len();
        if certificate.signers.len() != n {
            return false;
        }
        let count = certificate.signers.count();
        if count != certificate.signatures.len() {
            return false;
        }
        let quorum = self.participants.quorum::<M>();
        if count < quorum as usize {
            return false;
        }
        let namespace = subject.namespace(&self.namespace);
        let message = subject.message();
        let signers = certificate.signers.signers();
        let ghost bits = certificate.signers@;
        let ghost sigs = certificate.sigs();
        proof {
            lemma_ones(bits);
        }
        let mut i: usize = 0;
        while i < signers.len()
            invariant
                i <= signers@.len(),
                signers@.len() == sigs.len(),
                bits == certificate.signers@,
                sigs == certificate.sigs(),
                bits.len() == self.participants@.len(),
                namespace@ == subject.namespace_of(&self.namespace),
                namespace@.len() <= u32::MAX,
                message@ == subject.message_of(),
                forall|m: int| 0 <= m < signers@.len() ==> (#[trigger] signers@[m]).0 == ones(bits)[m],
                forall|m: int| 0 <= m < ones(bits).len() ==> 0 <= #[trigger] ones(bits)[m] < bits.len(),
                forall|m: int| 0 <= m < i ==> accepts::<P>(
                    self.participants@[ones(bits)[m]],
                    namespace@,
                    message@,
                    #[trigger] sigs[m],
                ),
            decreases signers@.len() - i,
        {
            let key = match self.participants.key(signers[i]) {
                Some(k) => k,
                None => {
                    return false;
                },
            };
            assert(sigs[i as int] == certificate.signatures[i as int]@);
            if !key.verify(namespace, message.as_slice(), &certificate.signatures[i]) {
                return false;
            }
            i = i + 1;
        }
        true
    }

    /// Whether a certificate tells which participants signed it.
    pub fn is_attributable() -> (r: bool)
        ensures
            r,
    {
        true
    }

    /// Whether signatures can be checked in one batch.
    pub fn is_batchable() -> (r: bool)
        ensures
            !r,
    {
        false
    }

    /// The bound on signers when decoding this committee's certificates: the
    /// size of the committee.
    pub fn certificate_codec_config(&self) -> (n: usize)
        ensures
            n == self.participants@.len(),
    {
        self.participants.len()
    }

    /// The bound on signers when decoding certificates of any committee.
    pub fn certificate_codec_config_unbounded() -> (n: usize)
        ensures
            n == u32::MAX,
    {
        u32::MAX as usize
    }
}

} // verus!

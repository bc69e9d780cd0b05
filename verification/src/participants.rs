//! Committee membership: participant indices, fault models and the ordered,
//! duplicate-free set of participants' public keys.

use vstd::prelude::*;
use crate::bytes::{
    lemma_lex_lt_irreflexive, lemma_lex_lt_total, lemma_lex_lt_transitive,
    lex_lt,
};
use crate::params::Parameter;
use crate::scheme::PublicKey;

verus! {

/// The index of a participant in an ordered committee.
#[derive(Clone, Copy, Debug, PartialEq, Eq, Structural, PartialOrd, Ord, Hash)]
pub struct Participant(pub u32);

impl Participant {
    /// The participant at `index`.
    pub fn new(index: u32) -> (p: Participant)
        ensures
            p.0 == index,
    {
        Participant(index)
    }

    /// The index of the participant.
    pub fn get(self) -> (index: u32)
        ensures
            index == self.0,
    {
        self.0
    }
}

/// A model of how many of `n` participants may be faulty.
pub trait Faults {
    /// The largest number of faulty participants tolerated among `n`.
    spec fn tolerated(n: nat) -> nat;

    /// The largest number of faulty participants tolerated among `n`.
    fn max_faults(n: u32) -> (f: u32)
        ensures
            f == Self::tolerated(n as nat),
            f <= n,
    ;

    /// The number of participants that make a quorum among `n`: all but the
    /// tolerated faulty ones.
    fn quorum(n: u32) -> (q: u32)
        ensures
            q == n - Self::tolerated(n as nat),
    {
        let f = Self::max_faults(n);
        n - f
    }
}

/// At least `3f + 1` participants, of whom at most `f` are faulty.
pub struct N3f1;

impl Faults for N3f1 {
    open spec fn tolerated(n: nat) -> nat {
        if n == 0 {
            0
        } else {
            ((n - 1) / 3) as nat
        }
    }

    fn max_faults(n: u32) -> (f: u32) {
        if n == 0 {
            0
        } else {
            (n - 1) / 3
        }
    }
}

/// Under `N3f1`, a committee of `n` has more than three times as many members
/// as it tolerates faults, a quorum outnumbers twice the faults, and any two
/// quorums share more members than there may be faulty ones.
pub proof fn lemma_n3f1_quorums(n: nat)
    requires
        n >= 1,
    ensures
        3 * N3f1::tolerated(n) + 1 <= n,
        n - N3f1::tolerated(n) >= 2 * N3f1::tolerated(n) + 1,
        2 * (n - N3f1::tolerated(n)) - n >= N3f1::tolerated(n) + 1,
{
}

/// Every byte string in `s` comes strictly before the ones after it.
pub open spec fn strictly_sorted(s: Seq<Seq<u8>>) -> bool {
    forall|i: int, j: int| 0 <= i < j < s.len() ==> lex_lt(#[trigger] s[i], #[trigger] s[j])
}

/// Some byte string occurs twice in `s`.
pub open spec fn has_duplicate(s: Seq<Seq<u8>>) -> bool {
    exists|i: int, j: int| 0 <= i < j < s.len() && #[trigger] s[i] == #[trigger] s[j]
}

/// The views of a sequence of public keys.
pub open spec fn key_views<P: Parameter>(keys: Seq<PublicKey<P>>) -> Seq<Seq<u8>> {
    keys.map_values(|k: PublicKey<P>| k@)
}

/// Why a set of participants could not be formed.
#[derive(Clone, Copy, Debug, PartialEq, Eq, Structural)]
pub enum SetError {
    /// The same public key was given twice.
    DuplicateKey,
}

/// The public keys of a committee, in increasing order of their bytes and
/// without repetition; a participant's index is its position.
pub struct ParticipantSet<P: Parameter> {
    keys: Vec<PublicKey<P>>,
}

impl<P: Parameter> View for ParticipantSet<P> {
    type V = Seq<Seq<u8>>;

    /// The public keys, in order.
    closed spec fn view(&self) -> Seq<Seq<u8>> {
        key_views(self.keys@)
    }
}

/// Keys in strictly increasing order are pairwise different.
pub proof fn lemma_sorted_distinct(s: Seq<Seq<u8>>, i: int, j: int)
    requires
        strictly_sorted(s),
        0 <= i < s.len(),
        0 <= j < s.len(),
        i != j,
    ensures
        s[i] != s[j],
{
    if i < j {
        assert(lex_lt(s[i], s[j]));
    } else {
        assert(lex_lt(s[j], s[i]));
    }
    lemma_lex_lt_irreflexive(s[i]);
}

impl<P: Parameter> ParticipantSet<P> {
    #[verifier::type_invariant]
    spec fn inv(self) -> bool {
        &&& strictly_sorted(key_views(self.keys@))
        &&& self.keys@.len() <= u32::MAX
    }

    /// The set holds its keys in strictly increasing order, and has at most
    /// `u32::MAX` of them.
    pub fn check(&self)
        ensures
            strictly_sorted(self@),
            self@.len() <= u32::MAX,
    {
        proof {
            use_type_invariant(self);
        }
    }

    /// The set of the given keys; fails where a key occurs twice.
    pub fn from_keys(keys: Vec<PublicKey<P>>) -> (r: Result<Self, SetError>)
        requires
            keys@.len() <= u32::MAX,
        ensures
            r is Err <==> has_duplicate(key_views(keys@)),
            r matches Ok(set) ==> {
                &&& strictly_sorted(set@)
                &&& set@.len() == keys@.len()
                &&& set@.to_set() == key_views(keys@).to_set()
            },
    {
        let ghost input = key_views(keys@);
        let mut out: Vec<PublicKey<P>> = Vec::new();
        let mut i: usize = 0;
        while i < keys.len()
            invariant
                i <= keys@.len(),
                input == key_views(keys@),
                keys@.len() <= u32::MAX,
                strictly_sorted(key_views(out@)),
                out@.len() == i,
                key_views(out@).to_set() == input.subrange(0, i as int).to_set(),
                !has_duplicate(input.subrange(0, i as int)),
            decreases keys@.len() - i,
        {
            let k = &keys[i];
            let ghost kv = k@;
            assert(input[i as int] == kv);
            let mut j: usize = 0;
            while j < out.len()
                invariant
                    j <= out@.len(),
                    kv == k@,
                    forall|m: int| 0 <= m < j ==> lex_lt(#[trigger] key_views(out@)[m], kv),
                ensures
                    j <= out@.len(),
                    j < out@.len() ==> !lex_lt(key_views(out@)[j as int], kv),
                    forall|m: int| 0 <= m < j ==> lex_lt(#[trigger] key_views(out@)[m], kv),
                decreases out@.len() - j,
            {
                assert(out[j as int]@ == key_views(out@)[j as int]);
                if !out[j].less_than(k) {
                    break;
                }
                j = j + 1;
            }
            let ghost ov = key_views(out@);
            if j < out.len() {
                assert(out[j as int]@ == ov[j as int]);
            }
            if j < out.len() && out[j].equals(k) {
                proof {
                    let w = ov[j as int];
                    assert(ov.to_set().contains(w));
                    assert(input.subrange(0, i as int).to_set().contains(w));
                    let m = choose|m: int| 0 <= m < i && input.subrange(0, i as int)[m] == w;
                    assert(input[m] == input[i as int]);
                    assert(has_duplicate(input));
                }
                return Err(SetError::DuplicateKey);
            }
            proof {
                if j < out@.len() {
                    lemma_lex_lt_total(ov[j as int], kv);
                }
                assert forall|m: int| j <= m < ov.len() implies lex_lt(kv, #[trigger] ov[m]) by {
                    if m > j {
                        lemma_lex_lt_transitive(kv, ov[j as int], ov[m]);
                    }
                }
                assert(!ov.to_set().contains(kv)) by {
                    if ov.to_set().contains(kv) {
                        let m = choose|m: int| 0 <= m < ov.len() && ov[m] == kv;
                        if m < j {
                            assert(lex_lt(ov[m], kv));
                        } else {
                            assert(lex_lt(kv, ov[m]));
                        }
                        lemma_lex_lt_irreflexive(kv);
                    }
                }
            }
            out.insert(j, k.duplicate());
            proof {
                let nv = key_views(out@);
                assert(nv =~= ov.insert(j as int, kv));
                assert forall|a: int, b: int| 0 <= a < b < nv.len() implies lex_lt(
                    #[trigger] nv[a],
                    #[trigger] nv[b],
                ) by {
                    if a < j && b == j {
                    } else if a == j && b > j {
                    } else if a < j && b > j {
                        lemma_lex_lt_transitive(ov[a], kv, ov[b - 1]);
                    }
                }
                let pre = input.subrange(0, i as int);
                let pre2 = input.subrange(0, i + 1);
                assert(pre2 =~= pre.push(kv));
                assert(nv.to_set() =~= pre2.to_set()) by {
                    assert forall|x: Seq<u8>| nv.to_set().contains(x) implies pre2.to_set().contains(x) by {
                        let m = choose|m: int| 0 <= m < nv.len() && nv[m] == x;
                        if m == j {
                            assert(pre2[i as int] == x);
                        } else if m < j {
                            assert(ov.to_set().contains(ov[m]));
                            let q = choose|q: int| 0 <= q < pre.len() && pre[q] == x;
                            assert(pre2[q] == x);
                        } else {
                            assert(ov.to_set().contains(ov[m - 1]));
                            let q = choose|q: int| 0 <= q < pre.len() && pre[q] == x;
                            assert(pre2[q] == x);
                        }
                    }
                    assert forall|x: Seq<u8>| pre2.to_set().contains(x) implies nv.to_set().contains(x) by {
                        let m = choose|m: int| 0 <= m < pre2.len() && pre2[m] == x;
                        if m == i {
                            assert(nv[j as int] == x);
                        } else {
                            assert(pre.to_set().contains(pre[m]));
                            let q = choose|q: int| 0 <= q < ov.len() && ov[q] == x;
                            if q < j {
                                assert(nv[q] == x);
                            } else {
                                assert(nv[q + 1] == x);
                            }
                        }
                    }
                }
                assert(!has_duplicate(pre2)) by {
                    if has_duplicate(pre2) {
                        let (a, b) = choose|a: int, b: int| 0 <= a < b < pre2.len() && pre2[a] == pre2[b];
                        if b == i {
                            assert(pre.to_set().contains(pre[a]));
                        } else {
                            assert(has_duplicate(pre));
                        }
                    }
                }
            }
            i = i + 1;
        }
        assert(input.subrange(0, i as int) =~= input);
        Ok(ParticipantSet { keys: out })
    }

    /// The number of participants.
    pub fn len(&self) -> (n: usize)
        ensures
            n == self@.len(),
            n <= u32::MAX,
    {
        proof {
            use_type_invariant(self);
        }
        self.keys.len()
    }

    /// The position of `key` in the set, if it is a member.
    pub fn index(&self, key: &PublicKey<P>) -> (r: Option<Participant>)
        ensures
            r matches Some(p) ==> p.0 < self@.len() && self@[p.0 as int] == key@,
            r is None ==> !self@.contains(key@),
    {
        proof {
            use_type_invariant(self);
        }
        let ghost s = self@;
        let ghost t = key@;
        let mut lo: usize = 0;
        let mut hi: usize = self.keys.len();
        while lo < hi
            invariant
                s == self@,
                t == key@,
                strictly_sorted(s),
                s.len() <= u32::MAX,
                lo <= hi <= s.len(),
                forall|m: int| 0 <= m < lo ==> lex_lt(#[trigger] s[m], t),
                forall|m: int| hi <= m < s.len() ==> lex_lt(t, #[trigger] s[m]),
            decreases hi - lo,
        {
            let mid = lo + (hi - lo) / 2;
            let k = &self.keys[mid];
            assert(k@ == s[mid as int]);
            if k.equals(key) {
                return Some(Participant(mid as u32));
            }
            if k.less_than(key) {
                proof {
                    assert forall|m: int| 0 <= m < mid + 1 implies lex_lt(#[trigger] s[m], t) by {
                        if m < mid {
                            lemma_lex_lt_transitive(s[m], s[mid as int], t);
                        }
                    }
                }
                lo = mid + 1;
            } else {
                proof {
                    lemma_lex_lt_total(s[mid as int], t);
                    assert forall|m: int| mid <= m < s.len() implies lex_lt(t, #[trigger] s[m]) by {
                        if m > mid {
                            lemma_lex_lt_transitive(t, s[mid as int], s[m]);
                        }
                    }
                }
                hi = mid;
            }
        }
        proof {
            assert forall|m: int| 0 <= m < s.len() implies s[m] != t by {
                lemma_lex_lt_irreflexive(t);
            }
        }
        None
    }

    /// The public key of participant `p`, if there is one.
    pub fn key(&self, p: Participant) -> (r: Option<&PublicKey<P>>)
        ensures
            r is Some <==> p.0 < self@.len(),
            r matches Some(k) ==> k@ == self@[p.0 as int],
    {
        if (p.0 as usize) < self.keys.len() {
            Some(&self.keys[p.0 as usize])
        } else {
            None
        }
    }

    /// The number of participants that make a quorum under the fault model `M`.
    pub fn quorum<M: Faults>(&self) -> (q: u32)
        ensures
            q == self@.len() - M::tolerated(self@.len()),
    {
        let n = self.len();
        M::quorum(n as u32)
    }

    /// The largest number of faulty participants tolerated under the fault
    /// model `M`.
    pub fn max_faults<M: Faults>(&self) -> (f: u32)
        ensures
            f == M::tolerated(self@.len()),
    {
        let n = self.len();
        M::max_faults(n as u32)
    }

    /// A copy of the set.
    pub fn duplicate(&self) -> (r: Self)
        ensures
            r@ == self@,
    {
        proof {
            use_type_invariant(self);
        }
        let mut keys: Vec<PublicKey<P>> = Vec::new();
        let mut i: usize = 0;
        while i < self.keys.len()
            invariant
                i <= self.keys@.len(),
                key_views(keys@) == key_views(self.keys@).subrange(0, i as int),
            decreases self.keys@.len() - i,
        {
            let d = self.keys[i].duplicate();
            assert(d@ == key_views(self.keys@)[i as int]);
            let ghost before = keys@;
            keys.push(d);
            assert(key_views(keys@) =~= key_views(before).push(d@));
            i = i + 1;
            assert(key_views(keys@) =~= key_views(self.keys@).subrange(0, i as int));
        }
        assert(key_views(self.keys@).subrange(0, i as int) =~= key_views(self.keys@));
        ParticipantSet { keys }
    }
}

impl<P: Parameter> Clone for ParticipantSet<P> {
    fn clone(&self) -> (r: Self)
        ensures
            r@ == self@,
    {
        self.duplicate()
    }
}

/// No public key occurs twice in a set of participants, so a member's index
/// is the only one at which its key stands.
pub proof fn lemma_members_distinct<P: Parameter>(set: ParticipantSet<P>)
    requires
        strictly_sorted(set@),
    ensures
        forall|i: int, j: int|
            0 <= i < set@.len() && 0 <= j < set@.len() && i != j ==> #[trigger] set@[i]
                != #[trigger] set@[j],
{
    assert forall|i: int, j: int|
        0 <= i < set@.len() && 0 <= j < set@.len() && i != j implies #[trigger] set@[i]
            != #[trigger] set@[j] by {
        lemma_sorted_distinct(set@, i, j);
    }
}

} // verus!

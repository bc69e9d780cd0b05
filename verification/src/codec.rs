//! Errors of decoding, and the framing of a message under a namespace.

use vstd::prelude::*;
use crate::bytes::append_bytes;
use crate::varint::{
    lemma_parse_varint_roundtrip, lemma_varint_cap_5, varint, write_u32,
};

verus! {

/// Why a byte string could not be decoded.
#[derive(Clone, Copy, Debug, PartialEq, Eq, Structural)]
pub enum CodecError {
    /// The input ended before the value did.
    EndOfBuffer,
    /// The value was read, but this many bytes were left over.
    ExtraData(usize),
    /// A length or count was not a valid variable-length integer.
    InvalidVarint,
    /// A length was larger than the configured bound.
    InvalidLength(usize),
    /// The unused bits of a bitmap's last byte were not all zero.
    InvalidPadding,
    /// A certificate named no signers.
    NoSigners,
    /// A certificate had a different number of signers and signatures.
    CountMismatch,
}

/// `namespace` and `msg` joined so that no other pair gives the same bytes:
/// the length of the namespace (as a variable-length integer), the namespace,
/// then the message.
pub open spec fn union_unique_spec(namespace: Seq<u8>, msg: Seq<u8>) -> Seq<u8> {
    varint(namespace.len()) + namespace + msg
}

/// Joins `namespace` and `msg` into the payload that is signed.
pub fn union_unique(namespace: &[u8], msg: &[u8]) -> (out: Vec<u8>)
    requires
        namespace@.len() <= u32::MAX,
    ensures
        out@ == union_unique_spec(namespace@, msg@),
{
    let mut out: Vec<u8> = Vec::new();
    write_u32(&mut out, namespace.len() as u32);
    append_bytes(&mut out, namespace);
    append_bytes(&mut out, msg);
    out
}

/// Two pairs of namespace and message that join to the same payload are the
/// same pair.
pub proof fn lemma_union_unique_injective(ns1: Seq<u8>, msg1: Seq<u8>, ns2: Seq<u8>, msg2: Seq<u8>)
    requires
        ns1.len() <= u32::MAX,
        ns2.len() <= u32::MAX,
        union_unique_spec(ns1, msg1) == union_unique_spec(ns2, msg2),
    ensures
        ns1 == ns2,
        msg1 == msg2,
{
    let s = union_unique_spec(ns1, msg1);
    lemma_varint_cap_5();
    lemma_parse_varint_roundtrip(ns1.len(), ns1 + msg1, 5);
    lemma_parse_varint_roundtrip(ns2.len(), ns2 + msg2, 5);
    assert(s == varint(ns1.len()) + (ns1 + msg1));
    assert(s == varint(ns2.len()) + (ns2 + msg2));
    assert(ns1.len() == ns2.len());
    let k = varint(ns1.len()).len();
    assert(s.skip(k as int) =~= ns1 + msg1);
    assert(s.skip(k as int) =~= ns2 + msg2);
    assert(ns1 =~= (ns1 + msg1).subrange(0, ns1.len() as int));
    assert(ns2 =~= (ns2 + msg2).subrange(0, ns2.len() as int));
    assert(msg1 =~= (ns1 + msg1).skip(ns1.len() as int));
    assert(msg2 =~= (ns2 + msg2).skip(ns2.len() as int));
}

} // verus!

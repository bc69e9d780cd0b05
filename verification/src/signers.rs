//! The bitmap of the participants that contributed to a certificate.

use vstd::prelude::*;
use crate::backend::hash_vec;
use crate::codec::CodecError;
use crate::participants::Participant;
use crate::varint::{
    lemma_parse_varint_bound, lemma_parse_varint_roundtrip, lemma_varint_cap_5, parse_u32, read_u32,
    varint, write_u32,
};

verus! {

/// The indices at which `bits` is set, in increasing order.
pub open spec fn ones(bits: Seq<bool>) -> Seq<int>
    decreases bits.len(),
{
    if bits.len() == 0 {
        seq![]
    } else {
        let rest = ones(bits.drop_last());
        if bits.last() {
            rest.push(bits.len() - 1)
        } else {
            rest
        }
    }
}

/// The indices in `ones(bits)` are in range, set, and strictly increasing,
/// and every set index is among them.
pub proof fn lemma_ones(bits: Seq<bool>)
    ensures
        forall|m: int| 0 <= m < ones(bits).len() ==> 0 <= #[trigger] ones(bits)[m] < bits.len() && bits[ones(bits)[m]],
        forall|a: int, b: int| 0 <= a < b < ones(bits).len() ==> #[trigger] ones(bits)[a] < #[trigger] ones(bits)[b],
        forall|i: int| 0 <= i < bits.len() && #[trigger] bits[i] ==> exists|m: int| 0 <= m < ones(bits).len() && ones(bits)[m] == i,
        ones(bits).len() <= bits.len(),
    decreases bits.len(),
{
    if bits.len() > 0 {
        let d = bits.drop_last();
        lemma_ones(d);
        let r = ones(d);
        assert forall|i: int| 0 <= i < bits.len() && #[trigger] bits[i] implies exists|m: int| 0 <= m < ones(bits).len() && ones(bits)[m] == i by {
            if i < bits.len() - 1 {
                assert(d[i] == bits[i]);
                let m = choose|m: int| 0 <= m < r.len() && r[m] == i;
                assert(ones(bits)[m] == i);
            } else {
                assert(ones(bits)[r.len() as int] == i);
            }
        }
    }
}

/// A strictly increasing list of exactly the set indices of `bits` is
/// `ones(bits)`.
pub proof fn lemma_ones_unique(bits: Seq<bool>, list: Seq<int>)
    requires
        forall|a: int, b: int| 0 <= a < b < list.len() ==> #[trigger] list[a] < #[trigger] list[b],
        forall|m: int| 0 <= m < list.len() ==> 0 <= #[trigger] list[m] < bits.len(),
        forall|i: int| 0 <= i < bits.len() ==> (#[trigger] bits[i] <==> exists|m: int| 0 <= m < list.len() && list[m] == i),
    ensures
        ones(bits) == list,
    decreases bits.len(),
{
    if bits.len() == 0 {
        if list.len() > 0 {
            assert(0 <= list[0] < bits.len());
        }
        assert(list =~= seq![]);
    } else {
        let n1 = bits.len() - 1;
        let d = bits.drop_last();
        if bits.last() {
            assert(bits[n1]);
            let m = choose|m: int| 0 <= m < list.len() && list[m] == n1;
            if m < list.len() - 1 {
                assert(list[m] < list[list.len() - 1]);
            }
            let l2 = list.drop_last();
            assert forall|i: int| 0 <= i < d.len() implies (#[trigger] d[i] <==> exists|q: int| 0 <= q < l2.len() && l2[q] == i) by {
                assert(d[i] == bits[i]);
                if bits[i] {
                    let q = choose|q: int| 0 <= q < list.len() && list[q] == i;
                    assert(q != list.len() - 1);
                    assert(l2[q] == i);
                }
                if exists|q: int| 0 <= q < l2.len() && l2[q] == i {
                    let q = choose|q: int| 0 <= q < l2.len() && l2[q] == i;
                    assert(list[q] == i);
                }
            }
            assert forall|q: int| 0 <= q < l2.len() implies 0 <= #[trigger] l2[q] < d.len() by {
                assert(list[q] < list[list.len() - 1]);
            }
            lemma_ones_unique(d, l2);
            assert(list =~= l2.push(n1));
        } else {
            assert forall|q: int| 0 <= q < list.len() implies 0 <= #[trigger] list[q] < d.len() by {
                if list[q] == n1 {
                    assert(bits[n1]);
                }
            }
            assert forall|i: int| 0 <= i < d.len() implies (#[trigger] d[i] <==> exists|q: int| 0 <= q < list.len() && list[q] == i) by {
                assert(d[i] == bits[i]);
            }
            lemma_ones_unique(d, list);
        }
    }
}

/// The number of bytes that hold `len` bits.
pub open spec fn byte_len(len: nat) -> nat {
    (len + 7) / 8
}

/// Bit `k` (least significant first) of the byte `x`.
pub open spec fn byte_bit(x: u8, k: nat) -> bool {
    (x >> k) & 1u8 == 1u8
}

/// Bit `i` of `bits`, false past its end.
pub open spec fn bit_at(bits: Seq<bool>, i: int) -> bool {
    0 <= i < bits.len() && bits[i]
}

/// The byte that packs the bits `8 * b` to `8 * b + 7` of `bits`, the first
/// of them in the least significant position.
pub open spec fn pack_byte(bits: Seq<bool>, b: int) -> u8 {
    pack8(
        bit_at(bits, 8 * b),
        bit_at(bits, 8 * b + 1),
        bit_at(bits, 8 * b + 2),
        bit_at(bits, 8 * b + 3),
        bit_at(bits, 8 * b + 4),
        bit_at(bits, 8 * b + 5),
        bit_at(bits, 8 * b + 6),
        bit_at(bits, 8 * b + 7),
    )
}

/// Eight bits packed into a byte, `b0` least significant.
pub open spec fn pack8(b0: bool, b1: bool, b2: bool, b3: bool, b4: bool, b5: bool, b6: bool, b7: bool) -> u8 {
    (if b0 { 1u8 } else { 0u8 }) | (if b1 { 2u8 } else { 0u8 }) | (if b2 { 4u8 } else { 0u8 }) | (
    if b3 {
        8u8
    } else {
        0u8
    }) | (if b4 { 16u8 } else { 0u8 }) | (if b5 { 32u8 } else { 0u8 }) | (if b6 { 64u8 } else { 0u8 }) | (
    if b7 {
        128u8
    } else {
        0u8
    })
}

/// The bytes that pack `bits`, eight to a byte; unused bits are zero.
pub open spec fn pack(bits: Seq<bool>) -> Seq<u8> {
    Seq::new(byte_len(bits.len()), |b: int| pack_byte(bits, b))
}

/// The first `len` bits held by `body`.
pub open spec fn unpack(body: Seq<u8>, len: nat) -> Seq<bool> {
    Seq::new(len, |i: int| byte_bit(body[(i / 8) as int], (i % 8) as nat))
}

/// The bits of `body` past the first `len` are all zero.
pub open spec fn padding_clear(body: Seq<u8>, len: nat) -> bool {
    forall|i: int| len <= i < 8 * body.len() ==> !byte_bit(#[trigger] body[(i / 8) as int], (i % 8) as nat)
}

/// The encoding of a bitmap: its length, then its bits packed into bytes.
pub open spec fn bitmap_encoding(bits: Seq<bool>) -> Seq<u8> {
    varint(bits.len()) + pack(bits)
}

/// Decoding of a bitmap of at most `max` bits at the front of `s`: the bits
/// and the number of bytes read.
#[verifier::opaque]
pub open spec fn parse_bitmap(s: Seq<u8>, max: nat) -> Result<(Seq<bool>, nat), CodecError> {
    match parse_u32(s) {
        Err(e) => Err(e),
        Ok((len, k)) => if len > max {
            Err(CodecError::InvalidLength(len as usize))
        } else if s.len() - k < byte_len(len) {
            Err(CodecError::EndOfBuffer)
        } else if !padding_clear(s.subrange(k as int, (k + byte_len(len)) as int), len) {
            Err(CodecError::InvalidPadding)
        } else {
            Ok((unpack(s.subrange(k as int, (k + byte_len(len)) as int), len), k + byte_len(len)))
        },
    }
}

proof fn lemma_pack8(b0: bool, b1: bool, b2: bool, b3: bool, b4: bool, b5: bool, b6: bool, b7: bool)
    ensures
        byte_bit(pack8(b0, b1, b2, b3, b4, b5, b6, b7), 0) == b0,
        byte_bit(pack8(b0, b1, b2, b3, b4, b5, b6, b7), 1) == b1,
        byte_bit(pack8(b0, b1, b2, b3, b4, b5, b6, b7), 2) == b2,
        byte_bit(pack8(b0, b1, b2, b3, b4, b5, b6, b7), 3) == b3,
        byte_bit(pack8(b0, b1, b2, b3, b4, b5, b6, b7), 4) == b4,
        byte_bit(pack8(b0, b1, b2, b3, b4, b5, b6, b7), 5) == b5,
        byte_bit(pack8(b0, b1, b2, b3, b4, b5, b6, b7), 6) == b6,
        byte_bit(pack8(b0, b1, b2, b3, b4, b5, b6, b7), 7) == b7,
{
    let x = pack8(b0, b1, b2, b3, b4, b5, b6, b7);
    assert(((x >> 0u8) & 1u8 == 1u8) == b0 && ((x >> 1u8) & 1u8 == 1u8) == b1 && ((x >> 2u8) & 1u8
        == 1u8) == b2 && ((x >> 3u8) & 1u8 == 1u8) == b3 && ((x >> 4u8) & 1u8 == 1u8) == b4 && ((x
        >> 5u8) & 1u8 == 1u8) == b5 && ((x >> 6u8) & 1u8 == 1u8) == b6 && ((x >> 7u8) & 1u8 == 1u8)
        == b7) by (bit_vector)
        requires
            x == (if b0 { 1u8 } else { 0u8 }) | (if b1 { 2u8 } else { 0u8 }) | (if b2 {
                4u8
            } else {
                0u8
            }) | (if b3 { 8u8 } else { 0u8 }) | (if b4 { 16u8 } else { 0u8 }) | (if b5 {
                32u8
            } else {
                0u8
            }) | (if b6 { 64u8 } else { 0u8 }) | (if b7 { 128u8 } else { 0u8 }),
    ;
}

/// Unpacking the packing of a bitmap gives it back, with the unused bits clear.
pub proof fn lemma_unpack_pack(bits: Seq<bool>)
    ensures
        pack(bits).len() == byte_len(bits.len()),
        unpack(pack(bits), bits.len()) == bits,
        padding_clear(pack(bits), bits.len()),
{
    let p = pack(bits);
    assert forall|i: int| 0 <= i < 8 * p.len() implies byte_bit(#[trigger] p[i / 8], (i % 8) as nat)
        == bit_at(bits, i) by {
        let b = i / 8;
        lemma_pack8(
            bit_at(bits, 8 * b),
            bit_at(bits, 8 * b + 1),
            bit_at(bits, 8 * b + 2),
            bit_at(bits, 8 * b + 3),
            bit_at(bits, 8 * b + 4),
            bit_at(bits, 8 * b + 5),
            bit_at(bits, 8 * b + 6),
            bit_at(bits, 8 * b + 7),
        );
        assert(i == 8 * b + i % 8);
    }
    assert(unpack(p, bits.len()) =~= bits) by {
        assert forall|i: int| 0 <= i < bits.len() implies unpack(p, bits.len())[i] == bits[i] by {
            assert(byte_bit(p[i / 8], (i % 8) as nat) == bit_at(bits, i));
        }
    }
}

/// The encoding of a bitmap is its length, then the fewest whole bytes that
/// hold its bits: bit `i` is bit `i % 8` (least significant first) of the
/// `i / 8`-th of those bytes, and every bit past the bitmap's end is zero.
pub proof fn lemma_bitmap_encoding_layout(bits: Seq<bool>)
    ensures
        bitmap_encoding(bits).len() >= varint(bits.len()).len(),
        bitmap_encoding(bits).take(varint(bits.len()).len() as int) == varint(bits.len()),
        8 * (bitmap_encoding(bits).len() - varint(bits.len()).len()) >= bits.len(),
        8 * (bitmap_encoding(bits).len() - varint(bits.len()).len()) < bits.len() + 8,
        forall|i: int|
            0 <= i < bits.len() ==> byte_bit(
                #[trigger] bitmap_encoding(bits)[varint(bits.len()).len() + i / 8],
                (i % 8) as nat,
            ) == bits[i],
        forall|i: int|
            bits.len() <= i < 8 * (bitmap_encoding(bits).len() - varint(bits.len()).len()) ==> !byte_bit(
                #[trigger] bitmap_encoding(bits)[varint(bits.len()).len() + i / 8],
                (i % 8) as nat,
            ),
{
    let k = varint(bits.len()).len();
    let e = bitmap_encoding(bits);
    let p = pack(bits);
    lemma_unpack_pack(bits);
    assert(e.take(k as int) =~= varint(bits.len()));
    let len = bits.len();
    let q = (len + 7) / 8;
    assert(8 * q >= len && 8 * q < len + 8) by (nonlinear_arith)
        requires
            q == (len + 7) / 8,
    ;
    assert forall|i: int| 0 <= i < bits.len() implies byte_bit(
        #[trigger] e[k + i / 8],
        (i % 8) as nat,
    ) == bits[i] by {
        assert(e[k + i / 8] == p[i / 8]);
        assert(unpack(p, len)[i] == bits[i]);
    }
    assert forall|i: int| len <= i < 8 * (e.len() - k) implies !byte_bit(
        #[trigger] e[k + i / 8],
        (i % 8) as nat,
    ) by {
        assert(e[k + i / 8] == p[i / 8]);
    }
}

/// A decoded bitmap took no more bytes than there were, and has at most
/// `max` bits.
pub proof fn lemma_parse_bitmap_bound(s: Seq<u8>, max: nat)
    ensures
        parse_bitmap(s, max) matches Ok((bits, k)) ==> k <= s.len() && bits.len() <= max
            && bits.len() <= u32::MAX,
{
    reveal(parse_bitmap);
    lemma_parse_varint_bound(s, 5);
    lemma_varint_cap_5();
}

/// A bitmap is read back from its encoding, whatever follows it.
pub proof fn lemma_parse_bitmap_roundtrip(bits: Seq<bool>, rest: Seq<u8>, max: nat)
    requires
        bits.len() <= max,
        bits.len() <= u32::MAX,
    ensures
        parse_bitmap(bitmap_encoding(bits) + rest, max) == Ok::<(Seq<bool>, nat), CodecError>(
            (bits, bitmap_encoding(bits).len()),
        ),
{
    reveal(parse_bitmap);
    let s = bitmap_encoding(bits) + rest;
    let k = varint(bits.len()).len();
    lemma_varint_cap_5();
    lemma_parse_varint_roundtrip(bits.len(), pack(bits) + rest, 5);
    assert(s =~= varint(bits.len()) + (pack(bits) + rest));
    lemma_unpack_pack(bits);
    assert(s.subrange(k as int, (k + byte_len(bits.len())) as int) =~= pack(bits));
}

/// The set bits of a bitmap of participants.
pub struct Signers {
    bits: Vec<bool>,
}

impl core::hash::Hash for Signers {
    fn hash<H: core::hash::Hasher>(&self, state: &mut H) {
        hash_vec(&self.bits, state);
    }
}

impl View for Signers {
    type V = Seq<bool>;

    /// Bit `i` is set when participant `i` signed.
    closed spec fn view(&self) -> Seq<bool> {
        self.bits@
    }
}

impl Signers {
    #[verifier::type_invariant]
    spec fn inv(self) -> bool {
        self.bits@.len() <= u32::MAX
    }

    /// The bitmap of `participants` bits in which exactly the given signers
    /// are set.
    pub fn from(participants: usize, signers: &[Participant]) -> (r: Signers)
        requires
            participants <= u32::MAX,
            forall|j: int| 0 <= j < signers@.len() ==> (#[trigger] signers@[j]).0 < participants,
            forall|a: int, b: int|
                0 <= a < b < signers@.len() ==> (#[trigger] signers@[a]).0 != (#[trigger] signers@[b]).0,
        ensures
            r@.len() == participants,
            forall|i: int|
                0 <= i < participants ==> (#[trigger] r@[i] <==> exists|j: int|
                    0 <= j < signers@.len() && signers@[j].0 == i),
    {
        let mut bits: Vec<bool> = Vec::with_capacity(participants);
        let mut i: usize = 0;
        while i < participants
            invariant
                i <= participants,
                bits@.len() == i,
                forall|m: int| 0 <= m < i ==> !(#[trigger] bits@[m]),
            decreases participants - i,
        {
            bits.push(false);
            i = i + 1;
        }
        let mut j: usize = 0;
        while j < signers.len()
            invariant
                j <= signers@.len(),
                bits@.len() == participants,
                forall|m: int| 0 <= m < signers@.len() ==> (#[trigger] signers@[m]).0 < participants,
                forall|m: int|
                    0 <= m < participants ==> (#[trigger] bits@[m] <==> exists|q: int|
                        0 <= q < j && signers@[q].0 == m),
            decreases signers@.len() - j,
        {
            let idx = signers[j].0 as usize;
            bits.set(idx, true);
            proof {
                assert forall|m: int| 0 <= m < participants implies (#[trigger] bits@[m]
                    <==> exists|q: int| 0 <= q < j + 1 && signers@[q].0 == m) by {
                    if m == idx {
                        assert(signers@[j as int].0 == m);
                    }
                }
            }
            j = j + 1;
        }
        Signers { bits }
    }

    /// The number of participants the bitmap covers.
    pub fn len(&self) -> (n: usize)
        ensures
            n == self@.len(),
            n <= u32::MAX,
    {
        proof {
            use_type_invariant(self);
        }
        self.bits.len()
    }

    /// Whether two bitmaps are the same.
    pub fn same_bits(&self, other: &Signers) -> (r: bool)
        ensures
            r == (self@ == other@),
    {
        if self.bits.len() != other.bits.len() {
            return false;
        }
        let mut i: usize = 0;
        while i < self.bits.len()
            invariant
                i <= self@.len(),
                self@.len() == other@.len(),
                self@.take(i as int) == other@.take(i as int),
            decreases self@.len() - i,
        {
            if self.bits[i] != other.bits[i] {
                assert(self@[i as int] != other@[i as int]);
                return false;
            }
            assert(self@.take(i + 1) =~= self@.take(i as int).push(self@[i as int]));
            assert(other@.take(i + 1) =~= other@.take(i as int).push(other@[i as int]));
            i = i + 1;
        }
        assert(self@.take(i as int) =~= self@);
        assert(other@.take(i as int) =~= other@);
        true
    }

    /// A copy of the bitmap.
    pub fn duplicate(&self) -> (r: Signers)
        ensures
            r@ == self@,
    {
        proof {
            use_type_invariant(self);
        }
        let mut bits: Vec<bool> = Vec::with_capacity(self.bits.len());
        let mut i: usize = 0;
        while i < self.bits.len()
            invariant
                i <= self@.len(),
                bits@ == self@.take(i as int),
            decreases self@.len() - i,
        {
            bits.push(self.bits[i]);
            i = i + 1;
            assert(bits@ =~= self@.take(i as int));
        }
        assert(self@.take(i as int) =~= self@);
        Signers { bits }
    }

    /// Whether participant `i` signed.
    pub fn get(&self, i: usize) -> (b: bool)
        ensures
            b == bit_at(self@, i as int),
    {
        if i < self.bits.len() {
            self.bits[i]
        } else {
            false
        }
    }

    /// The number of participants that signed.
    pub fn count(&self) -> (n: usize)
        ensures
            n == ones(self@).len(),
    {
        let ghost s = self@;
        let mut n: usize = 0;
        let mut i: usize = 0;
        while i < self.bits.len()
            invariant
                s == self@,
                i <= s.len(),
                n == ones(s.take(i as int)).len(),
                n <= i,
            decreases s.len() - i,
        {
            assert(s.take(i + 1).drop_last() =~= s.take(i as int));
            if self.bits[i] {
                n = n + 1;
            }
            i = i + 1;
        }
        assert(s.take(i as int) =~= s);
        n
    }

    /// The participants that signed, in increasing order.
    pub fn signers(&self) -> (r: Vec<Participant>)
        ensures
            r@.len() == ones(self@).len(),
            forall|m: int| 0 <= m < r@.len() ==> (#[trigger] r@[m]).0 == ones(self@)[m],
    {
        proof {
            use_type_invariant(self);
        }
        let ghost s = self@;
        let mut r: Vec<Participant> = Vec::new();
        let mut i: usize = 0;
        while i < self.bits.len()
            invariant
                s == self@,
                s.len() <= u32::MAX,
                i <= s.len(),
                r@.len() == ones(s.take(i as int)).len(),
                forall|m: int| 0 <= m < r@.len() ==> (#[trigger] r@[m]).0 == ones(s.take(i as int))[m],
            decreases s.len() - i,
        {
            assert(s.take(i + 1).drop_last() =~= s.take(i as int));
            if self.bits[i] {
                r.push(Participant(i as u32));
            }
            i = i + 1;
        }
        assert(s.take(i as int) =~= s);
        r
    }

    /// Appends the encoding of the bitmap to `buf`.
    pub fn write(&self, buf: &mut Vec<u8>)
        ensures
            final(buf)@ == old(buf)@ + bitmap_encoding(self@),
    {
        proof {
            use_type_invariant(self);
        }
        let ghost s = self@;
        let len = self.bits.len();
        write_u32(buf, len as u32);
        let ghost start = buf@;
        let nbytes: usize = len / 8 + if len % 8 == 0 { 0 } else { 1 };
        assert(nbytes == byte_len(len as nat));
        let mut b: usize = 0;
        while b < nbytes
            invariant
                s == self@,
                len == s.len(),
                nbytes == byte_len(len as nat),
                b <= nbytes,
                buf@ == start + pack(s).take(b as int),
            decreases nbytes - b,
        {
            let byte = self.pack_byte_at(b);
            buf.push(byte);
            assert(pack(s).take(b + 1) =~= pack(s).take(b as int).push(pack(s)[b as int]));
            b = b + 1;
        }
        assert(pack(s).take(b as int) =~= pack(s));
    }

    fn pack_byte_at(&self, b: usize) -> (x: u8)
        requires
            b < byte_len(self@.len()),
        ensures
            x == pack_byte(self@, b as int),
    {
        proof {
            use_type_invariant(self);
        }
        let base: u64 = 8 * (b as u64);
        pack8_exec(
            self.bit_u64(base),
            self.bit_u64(base + 1),
            self.bit_u64(base + 2),
            self.bit_u64(base + 3),
            self.bit_u64(base + 4),
            self.bit_u64(base + 5),
            self.bit_u64(base + 6),
            self.bit_u64(base + 7),
        )
    }

    fn bit_u64(&self, i: u64) -> (r: bool)
        ensures
            r == bit_at(self@, i as int),
    {
        if i < self.bits.len() as u64 {
            self.bits[i as usize]
        } else {
            false
        }
    }

    /// The number of bytes in the encoding of the bitmap.
    pub fn encode_size(&self) -> (n: usize)
        ensures
            n == bitmap_encoding(self@).len(),
    {
        proof {
            use_type_invariant(self);
        }
        let len = self.bits.len();
        crate::varint::u32_encode_size(len as u32) + (len / 8 + if len % 8 == 0 { 0 } else { 1 })
    }

    /// Reads a bitmap of at most `max` bits at `pos` in `buf`: the bitmap and
    /// the position after it.
    #[verifier::loop_isolation(false)]
    pub fn read(buf: &[u8], pos: usize, max: usize) -> (r: Result<(Signers, usize), CodecError>)
        requires
            pos <= buf@.len(),
        ensures
            match parse_bitmap(buf@.skip(pos as int), max as nat) {
                Ok((bits, k)) => r matches Ok((sg, end)) && sg@ == bits && end == pos + k,
                Err(e) => r == Err::<(Signers, usize), CodecError>(e),
            },
    {
        let ghost s = buf@.skip(pos as int);
        let total = buf.len();
        proof {
            reveal(parse_bitmap);
            lemma_parse_varint_bound(s, 5);
            lemma_varint_cap_5();
        }
        let (len, start) = match read_u32(buf, pos) {
            Ok(v) => v,
            Err(e) => {
                return Err(e);
            },
        };
        let ghost k = (start - pos) as nat;
        assert(parse_u32(s) == Ok::<(nat, nat), CodecError>((len as nat, k)));
        if len as u64 > max as u64 {
            return Err(CodecError::InvalidLength(len as usize));
        }
        let len = len as usize;
        let nbytes: usize = len / 8 + if len % 8 == 0 { 0 } else { 1 };
        assert(nbytes == byte_len(len as nat));
        if total - start < nbytes {
            return Err(CodecError::EndOfBuffer);
        }
        let ghost body = buf@.subrange(start as int, start + nbytes);
        assert(body =~= s.subrange((start - pos) as int, (start - pos) + nbytes));
        let mut bits: Vec<bool> = Vec::with_capacity(len);
        let mut i: usize = 0;
        while i < len
            invariant
                body == buf@.subrange(start as int, start + nbytes),
                start + nbytes <= total,
                total == buf@.len(),
                nbytes == byte_len(len as nat),
                i <= len,
                bits@.len() == i,
                forall|m: int| 0 <= m < i ==> #[trigger] bits@[m] == byte_bit(body[m / 8], (m % 8) as nat),
            decreases len - i,
        {
            let byte = buf[start + i / 8];
            assert(byte == body[(i / 8) as int]);
            let set = (byte >> ((i % 8) as u8)) & 1u8 == 1u8;
            assert(set == byte_bit(body[(i / 8) as int], (i % 8) as nat));
            bits.push(set);
            i = i + 1;
        }
        assert(bits@ =~= unpack(body, len as nat));
        if len % 8 != 0 {
            let last = buf[start + nbytes - 1];
            assert(last == body[nbytes - 1]);
            let mut k: usize = len % 8;
            while k < 8
                invariant
                    len % 8 <= k <= 8,
                    len % 8 != 0,
                    nbytes == byte_len(len as nat),
                    body.len() == nbytes,
                    last == body[nbytes - 1],
                    forall|m: int| len <= m < (nbytes - 1) * 8 + k ==> !byte_bit(#[trigger] body[m / 8], (m % 8) as nat),
                decreases 8 - k,
            {
                if (last >> (k as u8)) & 1u8 == 1u8 {
                    proof {
                        let m = (nbytes - 1) * 8 + k;
                        assert(m / 8 == nbytes - 1);
                        assert(m % 8 == k);
                        assert((nbytes - 1) * 8 == len - len % 8);
                        assert(len <= m < 8 * body.len());
                        assert(byte_bit(body[m / 8], (m % 8) as nat));
                        assert(!padding_clear(body, len as nat));
                    }
                    return Err(CodecError::InvalidPadding);
                }
                proof {
                    assert forall|m: int| len <= m < (nbytes - 1) * 8 + k + 1 implies !byte_bit(#[trigger] body[m / 8], (m % 8) as nat) by {
                        if m == (nbytes - 1) * 8 + k {
                            assert(m / 8 == nbytes - 1);
                            assert(m % 8 == k);
                        }
                    }
                }
                k = k + 1;
            }
        }
        assert(padding_clear(body, len as nat));
        Ok((Signers { bits }, start + nbytes))
    }
}

impl Clone for Signers {
    fn clone(&self) -> (r: Self)
        ensures
            r@ == self@,
    {
        self.duplicate()
    }
}

impl PartialEq for Signers {
    fn eq(&self, other: &Self) -> (r: bool) {
        self.same_bits(other)
    }
}

impl vstd::std_specs::cmp::PartialEqSpecImpl for Signers {
    open spec fn obeys_eq_spec() -> bool {
        true
    }

    open spec fn eq_spec(&self, other: &Self) -> bool {
        self@ == other@
    }
}

impl Eq for Signers {}

fn pack8_exec(b0: bool, b1: bool, b2: bool, b3: bool, b4: bool, b5: bool, b6: bool, b7: bool) -> (x: u8)
    ensures
        x == pack8(b0, b1, b2, b3, b4, b5, b6, b7),
{
    (if b0 { 1u8 } else { 0u8 }) | (if b1 { 2u8 } else { 0u8 }) | (if b2 { 4u8 } else { 0u8 }) | (
    if b3 {
        8u8
    } else {
        0u8
    }) | (if b4 { 16u8 } else { 0u8 }) | (if b5 { 32u8 } else { 0u8 }) | (if b6 { 64u8 } else { 0u8 }) | (
    if b7 {
        128u8
    } else {
        0u8
    })
}

} // verus!

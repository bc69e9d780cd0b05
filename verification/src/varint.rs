//! Variable-length encoding of `u32` values (unsigned LEB128): seven bits per
//! byte, least significant group first, the high bit set on every byte but the
//! last. Decoding accepts only the shortest encoding of a value that fits in
//! 32 bits.

use vstd::prelude::*;
use crate::codec::CodecError;

verus! {

/// The encoding of `n`.
pub open spec fn varint(n: nat) -> Seq<u8>
    decreases n,
{
    if n < 128 {
        seq![n as u8]
    } else {
        seq![(n % 128 + 128) as u8] + varint(n / 128)
    }
}

/// The largest value that a decoder with `budget` bytes left may still produce,
/// plus one: the last of five bytes carries only four bits.
pub open spec fn varint_cap(budget: nat) -> nat
    decreases budget,
{
    if budget == 0 {
        1
    } else if budget == 1 {
        16
    } else {
        128 * varint_cap((budget - 1) as nat)
    }
}

/// Decoding of the front of `s`, with at most `budget` bytes to use: the value
/// and the number of bytes it took, or the error that a reader meets.
pub open spec fn parse_varint(s: Seq<u8>, budget: nat) -> Result<(nat, nat), CodecError>
    decreases budget,
{
    if budget == 0 {
        Err(CodecError::InvalidVarint)
    } else if s.len() == 0 {
        Err(CodecError::EndOfBuffer)
    } else if budget == 1 && s[0] >= 16 {
        Err(CodecError::InvalidVarint)
    } else if s[0] < 128 {
        Ok((s[0] as nat, 1))
    } else {
        match parse_varint(s.drop_first(), (budget - 1) as nat) {
            Ok((v, k)) => if v == 0 {
                Err(CodecError::InvalidVarint)
            } else {
                Ok((((s[0] - 128) + 128 * v) as nat, k + 1))
            },
            Err(e) => Err(e),
        }
    }
}

/// Decoding of a `u32` at the front of `s`.
pub open spec fn parse_u32(s: Seq<u8>) -> Result<(nat, nat), CodecError> {
    parse_varint(s, 5)
}

pub proof fn lemma_varint_cap_5()
    ensures
        varint_cap(5) == 0x1_0000_0000,
{
    reveal_with_fuel(varint_cap, 6);
}

proof fn lemma_varint_cap_grows(b: nat)
    requires
        b >= 1,
    ensures
        varint_cap(b) >= 16,
    decreases b,
{
    if b > 1 {
        lemma_varint_cap_grows((b - 1) as nat);
    }
}

/// What the decoder returns is below the cap of its budget, and is read from
/// between one and `budget` bytes.
pub proof fn lemma_parse_varint_bound(s: Seq<u8>, budget: nat)
    ensures
        parse_varint(s, budget) matches Ok((v, k)) ==> v < varint_cap(budget) && 1 <= k <= budget
            && k <= s.len(),
    decreases budget,
{
    if budget > 1 && s.len() > 0 && s[0] >= 128 {
        lemma_parse_varint_bound(s.drop_first(), (budget - 1) as nat);
    }
    if budget >= 1 {
        lemma_varint_cap_grows(budget);
    }
}

/// The decoder reads back exactly the encoding of a value below the cap,
/// whatever follows it.
pub proof fn lemma_parse_varint_roundtrip(n: nat, rest: Seq<u8>, budget: nat)
    requires
        budget >= 1,
        n < varint_cap(budget),
    ensures
        parse_varint(varint(n) + rest, budget) == Ok::<(nat, nat), CodecError>(
            (n, varint(n).len()),
        ),
    decreases budget,
{
    let s = varint(n) + rest;
    if n < 128 {
        assert(s[0] == n as u8);
    } else {
        assert(budget >= 2) by {
            if budget <= 1 {
                assert(varint_cap(budget) <= 16);
            }
        }
        assert(s[0] == (n % 128 + 128) as u8);
        assert(s.drop_first() =~= varint(n / 128) + rest);
        assert(varint_cap(budget) == 128 * varint_cap((budget - 1) as nat));
        assert(n / 128 < varint_cap((budget - 1) as nat));
        assert(n / 128 >= 1);
        lemma_parse_varint_roundtrip(n / 128, rest, (budget - 1) as nat);
        assert((n % 128 + 128) as u8 - 128 + 128 * (n / 128) == n);
    }
}

/// What the decoder reads is the encoding of the value it returns.
pub proof fn lemma_parse_varint_sound(s: Seq<u8>, budget: nat)
    ensures
        parse_varint(s, budget) matches Ok((v, k)) ==> s.subrange(0, k as int) == varint(v),
    decreases budget,
{
    if budget > 1 && s.len() > 0 && s[0] >= 128 {
        lemma_parse_varint_sound(s.drop_first(), (budget - 1) as nat);
        lemma_parse_varint_bound(s.drop_first(), (budget - 1) as nat);
        if let Ok((v, k)) = parse_varint(s.drop_first(), (budget - 1) as nat) {
            if v != 0 {
                let n = ((s[0] - 128) + 128 * v) as nat;
                assert(n % 128 == s[0] - 128);
                assert(n / 128 == v);
                assert(s.subrange(0, k + 1 as int) =~= seq![s[0]] + s.drop_first().subrange(0, k as int));
            }
        }
    }
}

/// Appends the encoding of `n` to `buf`.
pub fn write_u32(buf: &mut Vec<u8>, n: u32)
    ensures
        final(buf)@ == old(buf)@ + varint(n as nat),
{
    let mut v: u32 = n;
    while v >= 128
        invariant
            old(buf)@ + varint(n as nat) == buf@ + varint(v as nat),
        decreases v,
    {
        let byte: u8 = (v % 128 + 128) as u8;
        let ghost before = buf@;
        buf.push(byte);
        assert(varint(v as nat) == seq![byte] + varint((v / 128) as nat));
        assert(buf@ + varint((v / 128) as nat) =~= before + varint(v as nat));
        v = v / 128;
    }
    buf.push(v as u8);
    assert(varint(v as nat) =~= seq![v as u8]);
}

/// The length of the encoding of `n`.
pub fn u32_encode_size(n: u32) -> (len: usize)
    ensures
        len == varint(n as nat).len(),
        1 <= len <= 5,
{
    let mut v: u32 = n;
    let mut len: usize = 1;
    while v >= 128
        invariant
            len + varint(v as nat).len() == 1 + varint(n as nat).len(),
            1 <= len,
            len + (if v < 128 { 0int } else if v < 16384 { 1int } else if v < 2097152 { 2int } else if v < 268435456 { 3int } else { 4int }) <= 5,
        decreases v,
    {
        v = v / 128;
        len = len + 1;
    }
    len
}

/// Reads a `u32` starting at `pos` in `buf`: the value and the position just
/// after it.
pub fn read_u32(buf: &[u8], pos: usize) -> (r: Result<(u32, usize), CodecError>)
    requires
        pos <= buf@.len(),
    ensures
        match parse_u32(buf@.skip(pos as int)) {
            Ok((v, k)) => r == Ok::<(u32, usize), CodecError>((v as u32, (pos + k) as usize)),
            Err(e) => r == Err::<(u32, usize), CodecError>(e),
        },
{
    proof {
        lemma_parse_varint_bound(buf@.skip(pos as int), 5);
        lemma_varint_cap_5();
    }
    let len = buf.len();
    match read_varint_at(buf, pos, 5) {
        Ok((v, k)) => {
            assert(k <= len - pos);
            Ok((v as u32, pos + k))
        },
        Err(e) => Err(e),
    }
}

fn read_varint_at(buf: &[u8], pos: usize, budget: usize) -> (r: Result<(u64, usize), CodecError>)
    requires
        pos <= buf@.len(),
        1 <= budget <= 5,
    ensures
        match parse_varint(buf@.skip(pos as int), budget as nat) {
            Ok((v, k)) => r == Ok::<(u64, usize), CodecError>((v as u64, k as usize)),
            Err(e) => r == Err::<(u64, usize), CodecError>(e),
        },
    decreases budget,
{
    let ghost s = buf@.skip(pos as int);
    proof {
        lemma_parse_varint_bound(s, budget as nat);
        reveal_with_fuel(varint_cap, 6);
    }
    if pos >= buf.len() {
        return Err(CodecError::EndOfBuffer);
    }
    let b = buf[pos];
    assert(s[0] == b);
    if budget == 1 && b >= 16 {
        return Err(CodecError::InvalidVarint);
    }
    if b < 128 {
        return Ok((b as u64, 1));
    }
    if budget == 1 {
        return Err(CodecError::InvalidVarint);
    }
    assert(buf@.skip(pos + 1) =~= s.drop_first());
    proof {
        lemma_parse_varint_bound(s.drop_first(), (budget - 1) as nat);
    }
    match read_varint_at(buf, pos + 1, budget - 1) {
        Ok((v, k)) => {
            if v == 0 {
                Err(CodecError::InvalidVarint)
            } else {
                assert(v < varint_cap((budget - 1) as nat));
                Ok(((b - 128) as u64 + 128 * v, k + 1))
            }
        },
        Err(e) => Err(e),
    }
}

} // verus!

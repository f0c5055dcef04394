//! Canonical byte serialization: the fixed-order, fixed-width encodings that
//! feed every hash computation.  Identical values always serialize to
//! identical bytes; variable-length fields carry an explicit length prefix so
//! that field boundaries never drift.

use vstd::prelude::*;
use vstd::string::StrSliceExecFns;
use crate::hashing::u64_be;

verus! {

/// The four bytes of `x`, most significant first.
pub open spec fn u32_be(x: u32) -> Seq<u8> {
    seq![
        ((x >> 24) & 0xff) as u8,
        ((x >> 16) & 0xff) as u8,
        ((x >> 8) & 0xff) as u8,
        (x & 0xff) as u8,
    ]
}

/// The two's-complement value of a signed 64-bit integer, as the unsigned
/// 64-bit integer holding the same bits.
pub open spec fn i64_bits(t: i64) -> u64 {
    if t >= 0 {
        t as u64
    } else {
        (t + 0x1_0000_0000_0000_0000) as u64
    }
}

/// A variable-length field: its length, then its bytes.
pub open spec fn with_len(b: Seq<u8>) -> Seq<u8> {
    u64_be(b.len() as u64) + b
}

/// A character as its code point in four big-endian bytes.
pub open spec fn char_be(c: char) -> Seq<u8> {
    u32_be(c as u32)
}

/// A character sequence, each character as four big-endian bytes, in order.
pub open spec fn chars_bytes(s: Seq<char>) -> Seq<u8>
    decreases s.len(),
{
    if s.len() == 0 {
        Seq::<u8>::empty()
    } else {
        chars_bytes(s.drop_last()) + char_be(s.last())
    }
}

/// Append the four big-endian bytes of `x` to `v`.
pub fn push_u32_be(v: &mut Vec<u8>, x: u32)
    ensures
        final(v)@ == old(v)@ + u32_be(x),
{
    v.push(((x >> 24u32) & 0xff) as u8);
    v.push(((x >> 16u32) & 0xff) as u8);
    v.push(((x >> 8u32) & 0xff) as u8);
    v.push((x & 0xff) as u8);
    proof {
        assert(v@ =~= old(v)@ + u32_be(x));
    }
}

/// Append the eight bytes of a signed 64-bit integer, two's complement,
/// most significant first.
pub fn push_i64_be(v: &mut Vec<u8>, t: i64)
    ensures
        final(v)@ == old(v)@ + u64_be(i64_bits(t)),
{
    let u: u64 = if t >= 0 {
        t as u64
    } else {
        ((t as i128) + 0x1_0000_0000_0000_0000i128) as u64
    };
    crate::hashing::push_u64_be(v, u);
}

/// Append a length-prefixed copy of `b` to `v`.
pub fn push_with_len(v: &mut Vec<u8>, b: &Vec<u8>)
    ensures
        final(v)@ == old(v)@ + with_len(b@),
{
    crate::hashing::push_u64_be(v, b.len() as u64);
    let n: usize = b.len();
    let mut i: usize = 0;
    while i < n
        invariant
            n == b@.len(),
            i <= n,
            v@ == old(v)@ + u64_be(b@.len() as u64) + b@.take(i as int),
        decreases n - i,
    {
        v.push(b[i]);
        proof {
            assert(b@.take(i + 1) =~= b@.take(i as int).push(b@[i as int]));
            assert(v@ =~= old(v)@ + u64_be(b@.len() as u64) + b@.take(i + 1));
        }
        i = i + 1;
    }
    proof {
        assert(b@.take(n as int) =~= b@);
        assert(v@ =~= old(v)@ + with_len(b@));
    }
}

/// Append every byte of `b` to `v`.
pub fn push_bytes(v: &mut Vec<u8>, b: &Vec<u8>)
    ensures
        final(v)@ == old(v)@ + b@,
{
    let n: usize = b.len();
    let mut i: usize = 0;
    while i < n
        invariant
            n == b@.len(),
            i <= n,
            v@ == old(v)@ + b@.take(i as int),
        decreases n - i,
    {
        v.push(b[i]);
        proof {
            assert(b@.take(i + 1) =~= b@.take(i as int).push(b@[i as int]));
        }
        i = i + 1;
    }
    proof {
        assert(b@.take(n as int) =~= b@);
    }
}

/// Copy a byte vector.
pub fn copy_bytes(b: &Vec<u8>) -> (r: Vec<u8>)
    ensures
        r@ == b@,
{
    let mut out: Vec<u8> = Vec::new();
    push_bytes(&mut out, b);
    out
}

/// Append the canonical bytes of a string: each character's code point in
/// four big-endian bytes, in character order.
pub fn push_string_bytes(v: &mut Vec<u8>, s: &String)
    ensures
        final(v)@ == old(v)@ + chars_bytes(s@),
{
    let n: usize = s.as_str().unicode_len();
    let mut i: usize = 0;
    while i < n
        invariant
            n == s@.len(),
            i <= n,
            v@ == old(v)@ + chars_bytes(s@.take(i as int)),
        decreases n - i,
    {
        let c: char = s.as_str().get_char(i);
        proof {
            assert(s@.take(i + 1).drop_last() =~= s@.take(i as int));
            assert(s@.take(i + 1).last() == s@[i as int]);
        }
        push_u32_be(v, c as u32);
        proof {
            assert(v@ =~= old(v)@ + chars_bytes(s@.take(i + 1)));
        }
        i = i + 1;
    }
    proof {
        assert(s@.take(n as int) =~= s@);
    }
}

} // verus!

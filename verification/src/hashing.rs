//! The digest behind every hash in the ledger, hexadecimal rendering of
//! digests, and comparison of fixed-width big-endian integers.
//!
//! The digest is a fixed 256-bit construction: four independent 64-bit
//! accumulator lanes absorb the input a byte at a time (xor, then a modular
//! multiplication by a prime), and each lane is finished with a
//! xorshift-multiply mixer before being written out big-endian.  It is a
//! deterministic, well-mixing checksum chosen so that the whole chain can be
//! reasoned about; it is not a cryptographic hash, and the scheme is meant to
//! be substitutable for one.

use vstd::prelude::*;
use vstd::arithmetic::power::pow;
use vstd::arithmetic::power2::pow2;

verus! {

/// Multiplier used while absorbing input bytes.
pub const ABSORB_PRIME: u64 = 0x100000001b3;

/// Starting value of the first lane.
pub const LANE_INIT_0: u64 = 0xcbf29ce484222325;

/// Starting value of the second lane.
pub const LANE_INIT_1: u64 = 0x9ae16a3b2f90404f;

/// Starting value of the third lane.
pub const LANE_INIT_2: u64 = 0xc949d7c7509e6557;

/// Starting value of the fourth lane.
pub const LANE_INIT_3: u64 = 0xff51afd7ed558ccd;

/// First multiplier of the final mixer.
pub const MIX_MUL_1: u64 = 0xbf58476d1ce4e5b9;

/// Second multiplier of the final mixer.
pub const MIX_MUL_2: u64 = 0x94d049bb133111eb;

/// Product of two 64-bit values, reduced modulo 2^64.
pub open spec fn wmul(a: u64, b: u64) -> u64 {
    ((a * b) % 0x1_0000_0000_0000_0000) as u64
}

/// One absorption step of a lane: xor the byte in, multiply by the prime.
pub open spec fn absorb_step(h: u64, b: u8) -> u64 {
    wmul(h ^ (b as u64), ABSORB_PRIME)
}

/// A whole lane: absorb every byte of `s` in order, starting from `init`.
pub open spec fn absorb(s: Seq<u8>, init: u64) -> u64
    decreases s.len(),
{
    if s.len() == 0 {
        init
    } else {
        absorb_step(absorb(s.drop_last(), init), s.last())
    }
}

/// The final mixer of a lane, spreading every input bit over the output.
pub open spec fn mix(h: u64) -> u64 {
    let a = wmul(h ^ (h >> 30), MIX_MUL_1);
    let b = wmul(a ^ (a >> 27), MIX_MUL_2);
    b ^ (b >> 31)
}

/// The eight bytes of `x`, most significant first.
pub open spec fn u64_be(x: u64) -> Seq<u8> {
    seq![
        ((x >> 56) & 0xff) as u8,
        ((x >> 48) & 0xff) as u8,
        ((x >> 40) & 0xff) as u8,
        ((x >> 32) & 0xff) as u8,
        ((x >> 24) & 0xff) as u8,
        ((x >> 16) & 0xff) as u8,
        ((x >> 8) & 0xff) as u8,
        (x & 0xff) as u8,
    ]
}

/// The 32-byte digest of `s`: the four mixed lanes, big-endian, in order.
pub open spec fn spec_digest(s: Seq<u8>) -> Seq<u8> {
    u64_be(mix(absorb(s, LANE_INIT_0))) + u64_be(mix(absorb(s, LANE_INIT_1)))
        + u64_be(mix(absorb(s, LANE_INIT_2))) + u64_be(mix(absorb(s, LANE_INIT_3)))
}

/// The value of a byte sequence read as a big-endian unsigned integer.
pub open spec fn be_nat(s: Seq<u8>) -> nat
    decreases s.len(),
{
    if s.len() == 0 {
        0
    } else {
        (be_nat(s.drop_last()) * 256 + s.last()) as nat
    }
}

/// The lower hexadecimal digit standing for a value below sixteen.
pub open spec fn hex_char(n: u8) -> char {
    if n == 0 { '0' }
    else if n == 1 { '1' }
    else if n == 2 { '2' }
    else if n == 3 { '3' }
    else if n == 4 { '4' }
    else if n == 5 { '5' }
    else if n == 6 { '6' }
    else if n == 7 { '7' }
    else if n == 8 { '8' }
    else if n == 9 { '9' }
    else if n == 10 { 'a' }
    else if n == 11 { 'b' }
    else if n == 12 { 'c' }
    else if n == 13 { 'd' }
    else if n == 14 { 'e' }
    else { 'f' }
}

/// The lower-case hexadecimal rendering of a byte sequence, two digits a
/// byte, most significant digit first.
pub open spec fn hex_of(s: Seq<u8>) -> Seq<char>
    decreases s.len(),
{
    if s.len() == 0 {
        Seq::<char>::empty()
    } else {
        hex_of(s.drop_last()).push(hex_char((s.last() >> 4) & 0xf)).push(
            hex_char(s.last() & 0xf),
        )
    }
}

/// Product of two 64-bit values, reduced modulo 2^64.
fn wmul_exec(a: u64, b: u64) -> (r: u64)
    ensures
        r == wmul(a, b),
{
    proof {
        assert((a as int) * (b as int) < 0x1_0000_0000_0000_0000 * 0x1_0000_0000_0000_0000)
            by (nonlinear_arith)
            requires
                a < 0x1_0000_0000_0000_0000,
                b < 0x1_0000_0000_0000_0000,
        ;
    }
    let p: u128 = (a as u128) * (b as u128);
    (p % 0x1_0000_0000_0000_0000u128) as u64
}

fn absorb_step_exec(h: u64, b: u8) -> (r: u64)
    ensures
        r == absorb_step(h, b),
{
    wmul_exec(h ^ (b as u64), ABSORB_PRIME)
}

fn mix_exec(h: u64) -> (r: u64)
    ensures
        r == mix(h),
{
    let a = wmul_exec(h ^ (h >> 30u64), MIX_MUL_1);
    let b = wmul_exec(a ^ (a >> 27u64), MIX_MUL_2);
    b ^ (b >> 31u64)
}

/// Append the eight big-endian bytes of `x` to `v`.
pub fn push_u64_be(v: &mut Vec<u8>, x: u64)
    ensures
        final(v)@ == old(v)@ + u64_be(x),
{
    v.push(((x >> 56u64) & 0xff) as u8);
    v.push(((x >> 48u64) & 0xff) as u8);
    v.push(((x >> 40u64) & 0xff) as u8);
    v.push(((x >> 32u64) & 0xff) as u8);
    v.push(((x >> 24u64) & 0xff) as u8);
    v.push(((x >> 16u64) & 0xff) as u8);
    v.push(((x >> 8u64) & 0xff) as u8);
    v.push((x & 0xff) as u8);
    proof {
        assert(v@ =~= old(v)@ + u64_be(x));
    }
}

/// The 32-byte digest of `data`.
pub fn digest(data: &Vec<u8>) -> (r: Vec<u8>)
    ensures
        r@ == spec_digest(data@),
        r@.len() == 32,
{
    let mut h0: u64 = LANE_INIT_0;
    let mut h1: u64 = LANE_INIT_1;
    let mut h2: u64 = LANE_INIT_2;
    let mut h3: u64 = LANE_INIT_3;
    let n: usize = data.len();
    let mut i: usize = 0;
    while i < n
        invariant
            n == data@.len(),
            i <= n,
            h0 == absorb(data@.take(i as int), LANE_INIT_0),
            h1 == absorb(data@.take(i as int), LANE_INIT_1),
            h2 == absorb(data@.take(i as int), LANE_INIT_2),
            h3 == absorb(data@.take(i as int), LANE_INIT_3),
        decreases n - i,
    {
        let b = data[i];
        proof {
            assert(data@.take(i + 1).drop_last() =~= data@.take(i as int));
            assert(data@.take(i + 1).last() == data@[i as int]);
        }
        h0 = absorb_step_exec(h0, b);
        h1 = absorb_step_exec(h1, b);
        h2 = absorb_step_exec(h2, b);
        h3 = absorb_step_exec(h3, b);
        i = i + 1;
    }
    proof {
        assert(data@.take(n as int) =~= data@);
    }
    let mut out: Vec<u8> = Vec::new();
    push_u64_be(&mut out, mix_exec(h0));
    push_u64_be(&mut out, mix_exec(h1));
    push_u64_be(&mut out, mix_exec(h2));
    push_u64_be(&mut out, mix_exec(h3));
    proof {
        assert(out@ =~= spec_digest(data@));
    }
    out
}

/// Append the digit standing for `n` to `s`.
fn push_hex_digit(s: &mut String, n: u8)
    requires
        n < 16,
    ensures
        final(s)@ == old(s)@.push(hex_char(n)),
{
    let digit: &str = if n == 0 { "0" }
    else if n == 1 { "1" }
    else if n == 2 { "2" }
    else if n == 3 { "3" }
    else if n == 4 { "4" }
    else if n == 5 { "5" }
    else if n == 6 { "6" }
    else if n == 7 { "7" }
    else if n == 8 { "8" }
    else if n == 9 { "9" }
    else if n == 10 { "a" }
    else if n == 11 { "b" }
    else if n == 12 { "c" }
    else if n == 13 { "d" }
    else if n == 14 { "e" }
    else { "f" };
    proof {
        reveal_strlit("0");
        reveal_strlit("1");
        reveal_strlit("2");
        reveal_strlit("3");
        reveal_strlit("4");
        reveal_strlit("5");
        reveal_strlit("6");
        reveal_strlit("7");
        reveal_strlit("8");
        reveal_strlit("9");
        reveal_strlit("a");
        reveal_strlit("b");
        reveal_strlit("c");
        reveal_strlit("d");
        reveal_strlit("e");
        reveal_strlit("f");
        assert(digit@.len() == 1 && digit@[0] == hex_char(n));
    }
    s.append(digit);
    proof {
        assert(s@ =~= old(s)@.push(hex_char(n)));
    }
}

/// The lower-case hexadecimal rendering of `data`.
pub fn to_hex(data: &Vec<u8>) -> (r: String)
    ensures
        r@ == hex_of(data@),
{
    let mut s = String::new();
    let n: usize = data.len();
    let mut i: usize = 0;
    while i < n
        invariant
            n == data@.len(),
            i <= n,
            s@ == hex_of(data@.take(i as int)),
        decreases n - i,
    {
        let b = data[i];
        proof {
            assert(data@.take(i + 1).drop_last() =~= data@.take(i as int));
            assert(data@.take(i + 1).last() == data@[i as int]);
            assert((b >> 4u8) & 0xf < 16 && b & 0xf < 16) by (bit_vector);
        }
        push_hex_digit(&mut s, (b >> 4u8) & 0xf);
        push_hex_digit(&mut s, b & 0xf);
        i = i + 1;
    }
    proof {
        assert(data@.take(n as int) =~= data@);
    }
    s
}

/// Peeling one power of 256 off the exponent.
proof fn lemma_pow256_unfold(n: nat)
    requires
        n >= 1,
    ensures
        pow(256, n) == 256 * pow(256, (n - 1) as nat),
{
    vstd::arithmetic::power::lemma_pow_adds(256, 1, (n - 1) as nat);
    vstd::arithmetic::power::lemma_pow1(256);
}

/// The integer a byte sequence stands for is below 256 to its length.
pub proof fn lemma_be_nat_bound(s: Seq<u8>)
    ensures
        be_nat(s) < pow(256, s.len() as nat),
    decreases s.len(),
{
    vstd::arithmetic::power::lemma_pow_positive(256, s.len() as nat);
    if s.len() > 0 {
        lemma_be_nat_bound(s.drop_last());
        lemma_pow256_unfold(s.len() as nat);
        assert(pow(256, s.len() as nat) == 256 * pow(256, (s.len() - 1) as nat));
        assert(be_nat(s.drop_last()) * 256 + s.last() < pow(256, s.len() as nat)) by (nonlinear_arith)
            requires
                be_nat(s.drop_last()) < pow(256, (s.len() - 1) as nat),
                s.last() < 256,
                pow(256, s.len() as nat) == 256 * pow(256, (s.len() - 1) as nat),
        ;
    }
}

/// Reading a byte sequence big-endian splits at any point: the prefix's
/// value, shifted up by the width of the suffix, plus the suffix's value.
pub proof fn lemma_be_nat_split(s: Seq<u8>, i: int)
    requires
        0 <= i <= s.len(),
    ensures
        be_nat(s) == be_nat(s.take(i)) * pow(256, (s.len() - i) as nat) + be_nat(s.skip(i)),
    decreases s.len() - i,
{
    if i == s.len() {
        assert(s.take(i) =~= s);
        assert(s.skip(i) =~= Seq::<u8>::empty());
        vstd::arithmetic::power::lemma_pow0(256);
        assert(pow(256, 0) == 1);
    } else {
        let s2 = s.drop_last();
        lemma_be_nat_split(s2, i);
        assert(s2.take(i) =~= s.take(i));
        assert(s.skip(i).drop_last() =~= s2.skip(i));
        assert(s.skip(i).last() == s.last());
        let t = be_nat(s.take(i));
        let p = pow(256, (s2.len() - i) as nat);
        lemma_pow256_unfold((s.len() - i) as nat);
        assert(pow(256, (s.len() - i) as nat) == 256 * p);
        assert(be_nat(s) == be_nat(s2) * 256 + s.last());
        assert(be_nat(s.skip(i)) == be_nat(s2.skip(i)) * 256 + s.last());
        assert((t * p + be_nat(s2.skip(i))) * 256 + s.last() == t * (256 * p) + (be_nat(
            s2.skip(i),
        ) * 256 + s.last())) by (nonlinear_arith);
    }
}

/// Of two equal-length byte sequences that agree up to position `i` and
/// differ there, the one with the smaller byte stands for the smaller
/// integer: big-endian order is position order.
pub proof fn lemma_be_nat_lt(a: Seq<u8>, b: Seq<u8>, i: int)
    requires
        a.len() == b.len(),
        0 <= i < a.len(),
        a.take(i) == b.take(i),
        a[i] < b[i],
    ensures
        be_nat(a) < be_nat(b),
{
    let n = a.len() as int;
    let p = pow(256, (n - i - 1) as nat);
    lemma_be_nat_split(a, i + 1);
    lemma_be_nat_split(b, i + 1);
    assert(a.take(i + 1).drop_last() =~= a.take(i));
    assert(b.take(i + 1).drop_last() =~= b.take(i));
    assert(a.take(i + 1).last() == a[i]);
    assert(b.take(i + 1).last() == b[i]);
    let ta = be_nat(a.take(i + 1));
    let tb = be_nat(b.take(i + 1));
    assert(ta == be_nat(a.take(i)) * 256 + a[i]);
    assert(tb == be_nat(b.take(i)) * 256 + b[i]);
    assert(ta < tb);
    lemma_be_nat_bound(a.skip(i + 1));
    assert(a.skip(i + 1).len() == n - i - 1);
    assert(be_nat(a) < (ta + 1) * p) by (nonlinear_arith)
        requires
            be_nat(a) == ta * p + be_nat(a.skip(i + 1)),
            be_nat(a.skip(i + 1)) < p,
    ;
    assert((ta + 1) * p <= tb * p) by (nonlinear_arith)
        requires
            ta < tb,
            p > 0,
    ;
    vstd::arithmetic::power::lemma_pow_positive(256, (n - i - 1) as nat);
    assert(tb * p <= be_nat(b)) by (nonlinear_arith)
        requires
            be_nat(b) == tb * p + be_nat(b.skip(i + 1)),
    ;
}

/// Whether `a`, read big-endian, stands for a strictly smaller integer
/// than `b` of the same width.
pub fn bytes_lt(a: &Vec<u8>, b: &Vec<u8>) -> (r: bool)
    requires
        a@.len() == b@.len(),
    ensures
        r == (be_nat(a@) < be_nat(b@)),
{
    let n: usize = a.len();
    let mut i: usize = 0;
    while i < n
        invariant
            n == a@.len(),
            n == b@.len(),
            i <= n,
            a@.take(i as int) =~= b@.take(i as int),
        decreases n - i,
    {
        if a[i] < b[i] {
            proof {
                lemma_be_nat_lt(a@, b@, i as int);
            }
            return true;
        }
        if a[i] > b[i] {
            proof {
                lemma_be_nat_lt(b@, a@, i as int);
            }
            return false;
        }
        proof {
            assert(a@.take(i + 1) =~= b@.take(i + 1));
        }
        i = i + 1;
    }
    proof {
        assert(a@.take(n as int) =~= a@);
        assert(b@.take(n as int) =~= b@);
        assert(a@ =~= b@);
    }
    false
}

/// Whether two byte vectors hold the same bytes.
pub fn bytes_eq(a: &Vec<u8>, b: &Vec<u8>) -> (r: bool)
    ensures
        r == (a@ == b@),
{
    if a.len() != b.len() {
        proof {
            assert(a@.len() != b@.len());
        }
        return false;
    }
    let n: usize = a.len();
    let mut i: usize = 0;
    while i < n
        invariant
            n == a@.len(),
            n == b@.len(),
            i <= n,
            forall|j: int| 0 <= j < i ==> a@[j] == b@[j],
        decreases n - i,
    {
        if a[i] != b[i] {
            return false;
        }
        i = i + 1;
    }
    proof {
        assert(a@ =~= b@);
    }
    true
}

} // verus!

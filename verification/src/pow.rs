//! Proof of work: derivation of the numeric target from the configured
//! difficulty, the brute-force nonce search, and the cheap validation
//! predicate run against every block that joins the chain.
//!
//! The target is the 256-bit integer 2^(256 - difficulty); a block is
//! admissible when its header digest, read as a big-endian integer, falls
//! strictly below it.  Finding such a nonce takes expected work exponential
//! in the difficulty, while checking one is a single digest computation.

use vstd::prelude::*;
use vstd::arithmetic::power::pow;
use vstd::arithmetic::power2::pow2;
use crate::Error;
use crate::block::{Block, BlockV, header_payload, header_bytes, spec_block_digest, block_hash_correct, payload_of_parts};
use crate::hashing::{u64_be, be_nat, spec_digest, digest, bytes_lt, push_u64_be, to_hex, lemma_be_nat_split};

verus! {

/// The configured difficulty: how many leading zero bits a block's header
/// digest must show.  Fixed for the whole chain; retargeting is out of
/// scope.
pub const DIFFICULTY_BITS: u32 = 8;

/// The proof-of-work threshold as an integer: 2^(256 - difficulty).
pub open spec fn spec_target_nat() -> nat {
    pow2((256 - DIFFICULTY_BITS) as nat)
}

/// Whether a block's header digest falls strictly below the target.
pub open spec fn pow_below_target(b: BlockV) -> bool {
    be_nat(spec_block_digest(b)) < spec_target_nat()
}

/// A block is valid when it carries the hash its header determines and
/// that hash falls below the target.
pub open spec fn spec_block_valid(b: BlockV) -> bool {
    block_hash_correct(b) && pow_below_target(b)
}

/// Whether nonce `n` fails for the given header fields: the digest of the
/// header at that nonce does not fall below the configured target.
pub open spec fn nonce_fails(
    pre_block_hash: Seq<char>,
    transactions: Seq<crate::transaction::TransactionV>,
    timestamp: i64,
    n: u64,
) -> bool {
    be_nat(spec_digest(header_bytes(pre_block_hash, transactions, timestamp, n)))
        >= spec_target_nat()
}

/// A valid block's hash, read as an integer, is strictly below the
/// proof-of-work target.
pub proof fn lemma_valid_block_below_target(b: BlockV)
    requires
        spec_block_valid(b),
    ensures
        be_nat(spec_block_digest(b)) < spec_target_nat(),
{
}

/// The header digest reads nothing outside the header fields and the
/// nonce: two blocks agreeing on those agree on the digest, so any nonce
/// accepted for given header fields passes validation for them, however it
/// was found.
pub proof fn lemma_digest_deterministic(a: BlockV, b: BlockV)
    requires
        a.pre_block_hash == b.pre_block_hash,
        a.transactions == b.transactions,
        a.timestamp == b.timestamp,
        a.nonce == b.nonce,
    ensures
        spec_block_digest(a) == spec_block_digest(b),
        pow_below_target(a) == pow_below_target(b),
{
}

/// A sequence of zero bytes stands for zero.
proof fn lemma_be_nat_zeros(s: Seq<u8>)
    requires
        forall|j: int| 0 <= j < s.len() ==> s[j] == 0,
    ensures
        be_nat(s) == 0,
    decreases s.len(),
{
    if s.len() > 0 {
        lemma_be_nat_zeros(s.drop_last());
    }
}

/// A sequence with a single nonzero byte stands for that byte shifted by
/// the width of what follows it.
proof fn lemma_be_nat_single(s: Seq<u8>, k: int)
    requires
        0 <= k < s.len(),
        forall|j: int| 0 <= j < s.len() && j != k ==> s[j] == 0,
    ensures
        be_nat(s) == s[k] * pow(256, (s.len() - k - 1) as nat),
{
    lemma_be_nat_split(s, k + 1);
    lemma_be_nat_zeros(s.skip(k + 1));
    assert(s.take(k + 1).drop_last() =~= s.take(k));
    assert(s.take(k + 1).last() == s[k]);
    lemma_be_nat_zeros(s.take(k));
}

/// The 32-byte big-endian form of 2^(256 - difficulty_bits): the
/// proof-of-work target a digest is compared against.
pub fn calc_target(difficulty_bits: u32) -> (t: Vec<u8>)
    requires
        1 <= difficulty_bits <= 255,
    ensures
        t@.len() == 32,
        be_nat(t@) == pow2((256 - difficulty_bits) as nat),
{
    let e: u32 = 256 - difficulty_bits;
    let k: usize = 31 - (e / 8) as usize;
    let m8: u8 = (e % 8) as u8;
    proof {
        assert(m8 < 8);
    }
    let v: u8 = 1u8 << m8;
    let mut t: Vec<u8> = Vec::new();
    let mut i: usize = 0;
    while i < 32
        invariant
            i <= 32,
            t@.len() == i,
            k < 32,
            v == 1u8 << m8,
            forall|j: int| 0 <= j < i ==> t@[j] == (if j == k { v } else { 0u8 }),
        decreases 32 - i,
    {
        if i == k {
            t.push(v);
        } else {
            t.push(0u8);
        }
        i = i + 1;
    }
    proof {
        lemma_be_nat_single(t@, k as int);
        assert(v == (if m8 == 0 { 1u8 } else if m8 == 1 { 2u8 } else if m8 == 2 { 4u8 }
        else if m8 == 3 { 8u8 } else if m8 == 4 { 16u8 } else if m8 == 5 { 32u8 }
        else if m8 == 6 { 64u8 } else { 128u8 })) by (bit_vector)
            requires
                m8 < 8,
                v == 1u8 << m8,
        ;
        vstd::arithmetic::power2::lemma2_to64();
        assert(v as nat == pow2(m8 as nat));
        vstd::arithmetic::power::lemma_pow_multiplies(2, 8, (e / 8) as nat);
        vstd::arithmetic::power2::lemma_pow2(8);
        vstd::arithmetic::power2::lemma_pow2((8 * (e / 8)) as nat);
        vstd::arithmetic::power2::lemma_pow2(e as nat);
        vstd::arithmetic::power2::lemma_pow2(m8 as nat);
        assert(pow(256, (e / 8) as nat) == pow(2, (8 * (e / 8)) as nat));
        assert(31 - k == e / 8);
        vstd::arithmetic::power2::lemma_pow2_adds(m8 as nat, (8 * (e / 8)) as nat);
        vstd::arithmetic::div_mod::lemma_fundamental_div_mod(e as int, 8);
        assert(m8 + 8 * (e / 8) == e);
        assert(be_nat(t@) == v as nat * pow(256, (e / 8) as nat));
        assert(be_nat(t@) == pow2(m8 as nat) * pow2((8 * (e / 8)) as nat)) by (nonlinear_arith)
            requires
                be_nat(t@) == v as nat * pow(256, (e / 8) as nat),
                v as nat == pow2(m8 as nat),
                pow(256, (e / 8) as nat) == pow(2, (8 * (e / 8)) as nat),
                pow2((8 * (e / 8)) as nat) == pow(2, (8 * (e / 8)) as nat),
        ;
        assert(be_nat(t@) == pow2(e as nat));
    }
    t
}

/// Search the nonce space from zero upward for the first nonce whose
/// digest of `payload` followed by the nonce falls below `target`.  The
/// accepted nonce is the least satisfying one: everything below it was
/// tried and failed.  Fails only when every nonce has been tried, and then
/// every nonce really is unusable for this payload.
pub fn mine_payload(payload: &Vec<u8>, target: &Vec<u8>) -> (r: Result<(u64, Vec<u8>), Error>)
    requires
        target@.len() == 32,
    ensures
        r is Err ==> r == Err::<(u64, Vec<u8>), Error>(Error::NonceSpaceExhausted) && forall|
            n: u64,
        | be_nat(spec_digest(payload@ + u64_be(n))) >= be_nat(target@),
        r is Ok ==> ({
            let nonce = (r->Ok_0).0;
            let d = (r->Ok_0).1;
            &&& d@ == spec_digest(payload@ + u64_be(nonce))
            &&& be_nat(d@) < be_nat(target@)
            &&& forall|n: u64|
                n < nonce ==> be_nat(spec_digest(payload@ + u64_be(n))) >= be_nat(target@)
        }),
{
    let mut nonce: u64 = 0;
    loop
        invariant
            target@.len() == 32,
            forall|n: u64| n < nonce ==> be_nat(spec_digest(payload@ + u64_be(n))) >= be_nat(
                target@,
            ),
        decreases 0xffff_ffff_ffff_ffffu64 - nonce,
    {
        let mut candidate = crate::codec::copy_bytes(payload);
        push_u64_be(&mut candidate, nonce);
        let d = digest(&candidate);
        if bytes_lt(&d, target) {
            return Ok((nonce, d));
        }
        if nonce == 0xffff_ffff_ffff_ffffu64 {
            proof {
                assert forall|n: u64| be_nat(spec_digest(payload@ + u64_be(n))) >= be_nat(
                    target@,
                ) by {
                    if n < nonce {
                    } else {
                        assert(n == nonce);
                    }
                }
            }
            return Err(Error::NonceSpaceExhausted);
        }
        nonce = nonce + 1;
    }
}

/// The proof-of-work state for one candidate block: the block whose header
/// fields are fixed, and the target its hash must fall below.
#[derive(Debug)]
pub struct PoroofOfWork {
    /// The candidate block.
    pub block: Block,
    /// The 32-byte big-endian target.
    pub target: Vec<u8>,
}

impl PoroofOfWork {
    /// The target bytes really are the configured target.
    pub open spec fn wf(&self) -> bool {
        self.target@.len() == 32 && be_nat(self.target@) == spec_target_nat()
    }

    /// Pair a candidate block with the configured target.
    pub fn new_proof_of_work(block: Block) -> (p: PoroofOfWork)
        ensures
            p.wf(),
            p.block@ == block@,
    {
        let target = calc_target(DIFFICULTY_BITS);
        PoroofOfWork { block, target }
    }

    /// Mine the candidate: search for a nonce under which the block's
    /// header digest falls below the target, and yield the nonce with the
    /// hash in hexadecimal.  The block's own stored nonce and hash are
    /// ignored and left unchanged.
    pub fn run(&self) -> (r: Result<(u64, String), Error>)
        requires
            self.wf(),
        ensures
            r is Err ==> r == Err::<(u64, String), Error>(Error::NonceSpaceExhausted) && forall|
                n: u64,
            |
                nonce_fails(
                    self.block@.pre_block_hash,
                    self.block@.transactions,
                    self.block@.timestamp,
                    n,
                ),
            r is Ok ==> ({
                let nonce = (r->Ok_0).0;
                let hash = (r->Ok_0).1;
                let d = spec_digest(
                    header_bytes(
                        self.block@.pre_block_hash,
                        self.block@.transactions,
                        self.block@.timestamp,
                        nonce,
                    ),
                );
                &&& hash@ == crate::hashing::hex_of(d)
                &&& be_nat(d) < spec_target_nat()
                &&& forall|n: u64|
                    n < nonce ==> nonce_fails(
                        self.block@.pre_block_hash,
                        self.block@.transactions,
                        self.block@.timestamp,
                        n,
                    )
            }),
    {
        let ghost pre = self.block@.pre_block_hash;
        let ghost txs = self.block@.transactions;
        let ghost ts = self.block@.timestamp;
        let payload = payload_of_parts(
            &self.block.pre_block_hash,
            &self.block.transactions,
            self.block.timestamp,
        );
        match mine_payload(&payload, &self.target) {
            Err(_) => {
                proof {
                    assert forall|n: u64| nonce_fails(pre, txs, ts, n) by {
                        assert(header_bytes(pre, txs, ts, n) == payload@ + u64_be(n));
                        assert(be_nat(spec_digest(payload@ + u64_be(n))) >= be_nat(self.target@));
                    }
                }
                Err(Error::NonceSpaceExhausted)
            },
            Ok((nonce, d)) => {
                let hash = to_hex(&d);
                proof {
                    assert forall|n: u64| n < nonce implies nonce_fails(pre, txs, ts, n) by {
                        assert(header_bytes(pre, txs, ts, n) == payload@ + u64_be(n));
                        assert(be_nat(spec_digest(payload@ + u64_be(n))) >= be_nat(self.target@));
                    }
                }
                Ok((nonce, hash))
            },
        }
    }

    /// Recompute the candidate's header digest at its stored nonce and
    /// check the block: the stored hash must be exactly the recomputed one
    /// and, read as an integer, fall strictly below the target.
    pub fn validate(&self) -> (r: bool)
        requires
            self.wf(),
        ensures
            r == spec_block_valid(self.block@),
    {
        let payload = payload_of_parts(
            &self.block.pre_block_hash,
            &self.block.transactions,
            self.block.timestamp,
        );
        let mut candidate = payload;
        push_u64_be(&mut candidate, self.block.nonce);
        let d = digest(&candidate);
        let below = bytes_lt(&d, &self.target);
        let hex = to_hex(&d);
        let stored_ok = hex == self.block.hash;
        below && stored_ok
    }
}

} // verus!

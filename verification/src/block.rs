//! Blocks: a batch of transactions stamped with its position in the chain,
//! the hash of its predecessor, and the nonce found by the proof-of-work
//! search.  A block's own hash is the digest of its serialized header and is
//! never set from outside.

use vstd::prelude::*;
use crate::Error;
use crate::codec::{chars_bytes, i64_bits, push_string_bytes, push_i64_be};
use crate::hashing::{u64_be, be_nat, spec_digest, hex_of};
use crate::transaction::{Transaction, TransactionV, tx_full_bytes, tx_views};

verus! {

/// One block of the chain.
#[derive(Debug)]
pub struct Block {
    /// When the block was created, as provided by the caller's clock.
    pub timestamp: i64,
    /// The hash of the predecessor block, in lower-case hexadecimal; empty
    /// exactly for the genesis block.
    pub pre_block_hash: String,
    /// This block's own hash: the digest of its serialized header at the
    /// accepted nonce, in lower-case hexadecimal.
    pub hash: String,
    /// The transactions the block carries, coinbase included.
    pub transactions: Vec<Transaction>,
    /// The nonce found by the proof-of-work search.
    pub nonce: u64,
    /// The block's position in the chain; the genesis block sits at zero.
    pub height: usize,
}

/// The mathematical value of a `Block`.
#[verifier::ext_equal]
pub ghost struct BlockV {
    pub timestamp: i64,
    pub pre_block_hash: Seq<char>,
    pub hash: Seq<char>,
    pub transactions: Seq<TransactionV>,
    pub nonce: u64,
    pub height: nat,
}

impl View for Block {
    type V = BlockV;

    open spec fn view(&self) -> BlockV {
        BlockV {
            timestamp: self.timestamp,
            pre_block_hash: self.pre_block_hash@,
            hash: self.hash@,
            transactions: tx_views(self.transactions@),
            nonce: self.nonce,
            height: self.height as nat,
        }
    }
}

/// All transactions' persisted bytes, in list order.
pub open spec fn txs_bytes(s: Seq<TransactionV>) -> Seq<u8>
    decreases s.len(),
{
    if s.len() == 0 {
        Seq::<u8>::empty()
    } else {
        txs_bytes(s.drop_last()) + tx_full_bytes(s.last())
    }
}

/// The nonce-independent part of a block's serialized header: the
/// predecessor hash, every transaction's bytes in list order, and the
/// timestamp.
pub open spec fn header_payload(
    pre_block_hash: Seq<char>,
    transactions: Seq<TransactionV>,
    timestamp: i64,
) -> Seq<u8> {
    chars_bytes(pre_block_hash) + txs_bytes(transactions) + u64_be(i64_bits(timestamp))
}

/// A block's whole serialized header: the payload, then the nonce.
pub open spec fn header_bytes(
    pre_block_hash: Seq<char>,
    transactions: Seq<TransactionV>,
    timestamp: i64,
    nonce: u64,
) -> Seq<u8> {
    header_payload(pre_block_hash, transactions, timestamp) + u64_be(nonce)
}

/// The digest a block's header fields and nonce determine.
pub open spec fn spec_block_digest(b: BlockV) -> Seq<u8> {
    spec_digest(header_bytes(b.pre_block_hash, b.transactions, b.timestamp, b.nonce))
}

/// Whether the hash a block carries is the one its own header determines.
pub open spec fn block_hash_correct(b: BlockV) -> bool {
    b.hash == hex_of(spec_block_digest(b))
}

/// The nonce-independent header bytes of a block given as its parts.
pub fn payload_of_parts(
    pre_block_hash: &String,
    transactions: &Vec<Transaction>,
    timestamp: i64,
) -> (r: Vec<u8>)
    ensures
        r@ == header_payload(pre_block_hash@, tx_views(transactions@), timestamp),
{
    let ghost txv = tx_views(transactions@);
    let mut out: Vec<u8> = Vec::new();
    push_string_bytes(&mut out, pre_block_hash);
    let ghost head = out@;
    let n: usize = transactions.len();
    let mut i: usize = 0;
    while i < n
        invariant
            n == transactions@.len(),
            i <= n,
            txv == tx_views(transactions@),
            out@ == head + txs_bytes(txv.take(i as int)),
        decreases n - i,
    {
        proof {
            assert(txv.take(i + 1).drop_last() =~= txv.take(i as int));
            assert(txv.take(i + 1).last() == transactions@[i as int]@);
        }
        let tb = transactions[i].bytes();
        crate::codec::push_bytes(&mut out, &tb);
        proof {
            assert(out@ =~= head + txs_bytes(txv.take(i + 1)));
        }
        i = i + 1;
    }
    proof {
        assert(txv.take(n as int) =~= txv);
    }
    push_i64_be(&mut out, timestamp);
    proof {
        assert(out@ =~= header_payload(pre_block_hash@, txv, timestamp));
    }
    out
}

/// Copies of the given transactions, value for value.
pub fn clone_transactions(transactions: &[Transaction]) -> (r: Vec<Transaction>)
    ensures
        tx_views(r@) == tx_views(transactions@),
{
    let n: usize = transactions.len();
    let mut out: Vec<Transaction> = Vec::new();
    let mut i: usize = 0;
    while i < n
        invariant
            n == transactions@.len(),
            i <= n,
            out@.len() == i,
            forall|j: int| 0 <= j < i ==> out@[j]@ == transactions@[j]@,
        decreases n - i,
    {
        let t = vstd::slice::slice_index_get(transactions, i).duplicate();
        out.push(t);
        i = i + 1;
    }
    proof {
        let f = |x: Transaction| x@;
        assert(out@.map_values(f) =~= transactions@.map_values(f));
    }
    out
}

impl Block {
    /// A copy whose mathematical value is the same.
    pub fn duplicate(&self) -> (r: Block)
        ensures
            r@ == self@,
    {
        Block {
            timestamp: self.timestamp,
            pre_block_hash: self.pre_block_hash.clone(),
            hash: self.hash.clone(),
            transactions: clone_transactions(self.transactions.as_slice()),
            nonce: self.nonce,
            height: self.height,
        }
    }
}

/// Assemble and mine a block: fix the predecessor hash, transactions,
/// height and timestamp, then search the nonce space from zero upward for
/// a hash below the proof-of-work target.  The accepted nonce is the least
/// satisfying one.  Fails only when the whole nonce space is exhausted,
/// and then no nonce at all can satisfy the target for these header
/// fields.
pub fn new_block(
    pre_block_hash: String,
    transactions: &[Transaction],
    height: usize,
    timestamp: i64,
) -> (r: Result<Block, Error>)
    ensures
        r is Err ==> r == Err::<Block, Error>(Error::NonceSpaceExhausted) && forall|n: u64|
            crate::pow::nonce_fails(pre_block_hash@, tx_views(transactions@), timestamp, n),
        r is Ok ==> ({
            let b = (r->Ok_0)@;
            &&& b.pre_block_hash == pre_block_hash@
            &&& b.transactions == tx_views(transactions@)
            &&& b.timestamp == timestamp
            &&& b.height == height as nat
            &&& block_hash_correct(b)
            &&& crate::pow::pow_below_target(b)
            &&& forall|n: u64|
                n < b.nonce ==> crate::pow::nonce_fails(
                    pre_block_hash@,
                    tx_views(transactions@),
                    timestamp,
                    n,
                )
        }),
{
    let ghost pre = pre_block_hash@;
    let ghost txv = tx_views(transactions@);
    let txs = clone_transactions(transactions);
    let payload = payload_of_parts(&pre_block_hash, &txs, timestamp);
    let target = crate::pow::calc_target(crate::pow::DIFFICULTY_BITS);
    let mined = crate::pow::mine_payload(&payload, &target);
    match mined {
        Err(_) => {
            proof {
                assert forall|n: u64| crate::pow::nonce_fails(pre, txv, timestamp, n) by {
                    assert(header_bytes(pre, txv, timestamp, n) == payload@ + u64_be(n));
                    assert(be_nat(spec_digest(payload@ + u64_be(n))) >= be_nat(target@));
                }
            }
            Err(Error::NonceSpaceExhausted)
        },
        Ok((nonce, digest_bytes)) => {
            let hash = crate::hashing::to_hex(&digest_bytes);
            proof {
                assert forall|n: u64| n < nonce implies crate::pow::nonce_fails(
                    pre,
                    txv,
                    timestamp,
                    n,
                ) by {
                    assert(header_bytes(pre, txv, timestamp, n) == payload@ + u64_be(n));
                    assert(be_nat(spec_digest(payload@ + u64_be(n))) >= be_nat(target@));
                }
            }
            let b = Block {
                timestamp,
                pre_block_hash,
                hash,
                transactions: txs,
                nonce,
                height,
            };
            Ok(b)
        },
    }
}

} // verus!

//! The chain itself: the ordered, hash-linked sequence of blocks, the
//! derivation of the unspent-output set from it, and the validation gate
//! every appended block must pass.
//!
//! The unspent-output view is a pure function of the block sequence: an
//! output is spendable when some transaction in the chain created it and no
//! input anywhere in the chain has consumed it.  The chain's standing
//! invariants: blocks are linked hash to hash with heights counting up from
//! the genesis block, every block passes proof-of-work validation, and no
//! output is consumed twice.

use vstd::prelude::*;
use crate::Error;
use crate::block::{Block, BlockV, new_block, spec_block_digest};
use crate::hashing::{be_nat, hex_of, bytes_eq};
use crate::pow::{spec_block_valid, spec_target_nat};
use crate::transaction::{
    Transaction, TransactionV, TXInput, TXInputV, TXOutput, TXOutputV, SpendableOutput,
    SpendableOutputV,
    input_sig_ok, signable_bytes_of, spendable_views, tx_views,
};

verus! {

/// A reference to one output of one transaction: what an input consumes.
#[verifier::ext_equal]
pub ghost struct OutPoint {
    pub txid: Seq<u8>,
    pub index: nat,
}

/// One output somewhere in the chain, addressed by the transaction that
/// created it and its position in that transaction.
#[verifier::ext_equal]
pub ghost struct OutputEntry {
    pub txid: Seq<u8>,
    pub index: nat,
    pub output: TXOutputV,
}

/// The outpoint an input consumes.
pub open spec fn ref_of(i: TXInputV) -> OutPoint {
    OutPoint { txid: i.txid, index: i.vout }
}

/// The outpoint at which an entry's output sits.
pub open spec fn ref_of_entry(e: OutputEntry) -> OutPoint {
    OutPoint { txid: e.txid, index: e.index }
}

/// The outputs one transaction creates, in output order.
pub open spec fn tx_entries(t: TransactionV) -> Seq<OutputEntry> {
    Seq::new(t.vout.len(), |i: int| OutputEntry { txid: t.id, index: i as nat, output: t.vout[i] })
}

/// The outpoints a sequence of inputs consumes, in order.
pub open spec fn vin_refs(vin: Seq<TXInputV>) -> Seq<OutPoint> {
    Seq::new(vin.len(), |i: int| ref_of(vin[i]))
}

/// The outpoints one transaction consumes, in input order.
pub open spec fn tx_refs(t: TransactionV) -> Seq<OutPoint> {
    vin_refs(t.vin)
}

/// The outputs a list of transactions creates, in list order.
pub open spec fn txs_entries(ts: Seq<TransactionV>) -> Seq<OutputEntry>
    decreases ts.len(),
{
    if ts.len() == 0 {
        Seq::<OutputEntry>::empty()
    } else {
        txs_entries(ts.drop_last()) + tx_entries(ts.last())
    }
}

/// The outpoints a list of transactions consumes, in list order.
pub open spec fn txs_refs(ts: Seq<TransactionV>) -> Seq<OutPoint>
    decreases ts.len(),
{
    if ts.len() == 0 {
        Seq::<OutPoint>::empty()
    } else {
        txs_refs(ts.drop_last()) + tx_refs(ts.last())
    }
}

/// Every output ever created in the chain, in chain order.
pub open spec fn chain_entries(c: Seq<BlockV>) -> Seq<OutputEntry>
    decreases c.len(),
{
    if c.len() == 0 {
        Seq::<OutputEntry>::empty()
    } else {
        chain_entries(c.drop_last()) + txs_entries(c.last().transactions)
    }
}

/// Every outpoint ever consumed in the chain, in chain order.
pub open spec fn chain_refs(c: Seq<BlockV>) -> Seq<OutPoint>
    decreases c.len(),
{
    if c.len() == 0 {
        Seq::<OutPoint>::empty()
    } else {
        chain_refs(c.drop_last()) + txs_refs(c.last().transactions)
    }
}

/// The first output in `es` sitting at the given outpoint, if any.
pub open spec fn find_entry(es: Seq<OutputEntry>, txid: Seq<u8>, index: nat) -> Option<TXOutputV>
    decreases es.len(),
{
    if es.len() == 0 {
        None
    } else if es.first().txid == txid && es.first().index == index {
        Some(es.first().output)
    } else {
        find_entry(es.drop_first(), txid, index)
    }
}

/// No outpoint occurs twice.
pub open spec fn refs_distinct(rs: Seq<OutPoint>) -> bool {
    forall|i: int, j: int| 0 <= i < j < rs.len() ==> rs[i] != rs[j]
}

/// An exec-side outpoint.
#[derive(Debug)]
pub struct ChainRef {
    /// Identifier of the transaction whose output is consumed.
    pub txid: Vec<u8>,
    /// Index of the consumed output.
    pub index: usize,
}

impl View for ChainRef {
    type V = OutPoint;

    open spec fn view(&self) -> OutPoint {
        OutPoint { txid: self.txid@, index: self.index as nat }
    }
}

/// An exec-side chain output entry.
#[derive(Debug)]
pub struct ChainOutput {
    /// Identifier of the transaction that created the output.
    pub txid: Vec<u8>,
    /// Index of the output in that transaction.
    pub index: usize,
    /// The output itself.
    pub output: TXOutput,
}

impl View for ChainOutput {
    type V = OutputEntry;

    open spec fn view(&self) -> OutputEntry {
        OutputEntry { txid: self.txid@, index: self.index as nat, output: self.output@ }
    }
}

/// The mathematical values of a sequence of exec outpoints.
pub open spec fn ref_views(s: Seq<ChainRef>) -> Seq<OutPoint> {
    s.map_values(|x: ChainRef| x@)
}

/// The mathematical values of a sequence of exec entries.
pub open spec fn entry_views(s: Seq<ChainOutput>) -> Seq<OutputEntry> {
    s.map_values(|x: ChainOutput| x@)
}

/// Append the outputs `t` creates to `out`.
fn collect_tx_entries(out: &mut Vec<ChainOutput>, t: &Transaction)
    ensures
        entry_views(final(out)@) == entry_views(old(out)@) + tx_entries(t@),
{
    let ghost base = out@;
    let m: usize = t.vout.len();
    let mut j: usize = 0;
    while j < m
        invariant
            m == t.vout@.len(),
            j <= m,
            entry_views(out@) == entry_views(base) + tx_entries(t@).take(j as int),
        decreases m - j,
    {
        let e = ChainOutput {
            txid: crate::codec::copy_bytes(&t.id),
            index: j,
            output: t.vout[j].duplicate(),
        };
        proof {
            assert(e@ == tx_entries(t@)[j as int]);
        }
        out.push(e);
        proof {
            let rhs = entry_views(base) + tx_entries(t@).take(j + 1);
            assert(tx_entries(t@).take(j + 1).len() == j + 1);
            assert(entry_views(out@.drop_last()) == entry_views(base) + tx_entries(t@).take(
                j as int,
            ));
            assert(entry_views(out@).len() == out@.len());
            assert(out@.len() == out@.drop_last().len() + 1);
            assert(out@.len() == rhs.len());
            assert forall|q: int| 0 <= q < out@.len() implies entry_views(out@)[q] == rhs[q] by {
                assert(entry_views(out@)[q] == out@[q]@);
                if q < out@.len() - 1 {
                    assert(out@[q] == out@.drop_last()[q]);
                    assert(entry_views(out@.drop_last())[q] == out@.drop_last()[q]@);
                } else {
                    assert(out@[q] == e);
                    assert(tx_entries(t@).take(j + 1)[j as int] == tx_entries(t@)[j as int]);
                }
            }
            assert(entry_views(out@) =~= rhs);
        }
        j = j + 1;
    }
    proof {
        assert(tx_entries(t@).take(m as int) =~= tx_entries(t@));
    }
}

/// Append the outpoints `t` consumes to `out`.
fn collect_tx_refs(out: &mut Vec<ChainRef>, t: &Transaction)
    ensures
        ref_views(final(out)@) == ref_views(old(out)@) + tx_refs(t@),
{
    let ghost base = out@;
    let m: usize = t.vin.len();
    let mut j: usize = 0;
    while j < m
        invariant
            m == t.vin@.len(),
            j <= m,
            ref_views(out@) == ref_views(base) + tx_refs(t@).take(j as int),
        decreases m - j,
    {
        let e = ChainRef { txid: crate::codec::copy_bytes(&t.vin[j].txid), index: t.vin[j].vout };
        proof {
            assert(e@ == tx_refs(t@)[j as int]);
        }
        out.push(e);
        proof {
            let rhs = ref_views(base) + tx_refs(t@).take(j + 1);
            assert(tx_refs(t@).take(j + 1).len() == j + 1);
            assert(ref_views(out@.drop_last()) == ref_views(base) + tx_refs(t@).take(j as int));
            assert(ref_views(out@).len() == out@.len());
            assert(out@.len() == out@.drop_last().len() + 1);
            assert(out@.len() == rhs.len());
            assert forall|q: int| 0 <= q < out@.len() implies ref_views(out@)[q] == rhs[q] by {
                assert(ref_views(out@)[q] == out@[q]@);
                if q < out@.len() - 1 {
                    assert(out@[q] == out@.drop_last()[q]);
                    assert(ref_views(out@.drop_last())[q] == out@.drop_last()[q]@);
                } else {
                    assert(out@[q] == e);
                    assert(tx_refs(t@).take(j + 1)[j as int] == tx_refs(t@)[j as int]);
                }
            }
            assert(ref_views(out@) =~= rhs);
        }
        j = j + 1;
    }
    proof {
        assert(tx_refs(t@).take(m as int) =~= tx_refs(t@));
    }
}

/// Append the outputs a whole transaction list creates to `out`.
fn collect_txs_entries(out: &mut Vec<ChainOutput>, ts: &Vec<Transaction>)
    ensures
        entry_views(final(out)@) == entry_views(old(out)@) + txs_entries(tx_views(ts@)),
{
    let ghost base = out@;
    let ghost tsv = tx_views(ts@);
    let n: usize = ts.len();
    let mut i: usize = 0;
    while i < n
        invariant
            n == ts@.len(),
            i <= n,
            tsv == tx_views(ts@),
            entry_views(out@) == entry_views(base) + txs_entries(tsv.take(i as int)),
        decreases n - i,
    {
        proof {
            assert(tsv.take(i + 1).drop_last() =~= tsv.take(i as int));
            assert(tsv.take(i + 1).last() == ts@[i as int]@);
        }
        collect_tx_entries(out, &ts[i]);
        proof {
            assert(entry_views(out@) =~= entry_views(base) + txs_entries(tsv.take(i + 1)));
        }
        i = i + 1;
    }
    proof {
        assert(tsv.take(n as int) =~= tsv);
    }
}

/// Append the outpoints a whole transaction list consumes to `out`.
fn collect_txs_refs(out: &mut Vec<ChainRef>, ts: &Vec<Transaction>)
    ensures
        ref_views(final(out)@) == ref_views(old(out)@) + txs_refs(tx_views(ts@)),
{
    let ghost base = out@;
    let ghost tsv = tx_views(ts@);
    let n: usize = ts.len();
    let mut i: usize = 0;
    while i < n
        invariant
            n == ts@.len(),
            i <= n,
            tsv == tx_views(ts@),
            ref_views(out@) == ref_views(base) + txs_refs(tsv.take(i as int)),
        decreases n - i,
    {
        proof {
            assert(tsv.take(i + 1).drop_last() =~= tsv.take(i as int));
            assert(tsv.take(i + 1).last() == ts@[i as int]@);
        }
        collect_tx_refs(out, &ts[i]);
        proof {
            assert(ref_views(out@) =~= ref_views(base) + txs_refs(tsv.take(i + 1)));
        }
        i = i + 1;
    }
    proof {
        assert(tsv.take(n as int) =~= tsv);
    }
}

/// Whether `refs` holds the given outpoint.
fn contains_ref(refs: &Vec<ChainRef>, txid: &Vec<u8>, index: usize) -> (r: bool)
    ensures
        r == ref_views(refs@).contains(OutPoint { txid: txid@, index: index as nat }),
{
    let ghost target = OutPoint { txid: txid@, index: index as nat };
    let n: usize = refs.len();
    let mut i: usize = 0;
    while i < n
        invariant
            n == refs@.len(),
            i <= n,
            target == (OutPoint { txid: txid@, index: index as nat }),
            forall|j: int| 0 <= j < i ==> ref_views(refs@)[j] != target,
        decreases n - i,
    {
        let same_index = refs[i].index == index;
        let same_txid = bytes_eq(&refs[i].txid, txid);
        proof {
            assert(ref_views(refs@)[i as int] == refs@[i as int]@);
        }
        if same_index && same_txid {
            proof {
                assert(refs@[i as int]@ =~= target);
            }
            return true;
        }
        proof {
            assert(refs@[i as int]@ != target);
        }
        i = i + 1;
    }
    proof {
        if ref_views(refs@).contains(target) {
            let w = choose|j: int| 0 <= j < ref_views(refs@).len() && ref_views(refs@)[j] == target;
            assert(false);
        }
    }
    false
}

/// Look an outpoint up among the collected entries, yielding a copy of the
/// first output sitting there.
fn find_output(entries: &Vec<ChainOutput>, txid: &Vec<u8>, index: usize) -> (r: Option<TXOutput>)
    ensures
        r is None ==> find_entry(entry_views(entries@), txid@, index as nat) is None,
        r is Some ==> find_entry(entry_views(entries@), txid@, index as nat) == Some(
            (r->Some_0)@,
        ),
{
    let ghost es = entry_views(entries@);
    let n: usize = entries.len();
    let mut i: usize = 0;
    proof {
        assert(es.skip(0) =~= es);
    }
    while i < n
        invariant
            n == entries@.len(),
            i <= n,
            es == entry_views(entries@),
            find_entry(es, txid@, index as nat) == find_entry(
                es.skip(i as int),
                txid@,
                index as nat,
            ),
        decreases n - i,
    {
        proof {
            assert(es.skip(i as int).len() > 0);
            assert(es.skip(i as int).first() == entries@[i as int]@);
            assert(es.skip(i as int).drop_first() =~= es.skip(i + 1));
        }
        if entries[i].index == index && bytes_eq(&entries[i].txid, txid) {
            return Some(entries[i].output.duplicate());
        }
        i = i + 1;
    }
    proof {
        assert(es.skip(n as int) =~= Seq::<OutputEntry>::empty());
    }
    None
}

/// One input is admissible against the chain's outputs and the outpoints
/// consumed so far: its outpoint is not yet consumed, it references an
/// output that exists, and it unlocks that output.
pub open spec fn input_ok(
    es: Seq<OutputEntry>,
    spent: Seq<OutPoint>,
    inp: TXInputV,
    msg: Seq<u8>,
) -> bool {
    &&& !spent.contains(ref_of(inp))
    &&& match find_entry(es, inp.txid, inp.vout) {
        Some(o) => input_sig_ok(inp, o, msg),
        None => false,
    }
}

/// A whole input list is admissible, each input checked against the
/// outpoints consumed before it, in order.
pub open spec fn inputs_ok(
    es: Seq<OutputEntry>,
    spent: Seq<OutPoint>,
    vin: Seq<TXInputV>,
    msg: Seq<u8>,
) -> bool
    decreases vin.len(),
{
    if vin.len() == 0 {
        true
    } else {
        input_ok(es, spent, vin.first(), msg) && inputs_ok(
            es,
            spent.push(ref_of(vin.first())),
            vin.drop_first(),
            msg,
        )
    }
}

/// No output of the transaction carries a negative value.
pub open spec fn outputs_nonneg(t: TransactionV) -> bool {
    forall|i: int| 0 <= i < t.vout.len() ==> (#[trigger] t.vout[i]).value >= 0
}

/// A transaction is admissible: its outputs carry no negative value and,
/// unless it is a coinbase, every input is admissible.
pub open spec fn tx_ok(es: Seq<OutputEntry>, spent: Seq<OutPoint>, t: TransactionV) -> bool {
    outputs_nonneg(t) && (t.vin.len() == 0 || inputs_ok(
        es,
        spent,
        t.vin,
        signable_bytes_of(t.vin, t.vout),
    ))
}

/// A whole batch is admissible, each transaction checked against the
/// outpoints consumed by the chain and by the transactions before it.
pub open spec fn txs_ok(es: Seq<OutputEntry>, spent: Seq<OutPoint>, ts: Seq<TransactionV>) -> bool
    decreases ts.len(),
{
    if ts.len() == 0 {
        true
    } else {
        tx_ok(es, spent, ts.first()) && txs_ok(es, spent + tx_refs(ts.first()), ts.drop_first())
    }
}

/// A batch of transactions is admissible on top of a chain.
pub open spec fn batch_valid(c: Seq<BlockV>, ts: Seq<TransactionV>) -> bool {
    txs_ok(chain_entries(c), chain_refs(c), ts)
}

/// Check one input against the collected chain outputs and the outpoints
/// consumed so far; on success its own outpoint joins `spent`.
fn check_one_input(
    entries: &Vec<ChainOutput>,
    spent: &mut Vec<ChainRef>,
    inp: &TXInput,
    msg: &Vec<u8>,
) -> (r: bool)
    ensures
        r == input_ok(entry_views(entries@), ref_views(old(spent)@), inp@, msg@),
        r ==> ref_views(final(spent)@) == ref_views(old(spent)@).push(ref_of(inp@)),
{
    let ghost es = entry_views(entries@);
    let spent_here = contains_ref(spent, &inp.txid, inp.vout);
    if spent_here {
        proof {
            assert(!input_ok(es, ref_views(spent@), inp@, msg@));
        }
        return false;
    }
    let found = find_output(entries, &inp.txid, inp.vout);
    match found {
        None => {
            proof {
                assert(!input_ok(es, ref_views(spent@), inp@, msg@));
            }
            false
        },
        Some(out) => {
            let key_hash = crate::transaction::pub_key_hash_of(&inp.pub_key);
            let hash_ok = bytes_eq(&key_hash, &out.pub_key_hash);
            let expected = crate::transaction::sign(&inp.pub_key, msg);
            let sig_ok = bytes_eq(&expected, &inp.signature);
            if !hash_ok || !sig_ok {
                proof {
                    assert(!input_sig_ok(inp@, out@, msg@));
                    assert(!input_ok(es, ref_views(spent@), inp@, msg@));
                }
                return false;
            }
            proof {
                assert(input_ok(es, ref_views(spent@), inp@, msg@));
            }
            let newref = ChainRef { txid: crate::codec::copy_bytes(&inp.txid), index: inp.vout };
            proof {
                assert(newref@ == ref_of(inp@));
            }
            spent.push(newref);
            proof {
                assert(ref_views(spent@) =~= ref_views(spent@.drop_last()).push(spent@.last()@));
            }
            true
        },
    }
}

/// Check one transaction against the collected chain outputs and the
/// outpoints consumed so far, extending `spent` with what it consumes.
/// When the check fails the batch is abandoned, so `spent` is then
/// unspecified.
#[verifier::rlimit(100)]
fn check_tx(entries: &Vec<ChainOutput>, spent: &mut Vec<ChainRef>, t: &Transaction) -> (r: bool)
    ensures
        r == tx_ok(entry_views(entries@), ref_views(old(spent)@), t@),
        r ==> ref_views(final(spent)@) == ref_views(old(spent)@) + tx_refs(t@),
{
    let ghost es = entry_views(entries@);
    let ghost sv0 = ref_views(spent@);
    let m: usize = t.vout.len();
    let mut j: usize = 0;
    while j < m
        invariant
            m == t.vout@.len(),
            j <= m,
            forall|q: int| 0 <= q < j ==> (#[trigger] t@.vout[q]).value >= 0,
        decreases m - j,
    {
        if t.vout[j].value < 0 {
            proof {
                assert(t@.vout[j as int].value < 0);
                assert(!outputs_nonneg(t@));
            }
            return false;
        }
        j = j + 1;
    }
    proof {
        assert(outputs_nonneg(t@));
    }
    if t.vin.len() == 0 {
        proof {
            assert(ref_views(spent@) =~= sv0 + tx_refs(t@));
        }
        return true;
    }
    let msg = t.signable_bytes();
    let ghost vinv = t@.vin;
    let n: usize = t.vin.len();
    let mut i: usize = 0;
    proof {
        assert(vinv.skip(0) =~= vinv);
        assert(tx_refs(t@).take(0) =~= Seq::<OutPoint>::empty());
        assert(sv0 + tx_refs(t@).take(0) =~= sv0);
    }
    while i < n
        invariant
            n == t.vin@.len(),
            i <= n,
            es == entry_views(entries@),
            sv0 == ref_views(old(spent)@),
            vinv == t@.vin,
            msg@ == signable_bytes_of(t@.vin, t@.vout),
            ref_views(spent@) == sv0 + tx_refs(t@).take(i as int),
            inputs_ok(es, sv0, vinv, msg@) == inputs_ok(es, ref_views(spent@), vinv.skip(i as int), msg@),
        decreases n - i,
    {
        proof {
            assert(vinv.skip(i as int).len() > 0);
            assert(vinv.skip(i as int).first() == t.vin@[i as int]@);
            assert(vinv.skip(i as int).drop_first() =~= vinv.skip(i + 1));
        }
        let ok = check_one_input(entries, spent, &t.vin[i], &msg);
        if !ok {
            return false;
        }
        proof {
            assert(ref_of(vinv[i as int]) == tx_refs(t@)[i as int]);
            assert(ref_views(spent@) =~= sv0 + tx_refs(t@).take(i + 1));
        }
        i = i + 1;
    }
    proof {
        assert(vinv.skip(n as int) =~= Seq::<TXInputV>::empty());
        assert(tx_refs(t@).take(n as int) =~= tx_refs(t@));
        assert(inputs_ok(es, sv0, vinv, msg@));
    }
    true
}

/// Check a whole batch, each transaction against what the chain and the
/// transactions before it consumed.
fn check_txs(entries: &Vec<ChainOutput>, spent: &mut Vec<ChainRef>, ts: &Vec<Transaction>) -> (r:
    bool)
    ensures
        r == txs_ok(entry_views(entries@), ref_views(old(spent)@), tx_views(ts@)),
{
    let ghost es = entry_views(entries@);
    let ghost sv0 = ref_views(spent@);
    let ghost tsv = tx_views(ts@);
    let n: usize = ts.len();
    let mut i: usize = 0;
    proof {
        assert(tsv.skip(0) =~= tsv);
    }
    while i < n
        invariant
            n == ts@.len(),
            i <= n,
            es == entry_views(entries@),
            sv0 == ref_views(old(spent)@),
            tsv == tx_views(ts@),
            txs_ok(es, sv0, tsv) == txs_ok(es, ref_views(spent@), tsv.skip(i as int)),
        decreases n - i,
    {
        proof {
            assert(tsv.skip(i as int).len() > 0);
            assert(tsv.skip(i as int).first() == ts@[i as int]@);
            assert(tsv.skip(i as int).drop_first() =~= tsv.skip(i + 1));
        }
        let ghost before = ref_views(spent@);
        let ok = check_tx(entries, spent, &ts[i]);
        if !ok {
            proof {
                assert(!tx_ok(es, before, tsv[i as int]));
                assert(!txs_ok(es, before, tsv.skip(i as int)));
            }
            return false;
        }
        i = i + 1;
    }
    proof {
        assert(tsv.skip(n as int) =~= Seq::<TransactionV>::empty());
    }
    true
}

/// A transaction list's consumed outpoints, peeled from the front.
proof fn lemma_txs_refs_front(ts: Seq<TransactionV>)
    requires
        ts.len() > 0,
    ensures
        txs_refs(ts) == tx_refs(ts.first()) + txs_refs(ts.drop_first()),
    decreases ts.len(),
{
    if ts.len() == 1 {
        assert(ts.drop_last() =~= Seq::<TransactionV>::empty());
        assert(ts.drop_first() =~= Seq::<TransactionV>::empty());
        assert(txs_refs(ts) =~= tx_refs(ts.first()) + txs_refs(ts.drop_first()));
    } else {
        let tl = ts.drop_last();
        lemma_txs_refs_front(tl);
        assert(tl.first() == ts.first());
        assert(ts.drop_first().drop_last() =~= tl.drop_first());
        assert(ts.drop_first().last() == ts.last());
        assert(txs_refs(ts) =~= tx_refs(ts.first()) + txs_refs(ts.drop_first()));
    }
}

/// A transaction list's created outputs, peeled from the front.
proof fn lemma_txs_entries_front(ts: Seq<TransactionV>)
    requires
        ts.len() > 0,
    ensures
        txs_entries(ts) == tx_entries(ts.first()) + txs_entries(ts.drop_first()),
    decreases ts.len(),
{
    if ts.len() == 1 {
        assert(ts.drop_last() =~= Seq::<TransactionV>::empty());
        assert(ts.drop_first() =~= Seq::<TransactionV>::empty());
        assert(txs_entries(ts) =~= tx_entries(ts.first()) + txs_entries(ts.drop_first()));
    } else {
        let tl = ts.drop_last();
        lemma_txs_entries_front(tl);
        assert(tl.first() == ts.first());
        assert(ts.drop_first().drop_last() =~= tl.drop_first());
        assert(ts.drop_first().last() == ts.last());
        assert(txs_entries(ts) =~= tx_entries(ts.first()) + txs_entries(ts.drop_first()));
    }
}

/// Admissible inputs extend a duplicate-free spent set without creating a
/// duplicate: each input's outpoint was checked against everything
/// consumed before it.
#[verifier::rlimit(50)]
proof fn lemma_inputs_ok_distinct(
    es: Seq<OutputEntry>,
    spent: Seq<OutPoint>,
    vin: Seq<TXInputV>,
    msg: Seq<u8>,
)
    requires
        inputs_ok(es, spent, vin, msg),
        refs_distinct(spent),
    ensures
        refs_distinct(spent + vin_refs(vin)),
    decreases vin.len(),
{
    if vin.len() == 0 {
        assert(spent + vin_refs(vin) =~= spent);
    } else {
        let r0 = ref_of(vin.first());
        assert(!spent.contains(r0));
        assert forall|i: int| 0 <= i < spent.len() implies spent[i] != r0 by {
            if spent[i] == r0 {
                assert(spent.contains(r0));
            }
        }
        assert(refs_distinct(spent.push(r0)));
        lemma_inputs_ok_distinct(es, spent.push(r0), vin.drop_first(), msg);
        assert(spent + vin_refs(vin) =~= spent.push(r0) + vin_refs(vin.drop_first()));
    }
}

/// An admissible batch extends a duplicate-free spent set without creating
/// a duplicate: no outpoint is consumed twice across the chain and the
/// batch together.
proof fn lemma_txs_ok_distinct(es: Seq<OutputEntry>, spent: Seq<OutPoint>, ts: Seq<TransactionV>)
    requires
        txs_ok(es, spent, ts),
        refs_distinct(spent),
    ensures
        refs_distinct(spent + txs_refs(ts)),
    decreases ts.len(),
{
    if ts.len() == 0 {
        assert(spent + txs_refs(ts) =~= spent);
    } else {
        let t0 = ts.first();
        if t0.vin.len() == 0 {
            assert(tx_refs(t0) =~= Seq::<OutPoint>::empty());
            assert(spent + tx_refs(t0) =~= spent);
        } else {
            lemma_inputs_ok_distinct(es, spent, t0.vin, signable_bytes_of(t0.vin, t0.vout));
        }
        lemma_txs_ok_distinct(es, spent + tx_refs(t0), ts.drop_first());
        lemma_txs_refs_front(ts);
        assert(spent + txs_refs(ts) =~= (spent + tx_refs(t0)) + txs_refs(ts.drop_first()));
    }
}

/// No entry carries a negative value.
pub open spec fn entries_nonneg(es: Seq<OutputEntry>) -> bool {
    forall|i: int| 0 <= i < es.len() ==> (#[trigger] es[i]).output.value >= 0
}

/// An admissible batch creates no output with a negative value.
proof fn lemma_txs_ok_entries_nonneg(
    es: Seq<OutputEntry>,
    spent: Seq<OutPoint>,
    ts: Seq<TransactionV>,
)
    requires
        txs_ok(es, spent, ts),
    ensures
        entries_nonneg(txs_entries(ts)),
    decreases ts.len(),
{
    if ts.len() > 0 {
        let t0 = ts.first();
        lemma_txs_ok_entries_nonneg(es, spent + tx_refs(t0), ts.drop_first());
        lemma_txs_entries_front(ts);
        assert forall|i: int| 0 <= i < txs_entries(ts).len() implies (#[trigger] txs_entries(
            ts,
        )[i]).output.value >= 0 by {
            if i < tx_entries(t0).len() {
                assert(txs_entries(ts)[i] == tx_entries(t0)[i]);
                assert(tx_entries(t0)[i].output == t0.vout[i]);
            } else {
                assert(txs_entries(ts)[i] == txs_entries(ts.drop_first())[i - tx_entries(
                    t0,
                ).len()]);
            }
        }
    }
}

/// The mathematical values of a sequence of blocks.
pub open spec fn block_views(s: Seq<Block>) -> Seq<BlockV> {
    s.map_values(|b: Block| b@)
}

/// The chain's standing invariants: non-empty, genesis at the bottom,
/// hash-linked with heights counting up, every block valid, no outpoint
/// consumed twice, no negative value anywhere.
pub open spec fn chain_wf(c: Seq<BlockV>) -> bool {
    &&& c.len() >= 1
    &&& c[0].height == 0
    &&& c[0].pre_block_hash == Seq::<char>::empty()
    &&& forall|h: int| 0 <= h < c.len() ==> (#[trigger] c[h]).transactions.len() >= 1
    &&& forall|h: int| 0 <= h < c.len() ==> spec_block_valid(#[trigger] c[h])
    &&& forall|h: int| 1 <= h < c.len() ==> (#[trigger] c[h]).pre_block_hash == c[h - 1].hash
    &&& forall|h: int| 1 <= h < c.len() ==> (#[trigger] c[h]).height == h
    &&& refs_distinct(chain_refs(c))
    &&& entries_nonneg(chain_entries(c))
}

/// Appending a correctly linked, valid block whose batch is admissible
/// keeps every chain invariant.
proof fn lemma_chain_wf_push(c: Seq<BlockV>, b: BlockV)
    requires
        chain_wf(c),
        b.pre_block_hash == c.last().hash,
        b.height == c.len(),
        spec_block_valid(b),
        b.transactions.len() >= 1,
        txs_ok(chain_entries(c), chain_refs(c), b.transactions),
    ensures
        chain_wf(c.push(b)),
{
    let c2 = c.push(b);
    assert(c2.drop_last() =~= c);
    assert(c2.last() == b);
    assert(chain_refs(c2) == chain_refs(c) + txs_refs(b.transactions));
    assert(chain_entries(c2) == chain_entries(c) + txs_entries(b.transactions));
    lemma_txs_ok_distinct(chain_entries(c), chain_refs(c), b.transactions);
    lemma_txs_ok_entries_nonneg(chain_entries(c), chain_refs(c), b.transactions);
    assert forall|i: int| 0 <= i < chain_entries(c2).len() implies (#[trigger] chain_entries(
        c2,
    )[i]).output.value >= 0 by {
        if i < chain_entries(c).len() {
            assert(chain_entries(c2)[i] == chain_entries(c)[i]);
        } else {
            assert(chain_entries(c2)[i] == txs_entries(b.transactions)[i - chain_entries(
                c,
            ).len()]);
        }
    }
}

/// What a one-block chain creates and consumes: only its coinbase's
/// outputs, and nothing at all.
proof fn lemma_singleton_collections(bv: BlockV)
    requires
        bv.transactions.len() == 1,
        bv.transactions[0].vin.len() == 0,
    ensures
        chain_refs(seq![bv]) == Seq::<OutPoint>::empty(),
        chain_entries(seq![bv]) == tx_entries(bv.transactions[0]),
{
    let c = seq![bv];
    let cbv = bv.transactions[0];
    assert(c.drop_last() =~= Seq::<BlockV>::empty());
    assert(c.last() == bv);
    let ts1 = bv.transactions;
    assert(ts1.drop_last() =~= Seq::<TransactionV>::empty());
    assert(ts1.last() == cbv);
    assert(tx_refs(cbv) =~= Seq::<OutPoint>::empty());
    assert(txs_refs(ts1.drop_last()) == txs_refs(Seq::<TransactionV>::empty()));
    assert(txs_refs(Seq::<TransactionV>::empty()) == Seq::<OutPoint>::empty());
    assert(txs_refs(ts1) =~= Seq::<OutPoint>::empty());
    assert(txs_entries(ts1.drop_last()) == txs_entries(Seq::<TransactionV>::empty()));
    assert(txs_entries(Seq::<TransactionV>::empty()) == Seq::<OutputEntry>::empty());
    assert(txs_entries(ts1) =~= tx_entries(cbv));
    assert(chain_refs(c.drop_last()) == chain_refs(Seq::<BlockV>::empty()));
    assert(chain_refs(Seq::<BlockV>::empty()) == Seq::<OutPoint>::empty());
    assert(chain_refs(c) =~= Seq::<OutPoint>::empty());
    assert(chain_entries(c.drop_last()) == chain_entries(Seq::<BlockV>::empty()));
    assert(chain_entries(Seq::<BlockV>::empty()) == Seq::<OutputEntry>::empty());
    assert(chain_entries(c) =~= tx_entries(cbv));
}

/// A single valid genesis block whose only transaction is a coinbase with
/// no negative output satisfies every chain invariant.
#[verifier::rlimit(100)]
proof fn lemma_chain_wf_singleton(bv: BlockV)
    requires
        bv.height == 0,
        bv.pre_block_hash == Seq::<char>::empty(),
        spec_block_valid(bv),
        bv.transactions.len() == 1,
        bv.transactions[0].vin.len() == 0,
        forall|i: int|
            0 <= i < bv.transactions[0].vout.len() ==> (#[trigger] bv.transactions[0].vout[
                i
            ]).value >= 0,
    ensures
        chain_wf(seq![bv]),
{
    let c = seq![bv];
    let cbv = bv.transactions[0];
    lemma_singleton_collections(bv);
    assert(refs_distinct(chain_refs(c)));
    assert forall|i: int| 0 <= i < chain_entries(c).len() implies (#[trigger] chain_entries(
        c,
    )[i]).output.value >= 0 by {
        assert(chain_entries(c)[i] == tx_entries(cbv)[i]);
        assert(tx_entries(cbv)[i].output == cbv.vout[i]);
    }
}

/// The ordered, hash-linked sequence of blocks; the sole owner and sole
/// mutator of the ledger's state.  The block sequence is private so that
/// only `new_genesis` and `add_block` can shape it, which is what keeps
/// the chain invariants standing.
#[derive(Debug)]
pub struct Blockchain {
    blocks: Vec<Block>,
}

impl View for Blockchain {
    type V = Seq<BlockV>;

    closed spec fn view(&self) -> Seq<BlockV> {
        block_views(self.blocks@)
    }
}

impl Blockchain {
    /// The chain invariants hold.
    pub open spec fn wf(&self) -> bool {
        chain_wf(self@)
    }

    /// Every output ever created in the chain, collected in chain order.
    fn collect_chain_entries(&self) -> (r: Vec<ChainOutput>)
        ensures
            entry_views(r@) == chain_entries(self@),
    {
        let ghost cv = self@;
        let mut out: Vec<ChainOutput> = Vec::new();
        let n: usize = self.blocks.len();
        let mut i: usize = 0;
        while i < n
            invariant
                n == self.blocks@.len(),
                i <= n,
                cv == self@,
                entry_views(out@) == chain_entries(cv.take(i as int)),
            decreases n - i,
        {
            proof {
                assert(cv.take(i + 1).drop_last() =~= cv.take(i as int));
                assert(cv.take(i + 1).last() == self.blocks@[i as int]@);
            }
            collect_txs_entries(&mut out, &self.blocks[i].transactions);
            proof {
                assert(entry_views(out@) =~= chain_entries(cv.take(i + 1)));
            }
            i = i + 1;
        }
        proof {
            assert(cv.take(n as int) =~= cv);
        }
        out
    }

    /// Every outpoint ever consumed in the chain, collected in chain
    /// order.
    fn collect_chain_refs(&self) -> (r: Vec<ChainRef>)
        ensures
            ref_views(r@) == chain_refs(self@),
    {
        let ghost cv = self@;
        let mut out: Vec<ChainRef> = Vec::new();
        let n: usize = self.blocks.len();
        let mut i: usize = 0;
        while i < n
            invariant
                n == self.blocks@.len(),
                i <= n,
                cv == self@,
                ref_views(out@) == chain_refs(cv.take(i as int)),
            decreases n - i,
        {
            proof {
                assert(cv.take(i + 1).drop_last() =~= cv.take(i as int));
                assert(cv.take(i + 1).last() == self.blocks@[i as int]@);
            }
            collect_txs_refs(&mut out, &self.blocks[i].transactions);
            proof {
                assert(ref_views(out@) =~= chain_refs(cv.take(i + 1)));
            }
            i = i + 1;
        }
        proof {
            assert(cv.take(n as int) =~= cv);
        }
        out
    }

    /// Start a chain with its genesis block: height zero, an empty
    /// predecessor hash, and the given coinbase as its only transaction,
    /// mined like any other block.
    #[verifier::rlimit(100)]
    pub fn new_genesis(coinbase: Transaction, timestamp: i64) -> (r: Result<Blockchain, Error>)
        requires
            coinbase@.vin.len() == 0,
            forall|i: int|
                0 <= i < coinbase@.vout.len() ==> (#[trigger] coinbase@.vout[i]).value >= 0,
        ensures
            r is Err ==> r == Err::<Blockchain, Error>(Error::NonceSpaceExhausted) && forall|
                n: u64,
            | crate::pow::nonce_fails(Seq::<char>::empty(), seq![coinbase@], timestamp, n),
            r is Ok ==> ({
                let bc = r->Ok_0;
                &&& bc.wf()
                &&& bc@.len() == 1
                &&& bc@[0].height == 0
                &&& bc@[0].pre_block_hash == Seq::<char>::empty()
                &&& bc@[0].timestamp == timestamp
                &&& bc@[0].transactions == seq![coinbase@]
                &&& spec_block_valid(bc@[0])
            }),
    {
        let ghost cbv = coinbase@;
        let mut txs: Vec<Transaction> = Vec::new();
        txs.push(coinbase);
        proof {
            assert(tx_views(txs@) =~= seq![cbv]);
        }
        let made = new_block(String::new(), txs.as_slice(), 0, timestamp);
        match made {
            Err(_) => Err(Error::NonceSpaceExhausted),
            Ok(b) => {
                proof {
                    assert(tx_views(txs@) =~= seq![cbv]);
                }
                let mut blocks: Vec<Block> = Vec::new();
                let ghost bv = b@;
                blocks.push(b);
                let bc = Blockchain { blocks };
                proof {
                    assert(bc@ =~= seq![bv]);
                    assert(bv.transactions == seq![cbv]);
                    lemma_chain_wf_singleton(bv);
                }
                Ok(bc)
            },
        }
    }

    /// The number of blocks in the chain.
    pub fn len(&self) -> (r: usize)
        ensures
            r == self@.len(),
    {
        self.blocks.len()
    }

    /// The block at a given height.
    pub fn block_at(&self, height: usize) -> (r: &Block)
        requires
            height < self@.len(),
        ensures
            r@ == self@[height as int],
    {
        &self.blocks[height]
    }

    /// The hash of the tip, the most recently appended block.
    pub fn tip_hash(&self) -> (r: String)
        requires
            self@.len() >= 1,
        ensures
            r@ == self@.last().hash,
    {
        self.blocks[self.blocks.len() - 1].hash.clone()
    }

    /// Assemble and mine a candidate block on top of the current tip,
    /// without appending it.  The batch must be non-empty (the caller
    /// includes the coinbase) and admissible against the chain's unspent
    /// outputs, intra-batch double spends included; it is checked before
    /// any mining work is spent.
    pub fn mine_block(&self, transactions: &[Transaction], timestamp: i64) -> (r: Result<
        Block,
        Error,
    >)
        requires
            self.wf(),
        ensures
            r == Err::<Block, Error>(Error::EmptyTransactionSet) <==> transactions@.len() == 0,
            r == Err::<Block, Error>(Error::InvalidTransaction) <==> transactions@.len() > 0
                && !batch_valid(self@, tx_views(transactions@)),
            r is Err ==> r == Err::<Block, Error>(Error::EmptyTransactionSet) || r == Err::<
                Block,
                Error,
            >(Error::InvalidTransaction) || r == Err::<Block, Error>(Error::NonceSpaceExhausted),
            r == Err::<Block, Error>(Error::NonceSpaceExhausted) ==> forall|n: u64|
                crate::pow::nonce_fails(self@.last().hash, tx_views(transactions@), timestamp, n),
            r is Ok ==> ({
                let b = (r->Ok_0)@;
                &&& transactions@.len() > 0
                &&& batch_valid(self@, tx_views(transactions@))
                &&& b.pre_block_hash == self@.last().hash
                &&& b.height == self@.len()
                &&& b.timestamp == timestamp
                &&& b.transactions == tx_views(transactions@)
                &&& spec_block_valid(b)
                &&& forall|n: u64|
                    n < b.nonce ==> crate::pow::nonce_fails(
                        self@.last().hash,
                        tx_views(transactions@),
                        timestamp,
                        n,
                    )
            }),
    {
        if transactions.len() == 0 {
            return Err(Error::EmptyTransactionSet);
        }
        let txs = crate::block::clone_transactions(transactions);
        let entries = self.collect_chain_entries();
        let mut spent = self.collect_chain_refs();
        let ok = check_txs(&entries, &mut spent, &txs);
        if !ok {
            return Err(Error::InvalidTransaction);
        }
        let pre = self.tip_hash();
        let height: usize = self.blocks.len();
        let made = new_block(pre, transactions, height, timestamp);
        match made {
            Err(_) => Err(Error::NonceSpaceExhausted),
            Ok(b) => Ok(b),
        }
    }

    /// Append a candidate block after revalidating everything against the
    /// current tip: the linkage, the height, the proof of work, and every
    /// transaction against the chain's unspent outputs.  A rejected block
    /// leaves the chain exactly as it was.
    #[verifier::rlimit(100)]
    pub fn add_block(&mut self, block: Block) -> (r: Result<(), Error>)
        requires
            old(self).wf(),
        ensures
            final(self).wf(),
            r is Ok ==> final(self)@ == old(self)@.push(block@),
            !(r is Ok) ==> final(self)@ == old(self)@,
            r == Err::<(), Error>(Error::InvalidPreviousHash) <==> block@.pre_block_hash != old(
                self,
            )@.last().hash,
            r == Err::<(), Error>(Error::InvalidHeight) <==> block@.pre_block_hash == old(
                self,
            )@.last().hash && block@.height != old(self)@.len(),
            r == Err::<(), Error>(Error::InvalidProofOfWork) <==> block@.pre_block_hash == old(
                self,
            )@.last().hash && block@.height == old(self)@.len() && !spec_block_valid(block@),
            r == Err::<(), Error>(Error::InvalidTransaction) <==> block@.pre_block_hash == old(
                self,
            )@.last().hash && block@.height == old(self)@.len() && spec_block_valid(block@) && !(
            block@.transactions.len() >= 1 && batch_valid(old(self)@, block@.transactions)),
            r is Ok <==> block@.pre_block_hash == old(self)@.last().hash && block@.height == old(
                self,
            )@.len() && spec_block_valid(block@) && block@.transactions.len() >= 1 && batch_valid(
                old(self)@,
                block@.transactions,
            ),
    {
        let ghost bv = block@;
        let n: usize = self.blocks.len();
        let same_pre = block.pre_block_hash == self.blocks[n - 1].hash;
        if !same_pre {
            return Err(Error::InvalidPreviousHash);
        }
        if block.height != n {
            return Err(Error::InvalidHeight);
        }
        let p = crate::pow::PoroofOfWork::new_proof_of_work(block);
        let valid = p.validate();
        let block = p.block;
        if !valid {
            return Err(Error::InvalidProofOfWork);
        }
        if block.transactions.len() == 0 {
            return Err(Error::InvalidTransaction);
        }
        let entries = self.collect_chain_entries();
        let mut spent = self.collect_chain_refs();
        let ok = check_txs(&entries, &mut spent, &block.transactions);
        if !ok {
            return Err(Error::InvalidTransaction);
        }
        proof {
            lemma_chain_wf_push(self@, bv);
        }
        self.blocks.push(block);
        proof {
            assert(self@ =~= old(self)@.push(bv));
        }
        Ok(())
    }

    /// The unspent outputs locked to a given key hash: every output the
    /// chain created for it that no input anywhere in the chain has
    /// consumed, in chain order.
    pub fn find_unspent_outputs(&self, pub_key_hash: &Vec<u8>) -> (r: Vec<SpendableOutput>)
        requires
            self.wf(),
        ensures
            spendable_views(r@) == unspent_for(self@, pub_key_hash@),
            forall|i: int| 0 <= i < r@.len() ==> (#[trigger] r@[i]@).value >= 0,
    {
        let entries = self.collect_chain_entries();
        let refs = self.collect_chain_refs();
        let out = filter_unspent(&entries, &refs, pub_key_hash);
        proof {
            assert(entry_views(entries@) == chain_entries(self@));
            assert(entries_nonneg(entry_views(entries@)));
            lemma_filter_spendable_nonneg(entry_views(entries@), ref_views(refs@), pub_key_hash@);
            assert(spendable_views(out@) == unspent_for(self@, pub_key_hash@));
            assert forall|i: int| 0 <= i < out@.len() implies (#[trigger] out@[i]@).value >= 0 by {
                assert(out@[i]@ == spendable_views(out@)[i]);
            }
        }
        out
    }

    /// The total unspent value locked to a key hash.  The total must fit
    /// the result's width.
    pub fn get_balance(&self, pub_key_hash: &Vec<u8>) -> (r: i64)
        requires
            self.wf(),
            crate::transaction::sum_values(unspent_for(self@, pub_key_hash@))
                <= 0x7fff_ffff_ffff_ffff,
        ensures
            r == crate::transaction::sum_values(unspent_for(self@, pub_key_hash@)),
    {
        let unspent = self.find_unspent_outputs(pub_key_hash);
        let ghost uv = spendable_views(unspent@);
        let n: usize = unspent.len();
        let mut acc: i64 = 0;
        let mut i: usize = 0;
        proof {
            assert(uv.take(0) =~= Seq::<SpendableOutputV>::empty());
        }
        while i < n
            invariant
                n == unspent@.len(),
                i <= n,
                uv == spendable_views(unspent@),
                forall|j: int| 0 <= j < uv.len() ==> (#[trigger] uv[j]).value >= 0,
                crate::transaction::sum_values(uv) <= 0x7fff_ffff_ffff_ffff,
                acc == crate::transaction::sum_values(uv.take(i as int)),
            decreases n - i,
        {
            proof {
                assert(uv.take(i + 1).drop_last() =~= uv.take(i as int));
                assert(uv.take(i + 1).last() == unspent@[i as int]@);
                crate::transaction::lemma_sum_prefix(uv, i as int);
                crate::transaction::lemma_sum_prefix(uv, i + 1);
            }
            acc = acc + unspent[i].value as i64;
            i = i + 1;
        }
        proof {
            assert(uv.take(n as int) =~= uv);
        }
        acc
    }
}

/// Pick out of the collected entries those locked to `pub_key_hash` and
/// not consumed by any collected outpoint.
#[verifier::rlimit(100)]
fn filter_unspent(
    entries: &Vec<ChainOutput>,
    refs: &Vec<ChainRef>,
    pub_key_hash: &Vec<u8>,
) -> (r: Vec<SpendableOutput>)
    ensures
        spendable_views(r@) == filter_spendable(
            entry_views(entries@),
            ref_views(refs@),
            pub_key_hash@,
        ),
{
    let ghost pk = pub_key_hash@;
    let ghost es = entry_views(entries@);
    let ghost rv = ref_views(refs@);
    let mut out: Vec<SpendableOutput> = Vec::new();
    let n: usize = entries.len();
    let mut i: usize = 0;
    proof {
        assert(es.take(0) =~= Seq::<OutputEntry>::empty());
        assert(spendable_views(out@) =~= filter_spendable(es.take(0), rv, pk));
    }
    while i < n
        invariant
            n == entries@.len(),
            i <= n,
            es == entry_views(entries@),
            rv == ref_views(refs@),
            pk == pub_key_hash@,
            spendable_views(out@) == filter_spendable(es.take(i as int), rv, pk),
        decreases n - i,
    {
        proof {
            assert(es.take(i + 1).drop_last() =~= es.take(i as int));
            assert(es.take(i + 1).last() == entries@[i as int]@);
        }
        let owned = bytes_eq(&entries[i].output.pub_key_hash, pub_key_hash);
        let consumed = contains_ref(refs, &entries[i].txid, entries[i].index);
        if owned && !consumed {
            let s = SpendableOutput {
                txid: crate::codec::copy_bytes(&entries[i].txid),
                index: entries[i].index,
                value: entries[i].output.value,
            };
            proof {
                assert(s@ == to_spendable(entries@[i as int]@));
                assert(ref_of_entry(entries@[i as int]@) == (OutPoint {
                    txid: entries@[i as int].txid@,
                    index: entries@[i as int].index as nat,
                }));
            }
            out.push(s);
            proof {
                assert(spendable_views(out@) =~= spendable_views(out@.drop_last()).push(
                    out@.last()@,
                ));
                assert(spendable_views(out@) =~= filter_spendable(es.take(i + 1), rv, pk));
            }
        } else {
            proof {
                assert(ref_of_entry(entries@[i as int]@) == (OutPoint {
                    txid: entries@[i as int].txid@,
                    index: entries@[i as int].index as nat,
                }));
                assert(filter_spendable(es.take(i + 1), rv, pk) =~= filter_spendable(
                    es.take(i as int),
                    rv,
                    pk,
                ));
            }
        }
        i = i + 1;
    }
    proof {
        assert(es.take(n as int) =~= es);
    }
    out
}

/// A chain entry reduced to what a spender needs: where the output sits
/// and what it carries.
pub open spec fn to_spendable(e: OutputEntry) -> SpendableOutputV {
    SpendableOutputV { txid: e.txid, index: e.index, value: e.output.value }
}

/// The entries locked to `pkh` whose outpoints `refs` does not consume,
/// in entry order.
pub open spec fn filter_spendable(
    es: Seq<OutputEntry>,
    refs: Seq<OutPoint>,
    pkh: Seq<u8>,
) -> Seq<SpendableOutputV>
    decreases es.len(),
{
    if es.len() == 0 {
        Seq::<SpendableOutputV>::empty()
    } else if es.last().output.pub_key_hash == pkh && !refs.contains(ref_of_entry(es.last())) {
        filter_spendable(es.drop_last(), refs, pkh).push(to_spendable(es.last()))
    } else {
        filter_spendable(es.drop_last(), refs, pkh)
    }
}

/// The unspent outputs a chain holds for a key hash.
pub open spec fn unspent_for(c: Seq<BlockV>, pkh: Seq<u8>) -> Seq<SpendableOutputV> {
    filter_spendable(chain_entries(c), chain_refs(c), pkh)
}

/// Filtering entries that carry no negative value yields no negative
/// value.
proof fn lemma_filter_spendable_nonneg(es: Seq<OutputEntry>, refs: Seq<OutPoint>, pkh: Seq<u8>)
    requires
        entries_nonneg(es),
    ensures
        forall|i: int|
            0 <= i < filter_spendable(es, refs, pkh).len() ==> (#[trigger] filter_spendable(
                es,
                refs,
                pkh,
            )[i]).value >= 0,
    decreases es.len(),
{
    if es.len() > 0 {
        assert(entries_nonneg(es.drop_last()));
        lemma_filter_spendable_nonneg(es.drop_last(), refs, pkh);
        assert(es.last().output.value >= 0);
        let f = filter_spendable(es, refs, pkh);
        let fd = filter_spendable(es.drop_last(), refs, pkh);
        assert forall|i: int| 0 <= i < f.len() implies (#[trigger] f[i]).value >= 0 by {
            if es.last().output.pub_key_hash == pkh && !refs.contains(ref_of_entry(es.last())) {
                if i < fd.len() {
                    assert(f[i] == fd[i]);
                } else {
                    assert(f[i] == to_spendable(es.last()));
                }
            } else {
                assert(f[i] == fd[i]);
            }
        }
    }
}

/// Every block of a well-formed chain carries the hash its header
/// determines, and that hash, read as an integer, is strictly below the
/// proof-of-work target: validation holds of every block in the chain.
pub proof fn lemma_chain_blocks_validate(c: Seq<BlockV>, h: int)
    requires
        chain_wf(c),
        0 <= h < c.len(),
    ensures
        spec_block_valid(c[h]),
        be_nat(spec_block_digest(c[h])) < spec_target_nat(),
{
}

/// In a well-formed chain, every block above the genesis references its
/// predecessor by hash — the stored link equals the digest the
/// predecessor's own header determines — and heights count its position.
pub proof fn lemma_chain_linked(c: Seq<BlockV>, h: int)
    requires
        chain_wf(c),
        1 <= h < c.len(),
    ensures
        c[h].pre_block_hash == c[h - 1].hash,
        c[h].pre_block_hash == hex_of(spec_block_digest(c[h - 1])),
        c[h].height == h,
{
}

/// In a well-formed chain no outpoint is consumed by two inputs: distinct
/// positions in the chain's consumed-outpoint list always name distinct
/// outpoints.
pub proof fn lemma_chain_no_double_spend(c: Seq<BlockV>, i: int, j: int)
    requires
        chain_wf(c),
        0 <= i < j < chain_refs(c).len(),
    ensures
        chain_refs(c)[i] != chain_refs(c)[j],
{
}

/// Two inputs of an admissible batch never consume the same outpoint,
/// whether they sit in one transaction or in two, and none consumes an
/// outpoint the chain has already consumed.  Contrapositively: a batch
/// that references any outpoint twice is never admissible, so `mine_block`
/// rejects it with `InvalidTransaction` before any mining work, and
/// `add_block` rejects a block carrying it, leaving the chain unchanged.
pub proof fn lemma_batch_no_double_spend(c: Seq<BlockV>, ts: Seq<TransactionV>, i: int, j: int)
    requires
        chain_wf(c),
        batch_valid(c, ts),
        0 <= i < j < txs_refs(ts).len(),
    ensures
        txs_refs(ts)[i] != txs_refs(ts)[j],
        !chain_refs(c).contains(txs_refs(ts)[i]),
{
    lemma_txs_ok_distinct(chain_entries(c), chain_refs(c), ts);
    let s = chain_refs(c) + txs_refs(ts);
    let off = chain_refs(c).len() as int;
    assert(s[off + i] == txs_refs(ts)[i]);
    assert(s[off + j] == txs_refs(ts)[j]);
    if chain_refs(c).contains(txs_refs(ts)[i]) {
        let w = choose|k: int|
            0 <= k < chain_refs(c).len() && chain_refs(c)[k] == txs_refs(ts)[i];
        assert(s[w] == s[off + i]);
        assert(false);
    }
}

} // verus!

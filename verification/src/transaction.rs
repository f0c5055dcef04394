//! Transactions over unspent outputs: identity, signing, and signature
//! verification.
//!
//! A transaction consumes previously created outputs through its inputs and
//! creates new outputs.  A transaction with no inputs is a *coinbase*: it
//! mints new value and is exempt from signature and balance checks.  The
//! key scheme is deliberately simple and deterministic: a key is an arbitrary
//! byte string, the address (locking condition) of a key is its digest, and a
//! signature is the digest of the key followed by the signed message.  It
//! stands in for a real signature scheme behind the same interface.

use vstd::prelude::*;
use crate::Error;
use crate::codec::{with_len, i64_bits, push_with_len, push_i64_be};
use crate::hashing::{u64_be, spec_digest, digest, push_u64_be, bytes_eq};

verus! {

/// One input of a transaction: a reference to an output of an earlier
/// transaction, with the signature and key that unlock it.
#[derive(Debug)]
pub struct TXInput {
    /// Identifier of the transaction whose output is being spent.
    pub txid: Vec<u8>,
    /// Index of the spent output in that transaction's output list.
    pub vout: usize,
    /// Signature over the transaction's signable form.
    pub signature: Vec<u8>,
    /// The spender's public key; its digest must match the locking
    /// condition of the referenced output.
    pub pub_key: Vec<u8>,
}

/// One output of a transaction: an amount locked to the digest of a key.
#[derive(Debug)]
pub struct TXOutput {
    /// The amount carried; never negative.
    pub value: i32,
    /// Digest of the key that may spend this output.
    pub pub_key_hash: Vec<u8>,
}

/// A batch of value transfers: inputs consumed and outputs created.
#[derive(Debug)]
pub struct Transaction {
    /// Digest of the transaction's signable form.
    pub id: Vec<u8>,
    /// The consumed references; empty exactly for a coinbase.
    pub vin: Vec<TXInput>,
    /// The created outputs.
    pub vout: Vec<TXOutput>,
}

/// The mathematical value of a `TXInput`.
#[verifier::ext_equal]
pub ghost struct TXInputV {
    pub txid: Seq<u8>,
    pub vout: nat,
    pub signature: Seq<u8>,
    pub pub_key: Seq<u8>,
}

/// The mathematical value of a `TXOutput`.
#[verifier::ext_equal]
pub ghost struct TXOutputV {
    pub value: int,
    pub pub_key_hash: Seq<u8>,
}

/// The mathematical value of a `Transaction`.
#[verifier::ext_equal]
pub ghost struct TransactionV {
    pub id: Seq<u8>,
    pub vin: Seq<TXInputV>,
    pub vout: Seq<TXOutputV>,
}

impl View for TXInput {
    type V = TXInputV;

    open spec fn view(&self) -> TXInputV {
        TXInputV {
            txid: self.txid@,
            vout: self.vout as nat,
            signature: self.signature@,
            pub_key: self.pub_key@,
        }
    }
}

impl View for TXOutput {
    type V = TXOutputV;

    open spec fn view(&self) -> TXOutputV {
        TXOutputV { value: self.value as int, pub_key_hash: self.pub_key_hash@ }
    }
}

impl View for Transaction {
    type V = TransactionV;

    open spec fn view(&self) -> TransactionV {
        TransactionV {
            id: self.id@,
            vin: self.vin@.map_values(|x: TXInput| x@),
            vout: self.vout@.map_values(|x: TXOutput| x@),
        }
    }
}

/// The locking condition derived from a key: its digest.
pub open spec fn spec_pub_key_hash(key: Seq<u8>) -> Seq<u8> {
    spec_digest(key)
}

/// The signature a key produces over a message: the digest of the
/// length-prefixed key followed by the message.
pub open spec fn spec_signature(key: Seq<u8>, msg: Seq<u8>) -> Seq<u8> {
    spec_digest(with_len(key) + msg)
}

/// The signable bytes of one input: the reference and the key, but not the
/// signature, which must not feed the message it signs.
pub open spec fn input_signable_bytes(i: TXInputV) -> Seq<u8> {
    with_len(i.txid) + u64_be(i.vout as u64) + with_len(i.pub_key)
}

/// The persisted bytes of one input: the signable fields and the signature.
pub open spec fn input_full_bytes(i: TXInputV) -> Seq<u8> {
    with_len(i.txid) + u64_be(i.vout as u64) + with_len(i.signature) + with_len(i.pub_key)
}

/// The bytes of one output: the amount and the locking condition.
pub open spec fn output_bytes(o: TXOutputV) -> Seq<u8> {
    u64_be(i64_bits(o.value as i64)) + with_len(o.pub_key_hash)
}

/// All inputs' signable bytes, in input order.
pub open spec fn inputs_signable_bytes(s: Seq<TXInputV>) -> Seq<u8>
    decreases s.len(),
{
    if s.len() == 0 {
        Seq::<u8>::empty()
    } else {
        inputs_signable_bytes(s.drop_last()) + input_signable_bytes(s.last())
    }
}

/// All inputs' persisted bytes, in input order.
pub open spec fn inputs_full_bytes(s: Seq<TXInputV>) -> Seq<u8>
    decreases s.len(),
{
    if s.len() == 0 {
        Seq::<u8>::empty()
    } else {
        inputs_full_bytes(s.drop_last()) + input_full_bytes(s.last())
    }
}

/// All outputs' bytes, in output order.
pub open spec fn outputs_bytes(s: Seq<TXOutputV>) -> Seq<u8>
    decreases s.len(),
{
    if s.len() == 0 {
        Seq::<u8>::empty()
    } else {
        outputs_bytes(s.drop_last()) + output_bytes(s.last())
    }
}

/// The signable form of a transaction: counted inputs without their
/// signatures, then counted outputs.  Both the transaction's identifier and
/// every input's signature are digests of this form.
pub open spec fn signable_bytes_of(vin: Seq<TXInputV>, vout: Seq<TXOutputV>) -> Seq<u8> {
    u64_be(vin.len() as u64) + inputs_signable_bytes(vin) + u64_be(vout.len() as u64)
        + outputs_bytes(vout)
}

/// The identifier a transaction with these inputs and outputs must carry.
pub open spec fn spec_tx_id(vin: Seq<TXInputV>, vout: Seq<TXOutputV>) -> Seq<u8> {
    spec_digest(signable_bytes_of(vin, vout))
}

/// The persisted form of a transaction: its identifier, counted inputs with
/// signatures, then counted outputs.  Blocks serialize transactions in this
/// form.
pub open spec fn tx_full_bytes(t: TransactionV) -> Seq<u8> {
    with_len(t.id) + u64_be(t.vin.len() as u64) + inputs_full_bytes(t.vin) + u64_be(
        t.vout.len() as u64,
    ) + outputs_bytes(t.vout)
}

/// The signable form reads nothing from signatures: signing an input
/// sequence does not change the message that was signed.
pub proof fn lemma_signable_ignores_signatures(a: Seq<TXInputV>, b: Seq<TXInputV>)
    requires
        a.len() == b.len(),
        forall|i: int|
            0 <= i < a.len() ==> a[i].txid == b[i].txid && a[i].vout == b[i].vout
                && a[i].pub_key == b[i].pub_key,
    ensures
        inputs_signable_bytes(a) == inputs_signable_bytes(b),
    decreases a.len(),
{
    if a.len() > 0 {
        lemma_signable_ignores_signatures(a.drop_last(), b.drop_last());
        assert(input_signable_bytes(a.last()) == input_signable_bytes(b.last()));
    }
}

impl TXInput {
    /// A copy whose mathematical value is the same.
    pub fn duplicate(&self) -> (r: TXInput)
        ensures
            r@ == self@,
    {
        TXInput {
            txid: crate::codec::copy_bytes(&self.txid),
            vout: self.vout,
            signature: crate::codec::copy_bytes(&self.signature),
            pub_key: crate::codec::copy_bytes(&self.pub_key),
        }
    }
}

impl TXOutput {
    /// A copy whose mathematical value is the same.
    pub fn duplicate(&self) -> (r: TXOutput)
        ensures
            r@ == self@,
    {
        TXOutput {
            value: self.value,
            pub_key_hash: crate::codec::copy_bytes(&self.pub_key_hash),
        }
    }
}

/// Append one input's signable bytes to `v`.
fn push_input_signable(v: &mut Vec<u8>, i: &TXInput)
    ensures
        final(v)@ == old(v)@ + input_signable_bytes(i@),
{
    push_with_len(v, &i.txid);
    push_u64_be(v, i.vout as u64);
    push_with_len(v, &i.pub_key);
    proof {
        assert(v@ =~= old(v)@ + input_signable_bytes(i@));
    }
}

/// Append one input's persisted bytes to `v`.
fn push_input_full(v: &mut Vec<u8>, i: &TXInput)
    ensures
        final(v)@ == old(v)@ + input_full_bytes(i@),
{
    push_with_len(v, &i.txid);
    push_u64_be(v, i.vout as u64);
    push_with_len(v, &i.signature);
    push_with_len(v, &i.pub_key);
    proof {
        assert(v@ =~= old(v)@ + input_full_bytes(i@));
    }
}

/// Append one output's bytes to `v`.
fn push_output(v: &mut Vec<u8>, o: &TXOutput)
    ensures
        final(v)@ == old(v)@ + output_bytes(o@),
{
    push_i64_be(v, o.value as i64);
    push_with_len(v, &o.pub_key_hash);
    proof {
        assert(v@ =~= old(v)@ + output_bytes(o@));
    }
}

/// The signable bytes of a transaction given as its parts.
fn signable_bytes_parts(vin: &Vec<TXInput>, vout: &Vec<TXOutput>) -> (r: Vec<u8>)
    ensures
        r@ == signable_bytes_of(
            vin@.map_values(|x: TXInput| x@),
            vout@.map_values(|x: TXOutput| x@),
        ),
{
    let ghost vinv = vin@.map_values(|x: TXInput| x@);
    let ghost voutv = vout@.map_values(|x: TXOutput| x@);
    let mut out: Vec<u8> = Vec::new();
    push_u64_be(&mut out, vin.len() as u64);
    let n: usize = vin.len();
    let mut i: usize = 0;
    while i < n
        invariant
            n == vin@.len(),
            i <= n,
            vinv == vin@.map_values(|x: TXInput| x@),
            out@ == u64_be(vinv.len() as u64) + inputs_signable_bytes(vinv.take(i as int)),
        decreases n - i,
    {
        proof {
            assert(vinv.take(i + 1).drop_last() =~= vinv.take(i as int));
            assert(vinv.take(i + 1).last() == vin@[i as int]@);
        }
        push_input_signable(&mut out, &vin[i]);
        proof {
            assert(out@ =~= u64_be(vinv.len() as u64) + inputs_signable_bytes(vinv.take(i + 1)));
        }
        i = i + 1;
    }
    proof {
        assert(vinv.take(n as int) =~= vinv);
    }
    push_u64_be(&mut out, vout.len() as u64);
    let ghost mid = out@;
    let m: usize = vout.len();
    let mut j: usize = 0;
    while j < m
        invariant
            m == vout@.len(),
            j <= m,
            voutv == vout@.map_values(|x: TXOutput| x@),
            out@ == mid + outputs_bytes(voutv.take(j as int)),
        decreases m - j,
    {
        proof {
            assert(voutv.take(j + 1).drop_last() =~= voutv.take(j as int));
            assert(voutv.take(j + 1).last() == vout@[j as int]@);
        }
        push_output(&mut out, &vout[j]);
        proof {
            assert(out@ =~= mid + outputs_bytes(voutv.take(j + 1)));
        }
        j = j + 1;
    }
    proof {
        assert(voutv.take(m as int) =~= voutv);
        assert(out@ =~= signable_bytes_of(vinv, voutv));
    }
    out
}

impl Transaction {
    /// A transaction with no inputs mints value: the coinbase.
    pub open spec fn spec_is_coinbase(&self) -> bool {
        self@.vin.len() == 0
    }

    /// Whether this transaction is a coinbase.
    pub fn is_coinbase(&self) -> (r: bool)
        ensures
            r == self.spec_is_coinbase(),
    {
        self.vin.len() == 0
    }

    /// Whether the carried identifier is the digest of the signable form.
    pub open spec fn id_correct(&self) -> bool {
        self@.id == spec_tx_id(self@.vin, self@.vout)
    }

    /// The signable bytes of this transaction.
    pub fn signable_bytes(&self) -> (r: Vec<u8>)
        ensures
            r@ == signable_bytes_of(self@.vin, self@.vout),
    {
        signable_bytes_parts(&self.vin, &self.vout)
    }

    /// The persisted bytes of this transaction.
    pub fn bytes(&self) -> (r: Vec<u8>)
        ensures
            r@ == tx_full_bytes(self@),
    {
        let ghost vinv = self.vin@.map_values(|x: TXInput| x@);
        let ghost voutv = self.vout@.map_values(|x: TXOutput| x@);
        let mut out: Vec<u8> = Vec::new();
        push_with_len(&mut out, &self.id);
        push_u64_be(&mut out, self.vin.len() as u64);
        let ghost head = out@;
        let n: usize = self.vin.len();
        let mut i: usize = 0;
        while i < n
            invariant
                n == self.vin@.len(),
                i <= n,
                vinv == self.vin@.map_values(|x: TXInput| x@),
                out@ == head + inputs_full_bytes(vinv.take(i as int)),
            decreases n - i,
        {
            proof {
                assert(vinv.take(i + 1).drop_last() =~= vinv.take(i as int));
                assert(vinv.take(i + 1).last() == self.vin@[i as int]@);
            }
            push_input_full(&mut out, &self.vin[i]);
            proof {
                assert(out@ =~= head + inputs_full_bytes(vinv.take(i + 1)));
            }
            i = i + 1;
        }
        proof {
            assert(vinv.take(n as int) =~= vinv);
        }
        push_u64_be(&mut out, self.vout.len() as u64);
        let ghost mid = out@;
        let m: usize = self.vout.len();
        let mut j: usize = 0;
        while j < m
            invariant
                m == self.vout@.len(),
                j <= m,
                voutv == self.vout@.map_values(|x: TXOutput| x@),
                out@ == mid + outputs_bytes(voutv.take(j as int)),
            decreases m - j,
        {
            proof {
                assert(voutv.take(j + 1).drop_last() =~= voutv.take(j as int));
                assert(voutv.take(j + 1).last() == self.vout@[j as int]@);
            }
            push_output(&mut out, &self.vout[j]);
            proof {
                assert(out@ =~= mid + outputs_bytes(voutv.take(j + 1)));
            }
            j = j + 1;
        }
        proof {
            assert(voutv.take(m as int) =~= voutv);
            assert(out@ =~= tx_full_bytes(self@));
        }
        out
    }

    /// A copy whose mathematical value is the same.
    pub fn duplicate(&self) -> (r: Transaction)
        ensures
            r@ == self@,
    {
        let mut vin: Vec<TXInput> = Vec::new();
        let n: usize = self.vin.len();
        let mut i: usize = 0;
        while i < n
            invariant
                n == self.vin@.len(),
                i <= n,
                vin@.len() == i,
                forall|k: int| 0 <= k < i ==> vin@[k]@ == self.vin@[k]@,
            decreases n - i,
        {
            vin.push(self.vin[i].duplicate());
            i = i + 1;
        }
        let mut vout: Vec<TXOutput> = Vec::new();
        let m: usize = self.vout.len();
        let mut j: usize = 0;
        while j < m
            invariant
                m == self.vout@.len(),
                j <= m,
                vout@.len() == j,
                forall|k: int| 0 <= k < j ==> vout@[k]@ == self.vout@[k]@,
            decreases m - j,
        {
            vout.push(self.vout[j].duplicate());
            j = j + 1;
        }
        let r = Transaction { id: crate::codec::copy_bytes(&self.id), vin, vout };
        proof {
            let f = |x: TXInput| x@;
            let g = |x: TXOutput| x@;
            assert(r.vin@.map_values(f) =~= self.vin@.map_values(f));
            assert(r.vout@.map_values(g) =~= self.vout@.map_values(g));
        }
        r
    }
}

/// The address a key unlocks: the digest of the key.
pub fn pub_key_hash_of(key: &Vec<u8>) -> (r: Vec<u8>)
    ensures
        r@ == spec_pub_key_hash(key@),
{
    digest(key)
}

/// Sign a message with a key.
pub fn sign(key: &Vec<u8>, msg: &Vec<u8>) -> (r: Vec<u8>)
    ensures
        r@ == spec_signature(key@, msg@),
{
    let mut buf: Vec<u8> = Vec::new();
    push_with_len(&mut buf, key);
    crate::codec::push_bytes(&mut buf, msg);
    digest(&buf)
}

/// Whether one input, checked against the output it references and the
/// transaction's signable message, unlocks that output: the key hashes to
/// the output's locking condition and the signature is the key's signature
/// over the message.
pub open spec fn input_sig_ok(inp: TXInputV, referenced: TXOutputV, msg: Seq<u8>) -> bool {
    referenced.pub_key_hash == spec_pub_key_hash(inp.pub_key) && inp.signature == spec_signature(
        inp.pub_key,
        msg,
    )
}

/// Whether a transaction's signatures all check out against the outputs its
/// inputs reference, given in input order.  A coinbase has no inputs and
/// passes; anything malformed fails closed.
pub open spec fn spec_tx_verify(t: TransactionV, referenced: Seq<TXOutputV>) -> bool {
    referenced.len() == t.vin.len() && forall|i: int|
        0 <= i < t.vin.len() ==> input_sig_ok(
            t.vin[i],
            referenced[i],
            signable_bytes_of(t.vin, t.vout),
        )
}

/// Check every input's signature and locking condition against the outputs
/// it references, one referenced output per input, in input order.
pub fn verify(t: &Transaction, referenced: &Vec<TXOutput>) -> (r: bool)
    ensures
        r == spec_tx_verify(t@, referenced@.map_values(|x: TXOutput| x@)),
{
    let ghost refv = referenced@.map_values(|x: TXOutput| x@);
    if referenced.len() != t.vin.len() {
        return false;
    }
    let msg = t.signable_bytes();
    let n: usize = t.vin.len();
    let mut i: usize = 0;
    while i < n
        invariant
            n == t.vin@.len(),
            n == referenced@.len(),
            i <= n,
            refv == referenced@.map_values(|x: TXOutput| x@),
            msg@ == signable_bytes_of(t@.vin, t@.vout),
            forall|j: int| 0 <= j < i ==> input_sig_ok(t@.vin[j], refv[j], msg@),
        decreases n - i,
    {
        let key_hash = pub_key_hash_of(&t.vin[i].pub_key);
        if !bytes_eq(&key_hash, &referenced[i].pub_key_hash) {
            proof {
                assert(!input_sig_ok(t@.vin[i as int], refv[i as int], msg@));
            }
            return false;
        }
        let expected = sign(&t.vin[i].pub_key, &msg);
        if !bytes_eq(&expected, &t.vin[i].signature) {
            proof {
                assert(!input_sig_ok(t@.vin[i as int], refv[i as int], msg@));
            }
            return false;
        }
        i = i + 1;
    }
    true
}

/// An unspent output a particular key may spend: where it sits in the
/// chain and the value it carries.
#[derive(Debug)]
pub struct SpendableOutput {
    /// Identifier of the transaction carrying the output.
    pub txid: Vec<u8>,
    /// Index of the output in that transaction's output list.
    pub index: usize,
    /// The value the output carries.
    pub value: i32,
}

/// The mathematical value of a `SpendableOutput`.
#[verifier::ext_equal]
pub ghost struct SpendableOutputV {
    pub txid: Seq<u8>,
    pub index: nat,
    pub value: int,
}

impl View for SpendableOutput {
    type V = SpendableOutputV;

    open spec fn view(&self) -> SpendableOutputV {
        SpendableOutputV { txid: self.txid@, index: self.index as nat, value: self.value as int }
    }
}

/// The total value of a sequence of spendable outputs.
pub open spec fn sum_values(s: Seq<SpendableOutputV>) -> int
    decreases s.len(),
{
    if s.len() == 0 {
        0
    } else {
        sum_values(s.drop_last()) + s.last().value
    }
}

/// How many leading entries a transfer of `amount` consumes when outputs
/// are taken in the order offered: the length of the shortest prefix whose
/// total covers the amount.
pub open spec fn cover_count(s: Seq<SpendableOutputV>, amount: int) -> int
    decreases s.len(),
{
    if amount <= 0 {
        0
    } else if s.len() == 0 {
        0
    } else {
        1 + cover_count(s.drop_first(), amount - s.first().value)
    }
}

/// The mathematical values of a sequence of spendable outputs.
pub open spec fn spendable_views(s: Seq<SpendableOutput>) -> Seq<SpendableOutputV> {
    s.map_values(|x: SpendableOutput| x@)
}

/// The mathematical values of a sequence of outputs.
pub open spec fn output_views(s: Seq<TXOutput>) -> Seq<TXOutputV> {
    s.map_values(|x: TXOutput| x@)
}

/// The mathematical values of a sequence of transactions.
pub open spec fn tx_views(s: Seq<Transaction>) -> Seq<TransactionV> {
    s.map_values(|x: Transaction| x@)
}

/// Build a coinbase transaction: no inputs, one output minting `reward` to
/// the holder of `recipient_pub_key_hash`.
pub fn new_coinbase(reward: i32, recipient_pub_key_hash: Vec<u8>) -> (r: Transaction)
    requires
        reward >= 0,
    ensures
        r@.vin.len() == 0,
        r@.vout == seq![
            TXOutputV { value: reward as int, pub_key_hash: recipient_pub_key_hash@ },
        ],
        r.id_correct(),
{
    let out = TXOutput { value: reward, pub_key_hash: recipient_pub_key_hash };
    let vin: Vec<TXInput> = Vec::new();
    let mut vout: Vec<TXOutput> = Vec::new();
    vout.push(out);
    let msg = signable_bytes_parts(&vin, &vout);
    let id = digest(&msg);
    let r = Transaction { id, vin, vout };
    proof {
        assert(r@.vin =~= Seq::<TXInputV>::empty());
        assert(r@.vout =~= seq![
            TXOutputV { value: reward as int, pub_key_hash: r.vout@[0].pub_key_hash@ },
        ]);
    }
    r
}

/// Build a transfer: consume just enough of the offered spendable outputs,
/// in the order offered, to cover `amount`; pay `amount` to the recipient
/// and return any difference to the signer as change.  The signer's key
/// signs every input over the transaction's signable form.  Fails with
/// With no negative values, a prefix never totals more than the whole.
pub proof fn lemma_sum_prefix(s: Seq<SpendableOutputV>, i: int)
    requires
        0 <= i <= s.len(),
        forall|j: int| 0 <= j < s.len() ==> #[trigger] s[j].value >= 0,
    ensures
        sum_values(s.take(i)) <= sum_values(s),
    decreases s.len(),
{
    if i == s.len() {
        assert(s.take(i) =~= s);
    } else {
        let s2 = s.drop_last();
        lemma_sum_prefix(s2, i);
        assert(s2.take(i) =~= s.take(i));
        assert(s.last().value >= 0);
    }
}

/// Walk the offered outputs in order, accumulating value until `amount` is
/// covered.  Yields how many entries were consumed and their total, or
/// nothing when everything offered falls short.
#[verifier::rlimit(30)]
fn select_cover(spendable: &Vec<SpendableOutput>, amount: i32) -> (r: Option<(usize, i64)>)
    requires
        amount >= 0,
        forall|i: int| 0 <= i < spendable@.len() ==> #[trigger] spendable@[i]@.value >= 0,
    ensures
        r is None <==> sum_values(spendable_views(spendable@)) < amount,
        r is Some ==> ({
            let k = (r->Some_0).0 as int;
            let acc = (r->Some_0).1 as int;
            let sv = spendable_views(spendable@);
            &&& k == cover_count(sv, amount as int)
            &&& 0 <= k <= sv.len()
            &&& acc == sum_values(sv.take(k))
            &&& amount <= acc <= amount + 0x7fff_fffe
        }),
{
    let ghost sv = spendable_views(spendable@);
    let n: usize = spendable.len();
    let mut i: usize = 0;
    let mut acc: i64 = 0;
    proof {
        assert(sv.skip(0) =~= sv);
        assert(sv.take(0) =~= Seq::<SpendableOutputV>::empty());
    }
    while i < n && acc < amount as i64
        invariant
            n == spendable@.len(),
            sv == spendable_views(spendable@),
            amount >= 0,
            forall|j: int| 0 <= j < spendable@.len() ==> #[trigger] spendable@[j]@.value >= 0,
            i <= n,
            0 <= acc <= amount as i64 + 0x7fff_fffe,
            acc == sum_values(sv.take(i as int)),
            acc < amount as i64 ==> cover_count(sv, amount as int) == i + cover_count(
                sv.skip(i as int),
                amount - acc,
            ),
            acc >= amount as i64 ==> cover_count(sv, amount as int) == i,
        decreases n - i,
    {
        proof {
            assert(sv.take(i + 1).drop_last() =~= sv.take(i as int));
            assert(sv.take(i + 1).last() == spendable@[i as int]@);
            assert(sv.skip(i as int).len() > 0);
            assert(sv.skip(i as int).first() == spendable@[i as int]@);
            assert(sv.skip(i as int).drop_first() =~= sv.skip(i + 1));
            let a2 = amount - acc - sv[i as int].value;
            assert(cover_count(sv.skip(i as int), amount - acc) == 1 + cover_count(
                sv.skip(i + 1),
                a2,
            ));
            if a2 <= 0 {
                assert(cover_count(sv.skip(i + 1), a2) == 0);
            }
        }
        acc = acc + spendable[i].value as i64;
        i = i + 1;
    }
    if acc < amount as i64 {
        proof {
            assert(sv.take(n as int) =~= sv);
        }
        return None;
    }
    proof {
        lemma_sum_prefix(sv, i as int);
    }
    Some((i, acc))
}

/// Inputs referencing the first `k` offered outputs, keyed to the signer
/// but not yet signed.
fn unsigned_inputs(spendable: &Vec<SpendableOutput>, k: usize, signer_key: &Vec<u8>) -> (vin: Vec<
    TXInput,
>)
    requires
        k <= spendable@.len(),
    ensures
        vin@.len() == k,
        forall|m: int|
            0 <= m < k ==> #[trigger] vin@[m]@.txid == spendable_views(spendable@)[m].txid
                && vin@[m]@.vout == spendable_views(spendable@)[m].index && vin@[m]@.pub_key
                == signer_key@ && vin@[m]@.signature == Seq::<u8>::empty(),
{
    let ghost sv = spendable_views(spendable@);
    let mut vin: Vec<TXInput> = Vec::new();
    let mut j: usize = 0;
    while j < k
        invariant
            k <= spendable@.len(),
            sv == spendable_views(spendable@),
            j <= k,
            vin@.len() == j,
            forall|m: int|
                0 <= m < j ==> #[trigger] vin@[m]@.txid == sv[m].txid && vin@[m]@.vout
                    == sv[m].index && vin@[m]@.pub_key == signer_key@ && vin@[m]@.signature
                    == Seq::<u8>::empty(),
        decreases k - j,
    {
        let inp = TXInput {
            txid: crate::codec::copy_bytes(&spendable[j].txid),
            vout: spendable[j].index,
            signature: Vec::new(),
            pub_key: crate::codec::copy_bytes(signer_key),
        };
        vin.push(inp);
        j = j + 1;
    }
    vin
}

/// The same inputs, each carrying `sig` as its signature.
fn signed_inputs(vin: &Vec<TXInput>, sig: &Vec<u8>) -> (signed: Vec<TXInput>)
    ensures
        signed@.len() == vin@.len(),
        forall|q: int|
            0 <= q < vin@.len() ==> #[trigger] signed@[q]@.txid == vin@[q]@.txid
                && signed@[q]@.vout == vin@[q]@.vout && signed@[q]@.pub_key == vin@[q]@.pub_key
                && signed@[q]@.signature == sig@,
{
    let k: usize = vin.len();
    let mut signed: Vec<TXInput> = Vec::new();
    let mut m: usize = 0;
    while m < k
        invariant
            k == vin@.len(),
            m <= k,
            signed@.len() == m,
            forall|q: int|
                0 <= q < m ==> #[trigger] signed@[q]@.txid == vin@[q]@.txid && signed@[q]@.vout
                    == vin@[q]@.vout && signed@[q]@.pub_key == vin@[q]@.pub_key
                    && signed@[q]@.signature == sig@,
        decreases k - m,
    {
        let inp = TXInput {
            txid: crate::codec::copy_bytes(&vin[m].txid),
            vout: vin[m].vout,
            signature: crate::codec::copy_bytes(sig),
            pub_key: crate::codec::copy_bytes(&vin[m].pub_key),
        };
        signed.push(inp);
        m = m + 1;
    }
    signed
}

/// The outputs of a transfer: the paid amount to the recipient, then any
/// change back to the signer.
fn transfer_outputs(
    amount: i32,
    recipient_pub_key_hash: &Vec<u8>,
    change: i64,
    signer_key: &Vec<u8>,
) -> (vout: Vec<TXOutput>)
    requires
        amount >= 0,
        0 <= change <= 0x7fff_ffff,
    ensures
        output_views(vout@) == (if change == 0 {
            seq![
                TXOutputV { value: amount as int, pub_key_hash: recipient_pub_key_hash@ },
            ]
        } else {
            seq![
                TXOutputV { value: amount as int, pub_key_hash: recipient_pub_key_hash@ },
                TXOutputV { value: change as int, pub_key_hash: spec_pub_key_hash(signer_key@) },
            ]
        }),
{
    let mut vout: Vec<TXOutput> = Vec::new();
    vout.push(
        TXOutput { value: amount, pub_key_hash: crate::codec::copy_bytes(recipient_pub_key_hash) },
    );
    if change > 0 {
        vout.push(TXOutput { value: change as i32, pub_key_hash: pub_key_hash_of(signer_key) });
        proof {
            assert(output_views(vout@) =~= seq![
                TXOutputV { value: amount as int, pub_key_hash: recipient_pub_key_hash@ },
                TXOutputV { value: change as int, pub_key_hash: spec_pub_key_hash(signer_key@) },
            ]);
        }
    } else {
        proof {
            assert(output_views(vout@) =~= seq![
                TXOutputV { value: amount as int, pub_key_hash: recipient_pub_key_hash@ },
            ]);
        }
    }
    vout
}

/// `InsufficientFunds` exactly when everything offered falls short of the
/// amount, and then consumes nothing.
#[verifier::rlimit(100)]
pub fn new_transfer(
    spendable: &Vec<SpendableOutput>,
    recipient_pub_key_hash: &Vec<u8>,
    amount: i32,
    signer_key: &Vec<u8>,
) -> (r: Result<Transaction, Error>)
    requires
        amount >= 0,
        forall|i: int| 0 <= i < spendable@.len() ==> #[trigger] spendable@[i]@.value >= 0,
    ensures
        r is Err <==> sum_values(spendable_views(spendable@)) < amount,
        r is Err ==> r == Err::<Transaction, Error>(Error::InsufficientFunds),
        r is Ok ==> ({
            let t = (r->Ok_0)@;
            let sv = spendable_views(spendable@);
            let k = cover_count(sv, amount as int);
            let total = sum_values(sv.take(k));
            &&& 0 <= k <= sv.len()
            &&& total >= amount
            &&& t.vin.len() == k
            &&& forall|i: int|
                0 <= i < k ==> #[trigger] t.vin[i].txid == sv[i].txid && t.vin[i].vout
                    == sv[i].index && t.vin[i].pub_key == signer_key@ && t.vin[i].signature
                    == spec_signature(signer_key@, signable_bytes_of(t.vin, t.vout))
            &&& t.vout == (if total == amount {
                seq![
                    TXOutputV { value: amount as int, pub_key_hash: recipient_pub_key_hash@ },
                ]
            } else {
                seq![
                    TXOutputV { value: amount as int, pub_key_hash: recipient_pub_key_hash@ },
                    TXOutputV {
                        value: total - amount,
                        pub_key_hash: spec_pub_key_hash(signer_key@),
                    },
                ]
            })
            &&& t.id == spec_tx_id(t.vin, t.vout)
        }),
{
    let ghost sv = spendable_views(spendable@);
    let selected = select_cover(spendable, amount);
    if selected.is_none() {
        return Err(Error::InsufficientFunds);
    }
    let (k, acc): (usize, i64) = selected.unwrap();
    let ghost total = sum_values(sv.take(k as int));
    let vin = unsigned_inputs(spendable, k, signer_key);
    let change: i64 = acc - amount as i64;
    let vout = transfer_outputs(amount, recipient_pub_key_hash, change, signer_key);
    let msg = signable_bytes_parts(&vin, &vout);
    let sig = sign(signer_key, &msg);
    let signed = signed_inputs(&vin, &sig);
    proof {
        let f = |x: TXInput| x@;
        assert forall|q: int| 0 <= q < signed@.len() implies signed@.map_values(f)[q].txid
            == vin@.map_values(f)[q].txid && signed@.map_values(f)[q].vout == vin@.map_values(
            f,
        )[q].vout && signed@.map_values(f)[q].pub_key == vin@.map_values(f)[q].pub_key by {
            assert(signed@.map_values(f)[q] == signed@[q]@);
            assert(vin@.map_values(f)[q] == vin@[q]@);
        }
        lemma_signable_ignores_signatures(
            signed@.map_values(|x: TXInput| x@),
            vin@.map_values(|x: TXInput| x@),
        );
    }
    let id = digest(&msg);
    let t = Transaction { id, vin: signed, vout };
    proof {
        let tv = t@;
        let f = |x: TXInput| x@;
        assert(tv.vin =~= signed@.map_values(f));
        assert(signable_bytes_of(tv.vin, tv.vout) == msg@);
        assert(tv.vout =~= output_views(vout@));
        assert(change == total - amount);
    }
    Ok(t)
}

} // verus!

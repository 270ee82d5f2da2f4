//! The UTXO ledger: the consensus state machine.
//!
//! The ledger holds the live mapping from `(creating transaction hash,
//! output index)` to unspent outputs, plus the chain height and tip. Its one
//! mutating operation is [`Ledger::apply_block`], which validates every
//! transaction of a block against an immutable snapshot of the pre-block
//! state and commits all deltas only if every one of them passes; a failed
//! call leaves the ledger unchanged.
//!
//! The whole protocol is pinned down by the function
//! [`spec_apply_block`]: any independent implementation given the same
//! inputs must compute the identical result.

use vstd::prelude::*;

verus! {

broadcast use vstd::set::group_set_axioms;

use vstd::map::*;
use crate::Block;
use crate::Transaction;
use crate::TxOutput;
use crate::TxInputV;
use crate::TxOutputV;
use crate::TransactionV;
use crate::BlockV;
use crate::crypto::sig_valid;
use crate::encoding::header_hash_of;
use crate::encoding::signing_message_of;
use crate::encoding::tx_hash_of;
use crate::encoding::txs_view;
use crate::error::Error;

/// A UTXO is addressed by the hash of the transaction that created it and
/// the index of the output within that transaction.
pub type UtxoKey = (crate::Hash, u32);

/// Mathematical image of a [`UtxoKey`].
pub open spec fn key_view(k: UtxoKey) -> (Seq<u8>, u32) {
    (k.0@, k.1)
}

/// The UTXO an input claims to spend.
pub open spec fn input_key(i: TxInputV) -> (Seq<u8>, u32) {
    (i.prev_tx, i.output_index)
}

/// The all-zero hash: the `prev_hash` of a genesis block and the tip of a
/// ledger before any block is applied.
pub open spec fn zero_hash_v() -> Seq<u8> {
    Seq::new(32, |i: int| 0u8)
}

/// The map held by an association sequence, later entries overriding
/// earlier ones (the sequences of a well-formed ledger never hold two
/// entries with one key).
pub open spec fn entries_map(s: Seq<(UtxoKey, TxOutput)>) -> Map<(Seq<u8>, u32), TxOutputV>
    decreases s.len(),
{
    if s.len() == 0 {
        Map::empty()
    } else {
        entries_map(s.drop_last()).insert(key_view(s.last().0), s.last().1@)
    }
}

/// No two entries share a key.
pub open spec fn unique_keys(s: Seq<(UtxoKey, TxOutput)>) -> bool {
    forall|i: int, j: int| 0 <= i < j < s.len() ==> key_view(s[i].0) != key_view(s[j].0)
}

/// Whether `k` is referenced by any input of the transactions strictly
/// before position `t`.
pub open spec fn is_spent_before(txs: Seq<TransactionV>, t: int, k: (Seq<u8>, u32)) -> bool {
    exists|a: int, b: int|
        #![trigger txs[a].inputs[b]]
        0 <= a < t && 0 <= b < txs[a].inputs.len() && input_key(txs[a].inputs[b]) == k
}

/// Checks the inputs of `txs[t]` from position `i` on against the pre-block
/// state `utxos`, with everything spent by earlier transactions of the same
/// block counted as gone. Returns the summed value of the checked inputs,
/// or the first error: `DoubleSpend` for a key already spent in this block,
/// `MissingUtxo` for a key absent from the state, `BadSignature` for a
/// non-empty signature that does not verify over the transaction's signing
/// message (an empty signature is accepted unverified).
pub open spec fn check_inputs_from(
    utxos: Map<(Seq<u8>, u32), TxOutputV>,
    txs: Seq<TransactionV>,
    t: int,
    i: int,
) -> Result<int, Error>
    decreases txs[t].inputs.len() - i,
{
    let inputs = txs[t].inputs;
    if i < 0 || i >= inputs.len() {
        Ok(0)
    } else {
        let k = input_key(inputs[i]);
        if is_spent_before(txs, t, k) {
            Err(Error::DoubleSpend)
        } else if !utxos.contains_key(k) {
            Err(Error::MissingUtxo)
        } else if inputs[i].signature.len() > 0 && !sig_valid(
            inputs[i].pubkey,
            signing_message_of(txs[t]),
            inputs[i].signature,
        ) {
            Err(Error::BadSignature)
        } else {
            match check_inputs_from(utxos, txs, t, i + 1) {
                Ok(v) => Ok(utxos[k].value + v),
                Err(e) => Err(e),
            }
        }
    }
}

/// The summed value of the outputs from position `i` on.
pub open spec fn sum_outputs_from(outs: Seq<TxOutputV>, i: int) -> int
    decreases outs.len() - i,
{
    if i < 0 || i >= outs.len() {
        0
    } else {
        outs[i].value + sum_outputs_from(outs, i + 1)
    }
}

/// Validation of the non-coinbase transaction at position `t`: all inputs
/// must check out, and the summed outputs must not exceed the summed
/// inputs (`ValueOverflow` otherwise). Any difference is an implicit fee.
pub open spec fn validate_tx_at(
    utxos: Map<(Seq<u8>, u32), TxOutputV>,
    txs: Seq<TransactionV>,
    t: int,
) -> Result<(), Error> {
    match check_inputs_from(utxos, txs, t, 0) {
        Err(e) => Err(e),
        Ok(v) => if sum_outputs_from(txs[t].outputs, 0) > v {
            Err(Error::ValueOverflow)
        } else {
            Ok(())
        },
    }
}

/// Validation of the transactions from position `t` on, in order, each
/// against the immutable pre-block state. Position 0, the coinbase, is not
/// validated.
pub open spec fn validate_txs_from(
    utxos: Map<(Seq<u8>, u32), TxOutputV>,
    txs: Seq<TransactionV>,
    t: int,
) -> Result<(), Error>
    decreases txs.len() - t,
{
    if t < 0 || t >= txs.len() {
        Ok(())
    } else {
        let r = if t == 0 {
            Ok(())
        } else {
            validate_tx_at(utxos, txs, t)
        };
        match r {
            Err(e) => Err(e),
            Ok(()) => validate_txs_from(utxos, txs, t + 1),
        }
    }
}

/// The state after removing the UTXOs referenced by the inputs from
/// position `i` on.
pub open spec fn remove_inputs_from(
    m: Map<(Seq<u8>, u32), TxOutputV>,
    inputs: Seq<TxInputV>,
    i: int,
) -> Map<(Seq<u8>, u32), TxOutputV>
    decreases inputs.len() - i,
{
    if i < 0 || i >= inputs.len() {
        m
    } else {
        remove_inputs_from(m.remove(input_key(inputs[i])), inputs, i + 1)
    }
}

/// The state after inserting the outputs from position `i` on under keys
/// `(txh, i)`.
pub open spec fn insert_outputs_from(
    m: Map<(Seq<u8>, u32), TxOutputV>,
    txh: Seq<u8>,
    outs: Seq<TxOutputV>,
    i: int,
) -> Map<(Seq<u8>, u32), TxOutputV>
    decreases outs.len() - i,
{
    if i < 0 || i >= outs.len() {
        m
    } else {
        insert_outputs_from(m.insert((txh, i as u32), outs[i]), txh, outs, i + 1)
    }
}

/// The state change of one transaction: its referenced inputs are removed,
/// then its outputs are inserted under the transaction's identity hash.
pub open spec fn apply_tx(
    m: Map<(Seq<u8>, u32), TxOutputV>,
    t: TransactionV,
) -> Map<(Seq<u8>, u32), TxOutputV> {
    insert_outputs_from(remove_inputs_from(m, t.inputs, 0), tx_hash_of(t), t.outputs, 0)
}

/// The state change of the transactions from position `t` on, in order,
/// the coinbase included.
pub open spec fn apply_txs_from(
    m: Map<(Seq<u8>, u32), TxOutputV>,
    txs: Seq<TransactionV>,
    t: int,
) -> Map<(Seq<u8>, u32), TxOutputV>
    decreases txs.len() - t,
{
    if t < 0 || t >= txs.len() {
        m
    } else {
        apply_txs_from(apply_tx(m, txs[t]), txs, t + 1)
    }
}

/// Mathematical image of a [`Ledger`].
#[verifier::ext_equal]
pub ghost struct LedgerV {
    pub utxos: Map<(Seq<u8>, u32), TxOutputV>,
    pub height: u64,
    pub tip: Seq<u8>,
}

/// The state of a ledger before any block is applied: no UTXOs, height 0,
/// tip all zeros.
pub open spec fn initial_ledger() -> LedgerV {
    LedgerV { utxos: Map::empty(), height: 0, tip: zero_hash_v() }
}

/// The whole protocol of [`Ledger::apply_block`]: the block's height must
/// be exactly one past the current height (`NonSequentialHeight`), its
/// `prev_hash` must equal the tip (`PrevHashMismatch`), and every
/// non-coinbase transaction must validate against the pre-block state; only
/// then do all transactions' deltas apply, the height advance, and the tip
/// become the header's hash.
pub open spec fn spec_apply_block(l: LedgerV, b: BlockV) -> Result<LedgerV, Error> {
    if b.header.index as int != l.height as int + 1 {
        Err(Error::NonSequentialHeight)
    } else if b.header.prev_hash != l.tip {
        Err(Error::PrevHashMismatch)
    } else {
        match validate_txs_from(l.utxos, b.transactions, 0) {
            Err(e) => Err(e),
            Ok(()) => Ok(LedgerV {
                utxos: apply_txs_from(l.utxos, b.transactions, 0),
                height: b.header.index,
                tip: header_hash_of(b.header),
            }),
        }
    }
}

/// The balance of `pkh`: the summed value of every live UTXO whose
/// recipient hash equals `pkh`.
pub open spec fn spec_balance(m: Map<(Seq<u8>, u32), TxOutputV>, pkh: Seq<u8>) -> int
    decreases m.dom().len() when m.dom().finite()
{
    if m.dom().finite() && m.dom().len() > 0 {
        let k = m.dom().choose();
        (if m[k].pubkey_hash == pkh {
            m[k].value as int
        } else {
            0
        }) + spec_balance(m.remove(k), pkh)
    } else {
        0
    }
}

/// In-memory UTXO set and chain metadata. Not thread-safe by itself:
/// callers must serialize writes and keep reads apart from an in-flight
/// write.
#[derive(Debug, Clone)]
#[verifier::ext_equal]
pub struct Ledger {
    utxos: Vec<(UtxoKey, TxOutput)>,
    /// 1-based count of applied blocks; 0 before genesis.
    pub height: u64,
    /// The canonical hash of the most recently applied block's header.
    pub tip: crate::Hash,
}

impl View for Ledger {
    type V = LedgerV;

    closed spec fn view(&self) -> LedgerV {
        LedgerV { utxos: entries_map(self.utxos@), height: self.height, tip: self.tip@ }
    }
}

// ------------------------------------------------------------------
// Facts about association sequences and the maps they hold.
// ------------------------------------------------------------------

proof fn lemma_entries_finite(s: Seq<(UtxoKey, TxOutput)>)
    ensures
        entries_map(s).dom().finite(),
    decreases s.len(),
{
    if s.len() > 0 {
        lemma_entries_finite(s.drop_last());
    }
}

proof fn lemma_entries_contains(s: Seq<(UtxoKey, TxOutput)>, k: (Seq<u8>, u32))
    ensures
        entries_map(s).contains_key(k) <==> exists|i: int|
            0 <= i < s.len() && key_view(s[i].0) == k,
    decreases s.len(),
{
    if s.len() > 0 {
        let prefix = s.drop_last();
        lemma_entries_contains(prefix, k);
        if entries_map(s).contains_key(k) {
            if k == key_view(s.last().0) {
                assert(key_view(s[s.len() - 1].0) == k);
            } else {
                let i = choose|i: int| 0 <= i < prefix.len() && key_view(prefix[i].0) == k;
                assert(key_view(s[i].0) == k);
            }
        }
        if exists|i: int| 0 <= i < s.len() && key_view(s[i].0) == k {
            let i = choose|i: int| 0 <= i < s.len() && key_view(s[i].0) == k;
            if i < s.len() - 1 {
                assert(key_view(prefix[i].0) == k);
            }
        }
    }
}

proof fn lemma_entries_value(s: Seq<(UtxoKey, TxOutput)>, i: int)
    requires
        unique_keys(s),
        0 <= i < s.len(),
    ensures
        entries_map(s).contains_key(key_view(s[i].0)),
        entries_map(s)[key_view(s[i].0)] == s[i].1@,
    decreases s.len(),
{
    if i < s.len() - 1 {
        let prefix = s.drop_last();
        assert(forall|a: int| 0 <= a < prefix.len() ==> prefix[a] == s[a]);
        lemma_entries_value(prefix, i);
        assert(key_view(s[i].0) != key_view(s[s.len() - 1].0));
    }
}

proof fn lemma_entries_remove(s: Seq<(UtxoKey, TxOutput)>, i: int)
    requires
        unique_keys(s),
        0 <= i < s.len(),
    ensures
        entries_map(s.remove(i)) == entries_map(s).remove(key_view(s[i].0)),
        unique_keys(s.remove(i)),
        forall|j: int| 0 <= j < s.remove(i).len() ==> key_view(s.remove(i)[j].0) != key_view(s[i].0),
    decreases s.len(),
{
    let k = key_view(s[i].0);
    let r = s.remove(i);
    assert(forall|j: int| 0 <= j < r.len() ==> r[j] == (if j < i { s[j] } else { s[j + 1] }));
    assert forall|j: int| 0 <= j < r.len() implies key_view(r[j].0) != k by {
        if j < i {
            assert(key_view(s[j].0) != key_view(s[i].0));
        } else {
            assert(key_view(s[i].0) != key_view(s[j + 1].0));
        }
    }
    assert forall|a: int, b: int| 0 <= a < b < r.len() implies key_view(r[a].0) != key_view(r[b].0) by {
        let a2 = if a < i { a } else { a + 1 };
        let b2 = if b < i { b } else { b + 1 };
        assert(key_view(s[a2].0) != key_view(s[b2].0));
    }
    if i == s.len() - 1 {
        let prefix = s.drop_last();
        assert(r =~= prefix);
        lemma_entries_contains(prefix, k);
        assert(!entries_map(prefix).contains_key(k));
        assert(entries_map(prefix).insert(k, s[i].1@).remove(k) =~= entries_map(prefix));
    } else {
        let prefix = s.drop_last();
        assert(forall|a: int| 0 <= a < prefix.len() ==> prefix[a] == s[a]);
        lemma_entries_remove(prefix, i);
        let klast = key_view(s[s.len() - 1].0);
        assert(r.last() == s.last());
        assert(r.drop_last() =~= prefix.remove(i));
        assert(entries_map(r) == entries_map(prefix.remove(i)).insert(klast, s.last().1@));
        assert(k != klast);
        assert(entries_map(prefix).remove(k).insert(klast, s.last().1@)
            =~= entries_map(prefix).insert(klast, s.last().1@).remove(k));
    }
}

proof fn lemma_entries_push(s: Seq<(UtxoKey, TxOutput)>, k: UtxoKey, v: TxOutput)
    ensures
        entries_map(s.push((k, v))) == entries_map(s).insert(key_view(k), v@),
{
    assert(s.push((k, v)).drop_last() =~= s);
    assert(s.push((k, v)).last() == (k, v));
}

// ------------------------------------------------------------------
// Facts about the balance sum.
// ------------------------------------------------------------------

/// The contribution of one UTXO to the balance of `pkh`.
pub open spec fn balance_part(o: TxOutputV, pkh: Seq<u8>) -> int {
    if o.pubkey_hash == pkh {
        o.value as int
    } else {
        0
    }
}

proof fn lemma_balance_remove(m: Map<(Seq<u8>, u32), TxOutputV>, k: (Seq<u8>, u32), pkh: Seq<u8>)
    requires
        m.dom().finite(),
        m.contains_key(k),
    ensures
        spec_balance(m, pkh) == balance_part(m[k], pkh) + spec_balance(m.remove(k), pkh),
    decreases m.dom().len(),
{
    assert(m.dom().contains(k));
    assert(m.dom().remove(k).len() == m.dom().len() - 1);
    assert(m.dom().len() > 0);
    let k0 = m.dom().choose();
    assert(m.dom().contains(k0));
    if k0 == k {
    } else {
        assert(m.remove(k0).dom().len() < m.dom().len());
        lemma_balance_remove(m.remove(k0), k, pkh);
        lemma_balance_remove(m.remove(k), k0, pkh);
        assert(m.remove(k0).remove(k) =~= m.remove(k).remove(k0));
        assert(spec_balance(m, pkh) == balance_part(m[k0], pkh) + spec_balance(m.remove(k0), pkh));
        assert(spec_balance(m.remove(k0), pkh)
            == balance_part(m[k], pkh) + spec_balance(m.remove(k0).remove(k), pkh));
        assert(spec_balance(m.remove(k), pkh)
            == balance_part(m[k0], pkh) + spec_balance(m.remove(k).remove(k0), pkh));
    }
}

proof fn lemma_balance_insert_fresh(
    m: Map<(Seq<u8>, u32), TxOutputV>,
    k: (Seq<u8>, u32),
    v: TxOutputV,
    pkh: Seq<u8>,
)
    requires
        m.dom().finite(),
        !m.contains_key(k),
    ensures
        spec_balance(m.insert(k, v), pkh) == spec_balance(m, pkh) + balance_part(v, pkh),
{
    lemma_balance_remove(m.insert(k, v), k, pkh);
    assert(m.insert(k, v).remove(k) =~= m);
}

// ------------------------------------------------------------------
// Executable helpers.
// ------------------------------------------------------------------

/// Key equality, byte for byte.
fn key_eq(a: &UtxoKey, b: &UtxoKey) -> (r: bool)
    ensures
        r == (key_view(*a) == key_view(*b)),
{
    if a.1 != b.1 {
        return false;
    }
    crate::hash_eq(&a.0, &b.0)
}

/// The position of `key` in the association sequence, if present.
fn find_utxo(utxos: &Vec<(UtxoKey, TxOutput)>, key: &UtxoKey) -> (r: Option<usize>)
    ensures
        match r {
            Some(i) => i < utxos@.len() && key_view(utxos@[i as int].0) == key_view(*key),
            None => forall|i: int| 0 <= i < utxos@.len() ==> key_view(utxos@[i].0) != key_view(*key),
        },
{
    let mut i: usize = 0;
    while i < utxos.len()
        invariant
            i <= utxos@.len(),
            forall|j: int| 0 <= j < i ==> key_view(utxos@[j].0) != key_view(*key),
        decreases utxos@.len() - i,
    {
        if key_eq(&utxos[i].0, key) {
            return Some(i);
        }
        i += 1;
    }
    None
}

/// Whether `key` occurs in the list of keys spent so far in this block.
fn spent_contains(spent: &Vec<UtxoKey>, key: &UtxoKey) -> (r: bool)
    ensures
        r == exists|x: int| 0 <= x < spent@.len() && key_view(spent@[x]) == key_view(*key),
{
    let mut i: usize = 0;
    while i < spent.len()
        invariant
            i <= spent@.len(),
            forall|j: int| 0 <= j < i ==> key_view(spent@[j]) != key_view(*key),
        decreases spent@.len() - i,
    {
        if key_eq(&spent[i], key) {
            return true;
        }
        i += 1;
    }
    false
}

/// Appends the keys referenced by the inputs of `block.transactions[t]` to
/// the spent list, advancing its meaning from "spent before `t`" to "spent
/// before `t + 1`".
fn push_spent_keys(spent: &mut Vec<UtxoKey>, block: &Block, t: usize)
    requires
        t < block.transactions@.len(),
        forall|k: (Seq<u8>, u32)|
            #![trigger is_spent_before(txs_view(block.transactions@), t as int, k)]
            (exists|x: int| 0 <= x < old(spent)@.len() && key_view(old(spent)@[x]) == k)
                <==> is_spent_before(txs_view(block.transactions@), t as int, k),
    ensures
        forall|k: (Seq<u8>, u32)|
            #![trigger is_spent_before(txs_view(block.transactions@), t + 1, k)]
            (exists|x: int| 0 <= x < final(spent)@.len() && key_view(final(spent)@[x]) == k)
                <==> is_spent_before(txs_view(block.transactions@), t + 1, k),
{
    let ghost txsv = txs_view(block.transactions@);
    let tx = &block.transactions[t];
    let ghost inps = txsv[t as int].inputs;
    let mut b: usize = 0;
    while b < tx.inputs.len()
        invariant
            b <= tx.inputs@.len(),
            txsv == txs_view(block.transactions@),
            t < block.transactions@.len(),
            tx@ == txsv[t as int],
            tx == block.transactions[t as int],
            inps == txsv[t as int].inputs,
            inps.len() == tx.inputs@.len(),
            forall|k: (Seq<u8>, u32)|
                #![trigger is_spent_before(txsv, t as int, k)]
                (exists|x: int| 0 <= x < spent@.len() && key_view(spent@[x]) == k)
                    <==> (is_spent_before(txsv, t as int, k) || exists|c: int|
                        0 <= c < b && input_key(inps[c]) == k),
        decreases tx.inputs@.len() - b,
    {
        let ghost spent0 = spent@;
        let ghost b0 = b as int;
        let inp = &tx.inputs[b];
        spent.push((inp.prev_tx, inp.output_index));
        b += 1;
        proof {
            assert(inp@ == inps[b0]);
            assert(spent@.len() == spent0.len() + 1);
            assert(key_view(spent@[spent0.len() as int]) == input_key(inps[b0]));
            assert forall|k: (Seq<u8>, u32)|
                #![trigger is_spent_before(txsv, t as int, k)]
                ((exists|x: int| 0 <= x < spent@.len() && key_view(spent@[x]) == k)
                    <==> (is_spent_before(txsv, t as int, k) || exists|c: int|
                        0 <= c < b && input_key(inps[c]) == k)) by {
                let old_iff = (exists|x: int| 0 <= x < spent0.len() && key_view(spent0[x]) == k)
                    <==> (is_spent_before(txsv, t as int, k) || exists|c: int|
                        0 <= c < b0 && input_key(inps[c]) == k);
                assert(old_iff);
                if exists|x: int| 0 <= x < spent@.len() && key_view(spent@[x]) == k {
                    let x = choose|x: int| 0 <= x < spent@.len() && key_view(spent@[x]) == k;
                    if x < spent0.len() {
                        assert(spent@[x] == spent0[x]);
                        assert(exists|y: int| 0 <= y < spent0.len() && key_view(spent0[y]) == k);
                        if !is_spent_before(txsv, t as int, k) {
                            let c = choose|c: int| 0 <= c < b0 && input_key(inps[c]) == k;
                            assert(0 <= c < b && input_key(inps[c]) == k);
                        }
                    } else {
                        assert(x == spent0.len());
                        assert(0 <= b0 < b && input_key(inps[b0]) == k);
                    }
                }
                if is_spent_before(txsv, t as int, k) {
                    assert(exists|y: int| 0 <= y < spent0.len() && key_view(spent0[y]) == k);
                    let y = choose|y: int| 0 <= y < spent0.len() && key_view(spent0[y]) == k;
                    assert(key_view(spent@[y]) == k);
                }
                if exists|c: int| 0 <= c < b && input_key(inps[c]) == k {
                    let c = choose|c: int| 0 <= c < b && input_key(inps[c]) == k;
                    if c < b0 {
                        assert(exists|c2: int| 0 <= c2 < b0 && input_key(inps[c2]) == k);
                        assert(exists|y: int| 0 <= y < spent0.len() && key_view(spent0[y]) == k);
                        let y = choose|y: int| 0 <= y < spent0.len() && key_view(spent0[y]) == k;
                        assert(key_view(spent@[y]) == k);
                    } else {
                        assert(c == b0);
                        assert(key_view(spent@[spent0.len() as int]) == k);
                    }
                }
            }
        }
    }
    proof {
        assert(b as int == inps.len());
        assert forall|k: (Seq<u8>, u32)|
            #![trigger is_spent_before(txsv, t + 1, k)]
            ((exists|x: int| 0 <= x < spent@.len() && key_view(spent@[x]) == k)
                <==> is_spent_before(txsv, t + 1, k)) by {
            let inv_iff = (exists|x: int| 0 <= x < spent@.len() && key_view(spent@[x]) == k)
                <==> (is_spent_before(txsv, t as int, k) || exists|c: int|
                    0 <= c < b && input_key(inps[c]) == k);
            assert(inv_iff);
            if exists|x: int| 0 <= x < spent@.len() && key_view(spent@[x]) == k {
                if is_spent_before(txsv, t as int, k) {
                    let (a, b2) = choose|a: int, b2: int|
                        #![trigger txsv[a].inputs[b2]]
                        0 <= a < t && 0 <= b2 < txsv[a].inputs.len()
                            && input_key(txsv[a].inputs[b2]) == k;
                    assert(0 <= a < t + 1 && 0 <= b2 < txsv[a].inputs.len()
                        && input_key(txsv[a].inputs[b2]) == k);
                    assert(is_spent_before(txsv, t + 1, k));
                } else {
                    let c = choose|c: int| 0 <= c < b && input_key(inps[c]) == k;
                    assert(0 <= t < t + 1 && 0 <= c < txsv[t as int].inputs.len()
                        && input_key(txsv[t as int].inputs[c]) == k);
                    assert(is_spent_before(txsv, t + 1, k));
                }
            }
            if is_spent_before(txsv, t + 1, k) {
                let (a, b2) = choose|a: int, b2: int|
                    #![trigger txsv[a].inputs[b2]]
                    0 <= a < t + 1 && 0 <= b2 < txsv[a].inputs.len()
                        && input_key(txsv[a].inputs[b2]) == k;
                if a < t {
                    assert(is_spent_before(txsv, t as int, k));
                    assert(exists|x: int| 0 <= x < spent@.len() && key_view(spent@[x]) == k);
                } else {
                    assert(a == t);
                    assert(0 <= b2 < b && input_key(inps[b2]) == k);
                    assert(exists|c: int| 0 <= c < b && input_key(inps[c]) == k);
                    assert(exists|x: int| 0 <= x < spent@.len() && key_view(spent@[x]) == k);
                }
            }
        }
    }
}

/// The summed output value of one transaction.
fn sum_outputs(tx: &Transaction) -> (r: u128)
    ensures
        r as int == sum_outputs_from(tx@.outputs, 0),
{
    let mut acc: u128 = 0;
    let mut i: usize = 0;
    while i < tx.outputs.len()
        invariant
            i <= tx.outputs@.len(),
            acc as int <= i as int * (u64::MAX as int),
            sum_outputs_from(tx@.outputs, 0) == acc as int + sum_outputs_from(
                tx@.outputs,
                i as int,
            ),
        decreases tx.outputs@.len() - i,
    {
        let v = tx.outputs[i].value;
        proof {
            assert(tx@.outputs[i as int].value == v);
        }
        acc = acc + v as u128;
        i += 1;
    }
    acc
}

impl Ledger {
    /// No two live entries share a key.
    pub closed spec fn wf(&self) -> bool {
        unique_keys(self.utxos@)
    }

    /// Checks the inputs of `block.transactions[t]` against the pre-block
    /// state and the keys spent so far, returning the summed input value.
    fn check_tx_inputs(&self, block: &Block, t: usize, spent: &Vec<UtxoKey>) -> (r: Result<
        u128,
        Error,
    >)
        requires
            self.wf(),
            t < block.transactions@.len(),
            forall|k: (Seq<u8>, u32)|
                #![trigger is_spent_before(txs_view(block.transactions@), t as int, k)]
                (exists|x: int| 0 <= x < spent@.len() && key_view(spent@[x]) == k)
                    <==> is_spent_before(txs_view(block.transactions@), t as int, k),
        ensures
            match r {
                Ok(v) => check_inputs_from(self@.utxos, txs_view(block.transactions@), t as int, 0)
                    == Ok::<int, Error>(v as int),
                Err(e) => check_inputs_from(self@.utxos, txs_view(block.transactions@), t as int, 0)
                    == Err::<int, Error>(e),
            },
    {
        let ghost txsv = txs_view(block.transactions@);
        let tx = &block.transactions[t];
        let msg = tx.signing_message();
        let mut acc: u128 = 0;
        let mut i: usize = 0;
        while i < tx.inputs.len()
            invariant
                self.wf(),
                i <= tx.inputs@.len(),
                t < block.transactions@.len(),
                txsv == txs_view(block.transactions@),
                tx@ == txsv[t as int],
                tx == block.transactions[t as int],
                msg@ == signing_message_of(txsv[t as int]),
                acc as int <= i as int * (u64::MAX as int),
                forall|k: (Seq<u8>, u32)|
                    #![trigger is_spent_before(txsv, t as int, k)]
                    (exists|x: int| 0 <= x < spent@.len() && key_view(spent@[x]) == k)
                        <==> is_spent_before(txsv, t as int, k),
                check_inputs_from(self@.utxos, txsv, t as int, 0) == (match check_inputs_from(
                    self@.utxos,
                    txsv,
                    t as int,
                    i as int,
                ) {
                    Ok(v) => Ok::<int, Error>(acc as int + v),
                    Err(e) => Err::<int, Error>(e),
                }),
            decreases tx.inputs@.len() - i,
        {
            let inp = &tx.inputs[i];
            let key: UtxoKey = (inp.prev_tx, inp.output_index);
            proof {
                assert(inp@ == txsv[t as int].inputs[i as int]);
                assert(key_view(key) == input_key(txsv[t as int].inputs[i as int]));
            }
            if spent_contains(spent, &key) {
                return Err(Error::DoubleSpend);
            }
            let idx = match find_utxo(&self.utxos, &key) {
                None => {
                    proof {
                        lemma_entries_contains(self.utxos@, key_view(key));
                    }
                    return Err(Error::MissingUtxo);
                },
                Some(idx) => idx,
            };
            let val = self.utxos[idx].1.value;
            proof {
                lemma_entries_value(self.utxos@, idx as int);
            }
            if !inp.signature.is_empty() {
                if !crate::crypto::verify_signature(
                    inp.pubkey.as_slice(),
                    msg.as_slice(),
                    inp.signature.as_slice(),
                ) {
                    return Err(Error::BadSignature);
                }
            }
            acc = acc + val as u128;
            i += 1;
        }
        Ok(acc)
    }

    /// Full validation of the non-coinbase transaction at position `t`.
    fn validate_tx(&self, block: &Block, t: usize, spent: &Vec<UtxoKey>) -> (r: Result<(), Error>)
        requires
            self.wf(),
            t < block.transactions@.len(),
            forall|k: (Seq<u8>, u32)|
                #![trigger is_spent_before(txs_view(block.transactions@), t as int, k)]
                (exists|x: int| 0 <= x < spent@.len() && key_view(spent@[x]) == k)
                    <==> is_spent_before(txs_view(block.transactions@), t as int, k),
        ensures
            r == validate_tx_at(self@.utxos, txs_view(block.transactions@), t as int),
    {
        let in_val = match self.check_tx_inputs(block, t, spent) {
            Err(e) => {
                return Err(e);
            },
            Ok(v) => v,
        };
        let out_val = sum_outputs(&block.transactions[t]);
        proof {
            assert(block.transactions[t as int]@ == txs_view(block.transactions@)[t as int]);
        }
        if out_val > in_val {
            Err(Error::ValueOverflow)
        } else {
            Ok(())
        }
    }

    /// Validates every non-coinbase transaction of `block`, in order,
    /// against the immutable pre-block state, with in-block double spends
    /// rejected.
    fn validate_block(&self, block: &Block) -> (r: Result<(), Error>)
        requires
            self.wf(),
        ensures
            r == validate_txs_from(self@.utxos, txs_view(block.transactions@), 0),
    {
        let ghost txsv = txs_view(block.transactions@);
        let mut spent: Vec<UtxoKey> = Vec::new();
        let mut t: usize = 0;
        while t < block.transactions.len()
            invariant
                self.wf(),
                t <= block.transactions@.len(),
                txsv == txs_view(block.transactions@),
                forall|k: (Seq<u8>, u32)|
                    #![trigger is_spent_before(txsv, t as int, k)]
                    (exists|x: int| 0 <= x < spent@.len() && key_view(spent@[x]) == k)
                        <==> is_spent_before(txsv, t as int, k),
                validate_txs_from(self@.utxos, txsv, 0) == validate_txs_from(
                    self@.utxos,
                    txsv,
                    t as int,
                ),
            decreases block.transactions@.len() - t,
        {
            if t != 0 {
                match self.validate_tx(block, t, &spent) {
                    Err(e) => {
                        return Err(e);
                    },
                    Ok(()) => {},
                }
            }
            push_spent_keys(&mut spent, block, t);
            t += 1;
        }
        Ok(())
    }

    /// Removes one key from the live set, if present.
    fn remove_utxo(&mut self, key: &UtxoKey)
        requires
            old(self).wf(),
        ensures
            final(self).wf(),
            entries_map(final(self).utxos@) == entries_map(old(self).utxos@).remove(key_view(*key)),
            final(self).height == old(self).height,
            final(self).tip == old(self).tip,
    {
        match find_utxo(&self.utxos, key) {
            Some(idx) => {
                proof {
                    lemma_entries_remove(self.utxos@, idx as int);
                }
                self.utxos.remove(idx);
            },
            None => {
                proof {
                    lemma_entries_contains(self.utxos@, key_view(*key));
                    assert(entries_map(self.utxos@).remove(key_view(*key)) =~= entries_map(
                        self.utxos@,
                    ));
                }
            },
        }
    }

    /// Inserts one output under its key, replacing any entry with that key.
    fn insert_utxo(&mut self, key: UtxoKey, out: TxOutput)
        requires
            old(self).wf(),
        ensures
            final(self).wf(),
            entries_map(final(self).utxos@) == entries_map(old(self).utxos@).insert(
                key_view(key),
                out@,
            ),
            final(self).height == old(self).height,
            final(self).tip == old(self).tip,
    {
        self.remove_utxo(&key);
        proof {
            lemma_entries_contains(self.utxos@, key_view(key));
            let popped = entries_map(self.utxos@);
            lemma_entries_push(self.utxos@, key, out);
            assert forall|a: int, b: int|
                0 <= a < b < self.utxos@.push((key, out)).len() implies key_view(
                self.utxos@.push((key, out))[a].0,
            ) != key_view(self.utxos@.push((key, out))[b].0) by {
                if b < self.utxos@.len() {
                    assert(key_view(self.utxos@[a].0) != key_view(self.utxos@[b].0));
                } else {
                    assert(!popped.contains_key(key_view(key)));
                    lemma_entries_contains(self.utxos@, key_view(self.utxos@[a].0));
                }
            }
            assert(entries_map(old(self).utxos@).remove(key_view(key)).insert(key_view(key), out@)
                =~= entries_map(old(self).utxos@).insert(key_view(key), out@));
        }
        self.utxos.push((key, out));
    }

    /// Applies the deltas of every transaction of `block`, in order.
    fn commit_block(&mut self, block: &Block)
        requires
            old(self).wf(),
            forall|t: int|
                0 <= t < block.transactions@.len() ==> (#[trigger] block.transactions@[t]).outputs@.len()
                    <= u32::MAX,
        ensures
            final(self).wf(),
            entries_map(final(self).utxos@) == apply_txs_from(
                entries_map(old(self).utxos@),
                txs_view(block.transactions@),
                0,
            ),
            final(self).height == old(self).height,
            final(self).tip == old(self).tip,
    {
        let ghost txsv = txs_view(block.transactions@);
        let ghost m0 = entries_map(self.utxos@);
        let mut t: usize = 0;
        while t < block.transactions.len()
            invariant
                self.wf(),
                t <= block.transactions@.len(),
                txsv == txs_view(block.transactions@),
                forall|a: int|
                    0 <= a < block.transactions@.len() ==> (#[trigger] block.transactions@[a]).outputs@.len()
                        <= u32::MAX,
                m0 == entries_map(old(self).utxos@),
                self.height == old(self).height,
                self.tip == old(self).tip,
                apply_txs_from(m0, txsv, 0) == apply_txs_from(entries_map(self.utxos@), txsv, t as int),
            decreases block.transactions@.len() - t,
        {
            let tx = &block.transactions[t];
            let ghost m_tx = entries_map(self.utxos@);
            // spend the referenced inputs
            let mut b: usize = 0;
            while b < tx.inputs.len()
                invariant
                    self.wf(),
                    b <= tx.inputs@.len(),
                    t < block.transactions@.len(),
                    tx == block.transactions[t as int],
                    tx@ == txsv[t as int],
                    txsv == txs_view(block.transactions@),
                    self.height == old(self).height,
                    self.tip == old(self).tip,
                    remove_inputs_from(m_tx, tx@.inputs, 0) == remove_inputs_from(
                        entries_map(self.utxos@),
                        tx@.inputs,
                        b as int,
                    ),
                decreases tx.inputs@.len() - b,
            {
                let inp = &tx.inputs[b];
                let key: UtxoKey = (inp.prev_tx, inp.output_index);
                proof {
                    assert(inp@ == tx@.inputs[b as int]);
                    assert(key_view(key) == input_key(tx@.inputs[b as int]));
                }
                self.remove_utxo(&key);
                b += 1;
            }
            // create the new outputs
            let txh = tx.hash();
            let ghost m_rm = entries_map(self.utxos@);
            let mut o: usize = 0;
            while o < tx.outputs.len()
                invariant
                    self.wf(),
                    o <= tx.outputs@.len(),
                    tx.outputs@.len() <= u32::MAX,
                    t < block.transactions@.len(),
                    tx == block.transactions[t as int],
                    tx@ == txsv[t as int],
                    txsv == txs_view(block.transactions@),
                    txh@ == tx_hash_of(tx@),
                    self.height == old(self).height,
                    self.tip == old(self).tip,
                    insert_outputs_from(m_rm, txh@, tx@.outputs, 0) == insert_outputs_from(
                        entries_map(self.utxos@),
                        txh@,
                        tx@.outputs,
                        o as int,
                    ),
                decreases tx.outputs@.len() - o,
            {
                let out_ref = &tx.outputs[o];
                let out_val = TxOutput {
                    value: out_ref.value,
                    pubkey_hash: vstd::slice::slice_to_vec(out_ref.pubkey_hash.as_slice()),
                };
                let key: UtxoKey = (txh, o as u32);
                proof {
                    assert(out_val@ == tx@.outputs[o as int]);
                    assert(key_view(key) == ((txh@, o as u32)));
                }
                self.insert_utxo(key, out_val);
                o += 1;
            }
            proof {
                assert(entries_map(self.utxos@) == apply_tx(m_tx, txsv[t as int]));
            }
            t += 1;
        }
    }

    /// Validates `block` against the current state and, if every check
    /// passes, applies all of its deltas, advances the height, and moves
    /// the tip to the header's hash. On any error the ledger is unchanged.
    /// The bound on each transaction's output count reflects the 32-bit
    /// output index of a UTXO key.
    pub fn apply_block(&mut self, block: &Block) -> (r: Result<(), Error>)
        requires
            old(self).wf(),
            forall|t: int|
                0 <= t < block.transactions@.len() ==> (#[trigger] block.transactions@[t]).outputs@.len()
                    <= u32::MAX,
        ensures
            final(self).wf(),
            match r {
                Ok(()) => spec_apply_block(old(self)@, block@) == Ok::<LedgerV, Error>(final(self)@),
                Err(e) => spec_apply_block(old(self)@, block@) == Err::<LedgerV, Error>(e)
                    && final(self)@ == old(self)@,
            },
            block.header.index as int != old(self)@.height as int + 1 ==> r == Err::<(), Error>(
                Error::NonSequentialHeight,
            ),
            block.header.index as int == old(self)@.height as int + 1 && block.header.prev_hash@
                != old(self)@.tip ==> r == Err::<(), Error>(Error::PrevHashMismatch),
    {
        let height_ok = self.height < u64::MAX && block.header.index == self.height + 1;
        if !height_ok {
            return Err(Error::NonSequentialHeight);
        }
        if !crate::hash_eq(&block.header.prev_hash, &self.tip) {
            return Err(Error::PrevHashMismatch);
        }
        match self.validate_block(block) {
            Err(e) => {
                return Err(e);
            },
            Ok(()) => {},
        }
        let ghost l0 = *self;
        self.commit_block(block);
        self.height = block.header.index;
        self.tip = block.hash();
        proof {
            assert(spec_apply_block(old(self)@, block@) == Ok::<LedgerV, Error>(self@)) by {
                assert(self@ =~= (LedgerV {
                    utxos: apply_txs_from(old(self)@.utxos, block@.transactions, 0),
                    height: block@.header.index,
                    tip: header_hash_of(block@.header),
                }));
            }
        }
        Ok(())
    }

    /// Constructs a ledger from the genesis block: starts at height 0 with
    /// the all-zero tip and applies `genesis` like any other block, so
    /// genesis must carry `index` 1 and the all-zero `prev_hash`.
    pub fn new(genesis: &Block) -> (r: Result<Ledger, Error>)
        requires
            forall|t: int|
                0 <= t < genesis.transactions@.len() ==> (#[trigger] genesis.transactions@[t]).outputs@.len()
                    <= u32::MAX,
        ensures
            match r {
                Ok(l) => l.wf() && spec_apply_block(initial_ledger(), genesis@) == Ok::<
                    LedgerV,
                    Error,
                >(l@),
                Err(e) => spec_apply_block(initial_ledger(), genesis@) == Err::<LedgerV, Error>(e),
            },
    {
        let mut ledger = Ledger { utxos: Vec::new(), height: 0, tip: [0u8; 32] };
        proof {
            assert(ledger.tip@ =~= zero_hash_v());
            assert(ledger@ =~= initial_ledger());
        }
        match ledger.apply_block(genesis) {
            Ok(()) => Ok(ledger),
            Err(e) => Err(e),
        }
    }

    /// The summed value of every live UTXO paying `pkh`, saturating at
    /// `u64::MAX`.
    #[verifier::rlimit(50)]
    pub fn balance_for_pubkey_hash(&self, pkh: &[u8]) -> (r: u64)
        requires
            self.wf(),
        ensures
            spec_balance(self@.utxos, pkh@) <= u64::MAX ==> r as int == spec_balance(
                self@.utxos,
                pkh@,
            ),
            spec_balance(self@.utxos, pkh@) > u64::MAX ==> r == u64::MAX,
    {
        let mut acc: u128 = 0;
        let mut i: usize = 0;
        proof {
            assert(self.utxos@.take(0) =~= Seq::<(UtxoKey, TxOutput)>::empty());
        }
        while i < self.utxos.len()
            invariant
                self.wf(),
                i <= self.utxos@.len(),
                acc as int <= i as int * (u64::MAX as int),
                acc as int == spec_balance(entries_map(self.utxos@.take(i as int)), pkh@),
            decreases self.utxos@.len() - i,
        {
            let e = &self.utxos[i];
            let is_match = crate::bytes_eq(e.1.pubkey_hash.as_slice(), pkh);
            proof {
                let s = self.utxos@;
                assert(s.take(i + 1).drop_last() =~= s.take(i as int));
                assert(s.take(i + 1).last() == s[i as int]);
                assert(forall|a: int| 0 <= a < i ==> s.take(i as int)[a] == s[a]);
                lemma_entries_contains(s.take(i as int), key_view(s[i as int].0));
                lemma_entries_finite(s.take(i as int));
                lemma_balance_insert_fresh(
                    entries_map(s.take(i as int)),
                    key_view(s[i as int].0),
                    s[i as int].1@,
                    pkh@,
                );
                assert(entries_map(s.take(i + 1)) == entries_map(s.take(i as int)).insert(
                    key_view(s[i as int].0),
                    s[i as int].1@,
                ));
            }
            if is_match {
                acc = acc + e.1.value as u128;
            }
            i += 1;
        }
        proof {
            assert(self.utxos@.take(self.utxos@.len() as int) =~= self.utxos@);
        }
        if acc > u64::MAX as u128 {
            u64::MAX
        } else {
            acc as u64
        }
    }
}


// ------------------------------------------------------------------
// Laws of the protocol.
// ------------------------------------------------------------------

/// The summed value of the UTXOs referenced by the inputs from position
/// `i` on, read from the state `u` (meaningful when every key is present).
pub open spec fn sum_input_values(
    u: Map<(Seq<u8>, u32), TxOutputV>,
    inputs: Seq<TxInputV>,
    i: int,
) -> int
    decreases inputs.len() - i,
{
    if i < 0 || i >= inputs.len() {
        0
    } else {
        u[input_key(inputs[i])].value + sum_input_values(u, inputs, i + 1)
    }
}

proof fn lemma_validate_from_ok(
    u: Map<(Seq<u8>, u32), TxOutputV>,
    txs: Seq<TransactionV>,
    t0: int,
    t: int,
)
    requires
        validate_txs_from(u, txs, t0) == Ok::<(), Error>(()),
        0 <= t0 <= t < txs.len(),
        1 <= t,
    ensures
        validate_tx_at(u, txs, t) == Ok::<(), Error>(()),
    decreases t - t0,
{
    if t0 < t {
        lemma_validate_from_ok(u, txs, t0 + 1, t);
    }
}

proof fn lemma_check_ok_input_unspent(
    u: Map<(Seq<u8>, u32), TxOutputV>,
    txs: Seq<TransactionV>,
    t: int,
    i0: int,
    x: int,
)
    requires
        check_inputs_from(u, txs, t, i0) is Ok,
        0 <= i0 <= x < txs[t].inputs.len(),
    ensures
        !is_spent_before(txs, t, input_key(txs[t].inputs[x])),
    decreases x - i0,
{
    if i0 < x {
        lemma_check_ok_input_unspent(u, txs, t, i0 + 1, x);
    }
}

/// A genesis block carrying `index` 1, the all-zero `prev_hash`, and one
/// transaction (the coinbase, which is not validated) is accepted by a
/// fresh ledger; afterward the height is 1 and the tip is the canonical
/// hash of the genesis header.
pub proof fn lemma_genesis_accepted(b: BlockV)
    requires
        b.header.index == 1,
        b.header.prev_hash == zero_hash_v(),
        b.transactions.len() == 1,
        crate::pow::spec_meets_difficulty(header_hash_of(b.header), b.header.difficulty),
    ensures
        spec_apply_block(initial_ledger(), b) == Ok::<LedgerV, Error>(LedgerV {
            utxos: apply_tx(Map::empty(), b.transactions[0]),
            height: 1,
            tip: header_hash_of(b.header),
        }),
{
    assert(validate_txs_from(initial_ledger().utxos, b.transactions, 1) == Ok::<(), Error>(()));
    assert(validate_txs_from(initial_ledger().utxos, b.transactions, 0) == Ok::<(), Error>(()));
    assert(apply_txs_from(apply_tx(Map::empty(), b.transactions[0]), b.transactions, 1)
        == apply_tx(Map::empty(), b.transactions[0]));
    assert(apply_txs_from(Map::empty(), b.transactions, 0) == apply_tx(
        Map::empty(),
        b.transactions[0],
    ));
}

/// No block in which two transactions spend the same UTXO is ever
/// accepted: transaction `j` references, at input position `bj`, the key
/// that transaction `i` already references at input position `bi`, so the
/// block fails (with `DoubleSpend` on that path, or an earlier error).
pub proof fn lemma_double_spend_rejected(
    l: LedgerV,
    b: BlockV,
    i: int,
    j: int,
    bi: int,
    bj: int,
)
    requires
        0 <= i < j < b.transactions.len(),
        0 <= bi < b.transactions[i].inputs.len(),
        0 <= bj < b.transactions[j].inputs.len(),
        input_key(b.transactions[i].inputs[bi]) == input_key(b.transactions[j].inputs[bj]),
    ensures
        !(spec_apply_block(l, b) is Ok),
{
    if spec_apply_block(l, b) is Ok {
        let txs = b.transactions;
        match validate_txs_from(l.utxos, txs, 0) {
            Err(e) => {
                assert(spec_apply_block(l, b) == Err::<LedgerV, Error>(e));
            },
            Ok(u) => {},
        }
        assert(validate_txs_from(l.utxos, txs, 0) == Ok::<(), Error>(()));
        lemma_validate_from_ok(l.utxos, txs, 0, j);
        assert(check_inputs_from(l.utxos, txs, j, 0) is Ok);
        lemma_check_ok_input_unspent(l.utxos, txs, j, 0, bj);
        assert(0 <= i < j && 0 <= bi < txs[i].inputs.len() && input_key(txs[i].inputs[bi])
            == input_key(txs[j].inputs[bj]));
        assert(is_spent_before(txs, j, input_key(txs[j].inputs[bj])));
        assert(false);
    }
}

proof fn lemma_check_inputs_all_good(
    u: Map<(Seq<u8>, u32), TxOutputV>,
    txs: Seq<TransactionV>,
    t: int,
    i: int,
)
    requires
        0 <= t < txs.len(),
        0 <= i,
        forall|x: int|
            0 <= x < txs[t].inputs.len() ==> u.contains_key(
                #[trigger] input_key(txs[t].inputs[x]),
            ),
        forall|x: int|
            0 <= x < txs[t].inputs.len() ==> !is_spent_before(
                txs,
                t,
                #[trigger] input_key(txs[t].inputs[x]),
            ),
        forall|x: int|
            #![trigger txs[t].inputs[x]]
            0 <= x < txs[t].inputs.len() ==> (txs[t].inputs[x].signature.len() == 0 || sig_valid(
                txs[t].inputs[x].pubkey,
                signing_message_of(txs[t]),
                txs[t].inputs[x].signature,
            )),
    ensures
        check_inputs_from(u, txs, t, i) == Ok::<int, Error>(sum_input_values(u, txs[t].inputs, i)),
    decreases txs[t].inputs.len() - i,
{
    if i < txs[t].inputs.len() {
        lemma_check_inputs_all_good(u, txs, t, i + 1);
    }
}

/// Value conservation: a non-coinbase transaction whose inputs all resolve
/// (present, not spent earlier in the block, signatures empty or valid)
/// fails with `ValueOverflow` exactly when its summed outputs exceed its
/// summed inputs, and validates otherwise — equal sums succeed with zero
/// implicit fee.
pub proof fn lemma_value_conservation(
    u: Map<(Seq<u8>, u32), TxOutputV>,
    txs: Seq<TransactionV>,
    t: int,
)
    requires
        0 <= t < txs.len(),
        forall|x: int|
            0 <= x < txs[t].inputs.len() ==> u.contains_key(
                #[trigger] input_key(txs[t].inputs[x]),
            ),
        forall|x: int|
            0 <= x < txs[t].inputs.len() ==> !is_spent_before(
                txs,
                t,
                #[trigger] input_key(txs[t].inputs[x]),
            ),
        forall|x: int|
            #![trigger txs[t].inputs[x]]
            0 <= x < txs[t].inputs.len() ==> (txs[t].inputs[x].signature.len() == 0 || sig_valid(
                txs[t].inputs[x].pubkey,
                signing_message_of(txs[t]),
                txs[t].inputs[x].signature,
            )),
    ensures
        sum_outputs_from(txs[t].outputs, 0) > sum_input_values(u, txs[t].inputs, 0)
            ==> validate_tx_at(u, txs, t) == Err::<(), Error>(Error::ValueOverflow),
        sum_outputs_from(txs[t].outputs, 0) <= sum_input_values(u, txs[t].inputs, 0)
            ==> validate_tx_at(u, txs, t) == Ok::<(), Error>(()),
{
    lemma_check_inputs_all_good(u, txs, t, 0);
}


/// The chain invariant: an accepted block advances the height by exactly
/// one and moves the tip to the canonical hash of the block's header.
pub proof fn lemma_apply_advances_chain(l: LedgerV, b: BlockV)
    requires
        spec_apply_block(l, b) is Ok,
    ensures
        spec_apply_block(l, b)->Ok_0.height as int == l.height as int + 1,
        spec_apply_block(l, b)->Ok_0.tip == header_hash_of(b.header),
{
}

} // verus!

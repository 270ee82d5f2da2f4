//! The canonical byte encoding that underlies every identity hash.
//!
//! The encoding is deterministic and self-describing: fields in a fixed
//! order, integers fixed-width little-endian, variable-length byte strings
//! preceded by a 64-bit length. Lists are preceded by a 64-bit element
//! count. An `Option` is one tag byte (0 or 1) followed, when present, by
//! the payload. Any change to this layout changes every hash.

use vstd::prelude::*;

verus! {

use vstd::bytes::spec_u32_to_le_bytes;
use vstd::bytes::spec_u64_to_le_bytes;
use crate::crypto::digest_of;
use crate::TxInput;
use crate::TxInputV;
use crate::TxOutputV;
use crate::Transaction;
use crate::TransactionV;
use crate::BlockHeader;
use crate::BlockHeaderV;

/// A length-prefixed byte string: 8-byte little-endian length, then the bytes.
pub open spec fn enc_bytes(b: Seq<u8>) -> Seq<u8> {
    spec_u64_to_le_bytes(b.len() as u64) + b
}

/// One input: the 32 bytes of `prev_tx`, the 4-byte index, then the
/// length-prefixed `pubkey` and `signature`.
pub open spec fn enc_input(i: TxInputV) -> Seq<u8> {
    i.prev_tx + spec_u32_to_le_bytes(i.output_index) + enc_bytes(i.pubkey) + enc_bytes(i.signature)
}

/// The inputs from position `i` on, concatenated.
pub open spec fn enc_inputs_from(s: Seq<TxInputV>, i: int) -> Seq<u8>
    decreases s.len() - i,
{
    if i < 0 || i >= s.len() {
        Seq::empty()
    } else {
        enc_input(s[i]) + enc_inputs_from(s, i + 1)
    }
}

/// One output: the 8-byte value, then the length-prefixed recipient hash.
pub open spec fn enc_output(o: TxOutputV) -> Seq<u8> {
    spec_u64_to_le_bytes(o.value) + enc_bytes(o.pubkey_hash)
}

/// The outputs from position `i` on, concatenated.
pub open spec fn enc_outputs_from(s: Seq<TxOutputV>, i: int) -> Seq<u8>
    decreases s.len() - i,
{
    if i < 0 || i >= s.len() {
        Seq::empty()
    } else {
        enc_output(s[i]) + enc_outputs_from(s, i + 1)
    }
}

/// Optional metadata: one tag byte, then the length-prefixed bytes if present.
pub open spec fn enc_meta(m: Option<Seq<u8>>) -> Seq<u8> {
    match m {
        None => seq![0u8],
        Some(b) => seq![1u8] + enc_bytes(b),
    }
}

/// The full canonical encoding of a transaction: the counted input list,
/// the counted output list, then the metadata.
pub open spec fn enc_tx(t: TransactionV) -> Seq<u8> {
    spec_u64_to_le_bytes(t.inputs.len() as u64) + enc_inputs_from(t.inputs, 0)
        + spec_u64_to_le_bytes(t.outputs.len() as u64) + enc_outputs_from(t.outputs, 0)
        + enc_meta(t.metadata)
}

/// The canonical encoding of a block header: `index`, `timestamp`,
/// `prev_hash`, `merkle_root`, `nonce`, `difficulty`, in that order.
pub open spec fn enc_header(h: BlockHeaderV) -> Seq<u8> {
    spec_u64_to_le_bytes(h.index) + spec_u64_to_le_bytes(h.timestamp) + h.prev_hash
        + h.merkle_root + spec_u64_to_le_bytes(h.nonce) + spec_u32_to_le_bytes(h.difficulty)
}

/// An input with its signature emptied.
pub open spec fn cleared_input(i: TxInputV) -> TxInputV {
    TxInputV {
        prev_tx: i.prev_tx,
        output_index: i.output_index,
        pubkey: i.pubkey,
        signature: Seq::empty(),
    }
}

/// The transaction with every input's signature emptied: the form whose
/// digest every input signs.
pub open spec fn cleared(t: TransactionV) -> TransactionV {
    TransactionV {
        inputs: Seq::new(t.inputs.len(), |i: int| cleared_input(t.inputs[i])),
        outputs: t.outputs,
        metadata: t.metadata,
    }
}

/// The identity hash of a transaction.
pub open spec fn tx_hash_of(t: TransactionV) -> Seq<u8> {
    digest_of(enc_tx(t))
}

/// The identity hash of a block header.
pub open spec fn header_hash_of(h: BlockHeaderV) -> Seq<u8> {
    digest_of(enc_header(h))
}

/// The message each input of `t` signs.
pub open spec fn signing_message_of(t: TransactionV) -> Seq<u8> {
    digest_of(enc_tx(cleared(t)))
}

/// The views of a sequence of transactions.
pub open spec fn txs_view(s: Seq<Transaction>) -> Seq<TransactionV> {
    s.map_values(|t: Transaction| t@)
}

/// The transaction hashes from position `i` on, concatenated: the input of
/// the Merkle aggregate.
pub open spec fn merkle_input_from(txs: Seq<TransactionV>, i: int) -> Seq<u8>
    decreases txs.len() - i,
{
    if i < 0 || i >= txs.len() {
        Seq::empty()
    } else {
        tx_hash_of(txs[i]) + merkle_input_from(txs, i + 1)
    }
}

/// The Merkle aggregate of an ordered transaction list.
pub open spec fn merkle_root_of(txs: Seq<TransactionV>) -> Seq<u8> {
    digest_of(merkle_input_from(txs, 0))
}

/// Appends the bytes of `b` to `out`.
pub(crate) fn push_slice(out: &mut Vec<u8>, b: &[u8])
    ensures
        final(out)@ == old(out)@ + b@,
{
    let mut i: usize = 0;
    proof {
        assert(out@ =~= out@ + b@.take(0));
    }
    while i < b.len()
        invariant
            i <= b@.len(),
            out@ == old(out)@ + b@.take(i as int),
        decreases b@.len() - i,
    {
        let ghost prev = out@;
        out.push(*vstd::slice::slice_index_get(b, i));
        proof {
            assert(b@.take(i + 1) =~= b@.take(i as int).push(b@[i as int]));
            assert(prev.push(b@[i as int]) =~= old(out)@ + b@.take(i + 1));
        }
        i += 1;
    }
    proof {
        assert(b@.take(b@.len() as int) =~= b@);
    }
}

/// Appends the 8-byte little-endian form of `x` to `out`.
pub(crate) fn push_u64(out: &mut Vec<u8>, x: u64)
    ensures
        final(out)@ == old(out)@ + spec_u64_to_le_bytes(x),
{
    let mut b = vstd::bytes::u64_to_le_bytes(x);
    out.append(&mut b);
}

/// Appends the 4-byte little-endian form of `x` to `out`.
pub(crate) fn push_u32(out: &mut Vec<u8>, x: u32)
    ensures
        final(out)@ == old(out)@ + spec_u32_to_le_bytes(x),
{
    let mut b = vstd::bytes::u32_to_le_bytes(x);
    out.append(&mut b);
}

/// Appends the length-prefixed form of `b` to `out`.
pub(crate) fn push_len_bytes(out: &mut Vec<u8>, b: &Vec<u8>)
    ensures
        final(out)@ == old(out)@ + enc_bytes(b@),
{
    let ghost out0 = out@;
    push_u64(out, b.len() as u64);
    push_slice(out, b.as_slice());
    proof {
        assert(out@ =~= out0 + enc_bytes(b@));
    }
}

/// Appends the canonical encoding of one input, with its signature either
/// kept or encoded as empty.
fn push_input(out: &mut Vec<u8>, inp: &TxInput, include_sig: bool)
    ensures
        include_sig ==> final(out)@ == old(out)@ + enc_input(inp@),
        !include_sig ==> final(out)@ == old(out)@ + enc_input(cleared_input(inp@)),
{
    let ghost out0 = out@;
    push_slice(out, inp.prev_tx.as_slice());
    push_u32(out, inp.output_index);
    push_len_bytes(out, &inp.pubkey);
    if include_sig {
        push_len_bytes(out, &inp.signature);
        proof {
            assert(out@ =~= out0 + enc_input(inp@));
        }
    } else {
        push_u64(out, 0);
        proof {
            assert(enc_bytes(Seq::<u8>::empty()) =~= spec_u64_to_le_bytes(0) + Seq::<u8>::empty());
            assert(out@ =~= out0 + enc_input(cleared_input(inp@)));
        }
    }
}

/// The canonical encoding of `tx`, signatures either kept or emptied.
fn encode_tx_inner(tx: &Transaction, include_sigs: bool) -> (r: Vec<u8>)
    ensures
        include_sigs ==> r@ == enc_tx(tx@),
        !include_sigs ==> r@ == enc_tx(cleared(tx@)),
{
    let ghost target = if include_sigs { enc_tx(tx@) } else { enc_tx(cleared(tx@)) };
    let ghost insv = if include_sigs { tx@.inputs } else { cleared(tx@).inputs };
    let ghost outsv = tx@.outputs;
    let mut out: Vec<u8> = Vec::new();
    push_u64(&mut out, tx.inputs.len() as u64);
    let mut i: usize = 0;
    proof {
        assert(insv.len() == tx.inputs@.len());
    }
    while i < tx.inputs.len()
        invariant
            i <= tx.inputs@.len(),
            insv == if include_sigs { tx@.inputs } else { cleared(tx@).inputs },
            insv.len() == tx.inputs@.len(),
            out@ + enc_inputs_from(insv, i as int)
                == spec_u64_to_le_bytes(tx.inputs@.len() as u64) + enc_inputs_from(insv, 0),
        decreases tx.inputs@.len() - i,
    {
        let ghost prev = out@;
        push_input(&mut out, &tx.inputs[i], include_sigs);
        proof {
            assert(enc_inputs_from(insv, i as int)
                == enc_input(insv[i as int]) + enc_inputs_from(insv, i + 1));
            assert((prev + enc_input(insv[i as int])) + enc_inputs_from(insv, i + 1)
                =~= prev + (enc_input(insv[i as int]) + enc_inputs_from(insv, i + 1)));
        }
        i += 1;
    }
    proof {
        assert(enc_inputs_from(insv, insv.len() as int) =~= Seq::<u8>::empty());
        assert(out@ + Seq::<u8>::empty() =~= out@);
    }
    let ghost after_inputs = out@;
    push_u64(&mut out, tx.outputs.len() as u64);
    let mut j: usize = 0;
    while j < tx.outputs.len()
        invariant
            j <= tx.outputs@.len(),
            outsv == tx@.outputs,
            outsv.len() == tx.outputs@.len(),
            out@ + enc_outputs_from(outsv, j as int)
                == after_inputs + spec_u64_to_le_bytes(tx.outputs@.len() as u64)
                    + enc_outputs_from(outsv, 0),
        decreases tx.outputs@.len() - j,
    {
        let ghost prev = out@;
        let o = &tx.outputs[j];
        push_u64(&mut out, o.value);
        push_len_bytes(&mut out, &o.pubkey_hash);
        proof {
            assert(enc_outputs_from(outsv, j as int)
                == enc_output(outsv[j as int]) + enc_outputs_from(outsv, j + 1));
            assert(out@ =~= prev + enc_output(outsv[j as int]));
            assert((prev + enc_output(outsv[j as int])) + enc_outputs_from(outsv, j + 1)
                =~= prev + (enc_output(outsv[j as int]) + enc_outputs_from(outsv, j + 1)));
        }
        j += 1;
    }
    proof {
        assert(enc_outputs_from(outsv, outsv.len() as int) =~= Seq::<u8>::empty());
        assert(out@ + Seq::<u8>::empty() =~= out@);
    }
    let ghost after_outputs = out@;
    match &tx.metadata {
        None => {
            out.push(0u8);
            proof {
                assert(out@ =~= after_outputs + enc_meta(tx@.metadata));
            }
        },
        Some(m) => {
            out.push(1u8);
            push_len_bytes(&mut out, m);
            proof {
                assert(out@ =~= after_outputs + enc_meta(tx@.metadata));
            }
        },
    }
    proof {
        assert(cleared(tx@).metadata == tx@.metadata);
        assert(cleared(tx@).outputs == tx@.outputs);
        assert(cleared(tx@).inputs.len() == tx@.inputs.len());
        assert(out@ =~= target);
    }
    out
}

/// The full canonical encoding of `tx`, signatures included.
pub fn encode_tx(tx: &Transaction) -> (r: Vec<u8>)
    ensures
        r@ == enc_tx(tx@),
{
    encode_tx_inner(tx, true)
}

/// The canonical encoding of `tx` with every signature emptied: the bytes
/// whose digest is the signing message.
pub fn encode_tx_cleared(tx: &Transaction) -> (r: Vec<u8>)
    ensures
        r@ == enc_tx(cleared(tx@)),
{
    encode_tx_inner(tx, false)
}

/// The canonical encoding of a block header.
pub fn encode_header(h: &BlockHeader) -> (r: Vec<u8>)
    ensures
        r@ == enc_header(h@),
{
    let mut out: Vec<u8> = Vec::new();
    push_u64(&mut out, h.index);
    push_u64(&mut out, h.timestamp);
    push_slice(&mut out, h.prev_hash.as_slice());
    push_slice(&mut out, h.merkle_root.as_slice());
    push_u64(&mut out, h.nonce);
    push_u32(&mut out, h.difficulty);
    proof {
        assert(out@ =~= enc_header(h@));
    }
    out
}


proof fn lemma_header_fields(h: BlockHeaderV)
    requires
        h.prev_hash.len() == 32,
        h.merkle_root.len() == 32,
    ensures
        enc_header(h).subrange(0, 8) == spec_u64_to_le_bytes(h.index),
        enc_header(h).subrange(8, 16) == spec_u64_to_le_bytes(h.timestamp),
        enc_header(h).subrange(16, 48) == h.prev_hash,
        enc_header(h).subrange(48, 80) == h.merkle_root,
        enc_header(h).subrange(80, 88) == spec_u64_to_le_bytes(h.nonce),
        enc_header(h).subrange(88, 92) == spec_u32_to_le_bytes(h.difficulty),
{
    vstd::bytes::lemma_auto_spec_u64_to_from_le_bytes();
    vstd::bytes::lemma_auto_spec_u32_to_from_le_bytes();
    let e = enc_header(h);
    assert(e.len() == 92);
    assert(e.subrange(0, 8) =~= spec_u64_to_le_bytes(h.index));
    assert(e.subrange(8, 16) =~= spec_u64_to_le_bytes(h.timestamp));
    assert(e.subrange(16, 48) =~= h.prev_hash);
    assert(e.subrange(48, 80) =~= h.merkle_root);
    assert(e.subrange(80, 88) =~= spec_u64_to_le_bytes(h.nonce));
    assert(e.subrange(88, 92) =~= spec_u32_to_le_bytes(h.difficulty));
}

/// The canonical header encoding is injective: headers that encode to the
/// same bytes agree on every field, so two distinct headers (for example,
/// two nonces) never share an encoding. That distinct encodings also give
/// distinct digests is the hash function's collision resistance, which no
/// contract here states.
pub proof fn lemma_header_encoding_injective(a: BlockHeaderV, b: BlockHeaderV)
    requires
        a.prev_hash.len() == 32,
        b.prev_hash.len() == 32,
        a.merkle_root.len() == 32,
        b.merkle_root.len() == 32,
        enc_header(a) == enc_header(b),
    ensures
        a == b,
{
    vstd::bytes::lemma_auto_spec_u64_to_from_le_bytes();
    vstd::bytes::lemma_auto_spec_u32_to_from_le_bytes();
    lemma_header_fields(a);
    lemma_header_fields(b);
    assert(spec_u64_to_le_bytes(a.index) == spec_u64_to_le_bytes(b.index));
    assert(a.index == vstd::bytes::spec_u64_from_le_bytes(spec_u64_to_le_bytes(a.index)));
    assert(a.index == b.index);
    assert(spec_u64_to_le_bytes(a.timestamp) == spec_u64_to_le_bytes(b.timestamp));
    assert(a.timestamp == vstd::bytes::spec_u64_from_le_bytes(spec_u64_to_le_bytes(a.timestamp)));
    assert(a.timestamp == b.timestamp);
    assert(a.prev_hash == b.prev_hash);
    assert(a.merkle_root == b.merkle_root);
    assert(spec_u64_to_le_bytes(a.nonce) == spec_u64_to_le_bytes(b.nonce));
    assert(a.nonce == vstd::bytes::spec_u64_from_le_bytes(spec_u64_to_le_bytes(a.nonce)));
    assert(a.nonce == b.nonce);
    assert(spec_u32_to_le_bytes(a.difficulty) == spec_u32_to_le_bytes(b.difficulty));
    assert(a.difficulty == vstd::bytes::spec_u32_from_le_bytes(spec_u32_to_le_bytes(a.difficulty)));
    assert(a.difficulty == b.difficulty);
    assert(a =~= b);
}

} // verus!

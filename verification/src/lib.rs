//! Core of a minimal blockchain: canonical hashing, the block and
//! transaction data model, the proof-of-work predicate, a reference miner,
//! and the UTXO ledger state machine.
//!
//! Every value's identity is its canonical hash: the first 32 bytes of a
//! Blake2b-512 digest over a deterministic byte encoding (fixed field order,
//! fixed-width little-endian integers, explicit length prefixes). Two
//! implementations given semantically identical records must produce
//! byte-identical encodings and therefore identical hashes.

use vstd::prelude::*;

mod block_ext;
pub mod config;
mod crypto;
pub mod encoding;
pub mod error;
pub mod ledger;
pub mod pow;

verus! {

/// A 256-bit content-addressing digest: the first 32 bytes of a Blake2b-512
/// digest over a canonical byte encoding.
pub type Hash = [u8; 32];

/// Relies on std::time::SystemTime: the current wall-clock time in seconds
/// since the Unix epoch, or 0 when the clock reads earlier than the epoch.
/// Nothing is promised of the value.
#[verifier::external_body]
fn now_ts() -> u64 {
    match std::time::SystemTime::now().duration_since(std::time::UNIX_EPOCH) {
        Ok(d) => d.as_secs(),
        Err(_) => 0,
    }
}

/// Byte-wise equality of two 32-byte hashes.
pub(crate) fn hash_eq(a: &Hash, b: &Hash) -> (r: bool)
    ensures
        r == (a@ == b@),
{
    let mut i: usize = 0;
    while i < 32
        invariant
            i <= 32,
            forall|j: int| 0 <= j < i ==> a@[j] == b@[j],
        decreases 32 - i,
    {
        if a[i] != b[i] {
            return false;
        }
        i += 1;
    }
    proof {
        assert(a@ =~= b@);
    }
    true
}

/// Byte-wise equality of two byte strings.
pub(crate) fn bytes_eq(a: &[u8], b: &[u8]) -> (r: bool)
    ensures
        r == (a@ == b@),
{
    if a.len() != b.len() {
        return false;
    }
    let mut i: usize = 0;
    while i < a.len()
        invariant
            a@.len() == b@.len(),
            i <= a@.len(),
            forall|j: int| 0 <= j < i ==> a@[j] == b@[j],
        decreases a@.len() - i,
    {
        if *vstd::slice::slice_index_get(a, i) != *vstd::slice::slice_index_get(b, i) {
            return false;
        }
        i += 1;
    }
    proof {
        assert(a@ =~= b@);
    }
    true
}

/// A reference to a previous unspent transaction output (UTXO) being spent:
/// `prev_tx` identifies the transaction that created the output and
/// `output_index` its position in that transaction's outputs. `pubkey` and
/// `signature` authorize the spend.
#[derive(Debug, Clone)]
pub struct TxInput {
    pub prev_tx: Hash,
    pub output_index: u32,
    pub pubkey: Vec<u8>,
    pub signature: Vec<u8>,
}

/// Mathematical image of a [`TxInput`].
pub ghost struct TxInputV {
    pub prev_tx: Seq<u8>,
    pub output_index: u32,
    pub pubkey: Seq<u8>,
    pub signature: Seq<u8>,
}

impl View for TxInput {
    type V = TxInputV;

    open spec fn view(&self) -> TxInputV {
        TxInputV {
            prev_tx: self.prev_tx@,
            output_index: self.output_index,
            pubkey: self.pubkey@,
            signature: self.signature@,
        }
    }
}

/// A newly created spendable output: an amount bound to the hash of the
/// recipient's public key.
#[derive(Debug, Clone)]
pub struct TxOutput {
    pub value: u64,
    pub pubkey_hash: Vec<u8>,
}

/// Mathematical image of a [`TxOutput`].
pub ghost struct TxOutputV {
    pub value: u64,
    pub pubkey_hash: Seq<u8>,
}

impl View for TxOutput {
    type V = TxOutputV;

    open spec fn view(&self) -> TxOutputV {
        TxOutputV { value: self.value, pubkey_hash: self.pubkey_hash@ }
    }
}

/// A transfer of value: destroys the UTXOs referenced by its inputs and
/// creates its outputs. A transaction with no inputs is a coinbase (a mint).
#[derive(Debug, Clone)]
pub struct Transaction {
    pub inputs: Vec<TxInput>,
    pub outputs: Vec<TxOutput>,
    pub metadata: Option<Vec<u8>>,
}

/// Mathematical image of a [`Transaction`].
pub ghost struct TransactionV {
    pub inputs: Seq<TxInputV>,
    pub outputs: Seq<TxOutputV>,
    pub metadata: Option<Seq<u8>>,
}

impl View for Transaction {
    type V = TransactionV;

    open spec fn view(&self) -> TransactionV {
        TransactionV {
            inputs: self.inputs@.map_values(|x: TxInput| x@),
            outputs: self.outputs@.map_values(|x: TxOutput| x@),
            metadata: match self.metadata {
                Some(m) => Some(m@),
                None => None,
            },
        }
    }
}

/// The portion of a block that is hashed for proof-of-work. `index` is the
/// 1-based height; `prev_hash` is all zeros for genesis; `merkle_root` binds
/// the transaction list; `nonce` is searched during mining until the header
/// hash satisfies `difficulty` leading zero bits.
#[derive(Debug, Clone)]
#[verifier::ext_equal]
pub struct BlockHeader {
    pub index: u64,
    pub timestamp: u64,
    pub prev_hash: Hash,
    pub merkle_root: Hash,
    pub nonce: u64,
    pub difficulty: u32,
}

/// Mathematical image of a [`BlockHeader`].
#[verifier::ext_equal]
pub ghost struct BlockHeaderV {
    pub index: u64,
    pub timestamp: u64,
    pub prev_hash: Seq<u8>,
    pub merkle_root: Seq<u8>,
    pub nonce: u64,
    pub difficulty: u32,
}

impl View for BlockHeader {
    type V = BlockHeaderV;

    open spec fn view(&self) -> BlockHeaderV {
        BlockHeaderV {
            index: self.index,
            timestamp: self.timestamp,
            prev_hash: self.prev_hash@,
            merkle_root: self.merkle_root@,
            nonce: self.nonce,
            difficulty: self.difficulty,
        }
    }
}

/// An ordered list of transactions plus a header linking it into the chain.
/// The first transaction must be the coinbase.
#[derive(Debug, Clone)]
#[verifier::ext_equal]
pub struct Block {
    pub header: BlockHeader,
    pub transactions: Vec<Transaction>,
}

/// Mathematical image of a [`Block`].
pub ghost struct BlockV {
    pub header: BlockHeaderV,
    pub transactions: Seq<TransactionV>,
}

impl View for Block {
    type V = BlockV;

    open spec fn view(&self) -> BlockV {
        BlockV {
            header: self.header@,
            transactions: crate::encoding::txs_view(self.transactions@),
        }
    }
}

impl Transaction {
    /// The transaction identity: the canonical digest of the full encoded
    /// content as it currently stands, including whatever signature bytes
    /// are present.
    pub fn hash(&self) -> (r: Hash)
        ensures
            r@ == crate::encoding::tx_hash_of(self@),
    {
        let encoded = crate::encoding::encode_tx(self);
        crate::crypto::digest32(encoded.as_slice())
    }

    /// The message each input signs: the canonical digest of the
    /// transaction's encoding with every input's signature emptied. All
    /// inputs of one transaction sign this same message.
    pub fn signing_message(&self) -> (r: Hash)
        ensures
            r@ == crate::encoding::signing_message_of(self@),
    {
        let encoded = crate::encoding::encode_tx_cleared(self);
        crate::crypto::digest32(encoded.as_slice())
    }
}

impl Block {
    /// Constructs a block with a freshly computed Merkle root, the current
    /// wall-clock timestamp, and `nonce` 0. Mining is a separate step.
    pub fn new(index: u64, prev_hash: Hash, transactions: Vec<Transaction>, difficulty: u32) -> (r: Self)
        ensures
            r.header.index == index,
            r.header.prev_hash@ == prev_hash@,
            r.header.merkle_root@ == crate::encoding::merkle_root_of(
                crate::encoding::txs_view(transactions@),
            ),
            r.header.nonce == 0,
            r.header.difficulty == difficulty,
            r.transactions@ == transactions@,
    {
        let merkle_root = Self::calc_merkle_root(transactions.as_slice());
        Self {
            header: BlockHeader {
                index,
                timestamp: now_ts(),
                prev_hash,
                merkle_root,
                nonce: 0,
                difficulty,
            },
            transactions,
        }
    }

    /// The Merkle aggregate of `txs`: the canonical digest of the
    /// concatenation, in order, of each transaction's hash. A sequential
    /// hash-chain, not a tree.
    pub fn calc_merkle_root(txs: &[Transaction]) -> (r: Hash)
        ensures
            r@ == crate::encoding::merkle_root_of(crate::encoding::txs_view(txs@)),
    {
        let mut buf: Vec<u8> = Vec::new();
        let ghost txsv = crate::encoding::txs_view(txs@);
        let mut i: usize = 0;
        while i < txs.len()
            invariant
                i <= txs@.len(),
                txsv == crate::encoding::txs_view(txs@),
                buf@ + crate::encoding::merkle_input_from(txsv, i as int)
                    == crate::encoding::merkle_input_from(txsv, 0),
            decreases txs@.len() - i,
        {
            let ghost buf0 = buf@;
            let tx = vstd::slice::slice_index_get(txs, i);
            let h = tx.hash();
            crate::encoding::push_slice(&mut buf, h.as_slice());
            proof {
                assert((buf0 + h@) + crate::encoding::merkle_input_from(txsv, i + 1)
                    =~= buf0 + (h@ + crate::encoding::merkle_input_from(txsv, i + 1)));
            }
            i += 1;
        }
        proof {
            assert(crate::encoding::merkle_input_from(txsv, txsv.len() as int) =~= Seq::<u8>::empty());
            assert(buf@ + Seq::<u8>::empty() =~= buf@);
        }
        crate::crypto::digest32(buf.as_slice())
    }

    /// The block identity and proof-of-work input: the canonical digest of
    /// the header alone. Transactions are bound in only via `merkle_root`.
    pub fn hash(&self) -> (r: Hash)
        ensures
            r@ == crate::encoding::header_hash_of(self.header@),
    {
        let encoded = crate::encoding::encode_header(&self.header);
        crate::crypto::digest32(encoded.as_slice())
    }
}

} // verus!

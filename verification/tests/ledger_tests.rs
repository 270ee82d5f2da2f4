use obscura_core::error::Error;
use obscura_core::ledger::Ledger;
use obscura_core::pow;
use obscura_core::Block;

use obscura_core::Transaction;
use obscura_core::TxInput;
use obscura_core::TxOutput;

fn zeros_hash() -> obscura_core::Hash {
    [0u8; 32]
}

fn coinbase_to(pkh: Vec<u8>, value: u64) -> Transaction {
    Transaction {
        inputs: vec![],
        outputs: vec![TxOutput { value, pubkey_hash: pkh }],
        metadata: None,
    }
}

fn genesis_ledger(pkh: Vec<u8>, value: u64) -> (Ledger, Transaction) {
    let coinbase = coinbase_to(pkh, value);
    let genesis = Block::new(1, zeros_hash(), vec![coinbase.clone()], 0);
    let ledger = Ledger::new(&genesis).expect("create ledger");
    (ledger, coinbase)
}

/// An unsigned spend of one prior output into the given outputs.
fn spend(prev_tx: obscura_core::Hash, output_index: u32, outputs: Vec<TxOutput>) -> Transaction {
    Transaction {
        inputs: vec![TxInput {
            prev_tx,
            output_index,
            pubkey: vec![],
            signature: vec![],
        }],
        outputs,
        metadata: None,
    }
}

#[test]
fn genesis_sets_height_and_tip() {
    let genesis = Block::new(1, zeros_hash(), vec![coinbase_to(vec![7, 7, 7], 50)], 0);
    let ledger = Ledger::new(&genesis).expect("create ledger");
    assert_eq!(ledger.height, 1);
    assert_eq!(ledger.tip, genesis.hash());
    assert_eq!(ledger.balance_for_pubkey_hash(&[7, 7, 7]), 50);
}

#[test]
fn non_sequential_height_rejected() {
    let (mut ledger, coinbase) = genesis_ledger(vec![1], 50);
    let tx = spend(coinbase.hash(), 0, vec![TxOutput { value: 50, pubkey_hash: vec![2] }]);
    let block = Block::new(5, ledger.tip, vec![tx], 0);
    assert_eq!(ledger.apply_block(&block), Err(Error::NonSequentialHeight));
    // state unchanged
    assert_eq!(ledger.height, 1);
    assert_eq!(ledger.balance_for_pubkey_hash(&[1]), 50);
}

#[test]
fn prev_hash_mismatch_rejected() {
    let (mut ledger, coinbase) = genesis_ledger(vec![1], 50);
    let tx = spend(coinbase.hash(), 0, vec![TxOutput { value: 50, pubkey_hash: vec![2] }]);
    let block = Block::new(2, [9u8; 32], vec![tx], 0);
    assert_eq!(ledger.apply_block(&block), Err(Error::PrevHashMismatch));
    assert_eq!(ledger.height, 1);
}

#[test]
fn missing_utxo_rejected() {
    let (mut ledger, _) = genesis_ledger(vec![1], 50);
    let tx = spend([3u8; 32], 0, vec![TxOutput { value: 1, pubkey_hash: vec![2] }]);
    let block = Block::new(2, ledger.tip, vec![coinbase_to(vec![9], 1), tx], 0);
    assert_eq!(ledger.apply_block(&block), Err(Error::MissingUtxo));
    assert_eq!(ledger.height, 1);
    assert_eq!(ledger.balance_for_pubkey_hash(&[1]), 50);
}

#[test]
fn in_block_double_spend_rejected() {
    let (mut ledger, coinbase) = genesis_ledger(vec![1], 50);
    let tx1 = spend(coinbase.hash(), 0, vec![TxOutput { value: 50, pubkey_hash: vec![2] }]);
    let tx2 = spend(coinbase.hash(), 0, vec![TxOutput { value: 50, pubkey_hash: vec![3] }]);
    let block = Block::new(2, ledger.tip, vec![tx1, tx2], 0);
    assert_eq!(ledger.apply_block(&block), Err(Error::DoubleSpend));
    // state unchanged: the first spend was not committed either
    assert_eq!(ledger.height, 1);
    assert_eq!(ledger.balance_for_pubkey_hash(&[1]), 50);
    assert_eq!(ledger.balance_for_pubkey_hash(&[2]), 0);
}

#[test]
fn value_overflow_rejected() {
    let (mut ledger, coinbase) = genesis_ledger(vec![1], 50);
    let tx = spend(coinbase.hash(), 0, vec![TxOutput { value: 60, pubkey_hash: vec![2] }]);
    let block = Block::new(2, ledger.tip, vec![coinbase_to(vec![9], 1), tx], 0);
    assert_eq!(ledger.apply_block(&block), Err(Error::ValueOverflow));
    assert_eq!(ledger.balance_for_pubkey_hash(&[1]), 50);
}

#[test]
fn equal_sums_succeed_with_zero_fee() {
    let (mut ledger, coinbase) = genesis_ledger(vec![1], 50);
    let tx = spend(
        coinbase.hash(),
        0,
        vec![
            TxOutput { value: 20, pubkey_hash: vec![2] },
            TxOutput { value: 30, pubkey_hash: vec![3] },
        ],
    );
    let block = Block::new(2, ledger.tip, vec![coinbase_to(vec![9], 1), tx], 0);
    assert_eq!(ledger.apply_block(&block), Ok(()));
    assert_eq!(ledger.height, 2);
    assert_eq!(ledger.balance_for_pubkey_hash(&[1]), 0);
    assert_eq!(ledger.balance_for_pubkey_hash(&[2]), 20);
    assert_eq!(ledger.balance_for_pubkey_hash(&[3]), 30);
    assert_eq!(ledger.balance_for_pubkey_hash(&[9]), 1);
}

#[test]
fn bad_signature_rejected() {
    let (mut ledger, coinbase) = genesis_ledger(vec![1], 50);
    let mut tx = spend(coinbase.hash(), 0, vec![TxOutput { value: 50, pubkey_hash: vec![2] }]);
    // a non-empty signature must verify; garbage bytes do not
    tx.inputs[0].pubkey = vec![0xAB; 32];
    tx.inputs[0].signature = vec![0xCD; 64];
    let block = Block::new(2, ledger.tip, vec![coinbase_to(vec![9], 1), tx], 0);
    assert_eq!(ledger.apply_block(&block), Err(Error::BadSignature));
    assert_eq!(ledger.balance_for_pubkey_hash(&[1]), 50);
}

#[test]
fn spending_output_created_in_same_block_is_rejected() {
    // validation reads the immutable pre-block state, so a transaction
    // cannot spend an output that another transaction of the same block
    // creates
    let (mut ledger, coinbase) = genesis_ledger(vec![1], 50);
    let tx1 = spend(coinbase.hash(), 0, vec![TxOutput { value: 50, pubkey_hash: vec![2] }]);
    let tx2 = spend(tx1.hash(), 0, vec![TxOutput { value: 50, pubkey_hash: vec![3] }]);
    let block = Block::new(2, ledger.tip, vec![tx1, tx2], 0);
    assert_eq!(ledger.apply_block(&block), Err(Error::MissingUtxo));
    assert_eq!(ledger.height, 1);
}

#[test]
fn balance_sums_multiple_outputs() {
    let coinbase = Transaction {
        inputs: vec![],
        outputs: vec![
            TxOutput { value: 30, pubkey_hash: vec![1] },
            TxOutput { value: 50, pubkey_hash: vec![1] },
            TxOutput { value: 7, pubkey_hash: vec![2] },
        ],
        metadata: None,
    };
    let genesis = Block::new(1, zeros_hash(), vec![coinbase], 0);
    let ledger = Ledger::new(&genesis).expect("create ledger");
    assert_eq!(ledger.balance_for_pubkey_hash(&[1]), 80);
    assert_eq!(ledger.balance_for_pubkey_hash(&[2]), 7);
    assert_eq!(ledger.balance_for_pubkey_hash(&[9]), 0);
}

#[test]
fn block_is_valid_checks_linkage_root_and_pow() {
    let coinbase = coinbase_to(vec![1], 50);
    let block = Block::new(1, zeros_hash(), vec![coinbase], 8).mine();
    assert!(block.is_valid(&zeros_hash()));
    assert!(!block.is_valid(&[5u8; 32]));
    let mut tampered = block.clone();
    tampered.header.merkle_root = [6u8; 32];
    assert!(!tampered.is_valid(&zeros_hash()));
}

#[test]
fn tip_is_header_hash_of_applied_block() {
    let (mut ledger, coinbase) = genesis_ledger(vec![1], 50);
    let tx = spend(coinbase.hash(), 0, vec![TxOutput { value: 50, pubkey_hash: vec![2] }]);
    let block = Block::new(2, ledger.tip, vec![tx], 0);
    ledger.apply_block(&block).expect("apply");
    assert_eq!(ledger.tip, block.hash());
}

#[test]
fn balance_saturates_instead_of_wrapping() {
    let (mut ledger, _) = genesis_ledger(vec![1], u64::MAX);
    // a second mint to the same key, distinct from the first coinbase
    let extra = Transaction {
        inputs: vec![],
        outputs: vec![TxOutput { value: 5, pubkey_hash: vec![1] }],
        metadata: Some(vec![2]),
    };
    let block = Block::new(2, ledger.tip, vec![extra], 0);
    assert_eq!(ledger.apply_block(&block), Ok(()));
    assert_eq!(ledger.balance_for_pubkey_hash(&[1]), u64::MAX);
}

#[test]
fn identical_transaction_reuses_its_key() {
    // a byte-identical coinbase has the identical hash, so its output lands
    // under the same key and replaces the earlier entry
    let (mut ledger, coinbase) = genesis_ledger(vec![1], 50);
    let block = Block::new(2, ledger.tip, vec![coinbase], 0);
    assert_eq!(ledger.apply_block(&block), Ok(()));
    assert_eq!(ledger.balance_for_pubkey_hash(&[1]), 50);
}

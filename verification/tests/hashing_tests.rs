use obscura_core::pow;
use obscura_core::Block;
use obscura_core::Transaction;
use obscura_core::TxOutput;

fn sample_tx(value: u64) -> Transaction {
    Transaction {
        inputs: vec![],
        outputs: vec![TxOutput { value, pubkey_hash: vec![1, 2, 3] }],
        metadata: Some(vec![9, 9]),
    }
}

#[test]
fn canonical_hash_is_deterministic() {
    let a = sample_tx(50);
    let b = sample_tx(50);
    assert_eq!(a.hash(), b.hash());
    assert_eq!(a.signing_message(), b.signing_message());
    let block1 = Block::new(1, [0u8; 32], vec![sample_tx(50)], 0);
    assert_eq!(block1.hash(), block1.hash());
}

#[test]
fn changing_a_field_changes_the_hash() {
    let a = sample_tx(50);
    let b = sample_tx(51);
    assert_ne!(a.hash(), b.hash());

    let block = Block::new(1, [0u8; 32], vec![sample_tx(50)], 0);
    let mut other = block.clone();
    other.header.nonce = 1;
    assert_ne!(block.hash(), other.hash());
}

#[test]
fn merkle_root_binds_transactions() {
    let root_one = Block::calc_merkle_root(&[sample_tx(50)]);
    let root_other = Block::calc_merkle_root(&[sample_tx(51)]);
    let root_two = Block::calc_merkle_root(&[sample_tx(50), sample_tx(51)]);
    assert_ne!(root_one, root_other);
    assert_ne!(root_one, root_two);
}

#[test]
fn boundary_difficulty_counts_exact_zero_bits() {
    // exactly 12 leading zero bits: one zero byte, then 0000_1000
    let h12 = {
        let mut h = [0xFFu8; 32];
        h[0] = 0x00;
        h[1] = 0x08;
        h
    };
    assert!(pow::hash_meets_difficulty(&h12, 12));
    assert!(!pow::hash_meets_difficulty(&h12, 13));

    // exactly 11 leading zero bits fails a 12-bit target
    let h11 = {
        let mut h = [0xFFu8; 32];
        h[0] = 0x00;
        h[1] = 0x10;
        h
    };
    assert!(pow::hash_meets_difficulty(&h11, 11));
    assert!(!pow::hash_meets_difficulty(&h11, 12));

    // exactly 8 leading zero bits around a byte boundary
    let h8 = {
        let mut h = [0xFFu8; 32];
        h[0] = 0x00;
        h
    };
    assert!(pow::hash_meets_difficulty(&h8, 8));
    assert!(!pow::hash_meets_difficulty(&h8, 9));

    // the all-zero hash meets the maximum target
    assert!(pow::hash_meets_difficulty(&[0u8; 32], 256));
}

#[test]
fn mining_zero_difficulty_leaves_nonce_unchanged() {
    let block = Block::new(1, [0u8; 32], vec![sample_tx(50)], 0);
    let mined = block.mine();
    assert_eq!(mined.header.nonce, 0);
}

#[test]
fn mining_difficulty_eight_zeroes_first_byte() {
    let block = Block::new(1, [0u8; 32], vec![sample_tx(50)], 8);
    let mined = block.mine();
    assert_eq!(mined.hash()[0], 0x00);
}

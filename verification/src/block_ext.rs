//! Consensus helpers on whole blocks: structural validity and the
//! reference miner.

use vstd::prelude::*;

verus! {

use crate::Block;
use crate::BlockHeaderV;
use crate::encoding::header_hash_of;
use crate::encoding::merkle_root_of;
use crate::encoding::txs_view;
use crate::pow::spec_meets_difficulty;

/// The header with its nonce replaced: the family of candidates the miner
/// searches.
pub open spec fn with_nonce(h: BlockHeaderV, n: u64) -> BlockHeaderV {
    BlockHeaderV {
        index: h.index,
        timestamp: h.timestamp,
        prev_hash: h.prev_hash,
        merkle_root: h.merkle_root,
        nonce: n,
        difficulty: h.difficulty,
    }
}

impl Block {
    /// Whether the block links to `expected_prev`, declares the Merkle root
    /// recomputed from its transactions, and has a header hash meeting its
    /// own difficulty.
    pub fn is_valid(&self, expected_prev: &crate::Hash) -> (r: bool)
        requires
            self.header.difficulty <= 256,
        ensures
            r == (self.header.prev_hash@ == expected_prev@
                && self.header.merkle_root@ == merkle_root_of(txs_view(self.transactions@))
                && spec_meets_difficulty(header_hash_of(self.header@), self.header.difficulty)),
    {
        let prev_ok = crate::hash_eq(&self.header.prev_hash, expected_prev);
        if !prev_ok {
            return false;
        }
        let root = Self::calc_merkle_root(self.transactions.as_slice());
        let root_ok = crate::hash_eq(&root, &self.header.merkle_root);
        if !root_ok {
            return false;
        }
        let h = self.hash();
        crate::pow::hash_meets_difficulty(&h, self.header.difficulty)
    }

    /// The reference miner: starting from nonce 0, tries successive nonces
    /// until the header hash meets the block's own difficulty. Returns the
    /// block unchanged when difficulty is 0; returns after the full nonce
    /// space is exhausted in the (practically unreachable) case that no
    /// nonce satisfies the target.
    pub fn mine(self) -> (r: Block)
        requires
            self.header.difficulty <= 256,
            self.header.nonce == 0,
        ensures
            r.header@ == with_nonce(self.header@, r.header.nonce),
            r.transactions == self.transactions,
            spec_meets_difficulty(header_hash_of(r.header@), self.header.difficulty)
                || (forall|n: u64| !spec_meets_difficulty(
                    header_hash_of(with_nonce(self.header@, n)),
                    self.header.difficulty,
                )),
            self.header.difficulty == 0 ==> r == self,
    {
        let mut block = self;
        loop
            invariant
                self.header.nonce == 0,
                block.header.difficulty == self.header.difficulty <= 256,
                block.header.index == self.header.index,
                block.header.timestamp == self.header.timestamp,
                block.header.prev_hash == self.header.prev_hash,
                block.header.merkle_root == self.header.merkle_root,
                block.transactions == self.transactions,
                forall|n: u64| n < block.header.nonce ==> !spec_meets_difficulty(
                    header_hash_of(with_nonce(self.header@, n)),
                    self.header.difficulty,
                ),
            decreases u64::MAX - block.header.nonce,
        {
            proof {
                assert(block.header@ == with_nonce(self.header@, block.header.nonce));
            }
            let h = block.hash();
            if crate::pow::hash_meets_difficulty(&h, block.header.difficulty) {
                proof {
                    if self.header.difficulty == 0 {
                        // difficulty 0 is met by every nonce, so none can have failed
                        assert(spec_meets_difficulty(
                            header_hash_of(with_nonce(self.header@, 0)),
                            self.header.difficulty,
                        ));
                        assert(block.header.nonce == 0);
                        assert(block.header =~= self.header);
                        assert(block =~= self);
                    }
                }
                return block;
            }
            if block.header.nonce == u64::MAX {
                proof {
                    assert forall|n: u64| !spec_meets_difficulty(
                        header_hash_of(with_nonce(self.header@, n)),
                        self.header.difficulty,
                    ) by {
                        if n == u64::MAX {
                            assert(block.header@ == with_nonce(self.header@, n));
                        }
                    }
                }
                return block;
            }
            block.header.nonce = block.header.nonce + 1;
        }
    }
}

} // verus!

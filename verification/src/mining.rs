//! Mining on a ledger node: the pool is committed to a new block behind the
//! proof-of-work gate.

use crate::block::{is_genesis, Block};
use crate::chain::{chain_valid, lemma_valid_chain_extends};
use crate::error::NodeError;
use crate::ledger::{Transaction, TransactionBlockData};
use crate::node::BlockchainNode;
use crate::pow::{is_next_proof, qualifies, proof_of_work};
use crate::time::primitive_timestamp;
use vstd::prelude::*;

verus! {

/// The transaction that pays a miner: one unit from the network.
pub open spec fn is_reward(t: Transaction, miner: Seq<char>) -> bool {
    &&& t.from@ == "network"@
    &&& t.to@ == miner
    &&& t.amount == 1
}

/// Some 64-bit value qualifies as a proof after `previous`.
pub open spec fn has_next_proof(previous: u64) -> bool {
    exists|q: int| previous < q <= u64::MAX && #[trigger] qualifies(previous as int, q)
}

/// Why mining on this chain fails, if it does: the chain has no tip, the
/// tip's proof of work is zero, or the next proof or index does not fit in
/// 64 bits.
pub open spec fn mine_failure(chain: Seq<Block<TransactionBlockData>>) -> Option<NodeError> {
    if chain.len() == 0 {
        Some(NodeError::EmptyChain)
    } else if chain.last().data.proof_of_work == 0 {
        Some(NodeError::ZeroProof)
    } else if !has_next_proof(chain.last().data.proof_of_work) || chain.last().index == u64::MAX {
        Some(NodeError::Overflow)
    } else {
        None
    }
}

/// `block` commits `pool` for `miner` on top of `tip`: it follows the tip,
/// carries the next proof of work after the tip's, and holds the pool in
/// order with the miner's reward at the end.
pub open spec fn commits(
    block: Block<TransactionBlockData>,
    tip: Block<TransactionBlockData>,
    pool: Seq<Transaction>,
    miner: Seq<char>,
) -> bool {
    &&& tip.followed_by(block)
    &&& is_next_proof(tip.data.proof_of_work as int, block.data.proof_of_work as int)
    &&& block.data.transactions@.len() == pool.len() + 1
    &&& block.data.transactions@.drop_last() == pool
    &&& is_reward(block.data.transactions@.last(), miner)
}

/// A block that commits a pool holds every transaction of the pool once, in
/// the place it had in the pool, and besides them only the reward. So a
/// transaction that was pending when mining began is in the mined block, and
/// one that is submitted afterwards is not.
pub proof fn lemma_mined_block_holds_pool(
    block: Block<TransactionBlockData>,
    tip: Block<TransactionBlockData>,
    pool: Seq<Transaction>,
    miner: Seq<char>,
)
    requires
        commits(block, tip, pool, miner),
    ensures
        block.data.transactions@ == pool.push(block.data.transactions@.last()),
        forall|i: int| 0 <= i < pool.len() ==> block.data.transactions@[i] == pool[i],
        is_reward(block.data.transactions@[pool.len() as int], miner),
{
    let held = block.data.transactions@;
    assert(held =~= held.drop_last().push(held.last()));
    assert forall|i: int| 0 <= i < pool.len() implies held[i] == pool[i] by {
        assert(held.drop_last()[i] == held[i]);
    }
}

impl BlockchainNode<TransactionBlockData> {
    /// The first block of a ledger: no transactions, and a proof of work of
    /// one, so that every later proof has a non-zero predecessor.
    pub fn genesis_block() -> (b: Block<TransactionBlockData>)
        ensures
            is_genesis(b),
            b.data.proof_of_work == 1,
            b.data.transactions@ == Seq::<Transaction>::empty(),
            b.hash_valid(),
    {
        let data = TransactionBlockData { proof_of_work: 1, transactions: Vec::new() };
        Block::new(0, primitive_timestamp(), data, String::from_str("0"))
    }

    /// Mines a block: finds the next proof of work, pays the miner one unit
    /// from the network, moves the whole pool with that reward into a new
    /// block chained to the tip, and appends the block. The pool is empty
    /// afterwards: every transaction that was pending is in the new block and
    /// nowhere else. On failure the node is unchanged.
    pub fn mine(&mut self, miner_address: String) -> (r: Result<
        &Block<TransactionBlockData>,
        NodeError,
    >)
        ensures
            match r {
                Ok(block) => {
                    &&& mine_failure(old(self).blockchain@) is None
                    &&& commits(
                        *block,
                        old(self).blockchain@.last(),
                        old(self).transactions@,
                        miner_address@,
                    )
                    &&& final(self).blockchain@ == old(self).blockchain@.push(*block)
                    &&& final(self).transactions@ == Seq::<Transaction>::empty()
                    &&& final(self).peers == old(self).peers
                },
                Err(e) => {
                    &&& mine_failure(old(self).blockchain@) == Some(e)
                    &&& *final(self) == *old(self)
                },
            },
            chain_valid(old(self).blockchain@) ==> chain_valid(final(self).blockchain@),
            old(self).wf() ==> final(self).wf(),
    {
        let len = self.blockchain.len();
        if len == 0 {
            return Err(NodeError::EmptyChain);
        }
        let ghost tip = self.blockchain@.last();
        let last_proof = self.blockchain[len - 1].data.proof_of_work;
        let proof = match proof_of_work(last_proof) {
            Ok(q) => q,
            Err(e) => {
                return Err(e);
            },
        };
        assert(has_next_proof(last_proof)) by {
            assert(qualifies(last_proof as int, proof as int));
        }
        if self.blockchain[len - 1].index == u64::MAX {
            return Err(NodeError::Overflow);
        }
        let mut pool: Vec<Transaction> = Vec::new();
        core::mem::swap(&mut self.transactions, &mut pool);
        pool.push(
            Transaction { from: String::from_str("network"), to: miner_address, amount: 1 },
        );
        assert(pool@.drop_last() =~= old(self).transactions@);
        let new_block_data = TransactionBlockData { proof_of_work: proof, transactions: pool };
        let mined_block = self.blockchain[len - 1].next_block(new_block_data);
        proof {
            if chain_valid(self.blockchain@) {
                lemma_valid_chain_extends(self.blockchain@, mined_block);
            }
        }
        self.blockchain.push(mined_block);
        Ok(&self.blockchain[len])
    }
}

} // verus!

//! Chains of blocks and the predicate that admits them.

use crate::block::{is_genesis, Block};
use crate::wire::Encode;
use vstd::prelude::*;

verus! {

/// A chain is a list of blocks, the genesis block first.
pub type Blockchain<T> = Vec<Block<T>>;

/// `block` is chained to `previous`: it names the stored digest of
/// `previous`, and its own stored digest is the one its fields call for.
pub open spec fn linked<T: Encode>(previous: Block<T>, block: Block<T>) -> bool {
    block.previous_hash@ == previous.hash@ && block.hash_valid()
}

/// The chain is not empty, opens with a genesis block, and every later block
/// is chained to the one before it.
pub open spec fn chain_valid<T: Encode>(chain: Seq<Block<T>>) -> bool {
    &&& chain.len() > 0
    &&& is_genesis(chain[0])
    &&& forall|i: int| 0 < i < chain.len() ==> linked(#[trigger] chain[i - 1], chain[i])
}

/// The chain was grown block by block: it opens with a genesis block, and
/// every later block was made as the successor of the one before it.
pub open spec fn grown_from_genesis<T: Encode>(chain: Seq<Block<T>>) -> bool {
    &&& chain.len() > 0
    &&& is_genesis(chain[0])
    &&& forall|i: int| 0 < i < chain.len() ==> (#[trigger] chain[i - 1]).followed_by(chain[i])
}

/// Checks a chain from the front and stops at the first block that fails.
pub fn verify_chain<T: Encode>(chain: &Blockchain<T>) -> (ok: bool)
    ensures
        ok == chain_valid(chain@),
{
    if chain.len() == 0 {
        return false;
    }
    let first = &chain[0];
    if first.index != 0 || first.previous_hash != String::from_str("0") {
        return false;
    }
    let mut i: usize = 1;
    while i < chain.len()
        invariant
            1 <= i <= chain.len(),
            is_genesis(chain@[0]),
            forall|j: int| 0 < j < i ==> linked(#[trigger] chain@[j - 1], chain@[j]),
        decreases chain.len() - i,
    {
        let block = &chain[i];
        if !(block.previous_hash == chain[i - 1].hash && block.verify_hash()) {
            assert(!linked(chain@[i as int - 1], chain@[i as int]));
            return false;
        }
        i = i + 1;
    }
    true
}

/// A chain that was only ever extended by making successors verifies.
pub proof fn lemma_grown_chain_verifies<T: Encode>(chain: Seq<Block<T>>)
    requires
        grown_from_genesis(chain),
    ensures
        chain_valid(chain),
{
    assert forall|i: int| 0 < i < chain.len() implies linked(#[trigger] chain[i - 1], chain[i]) by {
        assert(chain[i - 1].followed_by(chain[i]));
    }
}

/// Appending the successor of the tip keeps a grown chain grown.
pub proof fn lemma_grown_chain_extends<T: Encode>(chain: Seq<Block<T>>, next: Block<T>)
    requires
        grown_from_genesis(chain),
        chain.last().followed_by(next),
    ensures
        grown_from_genesis(chain.push(next)),
{
    let longer = chain.push(next);
    assert forall|i: int| 0 < i < longer.len() implies (#[trigger] longer[i - 1]).followed_by(
        longer[i],
    ) by {
        if i < chain.len() {
            assert(chain[i - 1].followed_by(chain[i]));
        }
    }
}

/// Appending a block that is chained to the tip keeps a valid chain valid.
pub proof fn lemma_valid_chain_extends<T: Encode>(chain: Seq<Block<T>>, next: Block<T>)
    requires
        chain_valid(chain),
        linked(chain.last(), next),
    ensures
        chain_valid(chain.push(next)),
{
    let longer = chain.push(next);
    assert forall|i: int| 0 < i < longer.len() implies linked(#[trigger] longer[i - 1], longer[i]) by {
        if i < chain.len() {
            assert(linked(chain[i - 1], chain[i]));
        }
    }
}

/// A block after the first that is not chained to its predecessor spoils
/// every prefix of the chain that reaches it, the whole chain included.
pub proof fn lemma_broken_link_rejected<T: Encode>(chain: Seq<Block<T>>, i: int, n: int)
    requires
        0 < i < n <= chain.len(),
        !linked(chain[i - 1], chain[i]),
    ensures
        !chain_valid(chain.take(n)),
{
    let prefix = chain.take(n);
    assert(prefix[i - 1] == chain[i - 1]);
    assert(prefix[i] == chain[i]);
}

/// Replacing the stored digest of a block after the first by another text
/// makes a valid chain fail, in every prefix that reaches the block.
pub proof fn lemma_changed_hash_rejected<T: Encode>(
    chain: Seq<Block<T>>,
    i: int,
    n: int,
    hash: String,
)
    requires
        chain_valid(chain),
        0 < i < n <= chain.len(),
        hash@ != chain[i].hash@,
    ensures
        !chain_valid(chain.update(i, chain[i].with_hash(hash)).take(n)),
{
    let changed = chain[i].with_hash(hash);
    assert(linked(chain[i - 1], chain[i]));
    assert(changed.expected_hash() == chain[i].expected_hash());
    let mutated = chain.update(i, changed);
    assert(mutated[i] == changed);
    lemma_broken_link_rejected(mutated, i, n);
}

/// Replacing the predecessor digest named by a block after the first by
/// another text makes a valid chain fail, in every prefix that reaches the
/// block.
pub proof fn lemma_changed_previous_hash_rejected<T: Encode>(
    chain: Seq<Block<T>>,
    i: int,
    n: int,
    previous_hash: String,
)
    requires
        chain_valid(chain),
        0 < i < n <= chain.len(),
        previous_hash@ != chain[i].previous_hash@,
    ensures
        !chain_valid(chain.update(i, chain[i].with_previous_hash(previous_hash)).take(n)),
{
    let changed = chain[i].with_previous_hash(previous_hash);
    assert(linked(chain[i - 1], chain[i]));
    let mutated = chain.update(i, changed);
    assert(mutated[i] == changed);
    assert(mutated[i - 1] == chain[i - 1]);
    lemma_broken_link_rejected(mutated, i, n);
}

/// Replacing the payload of a block after the first makes a valid chain fail,
/// in every prefix that reaches the block, provided the digest tells the two
/// payloads apart.
pub proof fn lemma_changed_data_rejected<T: Encode>(chain: Seq<Block<T>>, i: int, n: int, data: T)
    requires
        chain_valid(chain),
        0 < i < n <= chain.len(),
        chain[i].with_data(data).expected_hash() != chain[i].expected_hash(),
    ensures
        !chain_valid(chain.update(i, chain[i].with_data(data)).take(n)),
{
    let changed = chain[i].with_data(data);
    assert(linked(chain[i - 1], chain[i]));
    let mutated = chain.update(i, changed);
    assert(mutated[i] == changed);
    lemma_broken_link_rejected(mutated, i, n);
}

/// A sample chain of ten text blocks, grown from a fresh genesis block.
pub fn blockchain() -> (chain: Blockchain<String>)
    ensures
        chain@.len() == 10,
        grown_from_genesis(chain@),
        chain_valid(chain@),
        forall|i: int| 0 <= i < 10 ==> (#[trigger] chain@[i]).index == i,
        forall|i: int| 0 < i < 10 ==> (#[trigger] chain@[i]).data@ == "some"@,
{
    let size: usize = 10;
    let mut chain: Blockchain<String> = Vec::with_capacity(size);
    chain.push(Block::genesis());
    let mut i: usize = 0;
    while i < size - 1
        invariant
            size == 10,
            i <= size - 1,
            chain@.len() == i + 1,
            grown_from_genesis(chain@),
            forall|j: int| 0 <= j <= i ==> (#[trigger] chain@[j]).index == j,
            forall|j: int| 0 < j <= i ==> (#[trigger] chain@[j]).data@ == "some"@,
        decreases size - 1 - i,
    {
        let next_block = chain[i].next_block(String::from_str("some"));
        proof {
            assert(chain@.last() == chain@[i as int]);
            lemma_grown_chain_extends(chain@, next_block);
        }
        chain.push(next_block);
        i = i + 1;
    }
    proof {
        lemma_grown_chain_verifies(chain@);
    }
    chain
}

} // verus!

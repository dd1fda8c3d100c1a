//! A node: the owner of a chain, a pool of pending transactions and a set of
//! peers.

use crate::block::{is_genesis, Block};
use crate::chain::{chain_valid, verify_chain, Blockchain};
use crate::ledger::{
    lemma_net_concat, lemma_turnover_concat, net, turnover, HasTransactions, Tally, Transaction,
};
use crate::wire::{texts, Encode};
use vstd::prelude::*;

verus! {

/// A node on the network. It answers requests and asks its peers.
#[derive(Debug, Clone)]
pub struct BlockchainNode<T> {
    /// The chain, genesis block first.
    pub blockchain: Blockchain<T>,
    /// The pool: transactions not yet committed to a block, oldest first.
    pub transactions: Vec<Transaction>,
    /// The addresses of the known peers, in the order in which they were
    /// learnt. No address occurs twice.
    pub peers: Vec<String>,
}

/// The peer list after learning of `peer`: unchanged where the address is
/// known, one longer where it is new.
pub open spec fn with_peer(peers: Seq<Seq<char>>, peer: Seq<char>) -> Seq<Seq<char>> {
    if peers.contains(peer) {
        peers
    } else {
        peers.push(peer)
    }
}

/// The peer list after learning of each of `more`, in order.
pub open spec fn with_peers(peers: Seq<Seq<char>>, more: Seq<Seq<char>>) -> Seq<Seq<char>>
    decreases more.len(),
{
    if more.len() == 0 {
        peers
    } else {
        with_peer(with_peers(peers, more.drop_last()), more.last())
    }
}

/// The transactions committed in the blocks of a chain, in chain order.
pub open spec fn chain_transactions<T: HasTransactions>(chain: Seq<Block<T>>) -> Seq<Transaction>
    decreases chain.len(),
{
    if chain.len() == 0 {
        Seq::empty()
    } else {
        chain_transactions(chain.drop_last()) + chain.last().data.committed()
    }
}

/// Every transaction that bears on a balance: those committed in the chain,
/// in chain order, then those pending in the pool.
pub open spec fn ledger<T: HasTransactions>(
    chain: Seq<Block<T>>,
    pool: Seq<Transaction>,
) -> Seq<Transaction> {
    chain_transactions(chain) + pool
}

/// Learning of a peer adds its address to the set of known addresses and
/// removes none; it never makes an address occur twice, and it keeps the
/// addresses known before in their places.
pub proof fn lemma_with_peer(peers: Seq<Seq<char>>, peer: Seq<char>)
    ensures
        with_peer(peers, peer).to_set() == peers.to_set().insert(peer),
        peers.no_duplicates() ==> with_peer(peers, peer).no_duplicates(),
        peers.is_prefix_of(with_peer(peers, peer)),
{
    let after = with_peer(peers, peer);
    assert forall|a: Seq<char>| after.to_set().contains(a) <==> peers.to_set().insert(peer).contains(
        a,
    ) by {
        if peers.contains(peer) {
        } else {
            if after.contains(a) {
                let i = choose|i: int| 0 <= i < after.len() && after[i] == a;
                if i < peers.len() {
                    assert(peers[i] == a);
                }
            }
            if peers.contains(a) {
                let i = choose|i: int| 0 <= i < peers.len() && peers[i] == a;
                assert(after[i] == a);
            }
            assert(after[peers.len() as int] == peer);
        }
    }
    assert(after.to_set() =~= peers.to_set().insert(peer));
}

/// Learning of several peers adds exactly their addresses to the set of known
/// addresses; it never makes an address occur twice, and it keeps the
/// addresses known before in their places.
pub proof fn lemma_with_peers(peers: Seq<Seq<char>>, more: Seq<Seq<char>>)
    ensures
        with_peers(peers, more).to_set() == peers.to_set().union(more.to_set()),
        peers.no_duplicates() ==> with_peers(peers, more).no_duplicates(),
        peers.is_prefix_of(with_peers(peers, more)),
    decreases more.len(),
{
    if more.len() == 0 {
        assert(more.to_set() =~= Set::<Seq<char>>::empty());
        assert(peers.to_set().union(more.to_set()) =~= peers.to_set());
    } else {
        let before = with_peers(peers, more.drop_last());
        lemma_with_peers(peers, more.drop_last());
        lemma_with_peer(before, more.last());
        assert forall|a: Seq<char>| more.to_set().contains(a) <==> more.drop_last().to_set().insert(
            more.last(),
        ).contains(a) by {
            if more.contains(a) {
                let i = choose|i: int| 0 <= i < more.len() && more[i] == a;
                if i < more.len() - 1 {
                    assert(more.drop_last()[i] == a);
                }
            }
            if more.drop_last().contains(a) {
                let i = choose|i: int| 0 <= i < more.drop_last().len() && more.drop_last()[i] == a;
                assert(more[i] == a);
            }
            assert(more[more.len() - 1] == more.last());
        }
        assert(more.to_set() =~= more.drop_last().to_set().insert(more.last()));
        assert(with_peers(peers, more).to_set() =~= peers.to_set().union(more.to_set()));
    }
}

/// Learning of peers that are all known changes nothing.
pub proof fn lemma_with_known_peers(peers: Seq<Seq<char>>, more: Seq<Seq<char>>)
    requires
        forall|i: int| 0 <= i < more.len() ==> peers.contains(#[trigger] more[i]),
    ensures
        with_peers(peers, more) == peers,
    decreases more.len(),
{
    if more.len() > 0 {
        assert forall|i: int| 0 <= i < more.drop_last().len() implies peers.contains(
            #[trigger] more.drop_last()[i],
        ) by {
            assert(more.drop_last()[i] == more[i]);
        }
        lemma_with_known_peers(peers, more.drop_last());
        assert(peers.contains(more[more.len() - 1]));
    }
}

impl<T: HasTransactions + Encode> BlockchainNode<T> {
    /// The addresses of the known peers, in the order in which they were
    /// learnt.
    pub open spec fn peer_list(&self) -> Seq<Seq<char>> {
        texts(self.peers@)
    }

    /// What every operation of a node keeps true once it holds: the chain
    /// verifies, and no peer address is held twice.
    pub open spec fn wf(&self) -> bool {
        &&& chain_valid(self.blockchain@)
        &&& self.peer_list().no_duplicates()
    }

    /// Creates a node whose chain is the single block given, with an empty
    /// pool and no peers.
    pub fn new(genesis_block: Block<T>) -> (node: BlockchainNode<T>)
        ensures
            node.blockchain@ == seq![genesis_block],
            node.transactions@ == Seq::<Transaction>::empty(),
            node.peers@ == Seq::<String>::empty(),
            is_genesis(genesis_block) ==> node.wf(),
    {
        let mut blockchain: Blockchain<T> = Vec::new();
        blockchain.push(genesis_block);
        assert(blockchain@ =~= seq![genesis_block]);
        let node = BlockchainNode { blockchain, transactions: Vec::new(), peers: Vec::new() };
        assert(node.peer_list() =~= Seq::<Seq<char>>::empty());
        node
    }

    /// Stages a transaction in the pool. Nothing is checked: any transaction
    /// is accepted.
    pub fn transaction(&mut self, transaction: Transaction)
        ensures
            final(self).transactions@ == old(self).transactions@.push(transaction),
            final(self).blockchain == old(self).blockchain,
            final(self).peers == old(self).peers,
            old(self).wf() ==> final(self).wf(),
    {
        self.transactions.push(transaction);
    }

    /// Whether the address is among the known peers.
    pub fn knows_peer(&self, peer: &String) -> (known: bool)
        ensures
            known == self.peer_list().contains(peer@),
    {
        let mut i: usize = 0;
        while i < self.peers.len()
            invariant
                i <= self.peers.len(),
                forall|j: int| 0 <= j < i ==> self.peer_list()[j] != peer@,
            decreases self.peers.len() - i,
        {
            if self.peers[i] == *peer {
                assert(self.peer_list()[i as int] == peer@);
                return true;
            }
            i = i + 1;
        }
        false
    }

    /// Learns of a peer. A known address is not added again.
    pub fn add_peer(&mut self, peer: String)
        ensures
            final(self).peer_list() == with_peer(old(self).peer_list(), peer@),
            final(self).blockchain == old(self).blockchain,
            final(self).transactions == old(self).transactions,
            old(self).wf() ==> final(self).wf(),
    {
        proof {
            lemma_with_peer(self.peer_list(), peer@);
        }
        if !self.knows_peer(&peer) {
            self.peers.push(peer);
            assert(self.peer_list() =~= old(self).peer_list().push(peer@));
        }
    }

    /// Verifies the integrity of the node's chain.
    pub fn verify(&self) -> (ok: bool)
        ensures
            ok == chain_valid(self.blockchain@),
    {
        verify_chain(&self.blockchain)
    }

    /// The balance of an address: over every transaction committed in the
    /// chain and then every transaction pending in the pool, what the address
    /// received less what it sent. Nothing keeps a balance from being
    /// negative. The result is `None` only where the amounts moved to and
    /// from the address sum to more than a signed 128-bit integer holds.
    pub fn balance(&self, address: &String) -> (r: Option<i128>)
        ensures
            r == if turnover(ledger(self.blockchain@, self.transactions@), address@) <= i128::MAX {
                Some(net(ledger(self.blockchain@, self.transactions@), address@) as i128)
            } else {
                None
            },
            r matches Some(b) ==> b == net(ledger(self.blockchain@, self.transactions@), address@),
    {
        let mut tally = Tally::zero();
        let mut i: usize = 0;
        assert(self.blockchain@.take(0) =~= Seq::<Block<T>>::empty());
        while i < self.blockchain.len()
            invariant
                i <= self.blockchain.len(),
                tally.wf(),
                tally.volume == turnover(chain_transactions(self.blockchain@.take(i as int)), address@),
                tally.balance == net(chain_transactions(self.blockchain@.take(i as int)), address@),
            decreases self.blockchain.len() - i,
        {
            let ghost seen = chain_transactions(self.blockchain@.take(i as int));
            let ghost grown = self.blockchain@.take(i + 1);
            let committed = self.blockchain[i].data.transactions();
            proof {
                assert(grown.drop_last() =~= self.blockchain@.take(i as int));
                assert(grown.last() == self.blockchain@[i as int]);
                assert(chain_transactions(grown) == seen + committed@);
                lemma_net_concat(seen, committed@, address@);
                lemma_turnover_concat(seen, committed@, address@);
            }
            match tally.add(committed, address) {
                Some(next) => {
                    tally = next;
                },
                None => {
                    proof {
                        lemma_turnover_of_prefix(self.blockchain@, i + 1, address@);
                        lemma_turnover_concat(
                            chain_transactions(self.blockchain@),
                            self.transactions@,
                            address@,
                        );
                    }
                    return None;
                },
            }
            i = i + 1;
        }
        assert(self.blockchain@.take(i as int) =~= self.blockchain@);
        proof {
            lemma_net_concat(chain_transactions(self.blockchain@), self.transactions@, address@);
            lemma_turnover_concat(chain_transactions(self.blockchain@), self.transactions@, address@);
        }
        match tally.add(&self.transactions, address) {
            Some(total) => Some(total.balance),
            None => None,
        }
    }
}

/// The turnover of a prefix of a chain is no more than that of the chain.
pub proof fn lemma_turnover_of_prefix<T: HasTransactions>(
    chain: Seq<Block<T>>,
    n: int,
    address: Seq<char>,
)
    requires
        0 <= n <= chain.len(),
    ensures
        turnover(chain_transactions(chain.take(n)), address) <= turnover(
            chain_transactions(chain),
            address,
        ),
    decreases chain.len(),
{
    if n == chain.len() {
        assert(chain.take(n) =~= chain);
    } else {
        lemma_turnover_of_prefix(chain.drop_last(), n, address);
        assert(chain.drop_last().take(n) =~= chain.take(n));
        lemma_turnover_concat(
            chain_transactions(chain.drop_last()),
            chain.last().data.committed(),
            address,
        );
    }
}

} // verus!

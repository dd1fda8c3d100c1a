//! Peer discovery and the longest-valid-chain rule.
//!
//! A consensus pass has two rounds of calls to peers, and the node decides
//! after each: it first merges the peer lists that came back, then, having
//! asked every peer it now knows for its chain, adopts the longest chain that
//! verifies. The calls themselves are made by the caller.

use crate::block::Block;
use crate::chain::{chain_valid, verify_chain, Blockchain};
use crate::error::NodeError;
use crate::ledger::HasTransactions;
use crate::node::{lemma_with_known_peers, lemma_with_peers, with_peers, BlockchainNode};
use crate::wire::{json_string_list, parse_string_list, texts, Encode};
use vstd::prelude::*;

verus! {

/// The peers that one reply reports: the addresses of the JSON array of
/// strings in its body. A peer that could not be reached (`None`), or whose
/// body is no such array, reports nothing.
pub open spec fn reported_by(reply: Option<String>) -> Seq<Seq<char>> {
    match reply {
        Some(body) => match json_string_list(body@) {
            Some(list) => list,
            None => Seq::empty(),
        },
        None => Seq::empty(),
    }
}

/// The peers that the replies report, reply after reply.
pub open spec fn reported_peers(replies: Seq<Option<String>>) -> Seq<Seq<char>>
    decreases replies.len(),
{
    if replies.len() == 0 {
        Seq::empty()
    } else {
        reported_peers(replies.drop_last()) + reported_by(replies.last())
    }
}

/// The chains that arrived: the replies of the peers that answered with a
/// chain, in order.
pub open spec fn received_chains<T>(replies: Seq<Option<Blockchain<T>>>) -> Seq<Blockchain<T>>
    decreases replies.len(),
{
    if replies.len() == 0 {
        Seq::empty()
    } else {
        let before = received_chains(replies.drop_last());
        match replies.last() {
            Some(chain) => before.push(chain),
            None => before,
        }
    }
}

/// The candidates: the chains that arrived and verify, in order.
pub open spec fn admitted_chains<T: Encode>(replies: Seq<Option<Blockchain<T>>>) -> Seq<
    Blockchain<T>,
>
    decreases replies.len(),
{
    if replies.len() == 0 {
        Seq::empty()
    } else {
        let before = admitted_chains(replies.drop_last());
        match replies.last() {
            Some(chain) => if chain_valid(chain@) {
                before.push(chain)
            } else {
                before
            },
            None => before,
        }
    }
}

/// The chain that selection settles on: starting from the node's own chain,
/// each candidate in turn takes over only if it verifies and has strictly
/// more blocks than the chain held so far.
pub open spec fn longest_valid<T: Encode>(own: Seq<Block<T>>, others: Seq<Blockchain<T>>) -> Seq<
    Block<T>,
>
    decreases others.len(),
{
    if others.len() == 0 {
        own
    } else {
        let best = longest_valid(own, others.drop_last());
        let candidate = others.last()@;
        if chain_valid(candidate) && candidate.len() > best.len() {
            candidate
        } else {
            best
        }
    }
}

/// What selection settles on is the node's own chain or a candidate that
/// verifies and is strictly longer than the node's own; no candidate that
/// verifies is longer than it.
pub proof fn lemma_longest_valid<T: Encode>(own: Seq<Block<T>>, others: Seq<Blockchain<T>>)
    ensures
        longest_valid(own, others) == own || exists|i: int|
            0 <= i < others.len() && #[trigger] others[i]@ == longest_valid(own, others)
                && chain_valid(others[i]@) && others[i]@.len() > own.len(),
        longest_valid(own, others).len() >= own.len(),
        forall|i: int|
            0 <= i < others.len() && chain_valid(#[trigger] others[i]@) ==> others[i]@.len()
                <= longest_valid(own, others).len(),
        chain_valid(own) ==> chain_valid(longest_valid(own, others)),
    decreases others.len(),
{
    if others.len() > 0 {
        let before = others.drop_last();
        lemma_longest_valid(own, before);
        let best = longest_valid(own, before);
        let chosen = longest_valid(own, others);
        if chosen == others.last()@ && chain_valid(chosen) && chosen.len() > own.len() {
            assert(others[others.len() - 1]@ == chosen);
        } else if best != own {
            let i = choose|i: int|
                0 <= i < before.len() && #[trigger] before[i]@ == best && chain_valid(before[i]@)
                    && before[i]@.len() > own.len();
            assert(others[i]@ == chosen);
        }
        assert forall|i: int|
            0 <= i < others.len() && chain_valid(#[trigger] others[i]@) implies others[i]@.len()
            <= chosen.len() by {
            if i < before.len() {
                assert(before[i] == others[i]);
            }
        }
    }
}

/// Selection among the chains that arrived settles on the same chain as
/// selection among those of them that verify.
pub proof fn lemma_admitted_suffice<T: Encode>(
    own: Seq<Block<T>>,
    replies: Seq<Option<Blockchain<T>>>,
)
    ensures
        longest_valid(own, admitted_chains(replies)) == longest_valid(own, received_chains(replies)),
        forall|i: int|
            0 <= i < admitted_chains(replies).len() ==> chain_valid(
                #[trigger] admitted_chains(replies)[i]@,
            ),
    decreases replies.len(),
{
    if replies.len() > 0 {
        lemma_admitted_suffice(own, replies.drop_last());
        let admitted = admitted_chains(replies);
        let received = received_chains(replies);
        match replies.last() {
            Some(chain) => {
                assert(received.drop_last() =~= received_chains(replies.drop_last()));
                if chain_valid(chain@) {
                    assert(admitted.drop_last() =~= admitted_chains(replies.drop_last()));
                }
            },
            None => {},
        }
    }
}

/// Where no candidate that verifies is longer than the node's own chain,
/// selection keeps the node's own chain.
pub proof fn lemma_own_chain_kept<T: Encode>(own: Seq<Block<T>>, others: Seq<Blockchain<T>>)
    requires
        forall|i: int|
            0 <= i < others.len() && chain_valid(#[trigger] others[i]@) ==> others[i]@.len()
                <= own.len(),
    ensures
        longest_valid(own, others) == own,
    decreases others.len(),
{
    if others.len() > 0 {
        let before = others.drop_last();
        assert forall|i: int|
            0 <= i < before.len() && chain_valid(#[trigger] before[i]@) implies before[i]@.len()
            <= own.len() by {
            assert(before[i] == others[i]);
        }
        lemma_own_chain_kept(own, before);
        assert(others[others.len() - 1] == others.last());
    }
}

/// Selecting again among the same candidates changes nothing: after one
/// pass no candidate is strictly longer than the chain the node holds.
pub proof fn lemma_selection_idempotent<T: Encode>(own: Seq<Block<T>>, others: Seq<Blockchain<T>>)
    ensures
        longest_valid(longest_valid(own, others), others) == longest_valid(own, others),
{
    lemma_longest_valid(own, others);
    lemma_own_chain_kept(longest_valid(own, others), others);
}

/// Merging the same reports again changes nothing: every reported peer is
/// known after the first merge.
pub proof fn lemma_discovery_idempotent(peers: Seq<Seq<char>>, more: Seq<Seq<char>>)
    ensures
        with_peers(with_peers(peers, more), more) == with_peers(peers, more),
{
    let merged = with_peers(peers, more);
    lemma_with_peers(peers, more);
    assert forall|i: int| 0 <= i < more.len() implies merged.contains(#[trigger] more[i]) by {
        assert(more.to_set().contains(more[i]));
        assert(merged.to_set().contains(more[i]));
    }
    lemma_with_known_peers(merged, more);
}

impl<T: HasTransactions + Encode> BlockchainNode<T> {
    /// Reads the peer lists that the peers sent. `replies` holds one entry
    /// for each peer asked: the body of its answer, or `None` where the call
    /// failed. A failed call or an unreadable body contributes nothing.
    pub fn peers_of_peers(&self, replies: &Vec<Option<String>>) -> (found: Vec<String>)
        ensures
            texts(found@) == reported_peers(replies@),
    {
        let mut found: Vec<String> = Vec::new();
        let mut i: usize = 0;
        assert(replies@.take(0) =~= Seq::<Option<String>>::empty());
        assert(texts(found@) =~= Seq::<Seq<char>>::empty());
        while i < replies.len()
            invariant
                i <= replies.len(),
                texts(found@) == reported_peers(replies@.take(i as int)),
            decreases replies.len() - i,
        {
            proof {
                let grown = replies@.take(i + 1);
                assert(grown.drop_last() =~= replies@.take(i as int));
                assert(grown.last() == replies@[i as int]);
            }
            let ghost before = found@;
            match &replies[i] {
                Some(body) => match parse_string_list(body.as_str()) {
                    Some(mut list) => {
                        let ghost added = list@;
                        found.append(&mut list);
                        assert(texts(found@) =~= texts(before) + texts(added));
                    },
                    None => {},
                },
                None => {},
            }
            assert(texts(found@) =~= texts(before) + reported_by(replies@[i as int]));
            i = i + 1;
        }
        assert(replies@.take(i as int) =~= replies@);
        found
    }

    /// The first round of a consensus pass: adds the peers that the known
    /// peers report to the peer set. Known addresses stay, in their places;
    /// an address reported more than once, or known already, is held once.
    pub fn find_new_peers(&mut self, replies: &Vec<Option<String>>)
        ensures
            final(self).peer_list() == with_peers(old(self).peer_list(), reported_peers(replies@)),
            final(self).blockchain == old(self).blockchain,
            final(self).transactions == old(self).transactions,
            old(self).wf() ==> final(self).wf(),
    {
        proof {
            lemma_with_peers(self.peer_list(), reported_peers(replies@));
        }
        let found = self.peers_of_peers(replies);
        let mut i: usize = 0;
        assert(texts(found@).take(0) =~= Seq::<Seq<char>>::empty());
        while i < found.len()
            invariant
                i <= found.len(),
                self.peer_list() == with_peers(old(self).peer_list(), texts(found@).take(i as int)),
                self.blockchain == old(self).blockchain,
                self.transactions == old(self).transactions,
            decreases found.len() - i,
        {
            proof {
                let grown = texts(found@).take(i + 1);
                assert(grown.drop_last() =~= texts(found@).take(i as int));
                assert(grown.last() == found@[i as int]@);
            }
            self.add_peer(found[i].clone());
            i = i + 1;
        }
        assert(texts(found@).take(i as int) =~= texts(found@));
    }

    /// Admits or refuses what one peer sent in answer to a request for its
    /// chain: `None` stands for a call that failed or an answer that was no
    /// chain. Only a chain that verifies is admitted.
    pub fn candidate(reply: Option<Blockchain<T>>) -> (r: Result<Blockchain<T>, NodeError>)
        ensures
            match reply {
                Some(chain) => if chain_valid(chain@) {
                    r == Ok::<Blockchain<T>, NodeError>(chain)
                } else {
                    r == Err::<Blockchain<T>, NodeError>(NodeError::InvalidChain)
                },
                None => r == Err::<Blockchain<T>, NodeError>(NodeError::PeerUnreachable),
            },
    {
        match reply {
            Some(chain) => if verify_chain(&chain) {
                Ok(chain)
            } else {
                Err(NodeError::InvalidChain)
            },
            None => Err(NodeError::PeerUnreachable),
        }
    }

    /// Collects the candidates: the chains that arrived and verify, in the
    /// order of the peers. `replies` holds one entry for each peer asked.
    pub fn find_new_chains(replies: Vec<Option<Blockchain<T>>>) -> (other_chains: Vec<Blockchain<T>>)
        ensures
            other_chains@ == admitted_chains(replies@),
    {
        let mut other_chains: Vec<Blockchain<T>> = Vec::new();
        let ghost all = replies@;
        assert(all.take(0) =~= Seq::<Option<Blockchain<T>>>::empty());
        for reply in it: replies
            invariant
                it.seq() == all,
                other_chains@ == admitted_chains(all.take(it.index() as int)),
        {
            proof {
                let grown = all.take(it.index() + 1);
                assert(grown.drop_last() =~= all.take(it.index() as int));
                assert(grown.last() == reply);
            }
            match Self::candidate(reply) {
                Ok(chain) => {
                    other_chains.push(chain);
                },
                Err(_) => {},
            }
        }
        assert(all.take(all.len() as int) =~= all);
        other_chains
    }

    /// The second round of a consensus pass: adopts the longest chain that
    /// verifies among the node's own and those the peers sent. A candidate
    /// replaces the chain held so far only if it has strictly more blocks, so
    /// the node's own chain wins ties, and among candidates the earlier one.
    /// Only the number of blocks is compared: the work behind a chain is not
    /// weighed, so a peer can win with a long chain that was cheap to make.
    pub fn consensus(&mut self, replies: Vec<Option<Blockchain<T>>>)
        ensures
            final(self).blockchain@ == longest_valid(
                old(self).blockchain@,
                received_chains(replies@),
            ),
            final(self).transactions == old(self).transactions,
            final(self).peers == old(self).peers,
            old(self).wf() ==> final(self).wf(),
    {
        let mut other_chains = Self::find_new_chains(replies);
        proof {
            lemma_admitted_suffice(self.blockchain@, replies@);
            lemma_longest_valid(self.blockchain@, received_chains(replies@));
        }
        let mut best: Option<usize> = None;
        let mut best_len: usize = self.blockchain.len();
        let mut i: usize = 0;
        assert(other_chains@.take(0) =~= Seq::<Blockchain<T>>::empty());
        while i < other_chains.len()
            invariant
                i <= other_chains.len(),
                forall|j: int|
                    0 <= j < other_chains@.len() ==> chain_valid(#[trigger] other_chains@[j]@),
                best_len == longest_valid(self.blockchain@, other_chains@.take(i as int)).len(),
                match best {
                    Some(k) => k < i && other_chains@[k as int]@ == longest_valid(
                        self.blockchain@,
                        other_chains@.take(i as int),
                    ),
                    None => self.blockchain@ == longest_valid(
                        self.blockchain@,
                        other_chains@.take(i as int),
                    ),
                },
            decreases other_chains.len() - i,
        {
            proof {
                let grown = other_chains@.take(i + 1);
                assert(grown.drop_last() =~= other_chains@.take(i as int));
                assert(grown.last() == other_chains@[i as int]);
            }
            if other_chains[i].len() > best_len {
                best = Some(i);
                best_len = other_chains[i].len();
            }
            i = i + 1;
        }
        assert(other_chains@.take(i as int) =~= other_chains@);
        match best {
            Some(k) => {
                self.blockchain = other_chains.swap_remove(k);
            },
            None => {},
        }
    }
}

} // verus!

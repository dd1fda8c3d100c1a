use blockchain::block::Block;
use blockchain::error::NodeError;
use blockchain::ledger::{Transaction, TransactionBlockData};
use blockchain::node::BlockchainNode;

type Node = BlockchainNode<TransactionBlockData>;
type Chain = Vec<Block<TransactionBlockData>>;

fn chain_of(n: usize, tag: &str) -> Chain {
    let mut chain = vec![Node::genesis_block()];
    while chain.len() < n {
        let data = TransactionBlockData {
            proof_of_work: 9,
            transactions: vec![Transaction {
                from: "network".to_string(),
                to: tag.to_string(),
                amount: chain.len() as u64,
            }],
        };
        let next = chain.last().unwrap().next_block(data);
        chain.push(next);
    }
    chain
}

fn node_with(chain: Chain) -> Node {
    let mut node = BlockchainNode::new(Node::genesis_block());
    node.blockchain = chain;
    node
}

fn hashes(chain: &Chain) -> Vec<String> {
    chain.iter().map(|b| b.hash.clone()).collect()
}

#[test]
fn longest_valid_chain_is_adopted_and_invalid_longer_one_refused() {
    let mut node = node_with(chain_of(3, "own"));
    let valid = chain_of(5, "valid");
    let mut invalid = chain_of(10, "invalid");
    invalid[4].data.proof_of_work = 10;
    let expected = hashes(&valid);
    node.consensus(vec![Some(valid), Some(invalid)]);
    assert_eq!(node.blockchain.len(), 5);
    assert_eq!(hashes(&node.blockchain), expected);
    assert!(node.verify());
}

#[test]
fn invalid_longer_chain_is_refused_whatever_the_order() {
    let mut node = node_with(chain_of(3, "own"));
    let valid = chain_of(5, "valid");
    let mut invalid = chain_of(10, "invalid");
    invalid[9].previous_hash = "0".to_string();
    let expected = hashes(&valid);
    node.consensus(vec![Some(invalid), Some(valid)]);
    assert_eq!(hashes(&node.blockchain), expected);
}

#[test]
fn own_chain_wins_ties() {
    let own = chain_of(4, "own");
    let expected = hashes(&own);
    let mut node = node_with(own);
    node.consensus(vec![Some(chain_of(4, "other")), Some(chain_of(2, "short"))]);
    assert_eq!(hashes(&node.blockchain), expected);
}

#[test]
fn earlier_candidate_wins_ties_among_candidates() {
    let mut node = node_with(chain_of(1, "own"));
    let first = chain_of(4, "first");
    let expected = hashes(&first);
    node.consensus(vec![Some(chain_of(2, "two")), Some(first), Some(chain_of(4, "second"))]);
    assert_eq!(hashes(&node.blockchain), expected);
}

#[test]
fn unreachable_peers_contribute_nothing() {
    let own = chain_of(2, "own");
    let expected = hashes(&own);
    let mut node = node_with(own);
    node.consensus(vec![None, None]);
    assert_eq!(hashes(&node.blockchain), expected);
    let longer = chain_of(3, "longer");
    let expected = hashes(&longer);
    node.consensus(vec![None, Some(longer), None]);
    assert_eq!(hashes(&node.blockchain), expected);
}

#[test]
fn consensus_without_peers_keeps_the_chain() {
    let own = chain_of(2, "own");
    let expected = hashes(&own);
    let mut node = node_with(own);
    node.consensus(vec![]);
    assert_eq!(hashes(&node.blockchain), expected);
}

#[test]
fn second_pass_changes_nothing() {
    let mut node = node_with(chain_of(3, "own"));
    node.transaction(Transaction { from: "a".to_string(), to: "b".to_string(), amount: 1 });
    node.add_peer("north".to_string());
    let offers = vec![Some(chain_of(5, "a")), None, Some(chain_of(4, "b")), Some(chain_of(5, "c"))];
    node.consensus(offers.clone());
    let after_first = hashes(&node.blockchain);
    assert_eq!(after_first.len(), 5);
    node.consensus(offers);
    assert_eq!(hashes(&node.blockchain), after_first);
    assert_eq!(node.transactions.len(), 1);
    assert_eq!(node.peers, vec!["north".to_string()]);
}

#[test]
fn empty_and_headless_candidates_are_refused() {
    let own = chain_of(1, "own");
    let expected = hashes(&own);
    let mut node = node_with(own);
    let mut headless = chain_of(3, "x");
    headless.remove(0);
    node.consensus(vec![Some(vec![]), Some(headless)]);
    assert_eq!(hashes(&node.blockchain), expected);
}

#[test]
fn candidate_is_classified() {
    assert!(matches!(Node::candidate(None), Err(NodeError::PeerUnreachable)));
    let mut broken = chain_of(3, "x");
    broken[1].hash = "f".repeat(128);
    assert!(matches!(Node::candidate(Some(broken)), Err(NodeError::InvalidChain)));
    assert!(matches!(Node::candidate(Some(vec![])), Err(NodeError::InvalidChain)));
    let good = chain_of(3, "x");
    let expected = hashes(&good);
    assert_eq!(hashes(&Node::candidate(Some(good)).unwrap()), expected);
}

#[test]
fn candidates_are_the_valid_chains_in_order() {
    let mut broken = chain_of(3, "x");
    broken[2].data.transactions.clear();
    let a = chain_of(2, "a");
    let b = chain_of(4, "b");
    let (ha, hb) = (hashes(&a), hashes(&b));
    let found = Node::find_new_chains(vec![None, Some(a), Some(broken), Some(b), None]);
    assert_eq!(found.len(), 2);
    assert_eq!(hashes(&found[0]), ha);
    assert_eq!(hashes(&found[1]), hb);
}

#[test]
fn reported_peers_join_the_peer_set() {
    let mut node = node_with(chain_of(1, "own"));
    node.add_peer("north".to_string());
    node.find_new_peers(&vec![Some("[\"south\",\"east\"]".to_string())]);
    assert_eq!(node.peers, vec!["north".to_string(), "south".to_string(), "east".to_string()]);
}

#[test]
fn peer_set_only_grows_and_holds_each_address_once() {
    let mut node = node_with(chain_of(1, "own"));
    node.add_peer("north".to_string());
    node.add_peer("south".to_string());
    let replies = vec![
        Some("[\"south\", \"east\", \"north\", \"east\"]".to_string()),
        None,
        Some("not json".to_string()),
        Some("{\"peers\":[\"lower\"]}".to_string()),
        Some("[\"west\", 5]".to_string()),
        Some("[]".to_string()),
        Some(" [ \"upper\" ] ".to_string()),
    ];
    node.find_new_peers(&replies);
    let expected: Vec<String> = ["north", "south", "east", "upper"].iter().map(|s| s.to_string()).collect();
    assert_eq!(node.peers, expected);
    node.find_new_peers(&replies);
    assert_eq!(node.peers, expected);
    assert_eq!(node.blockchain.len(), 1);
}

#[test]
fn peer_lists_are_read_reply_by_reply() {
    let node = node_with(chain_of(1, "own"));
    let found = node.peers_of_peers(&vec![
        Some("[\"a\",\"b\"]".to_string()),
        None,
        Some("oops".to_string()),
        Some("[\"b\",\"c\\n\"]".to_string()),
    ]);
    assert_eq!(found, vec!["a".to_string(), "b".to_string(), "b".to_string(), "c\n".to_string()]);
    assert!(node.peers.is_empty());
}

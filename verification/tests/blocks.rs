use blockchain::block::{primitive_hash, Block};
use blockchain::error::NodeError;
use blockchain::ledger::{Transaction, TransactionBlockData};
use blockchain::node::BlockchainNode;
use blockchain::time::Instant;
use blockchain::wire::Encode;
use crypto::digest::Digest;

fn sha512(text: &str) -> String {
    let mut hasher = crypto::sha2::Sha512::new();
    hasher.input_str(text);
    hasher.result_str()
}

fn at(secs: i64) -> Instant {
    Instant::from_timestamp(secs, 0).unwrap()
}

fn transfer(from: &str, to: &str, amount: u64) -> Transaction {
    Transaction { from: from.to_string(), to: to.to_string(), amount }
}

struct Unencodable;

impl Encode for Unencodable {
    fn encode(&self) -> Option<String> {
        None
    }
}

#[test]
fn primitive_hash_is_sha512_of_the_fields_in_order() {
    let hash = primitive_hash(&7, &at(0), &String::new(), &String::new());
    assert_eq!(
        hash,
        "f7f802da7a31554d18bd07113e93f24baade16eb3de4294ac6e3fb2d8d870e3e2f4ed2998916604c72ab4ed1f1028943d77f2977a5eed0f38275e8fefd078504"
    );
    let other = primitive_hash(&1, &at(1431648000), &"data".to_string(), &"prev".to_string());
    assert_eq!(other, sha512("12015-05-15 00:00:00 UTCdataprev"));
    assert_eq!(other.len(), 128);
}

#[test]
fn block_hash_covers_index_time_payload_and_predecessor() {
    let b = Block::new(0, at(0), "Genesis Block".to_string(), "0".to_string());
    assert_eq!(
        b.hash,
        "8468bba2a878dfce0d4d37e452a8f89b99b98f3d07fac1b2f819c3c4a71026e5bc7d0d905f1d030b6c9b9914c2883a444db6e7d0fa99ece12f6558707198f015"
    );
    assert_eq!(b.index, 0);
    assert_eq!(b.data, "Genesis Block");
    assert_eq!(b.previous_hash, "0");
    assert!(b.timestamp.same(&at(0)));
    assert!(b.verify_hash());
}

#[test]
fn ledger_block_hash_covers_the_encoded_payload() {
    let data = TransactionBlockData {
        proof_of_work: 9,
        transactions: vec![transfer("network", "miner", 1)],
    };
    let b = Block::new(1, at(1431648000), data, "abc".to_string());
    assert_eq!(
        b.hash,
        "3fc091d6172bdb7bad3490ac621b47875b4960f3eb3256467a0c9675374759603e0fefb77326253024d3b2557f0eb0389887a90bb835c7626a97488ac080ba90"
    );
    assert!(b.verify_hash());
}

#[test]
fn genesis_has_index_zero_and_no_predecessor() {
    let g = Block::genesis();
    assert_eq!(g.index, 0);
    assert_eq!(g.previous_hash, "0");
    assert_eq!(g.data, "Genesis Block");
    assert!(g.verify_hash());
    let l = BlockchainNode::<TransactionBlockData>::genesis_block();
    assert_eq!(l.index, 0);
    assert_eq!(l.previous_hash, "0");
    assert_eq!(l.data.proof_of_work, 1);
    assert!(l.data.transactions.is_empty());
    assert!(l.verify_hash());
}

#[test]
fn next_block_follows_its_predecessor() {
    let g = Block::genesis();
    let n = g.next_block("payload".to_string());
    assert_eq!(n.index, g.index + 1);
    assert_eq!(n.previous_hash, g.hash);
    assert_eq!(n.data, "payload");
    assert!(n.verify_hash());
    let m = n.next_block("more".to_string());
    assert_eq!(m.index, 2);
    assert_eq!(m.previous_hash, n.hash);
    assert!(m.verify_hash());
}

#[test]
fn verify_hash_detects_a_change_of_any_field() {
    let b = Block::new(3, at(100), "payload".to_string(), "prev".to_string());
    assert!(b.verify_hash());
    let mut c = b.clone();
    c.index = 4;
    assert!(!c.verify_hash());
    let mut c = b.clone();
    c.timestamp = at(101);
    assert!(!c.verify_hash());
    let mut c = b.clone();
    c.data = "Payload".to_string();
    assert!(!c.verify_hash());
    let mut c = b.clone();
    c.previous_hash = "prew".to_string();
    assert!(!c.verify_hash());
    let mut c = b.clone();
    c.hash = "0".repeat(128);
    assert!(!c.verify_hash());
}

#[test]
fn unencodable_payload_enters_the_digest_as_empty_text() {
    let b = Block::new(7, at(0), Unencodable, String::new());
    assert_eq!(b.hash, sha512("71970-01-01 00:00:00 UTC"));
    assert!(b.verify_hash());
}

#[test]
fn try_new_refuses_an_unencodable_payload() {
    let r = Block::try_new(7, at(0), Unencodable, String::new());
    assert!(matches!(r, Err(NodeError::SerializationFailure)));
    let ok = Block::try_new(7, at(0), "x".to_string(), "p".to_string()).unwrap();
    assert_eq!(ok.hash, sha512("71970-01-01 00:00:00 UTC\"x\"p"));
    assert_eq!(ok.index, 7);
}

#[test]
fn block_is_described_in_one_line() {
    let b = Block::new(3, at(1431648000), "payload".to_string(), "prev".to_string());
    assert_eq!(
        b.to_string(),
        format!("Block(3, 2015-05-15 00:00:00 UTC, payload, {}, prev)", b.hash)
    );
}

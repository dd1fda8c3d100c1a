use blockchain::block::Block;
use blockchain::ledger::{Transaction, TransactionBlockData};
use blockchain::time::Instant;
use blockchain::wire::{encode_list, Encode};
use serde::ser::{Serialize, SerializeStruct, Serializer};

struct WireTransaction {
    from: String,
    to: String,
    amount: u64,
}

impl Serialize for WireTransaction {
    fn serialize<S: Serializer>(&self, serializer: S) -> Result<S::Ok, S::Error> {
        let mut s = serializer.serialize_struct("Transaction", 3)?;
        s.serialize_field("from", &self.from)?;
        s.serialize_field("to", &self.to)?;
        s.serialize_field("amount", &self.amount)?;
        s.end()
    }
}

struct WireData {
    proof_of_work: u64,
    transactions: Vec<WireTransaction>,
}

impl Serialize for WireData {
    fn serialize<S: Serializer>(&self, serializer: S) -> Result<S::Ok, S::Error> {
        let mut s = serializer.serialize_struct("TransactionBlockData", 2)?;
        s.serialize_field("proof_of_work", &self.proof_of_work)?;
        s.serialize_field("transactions", &self.transactions)?;
        s.end()
    }
}

struct WireBlock {
    index: u64,
    timestamp: chrono::DateTime<chrono::Utc>,
    data: WireData,
    hash: String,
    previous_hash: String,
}

impl Serialize for WireBlock {
    fn serialize<S: Serializer>(&self, serializer: S) -> Result<S::Ok, S::Error> {
        let mut s = serializer.serialize_struct("Block", 5)?;
        s.serialize_field("index", &self.index)?;
        s.serialize_field("timestamp", &self.timestamp)?;
        s.serialize_field("data", &self.data)?;
        s.serialize_field("hash", &self.hash)?;
        s.serialize_field("previous_hash", &self.previous_hash)?;
        s.end()
    }
}

fn pair(from: &str, to: &str, amount: u64) -> (Transaction, WireTransaction) {
    (
        Transaction { from: from.to_string(), to: to.to_string(), amount },
        WireTransaction { from: from.to_string(), to: to.to_string(), amount },
    )
}

#[test]
fn text_is_encoded_as_a_json_string() {
    assert_eq!("plain".to_string().encode().unwrap(), "\"plain\"");
    assert_eq!(String::new().encode().unwrap(), "\"\"");
    assert_eq!("a\"b\\c\n".to_string().encode().unwrap(), "\"a\\\"b\\\\c\\n\"");
    let odd = "tab\there \u{1} é ✓".to_string();
    assert_eq!(odd.encode().unwrap(), serde_json::to_string(&odd).unwrap());
}

#[test]
fn transaction_is_encoded_with_its_fields_in_order() {
    let (t, _) = pair("alice", "bob", 10);
    assert_eq!(t.encode().unwrap(), "{\"from\":\"alice\",\"to\":\"bob\",\"amount\":10}");
}

#[test]
fn transaction_encoding_is_what_serde_writes() {
    for (from, to, amount) in [
        ("alice", "bob", 0),
        ("", "", u64::MAX),
        ("quo\"te", "back\\slash", 7),
        ("line\nbreak", "uni ✓ code", 18),
    ] {
        let (t, w) = pair(from, to, amount);
        assert_eq!(t.encode().unwrap(), serde_json::to_string(&w).unwrap());
    }
}

#[test]
fn payload_is_encoded_with_proof_and_transactions() {
    let empty = TransactionBlockData { proof_of_work: 1, transactions: vec![] };
    assert_eq!(empty.encode().unwrap(), "{\"proof_of_work\":1,\"transactions\":[]}");
    let (a, wa) = pair("network", "miner", 1);
    let (b, wb) = pair("x", "y", 2);
    let one = TransactionBlockData { proof_of_work: 9, transactions: vec![a.clone()] };
    assert_eq!(
        one.encode().unwrap(),
        "{\"proof_of_work\":9,\"transactions\":[{\"from\":\"network\",\"to\":\"miner\",\"amount\":1}]}"
    );
    let two = TransactionBlockData { proof_of_work: 18, transactions: vec![a, b] };
    let wire = WireData { proof_of_work: 18, transactions: vec![wa, wb] };
    assert_eq!(two.encode().unwrap(), serde_json::to_string(&wire).unwrap());
}

#[test]
fn block_is_encoded_with_its_fields_in_order() {
    let (t, w) = pair("a", "b", 3);
    let data = TransactionBlockData { proof_of_work: 9, transactions: vec![t] };
    let stamp = Instant::from_timestamp(1516991409, 453_829_000).unwrap();
    let b = Block::new(4, stamp, data, "prev".to_string());
    let expected = format!(
        "{{\"index\":4,\"timestamp\":\"2018-01-26T18:30:09.453829Z\",\"data\":{{\"proof_of_work\":9,\"transactions\":[{{\"from\":\"a\",\"to\":\"b\",\"amount\":3}}]}},\"hash\":\"{}\",\"previous_hash\":\"prev\"}}",
        b.hash
    );
    assert_eq!(b.encode().unwrap(), expected);
    let wire = WireBlock {
        index: 4,
        timestamp: chrono::DateTime::<chrono::Utc>::from_timestamp(1516991409, 453_829_000).unwrap(),
        data: WireData { proof_of_work: 9, transactions: vec![w] },
        hash: b.hash.clone(),
        previous_hash: "prev".to_string(),
    };
    assert_eq!(b.encode().unwrap(), serde_json::to_string(&wire).unwrap());
}

#[test]
fn list_is_encoded_as_a_json_array() {
    let none: Vec<String> = vec![];
    assert_eq!(encode_list(&none).unwrap(), "[]");
    let one = vec!["north".to_string()];
    assert_eq!(encode_list(&one).unwrap(), "[\"north\"]");
    let three = vec!["north".to_string(), "so,uth".to_string(), "ea\"st".to_string()];
    assert_eq!(encode_list(&three).unwrap(), serde_json::to_string(&three).unwrap());
    let (a, wa) = pair("a", "b", 1);
    let (b, wb) = pair("c", "d", 2);
    assert_eq!(encode_list(&vec![a, b]).unwrap(), serde_json::to_string(&vec![wa, wb]).unwrap());
}

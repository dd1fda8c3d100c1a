//! Blocks: records chained to their predecessor by a digest.

use crate::digest::{sha512_hex, sha512_hex_string};
use crate::error::NodeError;
use crate::text::{decimal, decimal_string};
use crate::time::{primitive_timestamp, Instant};
use crate::wire::{json_string, json_string_text, Encode};
use vstd::prelude::*;

verus! {

/// A record linked to its predecessor by that block's digest.
#[derive(Debug, Clone)]
pub struct Block<T> {
    pub index: u64,
    pub timestamp: Instant,
    pub data: T,
    pub hash: String,
    pub previous_hash: String,
}

/// The text over which a block's digest is taken: the index in decimal, the
/// timestamp as displayed, the encoded payload and the predecessor's digest,
/// one after the other.
pub open spec fn digest_input(
    index: u64,
    timestamp: Instant,
    data_str: Seq<char>,
    previous_hash: Seq<char>,
) -> Seq<char> {
    decimal(index as nat) + timestamp.display() + data_str + previous_hash
}

/// The digest of a block with the given fields.
pub open spec fn block_digest(
    index: u64,
    timestamp: Instant,
    data_str: Seq<char>,
    previous_hash: Seq<char>,
) -> Seq<char> {
    sha512_hex(digest_input(index, timestamp, data_str, previous_hash))
}

/// Computes the digest of a block from its fields.
pub fn primitive_hash(
    index: &u64,
    timestamp: &Instant,
    data_str: &String,
    previous_hash: &String,
) -> (r: String)
    ensures
        r@ == block_digest(*index, *timestamp, data_str@, previous_hash@),
{
    let mut det_str = decimal_string(*index as u128);
    let shown = timestamp.to_string();
    det_str.append(shown.as_str());
    det_str.append(data_str.as_str());
    det_str.append(previous_hash.as_str());
    assert(det_str@ =~= digest_input(*index, *timestamp, data_str@, previous_hash@));
    sha512_hex_string(det_str.as_str())
}

/// The payload text that enters the digest: the canonical encoding, or the
/// empty text where the payload has none.
pub open spec fn payload_text<T: Encode>(data: T) -> Seq<char> {
    match data.encoding() {
        Some(text) => text,
        None => Seq::empty(),
    }
}

impl<T: Encode> Block<T> {
    /// The digest that the block's fields call for.
    pub open spec fn expected_hash(&self) -> Seq<char> {
        block_digest(self.index, self.timestamp, payload_text(self.data), self.previous_hash@)
    }

    /// The stored digest is the one that the other fields call for.
    pub open spec fn hash_valid(&self) -> bool {
        self.hash@ == self.expected_hash()
    }

    /// The block with another stored digest.
    pub open spec fn with_hash(self, hash: String) -> Block<T> {
        Block { hash: hash, ..self }
    }

    /// The block with another predecessor digest.
    pub open spec fn with_previous_hash(self, previous_hash: String) -> Block<T> {
        Block { previous_hash: previous_hash, ..self }
    }

    /// The block with another payload.
    pub open spec fn with_data(self, data: T) -> Block<T> {
        Block { data: data, ..self }
    }

    /// The block was made from these fields and carries their digest.
    pub open spec fn built_from(
        &self,
        index: u64,
        timestamp: Instant,
        data: T,
        previous_hash: String,
    ) -> bool {
        &&& self.index == index
        &&& self.timestamp == timestamp
        &&& self.data == data
        &&& self.previous_hash == previous_hash
        &&& self.hash_valid()
    }

    /// Makes a block and seals it with its digest. A payload that cannot be
    /// encoded enters the digest as the empty text.
    pub fn new(index: u64, timestamp: Instant, data: T, previous_hash: String) -> (b: Block<T>)
        ensures
            b.built_from(index, timestamp, data, previous_hash),
    {
        let data_str = match data.encode() {
            Some(ret) => ret,
            None => String::new(),
        };
        let hash = primitive_hash(&index, &timestamp, &data_str, &previous_hash);
        Block { index, timestamp, data, hash, previous_hash }
    }

    /// Makes a block and seals it with its digest, or refuses a payload that
    /// cannot be encoded.
    pub fn try_new(
        index: u64,
        timestamp: Instant,
        data: T,
        previous_hash: String,
    ) -> (r: Result<Block<T>, NodeError>)
        ensures
            match r {
                Ok(b) => data.encoding() is Some && b.built_from(index, timestamp, data, previous_hash),
                Err(e) => data.encoding() is None && e == NodeError::SerializationFailure,
            },
    {
        match data.encode() {
            Some(data_str) => {
                let hash = primitive_hash(&index, &timestamp, &data_str, &previous_hash);
                Ok(Block { index, timestamp, data, hash, previous_hash })
            },
            None => Err(NodeError::SerializationFailure),
        }
    }

    /// `next` follows `self`: its index is one more and it names the digest
    /// of `self` as its predecessor's, under a digest of its own that holds.
    pub open spec fn followed_by(&self, next: Block<T>) -> bool {
        &&& next.index == self.index + 1
        &&& next.previous_hash@ == self.hash@
        &&& next.hash_valid()
    }

    /// Makes the block that follows this one, stamped with the current time.
    pub fn next_block(&self, data: T) -> (b: Block<T>)
        requires
            self.index < u64::MAX,
        ensures
            self.followed_by(b),
            b.data == data,
    {
        Block::new(self.index + 1, primitive_timestamp(), data, self.hash.clone())
    }

    /// Recomputes the digest from the stored fields and compares it with the
    /// stored one.
    pub fn verify_hash(&self) -> (ok: bool)
        ensures
            ok == self.hash_valid(),
    {
        let data_str = match self.data.encode() {
            Some(ret) => ret,
            None => String::new(),
        };
        let hash = primitive_hash(&self.index, &self.timestamp, &data_str, &self.previous_hash);
        hash == self.hash
    }
}

/// A block may open a chain: its index is zero and it names no predecessor.
pub open spec fn is_genesis<T>(b: Block<T>) -> bool {
    b.index == 0 && b.previous_hash@ == "0"@
}

impl Block<String> {
    /// The first block of a chain of texts, stamped with the current time.
    pub fn genesis() -> (b: Block<String>)
        ensures
            is_genesis(b),
            b.data@ == "Genesis Block"@,
            b.hash_valid(),
    {
        Block::new(
            0,
            primitive_timestamp(),
            String::from_str("Genesis Block"),
            String::from_str("0"),
        )
    }

    /// The text that describes the block.
    pub open spec fn description(&self) -> Seq<char> {
        "Block("@ + decimal(self.index as nat) + ", "@ + self.timestamp.display() + ", "@
            + self.data@ + ", "@ + self.hash@ + ", "@ + self.previous_hash@ + ")"@
    }

    /// Describes the block in one line.
    pub fn to_string(&self) -> (r: String)
        ensures
            r@ == self.description(),
    {
        let mut out = String::from_str("Block(");
        let index = decimal_string(self.index as u128);
        let shown = self.timestamp.to_string();
        out.append(index.as_str());
        out.append(", ");
        out.append(shown.as_str());
        out.append(", ");
        out.append(self.data.as_str());
        out.append(", ");
        out.append(self.hash.as_str());
        out.append(", ");
        out.append(self.previous_hash.as_str());
        out.append(")");
        assert(out@ =~= self.description());
        out
    }
}

impl<T: Encode> Encode for Block<T> {
    open spec fn encoding(&self) -> Option<Seq<char>> {
        match (
            self.timestamp.encoding(),
            self.data.encoding(),
            json_string(self.hash@),
            json_string(self.previous_hash@),
        ) {
            (Some(timestamp), Some(data), Some(hash), Some(previous_hash)) => Some(
                "{\"index\":"@ + decimal(self.index as nat) + ",\"timestamp\":"@ + timestamp
                    + ",\"data\":"@ + data + ",\"hash\":"@ + hash + ",\"previous_hash\":"@
                    + previous_hash + "}"@,
            ),
            _ => None,
        }
    }

    fn encode(&self) -> (r: Option<String>) {
        let timestamp = match self.timestamp.encode() {
            Some(text) => text,
            None => {
                return None;
            },
        };
        let data = match self.data.encode() {
            Some(text) => text,
            None => {
                return None;
            },
        };
        let hash = match json_string_text(self.hash.as_str()) {
            Some(text) => text,
            None => {
                return None;
            },
        };
        let previous_hash = match json_string_text(self.previous_hash.as_str()) {
            Some(text) => text,
            None => {
                return None;
            },
        };
        let index = decimal_string(self.index as u128);
        let mut out = String::from_str("{\"index\":");
        out.append(index.as_str());
        out.append(",\"timestamp\":");
        out.append(timestamp.as_str());
        out.append(",\"data\":");
        out.append(data.as_str());
        out.append(",\"hash\":");
        out.append(hash.as_str());
        out.append(",\"previous_hash\":");
        out.append(previous_hash.as_str());
        out.append("}");
        assert(out@ =~= "{\"index\":"@ + decimal(self.index as nat) + ",\"timestamp\":"@
            + timestamp@ + ",\"data\":"@ + data@ + ",\"hash\":"@ + hash@ + ",\"previous_hash\":"@
            + previous_hash@ + "}"@);
        Some(out)
    }
}

} // verus!

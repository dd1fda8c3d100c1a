//! A minimal peer-replicated ledger: hash-chained blocks, a proof-of-work
//! gate, a transaction pool with balances, and longest-valid-chain consensus.

pub mod block;
pub mod chain;
pub mod consensus;
pub mod digest;
pub mod error;
pub mod http;
pub mod ledger;
pub mod mining;
pub mod node;
pub mod parser;
pub mod pow;
pub mod service;
pub mod text;
pub mod time;
pub mod wire;

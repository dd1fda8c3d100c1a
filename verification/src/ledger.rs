//! Value transfers, the payload that commits them to a block, and the
//! arithmetic of balances.

use crate::text::{decimal, decimal_string};
use crate::wire::{encode_list, json_string, json_string_text, list_encoding, Encode};
use vstd::prelude::*;

verus! {

/// An amount moving from one address to another.
#[derive(Debug, Clone)]
pub struct Transaction {
    pub from: String,
    pub to: String,
    pub amount: u64,
}

/// Block data that carries transactions.
pub trait HasTransactions {
    /// The transactions that the value commits, in order. A type that says
    /// nothing else commits none.
    open spec fn committed(&self) -> Seq<Transaction> {
        Seq::empty()
    }

    /// The transactions that the value commits, in order.
    fn transactions(&self) -> (r: &Vec<Transaction>)
        ensures
            r@ == self.committed(),
    ;
}

/// The payload of a ledger block: the proof-of-work value that admitted the
/// block and the transactions committed in it.
#[derive(Debug, Clone)]
pub struct TransactionBlockData {
    pub proof_of_work: u64,
    pub transactions: Vec<Transaction>,
}

impl HasTransactions for TransactionBlockData {
    open spec fn committed(&self) -> Seq<Transaction> {
        self.transactions@
    }

    fn transactions(&self) -> (r: &Vec<Transaction>) {
        &self.transactions
    }
}

impl Encode for Transaction {
    open spec fn encoding(&self) -> Option<Seq<char>> {
        match (json_string(self.from@), json_string(self.to@)) {
            (Some(from), Some(to)) => Some(
                "{\"from\":"@ + from + ",\"to\":"@ + to + ",\"amount\":"@ + decimal(
                    self.amount as nat,
                ) + "}"@,
            ),
            _ => None,
        }
    }

    fn encode(&self) -> (r: Option<String>) {
        let from = match json_string_text(self.from.as_str()) {
            Some(text) => text,
            None => {
                return None;
            },
        };
        let to = match json_string_text(self.to.as_str()) {
            Some(text) => text,
            None => {
                return None;
            },
        };
        let amount = decimal_string(self.amount as u128);
        let mut out = String::from_str("{\"from\":");
        out.append(from.as_str());
        out.append(",\"to\":");
        out.append(to.as_str());
        out.append(",\"amount\":");
        out.append(amount.as_str());
        out.append("}");
        assert(out@ =~= "{\"from\":"@ + from@ + ",\"to\":"@ + to@ + ",\"amount\":"@ + decimal(
            self.amount as nat,
        ) + "}"@);
        Some(out)
    }
}

impl Encode for TransactionBlockData {
    open spec fn encoding(&self) -> Option<Seq<char>> {
        match list_encoding(self.transactions@) {
            Some(list) => Some(
                "{\"proof_of_work\":"@ + decimal(self.proof_of_work as nat) + ",\"transactions\":"@
                    + list + "}"@,
            ),
            None => None,
        }
    }

    fn encode(&self) -> (r: Option<String>) {
        let list = match encode_list(&self.transactions) {
            Some(text) => text,
            None => {
                return None;
            },
        };
        let proof = decimal_string(self.proof_of_work as u128);
        let mut out = String::from_str("{\"proof_of_work\":");
        out.append(proof.as_str());
        out.append(",\"transactions\":");
        out.append(list.as_str());
        out.append("}");
        assert(out@ =~= "{\"proof_of_work\":"@ + decimal(self.proof_of_work as nat)
            + ",\"transactions\":"@ + list@ + "}"@);
        Some(out)
    }
}

/// What one transaction does to the balance of `address`: the amount leaves
/// the sender and reaches the recipient. A transfer from an address to itself
/// only counts as sent.
pub open spec fn effect(t: Transaction, address: Seq<char>) -> int {
    if t.from@ == address {
        -(t.amount as int)
    } else if t.to@ == address {
        t.amount as int
    } else {
        0
    }
}

/// The amount that one transaction moves to or from `address`.
pub open spec fn moved(t: Transaction, address: Seq<char>) -> nat {
    if t.from@ == address || t.to@ == address {
        t.amount as nat
    } else {
        0
    }
}

/// The net balance of `address` over the transactions, taken in order.
pub open spec fn net(txs: Seq<Transaction>, address: Seq<char>) -> int
    decreases txs.len(),
{
    if txs.len() == 0 {
        0
    } else {
        net(txs.drop_last(), address) + effect(txs.last(), address)
    }
}

/// The total amount that the transactions move to or from `address`.
pub open spec fn turnover(txs: Seq<Transaction>, address: Seq<char>) -> nat
    decreases txs.len(),
{
    if txs.len() == 0 {
        0
    } else {
        turnover(txs.drop_last(), address) + moved(txs.last(), address)
    }
}

/// The net balance over two runs of transactions is the sum of the two.
pub proof fn lemma_net_concat(a: Seq<Transaction>, b: Seq<Transaction>, address: Seq<char>)
    ensures
        net(a + b, address) == net(a, address) + net(b, address),
    decreases b.len(),
{
    if b.len() == 0 {
        assert(a + b =~= a);
    } else {
        assert((a + b).drop_last() =~= a + b.drop_last());
        assert((a + b).last() == b.last());
        lemma_net_concat(a, b.drop_last(), address);
    }
}

/// The turnover over two runs of transactions is the sum of the two.
pub proof fn lemma_turnover_concat(a: Seq<Transaction>, b: Seq<Transaction>, address: Seq<char>)
    ensures
        turnover(a + b, address) == turnover(a, address) + turnover(b, address),
    decreases b.len(),
{
    if b.len() == 0 {
        assert(a + b =~= a);
    } else {
        assert((a + b).drop_last() =~= a + b.drop_last());
        assert((a + b).last() == b.last());
        lemma_turnover_concat(a, b.drop_last(), address);
    }
}

/// A balance never lies further from zero than the turnover.
pub proof fn lemma_net_within_turnover(txs: Seq<Transaction>, address: Seq<char>)
    ensures
        -turnover(txs, address) <= net(txs, address) <= turnover(txs, address),
    decreases txs.len(),
{
    if txs.len() > 0 {
        lemma_net_within_turnover(txs.drop_last(), address);
    }
}

/// A running balance and the turnover that produced it.
pub struct Tally {
    pub balance: i128,
    pub volume: u128,
}

impl Tally {
    /// The turnover fits a signed balance, and the balance lies within it.
    pub open spec fn wf(&self) -> bool {
        &&& self.volume <= i128::MAX
        &&& -(self.volume as int) <= self.balance <= self.volume as int
    }

    /// The tally of no transactions.
    pub fn zero() -> (r: Tally)
        ensures
            r.balance == 0,
            r.volume == 0,
            r.wf(),
    {
        Tally { balance: 0, volume: 0 }
    }

    /// Adds the transactions to the tally, in order. Gives `None` exactly
    /// when the turnover outgrows what a signed balance can hold.
    pub fn add(self, txs: &Vec<Transaction>, address: &String) -> (r: Option<Tally>)
        requires
            self.wf(),
        ensures
            match r {
                Some(t) => {
                    &&& t.wf()
                    &&& t.volume == self.volume + turnover(txs@, address@)
                    &&& t.balance == self.balance + net(txs@, address@)
                },
                None => self.volume + turnover(txs@, address@) > i128::MAX,
            },
    {
        let mut balance: i128 = self.balance;
        let mut volume: u128 = self.volume;
        let mut i: usize = 0;
        assert(txs@.take(0) =~= Seq::<Transaction>::empty());
        while i < txs.len()
            invariant
                i <= txs.len(),
                volume <= i128::MAX,
                volume == self.volume + turnover(txs@.take(i as int), address@),
                balance == self.balance + net(txs@.take(i as int), address@),
                -(volume as int) <= balance <= volume as int,
            decreases txs.len() - i,
        {
            let t = &txs[i];
            proof {
                let grown = txs@.take(i + 1);
                assert(grown.drop_last() =~= txs@.take(i as int));
                assert(grown.last() == txs@[i as int]);
            }
            let sent = t.from == *address;
            let received = t.to == *address;
            if sent || received {
                let larger: u128 = volume + t.amount as u128;
                if larger > i128::MAX as u128 {
                    proof {
                        let grown = txs@.take(i + 1);
                        assert(txs@ =~= grown + txs@.skip(i + 1));
                        lemma_turnover_concat(grown, txs@.skip(i + 1), address@);
                    }
                    return None;
                }
                volume = larger;
                if sent {
                    balance = balance - t.amount as i128;
                } else {
                    balance = balance + t.amount as i128;
                }
            }
            i = i + 1;
        }
        assert(txs@.take(i as int) =~= txs@);
        Some(Tally { balance, volume })
    }
}

} // verus!

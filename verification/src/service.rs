//! The request interface of a ledger node.
//!
//! The node decides; the transport does the outside work. Most requests are
//! answered at once. A submitted transaction has to be decoded first, and a
//! consensus pass needs calls to peers: for these `handle_req` says what is
//! wanted, and the transport comes back with the outcome.

use crate::block::Block;
use crate::chain::chain_valid;
use crate::error::NodeError;
use crate::http::{starts_with, HttpRequest, HttpResponse};
use crate::ledger::{net, turnover, Transaction, TransactionBlockData};
use crate::mining::{commits, mine_failure};
use crate::node::{ledger, with_peer, BlockchainNode};
use crate::text::{signed_decimal, signed_decimal_string};
use crate::wire::{encode_list, list_encoding, text_of, Encode};
use vstd::prelude::*;

verus! {

/// What a request is for.
#[derive(Debug, Clone, Copy, PartialEq, Eq, Structural)]
pub enum Route {
    /// Submit a transaction to the pool.
    Transaction,
    /// Mine a block for an address.
    Mine,
    /// Run a consensus pass and show the chain.
    Consensus,
    /// Show the chain.
    Blocks,
    /// Show the balance of an address.
    Balance,
    /// Learn of a peer, run a consensus pass and show the peers.
    Connect,
    /// Show the peers.
    Peers,
    /// Verify the chain.
    Verify,
    /// Anything else.
    Unknown,
}

/// What the response to a finished consensus pass shows.
#[derive(Debug, Clone, Copy, PartialEq, Eq, Structural)]
pub enum Answer {
    /// The node's chain.
    Chain,
    /// The node's peers.
    Peers,
}

/// What has to happen next for a request.
#[derive(Debug)]
pub enum Step {
    /// The request is answered: with a response, or with the reason why
    /// there is none. Nothing goes over the wire for a failure.
    Respond(Result<HttpResponse, NodeError>),
    /// The body is to be decoded as a transaction and handed to `submit`.
    DecodeTransaction(String),
    /// A consensus pass is to run (`find_new_peers`, then `consensus`);
    /// `answer` then makes the response.
    RunConsensus(Answer),
}

/// The route of a request, decided by its method and path. The first rule
/// that fits counts.
pub open spec fn route_of(method: Seq<char>, path: Seq<char>) -> Route {
    if path == "/transaction"@ && method == "POST"@ {
        Route::Transaction
    } else if "/mine"@.is_prefix_of(path) && method == "GET"@ {
        Route::Mine
    } else if "/consensus"@.is_prefix_of(path) {
        Route::Consensus
    } else if "/blocks"@.is_prefix_of(path) {
        Route::Blocks
    } else if "/balance"@.is_prefix_of(path) {
        Route::Balance
    } else if "/connect"@.is_prefix_of(path) {
        Route::Connect
    } else if "/peers"@.is_prefix_of(path) {
        Route::Peers
    } else if "/verify"@.is_prefix_of(path) {
        Route::Verify
    } else {
        Route::Unknown
    }
}

/// Decides what a request is for.
pub fn route(req: &HttpRequest) -> (r: Route)
    ensures
        r == route_of(req.method@, req.path@),
{
    let path = req.path.as_str();
    if req.path == String::from_str("/transaction") && req.method == String::from_str("POST") {
        Route::Transaction
    } else if starts_with(path, "/mine") && req.method == String::from_str("GET") {
        Route::Mine
    } else if starts_with(path, "/consensus") {
        Route::Consensus
    } else if starts_with(path, "/blocks") {
        Route::Blocks
    } else if starts_with(path, "/balance") {
        Route::Balance
    } else if starts_with(path, "/connect") {
        Route::Connect
    } else if starts_with(path, "/peers") {
        Route::Peers
    } else if starts_with(path, "/verify") {
        Route::Verify
    } else {
        Route::Unknown
    }
}

/// The response reports success, without header lines, and carries `body`.
pub open spec fn is_ok_with(res: HttpResponse, body: Seq<char>) -> bool {
    &&& res.status@ == "200 OK"@
    &&& res.headers@.len() == 0
    &&& res.body@ == body
}

/// The response is a success with the body given, or the failure given.
pub open spec fn shows(
    res: Result<HttpResponse, NodeError>,
    body: Result<Seq<char>, NodeError>,
) -> bool {
    match (res, body) {
        (Ok(r), Ok(b)) => is_ok_with(r, b),
        (Err(e), Err(f)) => e == f,
        _ => false,
    }
}

/// The step answers the request, with the body or the failure given.
pub open spec fn responds(step: Step, body: Result<Seq<char>, NodeError>) -> bool {
    step matches Step::Respond(res) && shows(res, body)
}

/// An encoding as the body of a response; none is a serialization failure.
pub open spec fn encoded(text: Option<Seq<char>>) -> Result<Seq<char>, NodeError> {
    match text {
        Some(t) => Ok(t),
        None => Err(NodeError::SerializationFailure),
    }
}

/// The text of a truth value.
pub open spec fn truth_text(b: bool) -> Seq<char> {
    if b {
        "true"@
    } else {
        "false"@
    }
}

/// The text of the balance of `address`, where the balance can be told.
pub open spec fn balance_text(
    chain: Seq<Block<TransactionBlockData>>,
    pool: Seq<Transaction>,
    address: Seq<char>,
) -> Result<Seq<char>, NodeError> {
    if turnover(ledger(chain, pool), address) <= i128::MAX {
        Ok(signed_decimal(net(ledger(chain, pool), address)))
    } else {
        Err(NodeError::Overflow)
    }
}

/// Makes a success response around a body.
pub fn ok_response(body: String) -> (res: HttpResponse)
    ensures
        is_ok_with(res, body@),
{
    HttpResponse::new(String::from_str("200 OK"), Vec::new(), body)
}

/// Makes a success response around an encoding, or reports that there is
/// none.
pub fn encoded_response(text: Option<String>) -> (res: Result<HttpResponse, NodeError>)
    ensures
        shows(res, encoded(text_of(text))),
{
    match text {
        Some(body) => Ok(ok_response(body)),
        None => Err(NodeError::SerializationFailure),
    }
}

impl BlockchainNode<TransactionBlockData> {
    /// Handles a request as far as the node can on its own.
    ///
    /// Showing the chain, a balance, the peers or the verdict on the chain
    /// changes nothing. Mining changes the node as `mine` does and shows the
    /// new block. Connecting adds the peer and then asks for a consensus
    /// pass. A request that is unknown, that lacks its parameter, or whose
    /// operation fails, changes nothing.
    pub fn handle_req(&mut self, req: HttpRequest) -> (step: Step)
        ensures
            match route_of(req.method@, req.path@) {
                Route::Transaction => {
                    &&& step == Step::DecodeTransaction(req.body)
                    &&& *final(self) == *old(self)
                },
                Route::Mine => if !req.params@.contains_key("address"@) {
                    &&& responds(step, Err(NodeError::MalformedRequest))
                    &&& *final(self) == *old(self)
                } else if mine_failure(old(self).blockchain@) is Some {
                    &&& responds(step, Err(mine_failure(old(self).blockchain@)->0))
                    &&& *final(self) == *old(self)
                } else {
                    let block = final(self).blockchain@.last();
                    &&& commits(
                        block,
                        old(self).blockchain@.last(),
                        old(self).transactions@,
                        req.params@["address"@]@,
                    )
                    &&& final(self).blockchain@ == old(self).blockchain@.push(block)
                    &&& final(self).transactions@ == Seq::<Transaction>::empty()
                    &&& final(self).peers == old(self).peers
                    &&& responds(step, encoded(block.encoding()))
                },
                Route::Consensus => {
                    &&& step == Step::RunConsensus(Answer::Chain)
                    &&& *final(self) == *old(self)
                },
                Route::Blocks => {
                    &&& responds(step, encoded(list_encoding(old(self).blockchain@)))
                    &&& *final(self) == *old(self)
                },
                Route::Balance => {
                    &&& responds(
                        step,
                        if req.params@.contains_key("address"@) {
                            balance_text(
                                old(self).blockchain@,
                                old(self).transactions@,
                                req.params@["address"@]@,
                            )
                        } else {
                            Err(NodeError::MalformedRequest)
                        },
                    )
                    &&& *final(self) == *old(self)
                },
                Route::Connect => if req.params@.contains_key("peer"@) {
                    &&& step == Step::RunConsensus(Answer::Peers)
                    &&& final(self).peer_list() == with_peer(
                        old(self).peer_list(),
                        req.params@["peer"@]@,
                    )
                    &&& final(self).blockchain == old(self).blockchain
                    &&& final(self).transactions == old(self).transactions
                } else {
                    &&& responds(step, Err(NodeError::MalformedRequest))
                    &&& *final(self) == *old(self)
                },
                Route::Peers => {
                    &&& responds(step, encoded(list_encoding(old(self).peers@)))
                    &&& *final(self) == *old(self)
                },
                Route::Verify => {
                    &&& responds(step, Ok(truth_text(chain_valid(old(self).blockchain@))))
                    &&& *final(self) == *old(self)
                },
                Route::Unknown => {
                    &&& responds(step, Err(NodeError::UnknownRoute))
                    &&& *final(self) == *old(self)
                },
            },
            old(self).wf() ==> final(self).wf(),
    {
        match route(&req) {
            Route::Transaction => Step::DecodeTransaction(req.body),
            Route::Mine => {
                let address = match req.param("address") {
                    Some(address) => address.clone(),
                    None => {
                        return Step::Respond(Err(NodeError::MalformedRequest));
                    },
                };
                match self.mine(address) {
                    Ok(block) => Step::Respond(encoded_response(block.encode())),
                    Err(e) => Step::Respond(Err(e)),
                }
            },
            Route::Consensus => Step::RunConsensus(Answer::Chain),
            Route::Blocks => Step::Respond(encoded_response(encode_list(&self.blockchain))),
            Route::Balance => {
                let address = match req.param("address") {
                    Some(address) => address,
                    None => {
                        return Step::Respond(Err(NodeError::MalformedRequest));
                    },
                };
                match self.balance(address) {
                    Some(balance) => Step::Respond(Ok(ok_response(signed_decimal_string(balance)))),
                    None => Step::Respond(Err(NodeError::Overflow)),
                }
            },
            Route::Connect => {
                match req.param("peer") {
                    Some(peer) => {
                        self.add_peer(peer.clone());
                        Step::RunConsensus(Answer::Peers)
                    },
                    None => Step::Respond(Err(NodeError::MalformedRequest)),
                }
            },
            Route::Peers => Step::Respond(encoded_response(encode_list(&self.peers))),
            Route::Verify => {
                let verdict = if self.verify() {
                    String::from_str("true")
                } else {
                    String::from_str("false")
                };
                Step::Respond(Ok(ok_response(verdict)))
            },
            Route::Unknown => Step::Respond(Err(NodeError::UnknownRoute)),
        }
    }

    /// Finishes a transaction request once the body has been decoded. A
    /// decoded transaction joins the pool and the body is echoed; a body
    /// that is no transaction is refused and changes nothing.
    pub fn submit(&mut self, body: String, decoded: Option<Transaction>) -> (res: Result<
        HttpResponse,
        NodeError,
    >)
        ensures
            match decoded {
                Some(t) => {
                    &&& shows(res, Ok(body@))
                    &&& final(self).transactions@ == old(self).transactions@.push(t)
                    &&& final(self).blockchain == old(self).blockchain
                    &&& final(self).peers == old(self).peers
                },
                None => {
                    &&& shows(res, Err(NodeError::MalformedRequest))
                    &&& *final(self) == *old(self)
                },
            },
            old(self).wf() ==> final(self).wf(),
    {
        match decoded {
            Some(trans) => {
                let res = ok_response(body);
                self.transaction(trans);
                Ok(res)
            },
            None => Err(NodeError::MalformedRequest),
        }
    }

    /// Makes the response that follows a consensus pass: the chain or the
    /// peers, as they now are.
    pub fn answer(&self, which: Answer) -> (res: Result<HttpResponse, NodeError>)
        ensures
            shows(
                res,
                match which {
                    Answer::Chain => encoded(list_encoding(self.blockchain@)),
                    Answer::Peers => encoded(list_encoding(self.peers@)),
                },
            ),
    {
        match which {
            Answer::Chain => encoded_response(encode_list(&self.blockchain)),
            Answer::Peers => encoded_response(encode_list(&self.peers)),
        }
    }
}

} // verus!

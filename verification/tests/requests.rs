use blockchain::block::Block;
use blockchain::error::NodeError;
use blockchain::http::{HttpRequest, HttpResponse};
use blockchain::ledger::{Transaction, TransactionBlockData};
use blockchain::node::BlockchainNode;
use blockchain::service::{encoded_response, ok_response, route, Answer, Route, Step};
use blockchain::wire::{encode_list, Encode};

type Node = BlockchainNode<TransactionBlockData>;

fn fresh() -> Node {
    BlockchainNode::new(Node::genesis_block())
}

fn request(method: &str, path: &str, params: &[(&str, &str)], body: &str) -> HttpRequest {
    HttpRequest::new(
        method.to_string(),
        path.to_string(),
        params.iter().map(|(k, v)| (k.to_string(), v.to_string())).collect(),
        vec![],
        body.to_string(),
    )
}

fn get(path: &str, params: &[(&str, &str)]) -> HttpRequest {
    request("GET", path, params, "")
}

fn body_of(step: Step) -> String {
    match step {
        Step::Respond(Ok(res)) => {
            assert_eq!(res.status, "200 OK");
            assert!(res.headers.is_empty());
            res.body
        }
        other => panic!("no response: {:?}", other),
    }
}

fn failure_of(step: Step) -> NodeError {
    match step {
        Step::Respond(Err(e)) => e,
        other => panic!("no failure: {:?}", other),
    }
}

#[test]
fn response_is_written_with_status_headers_and_body() {
    let res = HttpResponse::new("200 OK".to_string(), vec![], "body".to_string());
    assert_eq!(res.to_string(), "HTTP/1.1 200 OK\r\n\r\nbody");
    let one = HttpResponse::new("404 Not Found".to_string(), vec!["A: 1".to_string()], String::new());
    assert_eq!(one.to_string(), "HTTP/1.1 404 Not Found\r\nA: 1\r\n");
    let two = HttpResponse::new(
        "200 OK".to_string(),
        vec!["A: 1".to_string(), "B: 2".to_string(), "C: 3".to_string()],
        "x".to_string(),
    );
    assert_eq!(two.to_string(), "HTTP/1.1 200 OK\r\nA: 1\r\nB: 2\r\nC: 3\r\nx");
}

#[test]
fn request_keeps_the_last_value_of_a_parameter() {
    let req = request("GET", "/balance", &[("address", "a"), ("x", "1"), ("address", "b")], "");
    assert_eq!(req.param("address"), Some(&"b".to_string()));
    assert_eq!(req.param("x"), Some(&"1".to_string()));
    assert_eq!(req.param("y"), None);
    assert_eq!(req.method, "GET");
    assert_eq!(req.path, "/balance");
}

#[test]
fn routes_follow_method_and_path() {
    assert_eq!(route(&request("POST", "/transaction", &[], "")), Route::Transaction);
    assert_eq!(route(&request("GET", "/transaction", &[], "")), Route::Unknown);
    assert_eq!(route(&request("POST", "/transactions", &[], "")), Route::Unknown);
    assert_eq!(route(&get("/mine", &[])), Route::Mine);
    assert_eq!(route(&get("/mineral", &[])), Route::Mine);
    assert_eq!(route(&request("POST", "/mine", &[], "")), Route::Unknown);
    assert_eq!(route(&get("/consensus", &[])), Route::Consensus);
    assert_eq!(route(&request("POST", "/consensus", &[], "")), Route::Consensus);
    assert_eq!(route(&get("/blocks", &[])), Route::Blocks);
    assert_eq!(route(&get("/balance", &[])), Route::Balance);
    assert_eq!(route(&get("/connect", &[])), Route::Connect);
    assert_eq!(route(&get("/peers", &[])), Route::Peers);
    assert_eq!(route(&get("/verify", &[])), Route::Verify);
    assert_eq!(route(&get("/", &[])), Route::Unknown);
    assert_eq!(route(&get("", &[])), Route::Unknown);
    assert_eq!(route(&get("/min", &[])), Route::Unknown);
    assert_eq!(route(&get("x/mine", &[])), Route::Unknown);
}

#[test]
fn unknown_request_changes_nothing() {
    let mut node = fresh();
    assert_eq!(failure_of(node.handle_req(get("/nothing", &[]))), NodeError::UnknownRoute);
    assert_eq!(node.blockchain.len(), 1);
}

#[test]
fn blocks_request_shows_the_chain() {
    let mut node = fresh();
    node.mine("m".to_string()).unwrap();
    let expected = encode_list(&node.blockchain).unwrap();
    assert_eq!(body_of(node.handle_req(get("/blocks", &[]))), expected);
    assert!(expected.starts_with("[{\"index\":0,\"timestamp\":\""));
    assert!(expected.contains("},{\"index\":1,"));
}

#[test]
fn balance_request_shows_decimal_text() {
    let mut node = fresh();
    node.transaction(Transaction { from: "A".to_string(), to: "B".to_string(), amount: 10 });
    node.transaction(Transaction { from: "B".to_string(), to: "A".to_string(), amount: 3 });
    assert_eq!(body_of(node.handle_req(get("/balance", &[("address", "A")]))), "-7");
    assert_eq!(body_of(node.handle_req(get("/balance", &[("address", "B")]))), "7");
    assert_eq!(body_of(node.handle_req(get("/balance", &[("address", "C")]))), "0");
    assert_eq!(failure_of(node.handle_req(get("/balance", &[]))), NodeError::MalformedRequest);
}

#[test]
fn verify_request_shows_the_verdict() {
    let mut node = fresh();
    node.mine("m".to_string()).unwrap();
    assert_eq!(body_of(node.handle_req(get("/verify", &[]))), "true");
    node.blockchain[1].data.proof_of_work = 7;
    assert_eq!(body_of(node.handle_req(get("/verify", &[]))), "false");
}

#[test]
fn peers_request_shows_the_peers() {
    let mut node = fresh();
    assert_eq!(body_of(node.handle_req(get("/peers", &[]))), "[]");
    node.add_peer("localhost:1".to_string());
    node.add_peer("localhost:2".to_string());
    assert_eq!(body_of(node.handle_req(get("/peers", &[]))), "[\"localhost:1\",\"localhost:2\"]");
}

#[test]
fn mine_request_shows_the_new_block() {
    let mut node = fresh();
    node.transaction(Transaction { from: "a".to_string(), to: "b".to_string(), amount: 2 });
    let body = body_of(node.handle_req(get("/mine", &[("address", "miner")])));
    assert_eq!(node.blockchain.len(), 2);
    assert!(node.transactions.is_empty());
    assert_eq!(body, node.blockchain[1].encode().unwrap());
    assert!(body.contains("\"data\":{\"proof_of_work\":9,\"transactions\":[{\"from\":\"a\",\"to\":\"b\",\"amount\":2},{\"from\":\"network\",\"to\":\"miner\",\"amount\":1}]}"));
}

#[test]
fn mine_request_without_an_address_changes_nothing() {
    let mut node = fresh();
    node.transaction(Transaction { from: "a".to_string(), to: "b".to_string(), amount: 2 });
    assert_eq!(failure_of(node.handle_req(get("/mine", &[]))), NodeError::MalformedRequest);
    assert_eq!(node.blockchain.len(), 1);
    assert_eq!(node.transactions.len(), 1);
}

#[test]
fn mine_request_reports_why_mining_failed() {
    let mut node = fresh();
    node.blockchain.clear();
    assert_eq!(failure_of(node.handle_req(get("/mine", &[("address", "m")]))), NodeError::EmptyChain);
    let data = TransactionBlockData { proof_of_work: 0, transactions: vec![] };
    let g = Block::new(0, Node::genesis_block().timestamp, data, "0".to_string());
    let mut node = BlockchainNode::new(g);
    assert_eq!(failure_of(node.handle_req(get("/mine", &[("address", "m")]))), NodeError::ZeroProof);
}

#[test]
fn transaction_request_waits_for_its_body_to_be_decoded() {
    let mut node = fresh();
    let body = "{\"from\":\"a\",\"to\":\"b\",\"amount\":4}";
    let step = node.handle_req(request("POST", "/transaction", &[], body));
    let handed = match step {
        Step::DecodeTransaction(text) => text,
        other => panic!("unexpected step: {:?}", other),
    };
    assert_eq!(handed, body);
    assert!(node.transactions.is_empty());
    let decoded = Transaction { from: "a".to_string(), to: "b".to_string(), amount: 4 };
    let res = node.submit(handed, Some(decoded)).unwrap();
    assert_eq!(res.status, "200 OK");
    assert_eq!(res.body, body);
    assert_eq!(node.transactions.len(), 1);
    assert_eq!(node.transactions[0].amount, 4);
}

#[test]
fn undecodable_transaction_is_refused() {
    let mut node = fresh();
    let res = node.submit("garbage".to_string(), None);
    assert!(matches!(res, Err(NodeError::MalformedRequest)));
    assert!(node.transactions.is_empty());
}

#[test]
fn consensus_request_asks_for_a_pass_and_then_shows_the_chain() {
    let mut node = fresh();
    let step = node.handle_req(get("/consensus", &[]));
    assert!(matches!(step, Step::RunConsensus(Answer::Chain)));
    let longer = {
        let mut other = fresh();
        other.mine("x".to_string()).unwrap();
        other.blockchain
    };
    node.find_new_peers(&vec![]);
    node.consensus(vec![Some(longer)]);
    let res = node.answer(Answer::Chain).unwrap();
    assert_eq!(res.body, encode_list(&node.blockchain).unwrap());
    assert_eq!(node.blockchain.len(), 2);
}

#[test]
fn connect_request_adds_the_peer_and_asks_for_a_pass() {
    let mut node = fresh();
    let step = node.handle_req(get("/connect", &[("peer", "localhost:9")]));
    assert!(matches!(step, Step::RunConsensus(Answer::Peers)));
    assert_eq!(node.peers, vec!["localhost:9".to_string()]);
    node.find_new_peers(&vec![Some("[\"localhost:8\"]".to_string())]);
    node.consensus(vec![None, None]);
    let res = node.answer(Answer::Peers).unwrap();
    assert_eq!(res.body, "[\"localhost:9\",\"localhost:8\"]");
    assert_eq!(failure_of(node.handle_req(get("/connect", &[]))), NodeError::MalformedRequest);
    assert_eq!(node.peers.len(), 2);
}

#[test]
fn responses_are_built_around_a_body() {
    let res = ok_response("text".to_string());
    assert_eq!(res.to_string(), "HTTP/1.1 200 OK\r\n\r\ntext");
    assert_eq!(encoded_response(Some("x".to_string())).unwrap().body, "x");
    assert!(matches!(encoded_response(None), Err(NodeError::SerializationFailure)));
}

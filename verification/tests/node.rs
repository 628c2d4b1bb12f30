//! What a node decides, at its start and in each turn.

use routinechain::consensus::Consensus;
use routinechain::crypto::{generate_keypair, sign};
use routinechain::message::{frame, read_message, ConsensusMessage, Peer};
use routinechain::node::{
    ensure_genesis, key_file, parse_key_file, parse_keypair, parse_peers, parse_platform_keys, required_signatures, Node, PendingOutcome, ProduceOutcome, ProposalOutcome,
};
use routinechain::state::StateMachine;
use routinechain::store::Store;
use routinechain::text::to_hex;
use routinechain::types::{Block, Id, NodeConfig, NodeSignature, ParticipantType, PeerConfig, Signature, Transaction, TxPayload};
use routinechain::wire::to_bytes;

type Keys = (Id, [u8; 32]);

/// Nodes that know each other, with the same genesis block, made at time zero.
fn network(keys: &[Keys], min_signatures: usize) -> Vec<Node> {
    keys.iter()
        .map(|me| {
            let peers = keys
                .iter()
                .filter(|k| k.0 != me.0)
                .map(|k| Peer { id: k.0, address: to_hex(&k.0), public_key: k.0 })
                .collect();
            let mut store = Store::new();
            assert!(ensure_genesis(&mut store, 0, keys[0].0));
            let machine = StateMachine::new(store, NodeConfig::default().rcw.rewards);
            Node::new(Consensus::new(me.0, me.1, peers, min_signatures), machine, 0, 1000, 5000, "me:1".to_string())
        })
        .collect()
}

fn keypairs(n: usize) -> Vec<Keys> {
    (0..n).map(|_| generate_keypair()).collect()
}

fn registration(keys: &Keys, nonce: u64) -> Transaction {
    let payload = TxPayload::RegisterParticipant { id: keys.0, p_type: ParticipantType::Buyer, metadata: "b".to_string() };
    let signature = Signature(sign(&to_bytes(&payload), &keys.1));
    Transaction { payload, sender: keys.0, signature, timestamp: 0, nonce }
}

/// Take in a frame, which holds neither a transaction nor a proposal.
fn deliver(node: &mut Node, bytes: &[u8]) -> Option<(String, Vec<u8>)> {
    let (_, msg) = read_message(&bytes[4..]).unwrap();
    let mut txs = Vec::new();
    let mut proposals = Vec::new();
    let reply = node.receive(msg, &mut txs, &mut proposals);
    assert!(txs.is_empty() && proposals.is_empty());
    reply
}

#[test]
fn test_settings() {
    let key = "ab".repeat(32);
    assert_eq!(parse_keypair(&key, &"01".repeat(32)), Some(([0xAB; 32], [1; 32])));
    assert_eq!(parse_keypair(&key, "01"), None);
    assert_eq!(parse_keypair("", &key), None);
    assert_eq!(required_signatures(0, 3), 1);
    assert_eq!(required_signatures(2, 3), 3);

    let config = |id: &str, public_key: &str| PeerConfig { id: id.to_string(), address: "a:1".to_string(), public_key: public_key.to_string() };
    let peers = parse_peers(&vec![config(&key, "xx"), config(&key, &"02".repeat(32)), config("02", &key)]);
    assert_eq!(peers.len(), 1);
    assert_eq!(peers[0].id, [0xAB; 32]);
    assert_eq!(peers[0].public_key, [2; 32]);
    assert_eq!(peers[0].address, "a:1");

    assert_eq!(parse_platform_keys(&vec![key.clone(), "zz".to_string(), "03".repeat(32)]), vec![[0xAB; 32], [3; 32]]);

    let defaults = NodeConfig::default();
    assert_eq!(defaults.consensus.min_signatures, 3);
    assert_eq!(defaults.rpc.address, "0.0.0.0:26657");
    assert_eq!(defaults.rcw.rewards.dispute_won, 50);
    assert_eq!(defaults.dispute.vote_threshold, 3);
}

#[test]
fn test_key_files() {
    let (public_key, private_key) = generate_keypair();
    let text = key_file(&public_key, &private_key);
    assert_eq!(parse_key_file(&text), Some((public_key, private_key)));
    let fields: serde_json::Value = serde_json::from_str(&text).unwrap();
    assert_eq!(fields["public_key"], to_hex(&public_key));
    assert_eq!(fields["private_key"], to_hex(&private_key));

    let (a, b) = ("ab".repeat(32), "01".repeat(32));
    let compact = format!("{{\"private_key\":\"{}\",\"more\":1,\"public_key\":\"{}\"}}", b, a);
    assert_eq!(parse_key_file(&compact), Some(([0xAB; 32], [1; 32])));
    // No JSON, no object, no such field, no string, no key
    assert_eq!(parse_key_file(""), None);
    assert_eq!(parse_key_file("[]"), None);
    assert_eq!(parse_key_file(&format!("{{\"public_key\":\"{}\"}}", a)), None);
    assert_eq!(parse_key_file(&format!("{{\"public_key\":\"{}\",\"private_key\":1}}", a)), None);
    assert_eq!(parse_key_file(&format!("{{\"public_key\":\"{}\",\"private_key\":\"01\"}}", a)), None);
}

#[test]
fn test_genesis_is_made_once() {
    let mut store = Store::new();
    assert!(ensure_genesis(&mut store, 5, [1; 32]));
    assert!(!ensure_genesis(&mut store, 6, [2; 32]));
    let genesis = store.get_block(0).unwrap().unwrap();
    assert_eq!(genesis.header.timestamp, 5);
    assert_eq!(genesis.header.proposer, [1; 32]);
    assert!(genesis.is_genesis());
}

#[test]
fn test_a_node_alone_produces_at_once() {
    let keys = keypairs(1);
    let mut node = network(&keys, 1).remove(0);
    assert!(!node.is_networked());
    assert!(matches!(node.produce(10), Some(ProduceOutcome::Idle)));

    node.push_txs(vec![registration(&keys[0], 1), registration(&keys[0], 2)]);
    match node.produce(10) {
        Some(ProduceOutcome::Made { height: 1, transactions: 1, events: 1, frame: None, stored: true }) => {},
        _ => panic!("a block was due"),
    }
    let block = node.store().get_block(1).unwrap().unwrap();
    assert_eq!(block.header.timestamp, 10);
    assert_eq!(block.header.proposer, keys[0].0);
    assert_eq!(block.header.state_root, node.store().compute_state_root());
    assert!(node.consensus().is_finalized(&block));
    assert!(!node.has_pending_block());

    // Nothing valid: no block
    node.push_txs(vec![registration(&keys[0], 2)]);
    assert!(matches!(node.produce(20), Some(ProduceOutcome::NoneValid)));
    assert_eq!(node.store().get_latest_height(), 1);
    // A node alone changes no view
    assert!(matches!(node.check_view_change(1_000_000), Some(None)));
}

#[test]
fn test_writes_bring_a_store_up_to_date() {
    let keys = keypairs(1);
    let mut node = network(&keys, 1).remove(0);
    let mut disk: Vec<(Vec<u8>, Vec<u8>)> = Vec::new();
    for height in 1..4u64 {
        node.push_txs(vec![registration(&keys[0], height)]);
        node.produce(height as i64);
        disk.extend(node.take_writes());
        assert!(node.take_writes().is_empty());
        let copy = Store::from_entries(disk.clone());
        assert_eq!(copy.get_latest_height(), node.store().get_latest_height());
        assert_eq!(copy.compute_state_root(), node.store().compute_state_root());
        assert_eq!(copy.get_nonce(&keys[0].0), height);
    }
}

#[test]
fn test_leader_and_follower_agree() {
    let keys = keypairs(2);
    let mut nodes = network(&keys, 2);
    let lead = keys.iter().position(|k| k.0 == nodes[0].consensus().leader_for_height(1)).unwrap();
    let mut leader = nodes.remove(lead);
    let mut follower = nodes.remove(0);

    // Not the follower's turn
    follower.push_txs(vec![registration(&keys[1 - lead], 1)]);
    assert!(matches!(follower.produce(10), Some(ProduceOutcome::Idle)));

    leader.push_txs(vec![registration(&keys[lead], 1), registration(&keys[1 - lead], 1)]);
    let proposal = match leader.produce(10) {
        Some(ProduceOutcome::Made { height: 1, transactions: 2, events: 2, frame: Some(f), stored: false }) => f,
        _ => panic!("a proposal was due"),
    };
    assert!(leader.has_pending_block());
    assert_eq!(leader.settle_pending(11), Some(PendingOutcome::Waiting));

    let mut txs = Vec::new();
    let mut proposals = Vec::new();
    let (from, msg) = read_message(&proposal[4..]).unwrap();
    assert_eq!(from, keys[lead].0);
    assert!(follower.receive(msg, &mut txs, &mut proposals).is_none());
    assert_eq!((txs.len(), proposals.len()), (0, 1));
    let block = proposals.remove(0);
    let vote = match follower.handle_proposal(block.clone(), 11) {
        Some(ProposalOutcome::Signed { frame, applied: Some(Ok(events)) }) => {
            assert_eq!(events.len(), 2);
            frame
        },
        _ => panic!("the proposal is good"),
    };
    // Once only
    assert!(matches!(follower.handle_proposal(block, 11), Some(ProposalOutcome::Fork)));

    assert!(deliver(&mut leader, &vote).is_none());
    assert_eq!(leader.settle_pending(12), Some(PendingOutcome::Finalized));
    assert_eq!(leader.settle_pending(12), Some(PendingOutcome::Idle));
    assert_eq!(leader.store().get_latest_height(), 1);
    assert_eq!(leader.store().get_block(1).unwrap().unwrap().signature_count(), 2);
    assert_eq!(follower.store().get_latest_height(), 1);
    assert_eq!(leader.store().compute_state_root(), follower.store().compute_state_root());
}

#[test]
fn test_a_refused_transaction_parts_the_states() {
    // A transaction that is refused uses up its nonce where it was executed, and is
    // left out of the block: whoever applies the block does not use it up.
    let keys = keypairs(2);
    let mut nodes = network(&keys, 2);
    let lead = keys.iter().position(|k| k.0 == nodes[0].consensus().leader_for_height(1)).unwrap();
    let mut leader = nodes.remove(lead);
    let mut follower = nodes.remove(0);
    leader.push_txs(vec![registration(&keys[lead], 1), registration(&keys[lead], 2)]);
    let proposal = match leader.produce(10) {
        Some(ProduceOutcome::Made { transactions: 1, frame: Some(f), .. }) => f,
        _ => panic!("a proposal was due"),
    };
    let block = match read_message(&proposal[4..]).unwrap().1 {
        ConsensusMessage::Propose(block) => block,
        _ => panic!("not a proposal"),
    };
    match follower.handle_proposal(block, 11) {
        Some(ProposalOutcome::Signed { applied: Some(Err(e)), .. }) => assert!(e.starts_with("State root mismatch at height 1")),
        _ => panic!("the roots differ"),
    }
}

#[test]
fn test_a_later_success_covers_a_refusal() {
    // The nonce that the refusal used up is passed by one that is kept
    let keys = keypairs(2);
    let mut nodes = network(&keys, 2);
    let lead = keys.iter().position(|k| k.0 == nodes[0].consensus().leader_for_height(1)).unwrap();
    let mut leader = nodes.remove(lead);
    let mut follower = nodes.remove(0);
    let payload = TxPayload::UpdateParticipant { id: keys[lead].0, metadata: "c".to_string() };
    let signature = Signature(sign(&to_bytes(&payload), &keys[lead].1));
    let update = Transaction { payload, sender: keys[lead].0, signature, timestamp: 0, nonce: 3 };
    leader.push_txs(vec![registration(&keys[lead], 1), registration(&keys[lead], 2), update]);
    let proposal = match leader.produce(10) {
        Some(ProduceOutcome::Made { transactions: 2, frame: Some(f), .. }) => f,
        _ => panic!("a proposal was due"),
    };
    let block = match read_message(&proposal[4..]).unwrap().1 {
        ConsensusMessage::Propose(block) => block,
        _ => panic!("not a proposal"),
    };
    assert!(matches!(follower.handle_proposal(block, 11), Some(ProposalOutcome::Signed { applied: Some(Ok(_)), .. })));
    assert_eq!(leader.store().compute_state_root(), follower.store().compute_state_root());
}

#[test]
fn test_proposals_that_are_not_signed() {
    let keys = keypairs(2);
    let mut nodes = network(&keys, 2);
    let lead = keys.iter().position(|k| k.0 == nodes[0].consensus().leader_for_height(1)).unwrap();
    let leader = Consensus::new(keys[lead].0, keys[lead].1, vec![], 2);
    let follower = &mut nodes[1 - lead];

    assert!(matches!(follower.handle_proposal(Block::genesis(9, keys[lead].0), 11), Some(ProposalOutcome::Genesis)));
    let far = leader.build_block(vec![], 10, 7, [0; 32], [0; 32]);
    assert!(matches!(follower.handle_proposal(far, 11), Some(ProposalOutcome::MissingParent)));
    let astray = leader.build_block(vec![], 10, 1, [9; 32], [0; 32]);
    assert!(matches!(follower.handle_proposal(astray, 11), Some(ProposalOutcome::Rejected)));
    assert_eq!(follower.store().get_latest_height(), 0);
}

#[test]
fn test_signatures_that_do_not_count() {
    let keys = keypairs(3);
    let stranger = generate_keypair();
    let mut nodes = network(&keys, 2);
    let lead = keys.iter().position(|k| k.0 == nodes[0].consensus().leader_for_height(1)).unwrap();
    let leader = &mut nodes[lead];
    leader.push_txs(vec![registration(&keys[lead], 1)]);
    assert!(matches!(leader.produce(10), Some(ProduceOutcome::Made { stored: false, .. })));

    let blank = NodeSignature { node_id: keys[(lead + 1) % 3].0, signature: Signature::default() };
    deliver(leader, &frame(&ConsensusMessage::Sign(1, blank)));
    deliver(leader, &frame(&ConsensusMessage::Sign(1, NodeSignature { node_id: stranger.0, signature: Signature::default() })));
    assert_eq!(leader.settle_pending(10), Some(PendingOutcome::Waiting));

    // Two seconds are four times half of one: after that the block is dropped
    assert_eq!(leader.settle_pending(2010), Some(PendingOutcome::Waiting));
    assert_eq!(leader.settle_pending(2011), Some(PendingOutcome::TimedOut));
    assert!(!leader.has_pending_block());
    assert_eq!(leader.settle_pending(2012), Some(PendingOutcome::Idle));
}

#[test]
fn test_view_change_of_nodes() {
    let keys = keypairs(3);
    let mut nodes = network(&keys, 2);
    let first = nodes[0].consensus().leader_for_height(1);

    // In time
    assert!(matches!(nodes[0].check_view_change(5000), Some(None)));
    // Too late: each votes, and a majority of votes begins the round
    let vote = match nodes[0].check_view_change(5001) {
        Some(Some(f)) => f,
        _ => panic!("a vote was due"),
    };
    assert_eq!(nodes[0].consensus().round(), 0);
    let (from, msg) = read_message(&vote[4..]).unwrap();
    assert_eq!(from, keys[0].0);
    assert!(matches!(msg, ConsensusMessage::ViewChange { height: 1, round: 1, .. }));
    let other = match nodes[1].check_view_change(5001) {
        Some(Some(f)) => f,
        _ => panic!("a vote was due"),
    };
    deliver(&mut nodes[0], &other);
    deliver(&mut nodes[1], &vote);
    assert_eq!(nodes[0].consensus().round(), 1);
    assert_eq!(nodes[1].consensus().round(), 1);
    assert_ne!(nodes[0].consensus().leader_for_height(1), first);
    assert_eq!(nodes[0].consensus().leader_for_height(1), nodes[1].consensus().leader_for_height(1));

    // A clock out of range is told
    assert!(nodes[2].check_view_change(i64::MIN).is_some());
    let late = Consensus::new(keys[0].0, keys[0].1, vec![Peer { id: keys[1].0, address: "x".to_string(), public_key: keys[1].0 }], 1);
    let mut node = Node::new(late, StateMachine::new(Store::new(), NodeConfig::default().rcw.rewards), i64::MIN, 1000, 5000, "x".to_string());
    assert!(node.check_view_change(1).is_none());
}

#[test]
fn test_blocks_taken_in_put_off_a_view_change() {
    let keys = keypairs(2);
    let mut nodes = network(&keys, 1);
    let lead = keys.iter().position(|k| k.0 == nodes[0].consensus().leader_for_height(1)).unwrap();
    let mut leader = nodes.remove(lead);
    let mut follower = nodes.remove(0);
    leader.push_txs(vec![registration(&keys[lead], 1)]);
    let proposal = match leader.produce(3000) {
        Some(ProduceOutcome::Made { frame: Some(f), stored: true, .. }) => f,
        _ => panic!("a proposal was due"),
    };
    let block = match read_message(&proposal[4..]).unwrap().1 {
        ConsensusMessage::Propose(block) => block,
        _ => panic!("not a proposal"),
    };
    assert!(matches!(follower.handle_proposal(block, 4000), Some(ProposalOutcome::Signed { applied: Some(Ok(_)), .. })));
    // Five seconds from when each saw the block
    assert!(matches!(leader.check_view_change(8000), Some(None)));
    assert!(matches!(leader.check_view_change(8001), Some(Some(_))));
    assert!(matches!(follower.check_view_change(9000), Some(None)));
    assert!(matches!(follower.check_view_change(9001), Some(Some(_))));
}

#[test]
fn test_handshakes() {
    let keys = keypairs(2);
    let newcomer = generate_keypair();
    let mut nodes = network(&keys, 2);
    let hello = frame(&ConsensusMessage::Handshake { node_id: newcomer.0, public_key: newcomer.0, listen_addr: "new:9".to_string() });
    let (address, reply) = deliver(&mut nodes[0], &hello).unwrap();
    assert_eq!(address, "new:9");
    assert_eq!(reply, nodes[0].handshake_frame());
    assert_eq!(nodes[0].consensus().peer_count(), 2);
    match read_message(&reply[4..]).unwrap().1 {
        ConsensusMessage::Handshake { node_id, public_key, listen_addr } => {
            assert_eq!((node_id, public_key), (keys[0].0, keys[0].0));
            assert_eq!(listen_addr, "me:1");
        },
        _ => panic!("not a handshake"),
    }
    // Known by now, and oneself always
    assert!(deliver(&mut nodes[0], &hello).is_none());
    let own = nodes[0].handshake_frame();
    assert!(deliver(&mut nodes[0], &own).is_none());
    assert_eq!(nodes[0].consensus().peer_count(), 2);
}

#[test]
fn test_transactions_from_peers_are_listed() {
    let keys = keypairs(1);
    let mut node = network(&keys, 1).remove(0);
    let mut txs = Vec::new();
    let mut proposals = Vec::new();
    node.receive(ConsensusMessage::SubmitTx(registration(&keys[0], 1)), &mut txs, &mut proposals);
    node.receive(ConsensusMessage::RequestTxs, &mut txs, &mut proposals);
    assert_eq!((txs.len(), proposals.len()), (1, 0));
    node.push_txs(txs);
    assert!(node.consensus().has_pending_txs());
}

#[test]
fn test_one_signature_suffices_where_one_is_asked_for() {
    let keys = keypairs(2);
    let mut nodes = network(&keys, 1);
    let lead = keys.iter().position(|k| k.0 == nodes[0].consensus().leader_for_height(1)).unwrap();
    nodes[lead].push_txs(vec![registration(&keys[lead], 1)]);
    assert!(matches!(nodes[lead].produce(10), Some(ProduceOutcome::Made { frame: Some(_), stored: true, .. })));
    assert_eq!(nodes[lead].store().get_latest_height(), 1);
    // The tables turn
    assert_ne!(nodes[lead].consensus().leader_for_height(2), keys[lead].0);
}

//! Leaders, proposals, signatures and peers.

use routinechain::consensus::{block_header_hash, compute_tx_hash, Consensus};
use routinechain::crypto::{generate_keypair, verify};
use routinechain::message::Peer;
use routinechain::types::{BlockHeader, Id, NodeSignature, Signature, Transaction, TxPayload, EMPTY_HASH};
use routinechain::wire::to_bytes;

fn make_node(_seed: u8) -> (Id, [u8; 32]) {
    let (pub_key, priv_key) = generate_keypair();
    (pub_key, priv_key)
}

fn make_consensus(node_id: Id, priv_key: [u8; 32], peers: Vec<Peer>, min_sigs: usize) -> Consensus {
    Consensus::new(node_id, priv_key, peers, min_sigs)
}

#[test]
fn test_leader_rotation() {
    let (id1, pk1) = make_node(1);
    let (id2, _pk2) = make_node(2);
    let (id3, _pk3) = make_node(3);

    let peers = vec![
        Peer { id: id2, address: "127.0.0.1:1".to_string(), public_key: id2 },
        Peer { id: id3, address: "127.0.0.1:2".to_string(), public_key: id3 },
    ];

    let c = make_consensus(id1, pk1, peers, 2);

    let mut leaders = Vec::new();
    for h in 0..6 {
        leaders.push(c.is_leader(h));
    }
    // Pattern repeats every 3 blocks
    assert_eq!(leaders[0], leaders[3]);
    assert_eq!(leaders[1], leaders[4]);
    assert_eq!(leaders[2], leaders[5]);
}

#[test]
fn test_solo_node_always_leader() {
    let (id, pk) = make_node(1);
    let c = make_consensus(id, pk, vec![], 1);

    for h in 0..10 {
        assert!(c.is_leader(h));
    }
}

#[test]
fn test_propose_block() {
    let (id, pk) = make_node(1);
    let mut c = make_consensus(id, pk, vec![], 1);

    let block = c.propose_block(1, EMPTY_HASH, EMPTY_HASH);

    assert_eq!(block.header.height, 1);
    assert_eq!(block.header.proposer, id);
    assert_eq!(block.header.tx_count, 0);
    assert_eq!(block.header.tx_hash, EMPTY_HASH);
    assert_eq!(block.signatures.len(), 1);
    assert_eq!(block.signatures[0].node_id, id);

    let header_bytes = to_bytes(&block.header);
    assert!(verify(&header_bytes, &block.signatures[0].signature.0, &id));
}

#[test]
fn test_verify_and_sign_valid() {
    let (id1, pk1) = make_node(1);
    let (id2, pk2) = make_node(2);

    let peers_for_1 = vec![
        Peer { id: id2, address: "127.0.0.1:1".to_string(), public_key: id2 },
    ];
    let peers_for_2 = vec![
        Peer { id: id1, address: "127.0.0.1:2".to_string(), public_key: id1 },
    ];

    // Figure out who is leader for height 1 and have THAT node propose
    let c1_temp = make_consensus(id1, pk1, peers_for_1.clone(), 2);
    let leader = c1_temp.leader_for_height(1);

    let (mut proposer_c, verifier_c) = if leader == id1 {
        (
            make_consensus(id1, pk1, peers_for_1, 2),
            make_consensus(id2, pk2, peers_for_2, 2),
        )
    } else {
        (
            make_consensus(id2, pk2, peers_for_2, 2),
            make_consensus(id1, pk1, peers_for_1, 2),
        )
    };

    let block = proposer_c.propose_block(1, EMPTY_HASH, EMPTY_HASH);

    // Verifier signs
    let sig = verifier_c.verify_and_sign(&block, &EMPTY_HASH);
    assert!(sig.is_some());

    let sig = sig.unwrap();
    let header_bytes = to_bytes(&block.header);
    assert!(verify(&header_bytes, &sig.signature.0, &sig.node_id));
}

#[test]
fn test_verify_and_sign_bad_prev_hash() {
    let (id1, pk1) = make_node(1);
    let (id2, pk2) = make_node(2);

    let peers_for_1 = vec![
        Peer { id: id2, address: "127.0.0.1:1".to_string(), public_key: id2 },
    ];
    let peers_for_2 = vec![
        Peer { id: id1, address: "127.0.0.1:2".to_string(), public_key: id1 },
    ];

    let c1_temp = make_consensus(id1, pk1, peers_for_1.clone(), 2);
    let leader = c1_temp.leader_for_height(1);

    let (mut proposer_c, verifier_c) = if leader == id1 {
        (
            make_consensus(id1, pk1, peers_for_1, 2),
            make_consensus(id2, pk2, peers_for_2, 2),
        )
    } else {
        (
            make_consensus(id2, pk2, peers_for_2, 2),
            make_consensus(id1, pk1, peers_for_1, 2),
        )
    };

    let block = proposer_c.propose_block(1, EMPTY_HASH, EMPTY_HASH);

    let wrong_prev = [1u8; 32];
    let sig = verifier_c.verify_and_sign(&block, &wrong_prev);
    assert!(sig.is_none());
}

#[test]
fn test_verify_rejects_wrong_proposer() {
    let (id1, pk1) = make_node(1);
    let (id2, pk2) = make_node(2);

    let peers_for_1 = vec![
        Peer { id: id2, address: "127.0.0.1:1".to_string(), public_key: id2 },
    ];
    let peers_for_2 = vec![
        Peer { id: id1, address: "127.0.0.1:2".to_string(), public_key: id1 },
    ];

    let c1_temp = make_consensus(id1, pk1, peers_for_1.clone(), 2);
    let leader = c1_temp.leader_for_height(1);

    // Have the NON-leader propose (should be rejected)
    let (mut wrong_proposer, verifier) = if leader == id1 {
        (
            make_consensus(id2, pk2, peers_for_2, 2),
            make_consensus(id1, pk1, peers_for_1, 2),
        )
    } else {
        (
            make_consensus(id1, pk1, peers_for_1, 2),
            make_consensus(id2, pk2, peers_for_2, 2),
        )
    };

    let block = wrong_proposer.propose_block(1, EMPTY_HASH, EMPTY_HASH);
    let sig = verifier.verify_and_sign(&block, &EMPTY_HASH);
    assert!(sig.is_none()); // Rejected: wrong proposer
}

#[test]
fn test_finalization_threshold_unique_sigs() {
    let (id1, pk1) = make_node(1);
    let (id2, pk2) = make_node(2);
    let (id3, pk3) = make_node(3);

    let all_peers_for = |me: Id, me_pk: [u8; 32], others: Vec<(Id, [u8; 32])>| {
        let peers: Vec<Peer> = others.iter().map(|(id, _)| {
            Peer { id: *id, address: "x".to_string(), public_key: *id }
        }).collect();
        make_consensus(me, me_pk, peers, 3)
    };

    let mut c1 = all_peers_for(id1, pk1, vec![(id2, pk2), (id3, pk3)]);
    let c2 = all_peers_for(id2, pk2, vec![(id1, pk1), (id3, pk3)]);
    let c3 = all_peers_for(id3, pk3, vec![(id1, pk1), (id2, pk2)]);

    // Find height where id1 is leader
    let mut h = 0;
    while !c1.is_leader(h) { h += 1; }

    let mut block = c1.propose_block(h, EMPTY_HASH, EMPTY_HASH);
    assert!(!c1.is_finalized(&block)); // 1 sig

    // Add sig from node2
    block.signatures.push(c2.verify_and_sign(&block, &EMPTY_HASH).unwrap());
    assert!(!c1.is_finalized(&block)); // 2 unique sigs

    // Add DUPLICATE sig from node2 (should not count)
    block.signatures.push(c2.verify_and_sign(&block, &EMPTY_HASH).unwrap());
    assert!(!c1.is_finalized(&block)); // still 2 unique sigs

    // Add sig from node3
    block.signatures.push(c3.verify_and_sign(&block, &EMPTY_HASH).unwrap());
    assert!(c1.is_finalized(&block)); // 3 unique sigs = finalized
}

#[test]
fn test_finalization_rejects_invalid_sig() {
    let (id1, pk1) = make_node(1);
    let (id2, _pk2) = make_node(2);

    let peers = vec![
        Peer { id: id2, address: "x".to_string(), public_key: id2 },
    ];

    let mut c1 = make_consensus(id1, pk1, peers, 2);

    let mut h = 0;
    while !c1.is_leader(h) { h += 1; }

    let mut block = c1.propose_block(h, EMPTY_HASH, EMPTY_HASH);

    // Add a forged signature (wrong bytes)
    block.signatures.push(NodeSignature {
        node_id: id2,
        signature: Signature([0xFFu8; 64]),
    });
    assert!(!c1.is_finalized(&block)); // forged sig doesn't count
}

#[test]
fn test_block_header_hash_deterministic() {
    let header = BlockHeader {
        height: 1,
        prev_hash: EMPTY_HASH,
        timestamp: 12345,
        tx_count: 0,
        tx_hash: EMPTY_HASH,
        state_root: EMPTY_HASH,
        proposer: [1u8; 32],
    };

    let h1 = block_header_hash(&header);
    let h2 = block_header_hash(&header);
    assert_eq!(h1, h2);

    let header2 = BlockHeader {
        height: 2,
        ..header.clone()
    };
    let h3 = block_header_hash(&header2);
    assert_ne!(h1, h3);
}

#[test]
fn test_view_change_rotates_leader() {
    let (id1, pk1) = make_node(1);
    let (id2, _pk2) = make_node(2);
    let (id3, _pk3) = make_node(3);

    let peers = vec![
        Peer { id: id2, address: "x".to_string(), public_key: id2 },
        Peer { id: id3, address: "x".to_string(), public_key: id3 },
    ];

    let mut c1 = make_consensus(id1, pk1, peers, 2);

    let leader_r0 = c1.leader_for_height(1);

    // Single node votes for view change — not enough
    assert!(!c1.request_view_change(1));

    // Receive vote from another node — now 2/3 = majority
    let other = if id2 != id1 { id2 } else { id3 };
    let changed = c1.receive_view_change(1, 1, &other);
    assert!(changed);
    assert_eq!(c1.round(), 1);

    // Leader should be different after view change
    let leader_r1 = c1.leader_for_height(1);
    assert_ne!(leader_r0, leader_r1);

    // Reset round on block finalization
    c1.reset_round();
    assert_eq!(c1.round(), 0);
    assert_eq!(c1.leader_for_height(1), leader_r0);
}

#[test]
fn test_peer_discovery() {
    let (id1, pk1) = make_node(1);
    let (id2, _pk2) = make_node(2);
    let (id3, _pk3) = make_node(3);

    let mut c = make_consensus(id1, pk1, vec![], 1);
    assert_eq!(c.peer_count(), 0);

    // Add new peer
    assert!(c.add_peer(id2, id2, "127.0.0.1:1000".to_string()));
    assert_eq!(c.peer_count(), 1);

    // Duplicate rejected
    assert!(!c.add_peer(id2, id2, "127.0.0.1:1000".to_string()));
    assert_eq!(c.peer_count(), 1);

    // Self rejected
    assert!(!c.add_peer(id1, id1, "127.0.0.1:2000".to_string()));
    assert_eq!(c.peer_count(), 1);

    // Third peer added
    assert!(c.add_peer(id3, id3, "127.0.0.1:3000".to_string()));
    assert_eq!(c.peer_count(), 2);
}

#[test]
fn test_compute_tx_hash() {
    let hash_empty = compute_tx_hash(&[]);
    assert_eq!(hash_empty, EMPTY_HASH);

    let tx = Transaction {
        payload: TxPayload::DeactivateParticipant { id: [1u8; 32] },
        sender: [2u8; 32],
        signature: Signature::default(),
        timestamp: 1000,
        nonce: 1,
    };

    let h1 = compute_tx_hash(&[tx.clone()]);
    let h2 = compute_tx_hash(&[tx]);
    assert_eq!(h1, h2);
    assert_ne!(h1, EMPTY_HASH);
}

#[test]
fn test_a_strangers_signature_is_no_proposal() {
    let (id1, pk1) = generate_keypair();
    let (id2, pk2) = generate_keypair();
    let (stranger, stranger_pk) = generate_keypair();
    let peer = |id: Id| Peer { id, address: "x".to_string(), public_key: id };
    let c1 = Consensus::new(id1, pk1, vec![peer(id2)], 2);
    let c2 = Consensus::new(id2, pk2, vec![peer(id1)], 2);
    let mut h = 0;
    while !c1.is_leader(h) {
        h += 1;
    }

    // In the leader's name, but signed by a node that nobody knows
    let mut block = c1.build_block(vec![], 5, h, EMPTY_HASH, EMPTY_HASH);
    assert!(c2.verify_and_sign(&block, &EMPTY_HASH).is_some());
    let own = block.signatures[0].clone();
    block.signatures[0] = Consensus::new(stranger, stranger_pk, vec![], 1).sign_header(&block.header);
    assert!(c2.verify_and_sign(&block, &EMPTY_HASH).is_none());
    // The leader's own behind it does not help
    block.signatures.push(own.clone());
    assert!(c2.verify_and_sign(&block, &EMPTY_HASH).is_none());
    // Nor does one in the follower's own name, or another peer's
    block.signatures[0] = NodeSignature { node_id: id2, signature: Signature::default() };
    assert!(c2.verify_and_sign(&block, &EMPTY_HASH).is_none());
    let c3 = Consensus::new(stranger, stranger_pk, vec![peer(id1), peer(id2)], 2);
    let mut h = 0;
    while c3.leader_for_height(h) != id1 {
        h += 1;
    }
    let mut block = c1.build_block(vec![], 5, h, EMPTY_HASH, EMPTY_HASH);
    assert!(c3.verify_and_sign(&block, &EMPTY_HASH).is_some());
    block.signatures[0] = c2.sign_header(&block.header);
    assert!(c3.verify_and_sign(&block, &EMPTY_HASH).is_none());
}

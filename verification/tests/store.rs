//! Records in the store.

use routinechain::store::Store;
use routinechain::types::{AnchorRecord, Block, Dispute, DisputeState, Escrow, EscrowState, Id, Participant, RCWBalance, SettlementRecord};
use routinechain::wire::to_bytes;

#[test]
fn test_block_storage() {
    let mut store = Store::new();

    let block = Block::genesis(1000, [1u8; 32]);
    store.put_block(&block).unwrap();

    let loaded = store.get_block(0).unwrap().unwrap();
    assert_eq!(loaded.header.height, 0);
    assert_eq!(store.get_latest_height(), 0);
}

#[test]
fn test_balance_default() {
    let store = Store::new();
    let id = [42u8; 32];

    let bal = store.get_balance(&id).unwrap();
    assert_eq!(bal.total(), 0);
}

#[test]
fn test_nonce_storage() {
    let mut store = Store::new();
    let sender = [5u8; 32];

    assert_eq!(store.get_nonce(&sender), 0);

    store.set_nonce(&sender, 3).unwrap();
    assert_eq!(store.get_nonce(&sender), 3);

    store.set_nonce(&sender, 10).unwrap();
    assert_eq!(store.get_nonce(&sender), 10);
}

#[test]
fn test_batch_atomic_write() {
    let mut store = Store::new();
    let id1 = [1u8; 32];
    let id2 = [2u8; 32];

    let mut batch = store.new_batch();
    batch.set_participant(&id1, &Participant {
        id: id1,
        p_type: 1,
        metadata: "p1".to_string(),
        is_active: true,
        ..Default::default()
    });
    batch.set_participant(&id2, &Participant {
        id: id2,
        p_type: 2,
        metadata: "p2".to_string(),
        is_active: true,
        ..Default::default()
    });
    batch.set_nonce(&id1, 5);

    // Before commit, data should not be visible
    assert!(store.get_participant(&id1).unwrap().is_none());

    store.commit_batch(batch).unwrap();

    // After commit, all writes visible atomically
    assert_eq!(store.get_participant(&id1).unwrap().unwrap().metadata, "p1");
    assert_eq!(store.get_participant(&id2).unwrap().unwrap().metadata, "p2");
    assert_eq!(store.get_nonce(&id1), 5);
}

#[test]
fn test_state_root_deterministic() {
    let mut store = Store::new();

    // Empty state root
    let root1 = store.compute_state_root();

    // Add a participant
    let id = [1u8; 32];
    let p = Participant {
        id,
        p_type: 1,
        metadata: "test".to_string(),
        is_active: true,
        ..Default::default()
    };
    store.set_participant(&id, &p).unwrap();

    let root2 = store.compute_state_root();
    assert_ne!(root1, root2); // state changed

    // Same state produces same root
    let root3 = store.compute_state_root();
    assert_eq!(root2, root3);
}

fn key(prefix: &[u8; 4], id: &Id) -> Vec<u8> {
    let mut k = prefix.to_vec();
    k.extend_from_slice(id);
    k
}

fn escrow(id: Id) -> Escrow {
    Escrow {
        id,
        buyer: [1; 32],
        seller: [2; 32],
        amount: 3,
        state: EscrowState::Created,
        created_at: 4,
        expires_at: 5,
        evidence_hash: None,
        dispute_id: None,
    }
}

fn dispute(id: Id) -> Dispute {
    Dispute {
        id,
        escrow_id: [1; 32],
        raised_by: [2; 32],
        reason: 0,
        evidence_hashes: vec![[3; 32]],
        votes: vec![],
        state: DisputeState::Raised,
        resolution: None,
        raised_at: 4,
        resolved_at: None,
    }
}

fn settlement(id: Id) -> SettlementRecord {
    SettlementRecord {
        record_id: id,
        participant_id: [1; 32],
        gross_amount: 10,
        platform_fee: 1,
        net_amount: 9,
        currency: *b"KRW\0",
        settled_at: 1,
        recorded_at: 2,
    }
}

fn anchor(id: Id) -> AnchorRecord {
    AnchorRecord { batch_id: id, merkle_root: [9; 32], entry_count: 1, from_entry_id: 2, to_entry_id: 3, anchored_at: 4 }
}

#[test]
fn test_each_kind_of_record_is_read_back() {
    let mut store = Store::new();
    let id = [7u8; 32];
    store.set_participant(&id, &Participant { id, total_tx: 11, ..Default::default() }).unwrap();
    store.set_settlement(&id, &settlement(id)).unwrap();
    store.set_balance(&id, &RCWBalance { owner: id, earned: 12, purchased: 13 }).unwrap();
    store.set_escrow(&id, &escrow(id)).unwrap();
    store.set_dispute(&id, &dispute(id)).unwrap();
    store.set_nonce(&id, 14).unwrap();
    store.set_anchor(&id, &anchor(id)).unwrap();

    // One id serves all kinds
    assert_eq!(store.get_participant(&id).unwrap().unwrap().total_tx, 11);
    assert_eq!(store.get_settlement(&id).unwrap().unwrap().net_amount, 9);
    assert_eq!(store.get_balance(&id).unwrap().total(), 25);
    assert_eq!(store.get_escrow(&id).unwrap().unwrap().expires_at, 5);
    assert_eq!(store.get_dispute(&id).unwrap().unwrap().evidence_hashes, vec![[3; 32]]);
    assert_eq!(store.get_nonce(&id), 14);
    assert_eq!(store.get_anchor(&id).unwrap().unwrap().merkle_root, [9; 32]);

    let other = [8u8; 32];
    assert!(store.get_participant(&other).unwrap().is_none());
    assert!(store.get_settlement(&other).unwrap().is_none());
    assert!(store.get_escrow(&other).unwrap().is_none());
    assert!(store.get_dispute(&other).unwrap().is_none());
    assert!(store.get_anchor(&other).unwrap().is_none());
    assert_eq!(store.get_balance(&other).unwrap().owner, other);
}

#[test]
fn test_last_write_wins() {
    let mut store = Store::new();
    let id = [7u8; 32];
    store.set_balance(&id, &RCWBalance { owner: id, earned: 1, purchased: 0 }).unwrap();
    store.set_balance(&id, &RCWBalance { owner: id, earned: 2, purchased: 0 }).unwrap();
    assert_eq!(store.get_balance(&id).unwrap().earned, 2);

    let mut batch = store.new_batch();
    batch.set_balance(&id, &RCWBalance { owner: id, earned: 3, purchased: 0 });
    batch.set_balance(&id, &RCWBalance { owner: id, earned: 4, purchased: 0 });
    batch.set_settlement(&id, &settlement(id));
    batch.set_escrow(&id, &escrow(id));
    batch.set_dispute(&id, &dispute(id));
    store.commit_batch(batch).unwrap();
    assert_eq!(store.get_balance(&id).unwrap().earned, 4);
    assert!(store.get_settlement(&id).unwrap().is_some());
    assert!(store.get_escrow(&id).unwrap().is_some());
    assert!(store.get_dispute(&id).unwrap().is_some());
}

#[test]
fn test_records_that_cannot_be_read() {
    let id = [7u8; 32];
    let mut height = b"blk/".to_vec();
    height.extend_from_slice(&3u64.to_be_bytes());
    let mut entries: Vec<(Vec<u8>, Vec<u8>)> =
        [b"prt/", b"stl/", b"bal/", b"esc/", b"dsp/", b"nnc/", b"anc/"].iter().map(|p| (key(p, &id), vec![1, 2, 3])).collect();
    entries.push((height, vec![9]));
    entries.push((b"meta/latest_height".to_vec(), vec![0, 0, 0, 3]));
    let store = Store::from_entries(entries);
    assert!(store.get_participant(&id).is_err());
    assert!(store.get_settlement(&id).is_err());
    assert!(store.get_balance(&id).is_err());
    assert!(store.get_escrow(&id).is_err());
    assert!(store.get_dispute(&id).is_err());
    assert!(store.get_anchor(&id).is_err());
    assert!(store.get_block(3).is_err());
    // In the words of what reads them
    let short = bincode::deserialize::<Id>(&[1, 2, 3]).unwrap_err().to_string();
    assert_eq!(store.get_balance(&id).unwrap_err(), short);
    // Numbers of another length than eight bytes count as none
    assert_eq!(store.get_nonce(&id), 0);
    assert_eq!(store.get_latest_height(), 0);
}

#[test]
fn test_numbers_are_kept_big_endian() {
    let mut store = Store::new();
    let id = [7u8; 32];
    store.set_nonce(&id, 0x0102).unwrap();
    store.put_block(&Block::genesis(1, id)).unwrap();
    let writes = store.take_writes();
    assert_eq!(writes[0], (key(b"nnc/", &id), vec![0, 0, 0, 0, 0, 0, 1, 2]));
    assert_eq!(writes[1], (vec![b'b', b'l', b'k', b'/', 0, 0, 0, 0, 0, 0, 0, 0], to_bytes(&Block::genesis(1, id))));
    assert_eq!(writes[2], (b"meta/latest_height".to_vec(), vec![0; 8]));
    assert_eq!(writes.len(), 3);
}

#[test]
fn test_state_root_is_a_hash_of_the_sections() {
    let low = [1u8; 32];
    let high = [2u8; 32];
    let mut store = Store::new();
    store.set_anchor(&low, &anchor(low)).unwrap();
    store.set_nonce(&high, 5).unwrap();
    store.set_nonce(&low, 6).unwrap();
    store.set_balance(&high, &RCWBalance { owner: high, earned: 1, purchased: 0 }).unwrap();
    store.put_block(&Block::genesis(1, low)).unwrap();

    // Balances, then nonces in the order of their keys, then anchors; no blocks
    let mut hasher = blake3::Hasher::new();
    hasher.update(&key(b"bal/", &high));
    hasher.update(&to_bytes(&RCWBalance { owner: high, earned: 1, purchased: 0 }));
    hasher.update(&key(b"nnc/", &low));
    hasher.update(&6u64.to_be_bytes());
    hasher.update(&key(b"nnc/", &high));
    hasher.update(&5u64.to_be_bytes());
    hasher.update(&key(b"anc/", &low));
    hasher.update(&to_bytes(&anchor(low)));
    assert_eq!(store.compute_state_root(), *hasher.finalize().as_bytes());
    assert_eq!(Store::new().compute_state_root(), *blake3::hash(b"").as_bytes());
}

#[test]
fn test_state_root_ignores_the_order_of_writes() {
    let ids: Vec<Id> = (0..20u8).map(|i| [i.wrapping_mul(37); 32]).collect();
    let mut up = Store::new();
    let mut down = Store::new();
    for id in &ids {
        up.set_nonce(id, id[0] as u64).unwrap();
    }
    for id in ids.iter().rev() {
        down.set_nonce(id, 1).unwrap();
        down.set_nonce(id, id[0] as u64).unwrap();
    }
    assert_eq!(up.compute_state_root(), down.compute_state_root());
    let copy = up.duplicate();
    up.set_nonce(&ids[3], 1000).unwrap();
    assert_eq!(copy.compute_state_root(), down.compute_state_root());
    assert_ne!(up.compute_state_root(), down.compute_state_root());
}

#[test]
fn test_each_record_counts_in_the_state_root() {
    let id = [7u8; 32];
    let mut store = Store::new();
    let mut roots = vec![store.compute_state_root()];
    store.set_participant(&id, &Participant { id, ..Default::default() }).unwrap();
    roots.push(store.compute_state_root());
    store.set_participant(&id, &Participant { id, total_tx: 1, ..Default::default() }).unwrap();
    roots.push(store.compute_state_root());
    store.set_settlement(&id, &settlement(id)).unwrap();
    roots.push(store.compute_state_root());
    store.set_balance(&id, &RCWBalance { owner: id, earned: 0, purchased: 0 }).unwrap();
    roots.push(store.compute_state_root());
    store.set_escrow(&id, &escrow(id)).unwrap();
    roots.push(store.compute_state_root());
    store.set_dispute(&id, &dispute(id)).unwrap();
    roots.push(store.compute_state_root());
    store.set_nonce(&id, 1).unwrap();
    roots.push(store.compute_state_root());
    store.set_nonce(&id, 2).unwrap();
    roots.push(store.compute_state_root());
    store.set_anchor(&id, &anchor(id)).unwrap();
    roots.push(store.compute_state_root());
    for i in 0..roots.len() {
        for j in 0..i {
            assert_ne!(roots[i], roots[j]);
        }
    }
    // A block does not count
    store.put_block(&Block::genesis(1, id)).unwrap();
    assert_eq!(store.compute_state_root(), roots[roots.len() - 1]);
}

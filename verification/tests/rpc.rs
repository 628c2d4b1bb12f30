//! What clients are answered.

use routinechain::crypto::{generate_keypair, sign};
use routinechain::rpc::{
    accept_tx, get_balance, get_block, get_dispute, get_escrow, get_participant, get_settlement, get_status, get_trust_score, hex_to_id, submitted, Status,
    SubmitTxRequest,
};
use routinechain::store::Store;
use routinechain::text::to_hex;
use routinechain::types::{Block, Escrow, EscrowState, Participant, RCWBalance, SettlementRecord, TxPayload};
use routinechain::wire::to_bytes;

#[test]
fn test_get_status() {
    let store = Store::new();
    let resp = get_status(&store, "1.2.3");
    assert!(resp.result);
    assert_eq!(resp.message, "ok");
    let data = resp.data.unwrap();
    assert_eq!(data.chain, "routinechain");
    assert_eq!(data.latest_height, 0);
    assert_eq!(data.version, "1.2.3");
}

#[test]
fn test_get_participant_not_found() {
    let store = Store::new();
    let hex_id = "01".repeat(32);
    assert!(matches!(get_participant(&store, &hex_id), Err(Status::NotFound)));
}

#[test]
fn test_get_balance_default() {
    let store = Store::new();
    let hex_id = "02".repeat(32);
    let resp = get_balance(&store, &hex_id).unwrap().ok().unwrap();
    let data = resp.data.unwrap();
    assert_eq!(data.owner, hex_id);
    assert_eq!(data.total, 0);
}

#[test]
fn test_get_block_not_found() {
    let store = Store::new();
    assert!(matches!(get_block(&store, 999), Err(Status::NotFound)));
}

#[test]
fn test_get_dispute_not_found() {
    let store = Store::new();
    let hex_id = "03".repeat(32);
    assert!(matches!(get_dispute(&store, &hex_id), Err(Status::NotFound)));
}

#[test]
fn test_get_block_found() {
    let mut store = Store::new();
    let block = Block::genesis(1000, [0u8; 32]);
    store.put_block(&block).unwrap();
    let resp = get_block(&store, 0).ok().unwrap();
    assert!(resp.result);
    assert_eq!(resp.data.unwrap().header.timestamp, 1000);
}

#[test]
fn test_invalid_hex_id() {
    let store = Store::new();
    assert!(matches!(get_participant(&store, "not-hex"), Err(Status::BadRequest)));
}

#[test]
fn test_ids_in_text() {
    assert_eq!(hex_to_id(&"0a".repeat(32)), Ok([10u8; 32]));
    assert_eq!(hex_to_id(&"0A".repeat(32)), Ok([10u8; 32]));
    assert_eq!(hex_to_id(&"0a".repeat(31)), Err("ID must be 32 bytes".to_string()));
    assert_eq!(hex_to_id("0"), Err(hex::FromHexError::OddLength.to_string()));
    assert_eq!(hex_to_id("zz"), Err(hex::decode("zz").unwrap_err().to_string()));
    assert_eq!(hex_to_id("é"), Err(hex::decode("é").unwrap_err().to_string()));
    assert_eq!(hex_to_id(""), Err("ID must be 32 bytes".to_string()));
}

#[test]
fn test_records_are_found_by_id() {
    let mut store = Store::new();
    let id = [7u8; 32];
    let hex_id = to_hex(&id);
    store.set_participant(&id, &Participant { id, metadata: "m".to_string(), ..Default::default() }).unwrap();
    store
        .set_escrow(&id, &Escrow {
            id,
            buyer: [1; 32],
            seller: [2; 32],
            amount: 3,
            state: EscrowState::Funded,
            created_at: 4,
            expires_at: 5,
            evidence_hash: None,
            dispute_id: Some([6; 32]),
        })
        .unwrap();
    store
        .set_settlement(&id, &SettlementRecord {
            record_id: id,
            participant_id: [1; 32],
            gross_amount: 10,
            platform_fee: 1,
            net_amount: 9,
            currency: *b"KRW\0",
            settled_at: 1,
            recorded_at: 2,
        })
        .unwrap();
    store.set_balance(&id, &RCWBalance { owner: id, earned: 2, purchased: 3 }).unwrap();
    assert_eq!(get_participant(&store, &hex_id).ok().unwrap().data.unwrap().metadata, "m");
    assert_eq!(get_escrow(&store, &hex_id).ok().unwrap().data.unwrap().dispute_id, Some([6; 32]));
    assert_eq!(get_settlement(&store, &hex_id).ok().unwrap().data.unwrap().net_amount, 9);
    let balance = get_balance(&store, &hex_id).unwrap().ok().unwrap().data.unwrap();
    assert_eq!((balance.earned, balance.purchased, balance.total), (2, 3, 5));
    assert!(matches!(get_escrow(&store, "00"), Err(Status::BadRequest)));
    assert!(matches!(get_settlement(&store, &"00".repeat(32)), Err(Status::NotFound)));
}

#[test]
fn test_numbers_out_of_range_are_told() {
    let mut store = Store::new();
    let id = [7u8; 32];
    let hex_id = to_hex(&id);
    store.set_balance(&id, &RCWBalance { owner: id, earned: u64::MAX, purchased: 1 }).unwrap();
    assert!(get_balance(&store, &hex_id).is_none());
    store
        .set_participant(&id, &Participant { id, total_tx: 1, registered_at: i64::MIN, last_activity_at: 0, ..Default::default() })
        .unwrap();
    assert!(get_trust_score(&store, &hex_id).is_none());
}

#[test]
fn test_trust_score_of_a_participant() {
    let mut store = Store::new();
    let id = [7u8; 32];
    store.set_participant(&id, &Participant { id, total_tx: 10, success_tx: 10, total_volume: 50_000, ..Default::default() }).unwrap();
    let profile = get_trust_score(&store, &to_hex(&id)).unwrap().ok().unwrap();
    assert_eq!(profile.score, 3870);
    assert_eq!(profile.participant.total_tx, 10);
    assert!(matches!(get_trust_score(&store, &"00".repeat(32)), Some(Err(Status::NotFound))));
    assert!(matches!(get_trust_score(&store, "x"), Some(Err(Status::BadRequest))));
}

#[test]
fn test_unreadable_records() {
    let id = [7u8; 32];
    let hex_id = to_hex(&id);
    let mut key = b"prt/".to_vec();
    key.extend_from_slice(&id);
    let mut bal_key = b"bal/".to_vec();
    bal_key.extend_from_slice(&id);
    let store = Store::from_entries(vec![(key, vec![1, 2, 3]), (bal_key, vec![])]);
    assert!(matches!(get_participant(&store, &hex_id), Err(Status::NotFound)));
    assert!(matches!(get_trust_score(&store, &hex_id), Some(Err(Status::InternalServerError))));
    assert!(matches!(get_balance(&store, &hex_id), Some(Err(Status::InternalServerError))));
}

fn request(private_key: &[u8; 32], sender: String, nonce: u64) -> SubmitTxRequest {
    let payload = TxPayload::SpendRCW { amount: 5, purpose: "badge".to_string() };
    let signature = to_hex(&sign(&to_bytes(&payload), private_key));
    SubmitTxRequest { payload, sender, signature, nonce }
}

#[test]
fn test_submitted_transactions() {
    let (public_key, private_key) = generate_keypair();
    let (other_key, _) = generate_keypair();

    let tx = accept_tx(request(&private_key, to_hex(&public_key), 9), 1234).ok().unwrap();
    assert_eq!(tx.sender, public_key);
    assert_eq!(tx.nonce, 9);
    assert_eq!(tx.timestamp, 1234);

    // Another sender's
    assert!(matches!(accept_tx(request(&private_key, to_hex(&other_key), 9), 0), Err(Status::Unauthorized)));
    // No id
    assert!(matches!(accept_tx(request(&private_key, "12".to_string(), 9), 0), Err(Status::BadRequest)));
    // No signature
    let mut req = request(&private_key, to_hex(&public_key), 9);
    req.signature = "00".repeat(63);
    assert!(matches!(accept_tx(req, 0), Err(Status::BadRequest)));

    let answer = submitted(true).ok().unwrap();
    assert_eq!(answer.message, "Transaction submitted");
    assert_eq!(answer.data, Some("accepted".to_string()));
    assert!(matches!(submitted(false), Err(Status::InternalServerError)));
}

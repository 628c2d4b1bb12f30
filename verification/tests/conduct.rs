//! What is refused and why, and what always holds.

use routinechain::consensus::Consensus;
use routinechain::crypto::generate_keypair;
use routinechain::message::Peer;
use routinechain::roster::sort_ids;
use routinechain::state::{dispute, escrow, participant, settlement, token, StateMachine};
use routinechain::store::Store;
use routinechain::types::{
    compute_trust_score, Block, BlockHeader, Dispute, DisputeDecision, DisputeReason, DisputeState, Escrow, EscrowState, Event, Id, NodeConfig, Participant,
    ParticipantType, RCWBalance, SettlementData, Signature, Transaction, TxPayload, EMPTY_HASH,
};
use routinechain::types::state::can_score;
use routinechain::votes::VoteBook;

const BUYER: Id = [1; 32];
const SELLER: Id = [2; 32];
const STRANGER: Id = [3; 32];
const ESCROW: Id = [10; 32];
const DISPUTE: Id = [11; 32];

fn err<T>(r: Result<T, String>) -> String {
    match r {
        Ok(_) => panic!("this was to be refused"),
        Err(e) => e,
    }
}

fn register(store: &mut Store, id: Id, p_type: ParticipantType) {
    participant::register(store, &id, &id, p_type, "", 0).unwrap();
}

/// A buyer and a seller with an escrow of 500 that expires at 1000.
fn market() -> Store {
    let mut store = Store::new();
    register(&mut store, BUYER, ParticipantType::Buyer);
    register(&mut store, SELLER, ParticipantType::Seller);
    escrow::create(&mut store, &BUYER, &ESCROW, &BUYER, &SELLER, 500, 1000, 10).unwrap();
    store
}

fn arbiter(store: &mut Store, n: u8) -> Id {
    let id = [n; 32];
    register(store, id, ParticipantType::Arbiter);
    id
}

fn data(record_id: Id) -> SettlementData {
    SettlementData { record_id, gross_amount: 100, platform_fee: 10, net_amount: 90, currency: *b"KRW\0", settled_at: 1 }
}

fn machine(store: Store) -> StateMachine {
    StateMachine::new(store, NodeConfig::default().rcw.rewards)
}

fn tx(sender: Id, nonce: u64, payload: TxPayload) -> Transaction {
    Transaction { payload, sender, signature: Signature::default(), timestamp: 0, nonce }
}

// ── Refusals ──

#[test]
fn test_refusals_of_participants() {
    let mut store = Store::new();
    let unauthorized = "Unauthorized: sender must match participant id";
    assert_eq!(err(participant::register(&mut store, &BUYER, &SELLER, ParticipantType::Buyer, "", 0)), unauthorized);
    assert_eq!(err(participant::update(&mut store, &BUYER, &SELLER, "", 0)), unauthorized);
    assert_eq!(err(participant::deactivate(&mut store, &BUYER, &SELLER)), unauthorized);
    assert_eq!(err(participant::update(&mut store, &BUYER, &BUYER, "", 0)), "Participant not found");
    assert_eq!(err(participant::deactivate(&mut store, &BUYER, &BUYER)), "Participant not found");
    register(&mut store, BUYER, ParticipantType::Buyer);
    assert_eq!(err(participant::register(&mut store, &BUYER, &BUYER, ParticipantType::Arbiter, "", 0)), "Participant already exists");
    assert_eq!(store.get_participant(&BUYER).unwrap().unwrap().p_type, 2);
}

#[test]
fn test_refusals_of_settlements() {
    let mut store = Store::new();
    assert_eq!(err(settlement::record(&mut store, &BUYER, &SELLER, &data([5; 32]), 0, 5)), "Unauthorized: sender must match participant id");
    assert_eq!(err(settlement::record(&mut store, &SELLER, &SELLER, &data([5; 32]), 0, 5)), "Participant not found");
    assert_eq!(err(settlement::record_rating(&mut store, &SELLER, 400, true, 0, 5)), "Participant not found");
    assert!(store.get_settlement(&[5; 32]).unwrap().is_none());
}

#[test]
fn test_refusals_of_escrows() {
    let mut store = market();
    assert_eq!(err(escrow::create(&mut store, &SELLER, &DISPUTE, &BUYER, &SELLER, 1, 1, 1)), "Unauthorized: only buyer can create escrow");
    assert_eq!(err(escrow::create(&mut store, &BUYER, &ESCROW, &BUYER, &SELLER, 1, 1, 1)), "Escrow already exists");
    assert_eq!(err(escrow::create(&mut store, &STRANGER, &DISPUTE, &STRANGER, &SELLER, 1, 1, 1)), "Buyer not found");
    assert_eq!(err(escrow::create(&mut store, &BUYER, &DISPUTE, &BUYER, &STRANGER, 1, 1, 1)), "Seller not found");
    assert_eq!(err(escrow::release(&mut store, &BUYER, &DISPUTE, &EMPTY_HASH, 20, 0)), "Escrow not found");
    assert_eq!(err(escrow::release(&mut store, &SELLER, &ESCROW, &EMPTY_HASH, 20, 0)), "Unauthorized: only buyer can release escrow");
    assert_eq!(err(escrow::release(&mut store, &BUYER, &ESCROW, &EMPTY_HASH, 1001, 0)), "Escrow has expired");
    assert_eq!(err(escrow::refund(&mut store, &BUYER, &DISPUTE, 20)), "Escrow not found");
    assert_eq!(err(escrow::refund(&mut store, &SELLER, &ESCROW, 1000)), "Unauthorized: only buyer can refund, or escrow must be expired");
    escrow::release(&mut store, &BUYER, &ESCROW, &EMPTY_HASH, 1000, 0).unwrap();
    assert_eq!(err(escrow::release(&mut store, &BUYER, &ESCROW, &EMPTY_HASH, 20, 0)), "Escrow cannot be released in state Released");
    assert_eq!(err(escrow::refund(&mut store, &BUYER, &ESCROW, 20)), "Escrow cannot be refunded in state Released");
}

#[test]
fn test_states_are_named_in_refusals() {
    let states = [
        (EscrowState::Released, "Released"),
        (EscrowState::Refunded, "Refunded"),
        (EscrowState::Disputed, "Disputed"),
    ];
    for (state, name) in states {
        let mut store = market();
        let e = store.get_escrow(&ESCROW).unwrap().unwrap();
        store.set_escrow(&ESCROW, &Escrow { state, ..e }).unwrap();
        assert_eq!(err(escrow::release(&mut store, &BUYER, &ESCROW, &EMPTY_HASH, 20, 0)), format!("Escrow cannot be released in state {}", name));
        assert_eq!(err(escrow::refund(&mut store, &BUYER, &ESCROW, 20)), format!("Escrow cannot be refunded in state {}", name));
    }
    // What is funded can be released
    let mut store = market();
    let e = store.get_escrow(&ESCROW).unwrap().unwrap();
    store.set_escrow(&ESCROW, &Escrow { state: EscrowState::Funded, ..e }).unwrap();
    assert_eq!(escrow::release(&mut store, &BUYER, &ESCROW, &[9; 32], 20, 3).unwrap().len(), 3);
    assert_eq!(store.get_escrow(&ESCROW).unwrap().unwrap().evidence_hash, Some([9; 32]));
    assert_eq!(store.get_balance(&BUYER).unwrap().earned, 3);
    assert_eq!(store.get_balance(&SELLER).unwrap().earned, 3);
    assert_eq!(store.get_participant(&SELLER).unwrap().unwrap().total_volume, 500);
}

#[test]
fn test_refusals_of_disputes() {
    let mut store = market();
    let reason = DisputeReason::Damaged;
    assert_eq!(err(dispute::raise(&mut store, &DISPUTE, &DISPUTE, &BUYER, reason, &EMPTY_HASH, 0)), "Escrow not found");
    assert_eq!(
        err(dispute::raise(&mut store, &DISPUTE, &ESCROW, &STRANGER, reason, &EMPTY_HASH, 0)),
        "Unauthorized: only escrow buyer or seller can raise dispute"
    );
    assert_eq!(err(dispute::submit_evidence(&mut store, &BUYER, &DISPUTE, &EMPTY_HASH)), "Dispute not found");
    assert_eq!(err(dispute::vote(&mut store, &DISPUTE, &BUYER, DisputeDecision::Split, 0, 0, 3)), "Dispute not found");
    dispute::raise(&mut store, &DISPUTE, &ESCROW, &BUYER, reason, &EMPTY_HASH, 0).unwrap();
    assert_eq!(
        err(dispute::submit_evidence(&mut store, &STRANGER, &DISPUTE, &EMPTY_HASH)),
        "Unauthorized: only escrow parties can submit evidence"
    );
    assert_eq!(err(dispute::vote(&mut store, &DISPUTE, &STRANGER, DisputeDecision::Split, 0, 0, 3)), "Voter not registered as participant");
    assert_eq!(
        err(dispute::vote(&mut store, &DISPUTE, &BUYER, DisputeDecision::Split, 0, 0, 3)),
        "Unauthorized: only Arbiter participants can vote on disputes"
    );
    let a = arbiter(&mut store, 50);
    dispute::vote(&mut store, &DISPUTE, &a, DisputeDecision::Split, 0, 0, 3).unwrap();
    assert_eq!(err(dispute::vote(&mut store, &DISPUTE, &a, DisputeDecision::Split, 0, 0, 3)), "Already voted");
    assert_eq!(err(dispute::submit_evidence(&mut store, &SELLER, &DISPUTE, &EMPTY_HASH)), "Dispute not in evidence phase");

    let b = arbiter(&mut store, 51);
    dispute::vote(&mut store, &DISPUTE, &b, DisputeDecision::Split, 7, 0, 2).unwrap();
    let d = store.get_dispute(&DISPUTE).unwrap().unwrap();
    assert_eq!((d.state, d.resolution, d.resolved_at), (DisputeState::Resolved, Some(2), Some(7)));
    let c = arbiter(&mut store, 52);
    assert_eq!(err(dispute::vote(&mut store, &DISPUTE, &c, DisputeDecision::Split, 0, 0, 2)), "Dispute not in voting phase");

    let mut settled = market();
    escrow::refund(&mut settled, &BUYER, &ESCROW, 20).unwrap();
    assert_eq!(err(dispute::raise(&mut settled, &DISPUTE, &ESCROW, &BUYER, reason, &EMPTY_HASH, 0)), "Escrow already settled");
}

#[test]
fn test_refusals_of_tokens() {
    let mut store = Store::new();
    store.set_balance(&BUYER, &RCWBalance { owner: BUYER, earned: 3, purchased: 4 }).unwrap();
    assert_eq!(err(token::transfer(&mut store, &BUYER, &SELLER, 0, "")), "Amount must be positive");
    assert_eq!(err(token::spend(&mut store, &BUYER, 0, "")), "Amount must be positive");
    assert_eq!(err(token::transfer(&mut store, &BUYER, &SELLER, 8, "")), "Insufficient balance: have 7, need 8");
    assert_eq!(err(token::spend(&mut store, &BUYER, u64::MAX, "")), "Insufficient balance: have 7, need 18446744073709551615");
    assert_eq!(store.get_balance(&BUYER).unwrap().total(), 7);
}

#[test]
fn test_nonces_rise() {
    let mut sm = machine(Store::new());
    let spend = || TxPayload::SpendRCW { amount: 1, purpose: "x".to_string() };
    assert_eq!(err(sm.execute(&tx(BUYER, 0, spend()), 0)), "Nonce too low: got 0, expected > 0");
    // Refused, but the nonce is used up
    assert_eq!(err(sm.execute(&tx(BUYER, 5, spend()), 0)), "Insufficient balance: have 0, need 1");
    assert_eq!(sm.store().get_nonce(&BUYER), 5);
    assert_eq!(err(sm.execute(&tx(BUYER, 5, spend()), 0)), "Nonce too low: got 5, expected > 5");
    assert_eq!(err(sm.execute(&tx(BUYER, 4, spend()), 0)), "Nonce too low: got 4, expected > 5");
    // Everybody counts for themselves
    assert_eq!(err(sm.execute(&tx(SELLER, 1, spend()), 0)), "Insufficient balance: have 0, need 1");
    assert_eq!((sm.store().get_nonce(&BUYER), sm.store().get_nonce(&SELLER)), (5, 1));
}

#[test]
fn test_block_with_another_state_root() {
    let mut sm = machine(Store::new());
    let header = BlockHeader {
        height: 12,
        prev_hash: EMPTY_HASH,
        timestamp: 0,
        tx_count: 0,
        tx_hash: EMPTY_HASH,
        state_root: [0xAB; 32],
        proposer: BUYER,
    };
    let block = Block { header, transactions: vec![], signatures: vec![] };
    let root = hex::encode(&blake3::hash(b"").as_bytes()[..8]);
    assert_eq!(err(sm.apply_block(&block)), format!("State root mismatch at height 12: expected abababababababab, computed {}", root));
    assert!(sm.store().get_block(12).unwrap().is_none());
    let unchecked = Block { header: BlockHeader { state_root: EMPTY_HASH, ..block.header.clone() }, ..block };
    assert_eq!(sm.apply_block(&unchecked).unwrap().len(), 0);
    assert_eq!(sm.store().get_latest_height(), 12);
}

// ── Numbers that leave their range ──

#[test]
fn test_numbers_out_of_range_stop_a_transaction() {
    let mut store = market();
    store.set_balance(&SELLER, &RCWBalance { owner: SELLER, earned: u64::MAX - 1, purchased: 0 }).unwrap();
    assert!(token::mint_checked(&mut store, &SELLER, 2, "x").is_none());
    assert!(settlement::record_checked(&mut store, &SELLER, &SELLER, &data([5; 32]), 0, 5).is_none());
    assert!(settlement::record_rating_checked(&mut store, &SELLER, 500, true, 0, 2).is_none());
    assert!(escrow::release_checked(&mut store, &BUYER, &ESCROW, &EMPTY_HASH, 20, 2).is_none());
    assert!(token::mint_checked(&mut store, &SELLER, 1, "x").unwrap().is_ok());

    store.set_balance(&BUYER, &RCWBalance { owner: BUYER, earned: 5, purchased: 5 }).unwrap();
    assert!(token::transfer_checked(&mut store, &BUYER, &SELLER, 1, "").is_none());
    store.set_balance(&BUYER, &RCWBalance { owner: BUYER, earned: 5, purchased: u64::MAX }).unwrap();
    assert!(token::spend_checked(&mut store, &BUYER, 1, "").is_none());

    let mut sm = machine(store);
    assert!(sm.execute_checked(&tx(BUYER, 1, TxPayload::SpendRCW { amount: 1, purpose: String::new() }), 0).is_none());
}

#[test]
fn test_counters_stop_at_their_limit() {
    let mut store = market();
    let full = |id: Id| Participant { id, total_tx: u64::MAX, success_tx: u64::MAX, total_volume: u64::MAX - 1, ..Default::default() };
    store.set_participant(&SELLER, &full(SELLER)).unwrap();
    settlement::record(&mut store, &SELLER, &SELLER, &data([5; 32]), 9, 0).unwrap();
    let p = store.get_participant(&SELLER).unwrap().unwrap();
    assert_eq!((p.total_tx, p.success_tx, p.total_volume, p.total_settled, p.last_activity_at), (u64::MAX, u64::MAX, u64::MAX, 90, 9));
}

// ── Tokens ──

#[test]
fn test_transfers_conserve_tokens() {
    let mut store = Store::new();
    store.set_balance(&BUYER, &RCWBalance { owner: BUYER, earned: 3, purchased: 4 }).unwrap();
    store.set_balance(&SELLER, &RCWBalance { owner: SELLER, earned: 0, purchased: 9 }).unwrap();
    token::transfer(&mut store, &BUYER, &SELLER, 5, "memo").unwrap();
    let b = store.get_balance(&BUYER).unwrap();
    let s = store.get_balance(&SELLER).unwrap();
    assert_eq!((b.earned, b.purchased, s.earned, s.purchased), (0, 2, 5, 9));
    // To oneself: the same number, but what was purchased counts as earned
    token::transfer(&mut store, &BUYER, &BUYER, 2, "").unwrap();
    let b = store.get_balance(&BUYER).unwrap();
    assert_eq!((b.earned, b.purchased), (2, 0));

    let events = token::spend(&mut store, &SELLER, 6, "badge").unwrap();
    assert!(matches!(&events[0], Event::RCWSpent { from: SELLER, amount: 6, purpose } if purpose == "badge"));
    let s = store.get_balance(&SELLER).unwrap();
    assert_eq!((s.earned, s.purchased), (0, 8));
    let events = token::mint(&mut store, &SELLER, 1, "gift").unwrap();
    assert!(matches!(&events[0], Event::RCWMinted { to: SELLER, amount: 1, reason } if reason == "gift"));
}

#[test]
fn test_supply_changes_by_what_events_say() {
    let mut sm = machine(market());
    let arbiters: Vec<Id> = (0..3u8).map(|i| arbiter(sm.store_mut(), 60 + i)).collect();
    let all: Vec<Id> = [BUYER, SELLER, STRANGER].into_iter().chain(arbiters.iter().copied()).collect();
    let supply = |sm: &StateMachine| all.iter().map(|id| sm.store().get_balance(id).unwrap().total()).sum::<u64>();
    let mut txs = vec![
        tx(SELLER, 1, TxPayload::RecordSettlement { participant_id: SELLER, record: data([5; 32]) }),
        tx(SELLER, 2, TxPayload::TransferRCW { to: STRANGER, amount: 3, memo: String::new() }),
        tx(SELLER, 3, TxPayload::TransferRCW { to: STRANGER, amount: 3, memo: String::new() }),
        tx(STRANGER, 1, TxPayload::SpendRCW { amount: 2, purpose: "x".to_string() }),
        tx(STRANGER, 1, TxPayload::SpendRCW { amount: 1, purpose: "x".to_string() }),
        tx(STRANGER, 2, TxPayload::TransferRCW { to: STRANGER, amount: 1, memo: String::new() }),
        tx(BUYER, 1, TxPayload::RecordRating { participant_id: SELLER, rating: 300, success: true }),
        tx(BUYER, 2, TxPayload::RaiseDispute { dispute_id: DISPUTE, escrow_id: ESCROW, reason: DisputeReason::Other, evidence_hash: EMPTY_HASH }),
    ];
    for a in &arbiters {
        txs.push(tx(*a, 1, TxPayload::VoteDispute { dispute_id: DISPUTE, decision: DisputeDecision::FavorBuyer }));
    }
    for t in &txs {
        let before = supply(&sm);
        let events = sm.execute(t, 100).unwrap_or_default();
        let minted: u64 = events.iter().map(|e| if let Event::RCWMinted { amount, .. } = e { *amount } else { 0 }).sum();
        let spent: u64 = events.iter().map(|e| if let Event::RCWSpent { amount, .. } = e { *amount } else { 0 }).sum();
        assert_eq!(supply(&sm) + spent, before + minted);
    }
    // 5 for the settlement, 2 for the rating, 50 for the dispute, less 2
    assert_eq!(supply(&sm), 55);
}

// ── Trust ──

#[test]
fn test_trust_scores() {
    assert_eq!(compute_trust_score(&Participant::default()), 0);
    let best = Participant {
        total_tx: 100,
        success_tx: 100,
        rating_sum: 500,
        rating_count: 100,
        total_volume: 10_000_001,
        registered_at: 0,
        last_activity_at: 86400 * 366,
        ..Default::default()
    };
    assert_eq!(compute_trust_score(&best), 10000);
    // Ten disputes in a hundred cost thirty percent of a quarter
    assert_eq!(compute_trust_score(&Participant { dispute_count: 10, ..best.clone() }), 9250);
    assert_eq!(compute_trust_score(&Participant { dispute_count: 50, ..best.clone() }), 7500);
    assert_eq!(compute_trust_score(&Participant { total_volume: 100_000, ..best.clone() }), 9250);
    assert_eq!(compute_trust_score(&Participant { total_volume: 0, ..best.clone() }), 9000);
    assert_eq!(compute_trust_score(&Participant { last_activity_at: 86400 * 31, ..best.clone() }), 9400);
    assert_eq!(compute_trust_score(&Participant { last_activity_at: -1, ..best.clone() }), 9200);
    assert_eq!(compute_trust_score(&Participant { total_tx: 9, success_tx: 9, ..best.clone() }), 3000);
    assert_eq!(compute_trust_score(&Participant { total_tx: 49, success_tx: 49, ..best.clone() }), 6000);
    assert_eq!(compute_trust_score(&Participant { total_tx: 99, success_tx: 99, ..best.clone() }), 8000);
    // Ratings are counted in hundredths but weighed as if they were whole: such a
    // score does not fit, and its low bits are what is left
    let rated = Participant { rating_sum: 450, rating_count: 1, ..best.clone() };
    assert_eq!(compute_trust_score(&rated), ((350_000u64 + 250_000 + 900_000 * 20 + 200_000) / 100 % 65536) as u16);
    // An age that cannot be reckoned
    assert!(!can_score(&Participant { registered_at: i64::MIN, last_activity_at: 0, ..best.clone() }));
    assert!(can_score(&best));
}

#[test]
fn test_history_only_grows() {
    let mut sm = machine(market());
    let before = sm.store().get_participant(&SELLER).unwrap().unwrap();
    sm.execute(&tx(SELLER, 1, TxPayload::RecordSettlement { participant_id: SELLER, record: data([5; 32]) }), 20).unwrap();
    sm.execute(&tx(BUYER, 1, TxPayload::RecordRating { participant_id: SELLER, rating: 501, success: false }), 30).unwrap();
    sm.execute(&tx(BUYER, 2, TxPayload::RecordRating { participant_id: SELLER, rating: 500, success: true }), 40).unwrap();
    sm.execute(&tx(SELLER, 2, TxPayload::DeactivateParticipant { id: SELLER }), 50).unwrap();
    let after = sm.store().get_participant(&SELLER).unwrap().unwrap();
    assert_eq!((before.total_tx, after.total_tx), (0, 2));
    assert_eq!((after.success_tx, after.rating_sum, after.rating_count), (1, 500, 1));
    assert_eq!((after.p_type, after.is_active, after.last_activity_at), (1, false, 40));
    // And its counts agree
    assert!(after.success_tx <= after.total_tx);
    assert!(after.rating_count <= after.rating_sum && after.rating_sum <= 500 * after.rating_count);
}

// ── Escrows, disputes, anchors ──

#[test]
fn test_settled_escrows_stay_settled() {
    let mut sm = machine(market());
    sm.execute(&tx(STRANGER, 1, TxPayload::RefundEscrow { escrow_id: ESCROW }), 1001).unwrap();
    let attempts = vec![
        TxPayload::ReleaseEscrow { escrow_id: ESCROW, evidence_hash: EMPTY_HASH },
        TxPayload::RefundEscrow { escrow_id: ESCROW },
        TxPayload::CreateEscrow { escrow_id: ESCROW, buyer: BUYER, seller: SELLER, amount: 1, expires_at: 5000 },
        TxPayload::RaiseDispute { dispute_id: DISPUTE, escrow_id: ESCROW, reason: DisputeReason::Other, evidence_hash: EMPTY_HASH },
    ];
    for (i, payload) in attempts.into_iter().enumerate() {
        assert!(sm.execute(&tx(BUYER, i as u64 + 1, payload), 20).is_err());
    }
    let e = sm.store().get_escrow(&ESCROW).unwrap().unwrap();
    assert_eq!((e.state, e.amount, e.dispute_id), (EscrowState::Refunded, 500, None));
    assert_eq!(sm.store().get_participant(&SELLER).unwrap().unwrap().total_tx, 1);
}

#[test]
fn test_escrows_move_one_way() {
    let mut sm = machine(market());
    let before = sm.store().get_escrow(&ESCROW).unwrap().unwrap();
    assert_eq!(before.state, EscrowState::Created);
    let raise = |n: u8| TxPayload::RaiseDispute { dispute_id: [n; 32], escrow_id: ESCROW, reason: DisputeReason::Other, evidence_hash: EMPTY_HASH };
    sm.execute(&tx(BUYER, 1, raise(11)), 20).unwrap();
    // Disputed, it is neither released nor refunded, but may be disputed anew
    assert!(sm.execute(&tx(BUYER, 2, TxPayload::ReleaseEscrow { escrow_id: ESCROW, evidence_hash: [9; 32] }), 30).is_err());
    assert!(sm.execute(&tx(BUYER, 3, TxPayload::RefundEscrow { escrow_id: ESCROW }), 30).is_err());
    sm.execute(&tx(SELLER, 1, raise(12)), 40).unwrap();
    let after = sm.store().get_escrow(&ESCROW).unwrap().unwrap();
    assert_eq!((after.state, after.dispute_id, after.evidence_hash), (EscrowState::Disputed, Some([12; 32]), None));
    assert_eq!((after.id, after.buyer, after.seller), (before.id, before.buyer, before.seller));
    assert_eq!((after.amount, after.created_at, after.expires_at), (500, 10, 1000));

    let mut sm = machine(market());
    sm.execute(&tx(BUYER, 1, TxPayload::ReleaseEscrow { escrow_id: ESCROW, evidence_hash: [9; 32] }), 30).unwrap();
    let after = sm.store().get_escrow(&ESCROW).unwrap().unwrap();
    assert_eq!((after.state, after.dispute_id, after.evidence_hash), (EscrowState::Released, None, Some([9; 32])));
    assert_eq!((after.id, after.buyer, after.seller), (before.id, before.buyer, before.seller));
    assert_eq!((after.amount, after.created_at, after.expires_at), (500, 10, 1000));
}

#[test]
fn test_refused_transactions_leave_only_their_nonces() {
    let mut sm = machine(market());
    sm.store_mut().take_writes();
    let attempts = vec![
        TxPayload::RegisterParticipant { id: BUYER, p_type: ParticipantType::Seller, metadata: "again".to_string() },
        TxPayload::RecordSettlement { participant_id: SELLER, record: data([5; 32]) },
        TxPayload::CreateEscrow { escrow_id: DISPUTE, buyer: BUYER, seller: STRANGER, amount: 1, expires_at: 5000 },
        TxPayload::ReleaseEscrow { escrow_id: ESCROW, evidence_hash: EMPTY_HASH },
        TxPayload::SubmitEvidence { dispute_id: DISPUTE, evidence_hash: EMPTY_HASH },
        TxPayload::VoteDispute { dispute_id: DISPUTE, decision: DisputeDecision::Split },
        TxPayload::TransferRCW { to: SELLER, amount: 1, memo: "".to_string() },
        TxPayload::SpendRCW { amount: 0, purpose: "".to_string() },
    ];
    for (i, payload) in attempts.into_iter().enumerate() {
        let nonce = i as u64 + 1;
        assert!(sm.execute(&tx(BUYER, nonce, payload), 2000).is_err());
        let key = [b"nnc/".as_slice(), BUYER.as_slice()].concat();
        assert_eq!(sm.store_mut().take_writes(), vec![(key, nonce.to_be_bytes().to_vec())]);
    }
    // With a nonce that is too low, not even that
    assert!(sm.execute(&tx(BUYER, 8, TxPayload::DeactivateParticipant { id: BUYER }), 2000).is_err());
    assert!(sm.store_mut().take_writes().is_empty());
}

fn disputed(raised_by: Id, decisions: &[DisputeDecision]) -> (Store, Dispute) {
    let mut store = market();
    dispute::raise(&mut store, &DISPUTE, &ESCROW, &raised_by, DisputeReason::Other, &EMPTY_HASH, 0).unwrap();
    for (i, decision) in decisions.iter().enumerate() {
        let a = arbiter(&mut store, 100 + i as u8);
        dispute::vote(&mut store, &DISPUTE, &a, *decision, 5, 50, decisions.len()).unwrap();
    }
    let d = store.get_dispute(&DISPUTE).unwrap().unwrap();
    (store, d)
}

#[test]
fn test_verdicts() {
    let (for_buyer, for_seller, split) = (DisputeDecision::FavorBuyer, DisputeDecision::FavorSeller, DisputeDecision::Split);
    let counts = |store: &Store, id: Id| {
        let p = store.get_participant(&id).unwrap().unwrap();
        (p.dispute_count, p.dispute_won)
    };
    // Accused and acquitted: no dispute is left; accuser and wrong: two more
    let (store, d) = disputed(BUYER, &[for_seller, for_seller, for_buyer]);
    assert_eq!((d.reason, d.resolution, d.votes.len()), (99, Some(1), 3));
    assert_eq!((counts(&store, BUYER), counts(&store, SELLER)), ((2, 0), (0, 1)));
    assert_eq!(store.get_balance(&SELLER).unwrap().earned, 50);
    assert_eq!(store.get_balance(&BUYER).unwrap().earned, 0);

    // Accused and convicted: one for the accusation and one for the verdict
    let (store, d) = disputed(BUYER, &[for_buyer, split, for_buyer]);
    assert_eq!(d.resolution, Some(0));
    assert_eq!((counts(&store, BUYER), counts(&store, SELLER)), ((0, 1), (2, 0)));
    assert_eq!(store.get_balance(&BUYER).unwrap().earned, 50);

    // A split counts for both sides
    let (store, d) = disputed(SELLER, &[split, split]);
    assert_eq!(d.resolution, Some(2));
    assert_eq!((counts(&store, BUYER), counts(&store, SELLER)), ((1, 0), (0, 0)));
    let (_, d) = disputed(SELLER, &[for_buyer, for_seller]);
    assert_eq!(d.resolution, Some(2));
    let (_, d) = disputed(SELLER, &[split, for_seller]);
    assert_eq!(d.resolution, Some(1));
}

#[test]
fn test_a_dispute_can_be_raised_anew() {
    // The escrow of a decided dispute stays disputed, so a dispute under the same id
    // starts over
    let (mut store, d) = disputed(BUYER, &[DisputeDecision::FavorBuyer]);
    assert_eq!(d.state, DisputeState::Resolved);
    dispute::raise(&mut store, &DISPUTE, &ESCROW, &SELLER, DisputeReason::Other, &EMPTY_HASH, 9).unwrap();
    let d = store.get_dispute(&DISPUTE).unwrap().unwrap();
    assert_eq!((d.state, d.votes.len(), d.raised_by), (DisputeState::Raised, 0, SELLER));
}

#[test]
fn test_evidence_is_added() {
    let mut store = market();
    dispute::raise(&mut store, &DISPUTE, &ESCROW, &BUYER, DisputeReason::Damaged, &[1; 32], 0).unwrap();
    assert_eq!(store.get_escrow(&ESCROW).unwrap().unwrap().dispute_id, Some(DISPUTE));
    assert!(dispute::submit_evidence(&mut store, &SELLER, &DISPUTE, &[2; 32]).unwrap().is_empty());
    assert!(dispute::submit_evidence(&mut store, &BUYER, &DISPUTE, &[3; 32]).unwrap().is_empty());
    let d = store.get_dispute(&DISPUTE).unwrap().unwrap();
    assert_eq!(d.state, DisputeState::Evidence);
    assert_eq!(d.evidence_hashes, vec![[1; 32], [2; 32], [3; 32]]);
}

#[test]
fn test_anchors_stay() {
    let mut sm = machine(Store::new()).with_platform_keys(vec![BUYER]);
    let anchor = |root: u8| TxPayload::AnchorMerkleRoot { batch_id: ESCROW, merkle_root: [root; 32], entry_count: 1, from_entry_id: 2, to_entry_id: 3 };
    assert_eq!(err(sm.execute(&tx(SELLER, 1, anchor(1)), 7)), "Unauthorized: only platform can anchor");
    sm.execute(&tx(BUYER, 1, anchor(2)), 8).unwrap();
    assert_eq!(err(sm.execute(&tx(BUYER, 2, anchor(3)), 9)), "Anchor batch already recorded");
    let record = sm.store().get_anchor(&ESCROW).unwrap().unwrap();
    assert_eq!((record.merkle_root, record.anchored_at), ([2; 32], 8));
}

// ── Turns and votes ──

#[test]
fn test_everyone_leads_in_turn() {
    let keys: Vec<(Id, [u8; 32])> = (0..4).map(|_| generate_keypair()).collect();
    let peer = |i: usize| Peer { id: keys[i].0, address: String::new(), public_key: keys[i].0 };
    let a = Consensus::new(keys[0].0, keys[0].1, vec![peer(1), peer(2), peer(3)], 3);
    let b = Consensus::new(keys[2].0, keys[2].1, vec![peer(3), peer(0), peer(1)], 3);
    let ids = sort_ids(&keys.iter().map(|k| k.0).collect());
    assert!(ids.windows(2).all(|w| w[0] < w[1]));
    assert_eq!(a.all_node_ids(), ids);
    for height in 0..9u64 {
        assert_eq!(a.leader_for_height(height), ids[height as usize % 4]);
        assert_eq!(b.leader_for_height(height), a.leader_for_height(height));
        assert_eq!(a.leader_for_height_round(height, 1), ids[(height as usize + 1) % 4]);
    }
    assert!(a.can_tell_leader(u64::MAX));
}

#[test]
fn test_votes_count_once() {
    let mut votes = VoteBook::new();
    assert_eq!(votes.cast(5, 1, &BUYER), 1);
    assert_eq!(votes.cast(5, 1, &BUYER), 1);
    assert_eq!(votes.cast(5, 1, &SELLER), 2);
    assert_eq!(votes.cast(5, 2, &BUYER), 1);
    assert_eq!(votes.cast(4, 1, &BUYER), 1);
    votes.keep_from(5);
    assert_eq!(votes.cast(4, 1, &SELLER), 1);
    assert_eq!(votes.cast(5, 1, &STRANGER), 3);
    votes.clear();
    assert_eq!(votes.cast(5, 1, &STRANGER), 1);
}

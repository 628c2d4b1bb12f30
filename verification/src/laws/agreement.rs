//! Nodes that hold the same state and take in the same blocks hold the same state.

use crate::bytes::be;
use crate::consensus::{header_hash, ConsensusView};
use crate::crypto::ed25519_public;
use crate::laws::consensus::{known, law_honest_proposal_accepted};
use crate::laws::frames::{law_nonces, law_writes_only_named};
use crate::laws::invariants::law_finite_stays_finite;
use crate::laws::keys::{at, law_keys_distinct, lemma_number_found, lemma_prefixes_differ};
use crate::laws::refusals::{law_refused_changes_nothing, law_sound_stays_sound, sound};
use crate::node::{fits_throughout, select_step, NodeView};
use crate::state::dispute::{evidence_step, raise_step, verdict_step, vote_step};
use crate::state::escrow::{create_step, refund_step, release_step, released_step};
use crate::state::machine::{anchor_step, apply_step, execute_step, is_signed, payload_step, run_step, Rules};
use crate::state::participant::{deactivate_step, register_step, update_step};
use crate::state::settlement::{rating_step, record_step};
use crate::state::step::Step;
use crate::state::token::{spend_step, transfer_step};
use crate::store::{anchor_at, anchor_key, balance_at, balance_key, block_key, dispute_at, dispute_key, escrow_at, escrow_key, lemma_listing_exists, lemma_section_agree, nonce_at, nonce_key, participant_at, participant_key, put_anchor, put_balance, put_block, put_dispute, put_escrow, put_nonce, put_participant, put_settlement, section, settlement_key, slot, state_bytes, state_root, Db, KEY_LATEST_HEIGHT, PREFIX_ANCHOR, PREFIX_BALANCE, PREFIX_BLOCK, PREFIX_DISPUTE, PREFIX_ESCROW, PREFIX_NONCE, PREFIX_PARTICIPANT, PREFIX_SETTLEMENT};
use crate::types::{AnchorRecord, BlockHeader, BlockView, DisputeDecision, DisputeReason, DisputeView, Escrow, Id, ParticipantType, ParticipantView, PayloadView, RCWBalance, SettlementData, SettlementRecord, TransactionView, EMPTY_HASH};
use vstd::prelude::*;

verus! {

/// Is the key one of those that payloads read and write?
pub open spec fn is_record_key(k: Seq<u8>) -> bool {
    ||| PREFIX_PARTICIPANT@.is_prefix_of(k)
    ||| PREFIX_SETTLEMENT@.is_prefix_of(k)
    ||| PREFIX_BALANCE@.is_prefix_of(k)
    ||| PREFIX_ESCROW@.is_prefix_of(k)
    ||| PREFIX_DISPUTE@.is_prefix_of(k)
    ||| PREFIX_ANCHOR@.is_prefix_of(k)
}

/// Is the key one of those that the state root covers?
pub open spec fn is_state_key(k: Seq<u8>) -> bool {
    is_record_key(k) || PREFIX_NONCE@.is_prefix_of(k)
}

/// What payloads read and write.
pub open spec fn records_of(db: Db) -> Db {
    Map::new(|k: Seq<u8>| db.dom().contains(k) && is_record_key(k), |k: Seq<u8>| db[k])
}

/// All but the blocks: what payloads read and write, and the nonces.
pub open spec fn state_of(db: Db) -> Db {
    Map::new(|k: Seq<u8>| db.dom().contains(k) && is_state_key(k), |k: Seq<u8>| db[k])
}

pub proof fn lemma_leads(p: Seq<u8>, rest: Seq<u8>)
    ensures
        p.is_prefix_of(p + rest),
{
    assert(p =~= (p + rest).subrange(0, p.len() as int));
}

/// What is read and written is read and written there.
proof fn lemma_records_of()
    ensures
        forall|db: Db, id: Id| #[trigger] participant_at(records_of(db), id) == participant_at(db, id),
        forall|db: Db, id: Id| #[trigger] escrow_at(records_of(db), id) == escrow_at(db, id),
        forall|db: Db, id: Id| #[trigger] dispute_at(records_of(db), id) == dispute_at(db, id),
        forall|db: Db, id: Id| #[trigger] anchor_at(records_of(db), id) == anchor_at(db, id),
        forall|db: Db, id: Id| #[trigger] balance_at(records_of(db), id) == balance_at(db, id),
        forall|db: Db, id: Id, m: ParticipantView| #[trigger] put_participant(records_of(db), id, m) == records_of(put_participant(db, id, m)),
        forall|db: Db, id: Id, m: SettlementRecord| #[trigger] put_settlement(records_of(db), id, m) == records_of(put_settlement(db, id, m)),
        forall|db: Db, id: Id, m: RCWBalance| #[trigger] put_balance(records_of(db), id, m) == records_of(put_balance(db, id, m)),
        forall|db: Db, id: Id, m: Escrow| #[trigger] put_escrow(records_of(db), id, m) == records_of(put_escrow(db, id, m)),
        forall|db: Db, id: Id, m: DisputeView| #[trigger] put_dispute(records_of(db), id, m) == records_of(put_dispute(db, id, m)),
        forall|db: Db, id: Id, m: AnchorRecord| #[trigger] put_anchor(records_of(db), id, m) == records_of(put_anchor(db, id, m)),
{
    assert forall|id: Id| #![trigger participant_key(id)] is_record_key(participant_key(id)) by {
        lemma_leads(PREFIX_PARTICIPANT@, id@);
    }
    assert forall|id: Id| #![trigger settlement_key(id)] is_record_key(settlement_key(id)) by {
        lemma_leads(PREFIX_SETTLEMENT@, id@);
    }
    assert forall|id: Id| #![trigger balance_key(id)] is_record_key(balance_key(id)) by {
        lemma_leads(PREFIX_BALANCE@, id@);
    }
    assert forall|id: Id| #![trigger escrow_key(id)] is_record_key(escrow_key(id)) by {
        lemma_leads(PREFIX_ESCROW@, id@);
    }
    assert forall|id: Id| #![trigger dispute_key(id)] is_record_key(dispute_key(id)) by {
        lemma_leads(PREFIX_DISPUTE@, id@);
    }
    assert forall|id: Id| #![trigger anchor_key(id)] is_record_key(anchor_key(id)) by {
        lemma_leads(PREFIX_ANCHOR@, id@);
    }
    reveal(slot);
    reveal(put_participant);
    reveal(put_settlement);
    reveal(put_balance);
    reveal(put_escrow);
    reveal(put_dispute);
    reveal(put_anchor);
    assert forall|db: Db, id: Id, m: ParticipantView| #[trigger] put_participant(records_of(db), id, m) == records_of(put_participant(db, id, m)) by {
        assert(put_participant(records_of(db), id, m) =~= records_of(put_participant(db, id, m)));
    }
    assert forall|db: Db, id: Id, m: SettlementRecord| #[trigger] put_settlement(records_of(db), id, m) == records_of(put_settlement(db, id, m)) by {
        assert(put_settlement(records_of(db), id, m) =~= records_of(put_settlement(db, id, m)));
    }
    assert forall|db: Db, id: Id, m: RCWBalance| #[trigger] put_balance(records_of(db), id, m) == records_of(put_balance(db, id, m)) by {
        assert(put_balance(records_of(db), id, m) =~= records_of(put_balance(db, id, m)));
    }
    assert forall|db: Db, id: Id, m: Escrow| #[trigger] put_escrow(records_of(db), id, m) == records_of(put_escrow(db, id, m)) by {
        assert(put_escrow(records_of(db), id, m) =~= records_of(put_escrow(db, id, m)));
    }
    assert forall|db: Db, id: Id, m: DisputeView| #[trigger] put_dispute(records_of(db), id, m) == records_of(put_dispute(db, id, m)) by {
        assert(put_dispute(records_of(db), id, m) =~= records_of(put_dispute(db, id, m)));
    }
    assert forall|db: Db, id: Id, m: AnchorRecord| #[trigger] put_anchor(records_of(db), id, m) == records_of(put_anchor(db, id, m)) by {
        assert(put_anchor(records_of(db), id, m) =~= records_of(put_anchor(db, id, m)));
    }
}

/// A step of what payloads read and write.
spec fn recorded(step: Step) -> Step {
    match step {
        Some((db, how)) => Some((records_of(db), how)),
        None => None,
    }
}

proof fn lemma_released(db: Db, escrow_id: Id, e: Escrow, timestamp: i64, reward: u64)
    ensures
        released_step(records_of(db), escrow_id, e, timestamp, reward) == recorded(released_step(db, escrow_id, e, timestamp, reward)),
{
    lemma_records_of();
}

proof fn lemma_verdict(db: Db, raised_by: Id, e: Escrow, resolution: u8, reward: u64)
    ensures
        verdict_step(records_of(db), raised_by, e, resolution, reward) == recorded(verdict_step(db, raised_by, e, resolution, reward)),
{
    lemma_records_of();
}

proof fn lemma_participants(db: Db, sender: Id, id: Id, p_type: ParticipantType, metadata: Seq<char>, timestamp: i64)
    ensures
        Some(register_step(records_of(db), sender, id, p_type, metadata, timestamp)) == recorded(Some(register_step(db, sender, id, p_type, metadata, timestamp))),
        Some(update_step(records_of(db), sender, id, metadata, timestamp)) == recorded(Some(update_step(db, sender, id, metadata, timestamp))),
        Some(deactivate_step(records_of(db), sender, id)) == recorded(Some(deactivate_step(db, sender, id))),
{
    lemma_records_of();
}

proof fn lemma_settlements(db: Db, sender: Id, id: Id, data: SettlementData, rating: u16, success: bool, timestamp: i64, reward: u64)
    ensures
        record_step(records_of(db), sender, id, data, timestamp, reward) == recorded(record_step(db, sender, id, data, timestamp, reward)),
        rating_step(records_of(db), id, rating, success, timestamp, reward) == recorded(rating_step(db, id, rating, success, timestamp, reward)),
{
    lemma_records_of();
}

proof fn lemma_create(db: Db, sender: Id, escrow_id: Id, buyer: Id, seller: Id, amount: u64, expires_at: i64, timestamp: i64)
    ensures
        Some(create_step(records_of(db), sender, escrow_id, buyer, seller, amount, expires_at, timestamp)) == recorded(
            Some(create_step(db, sender, escrow_id, buyer, seller, amount, expires_at, timestamp)),
        ),
{
    lemma_records_of();
}

proof fn lemma_settling(db: Db, sender: Id, escrow_id: Id, evidence_hash: [u8; 32], timestamp: i64, reward: u64)
    ensures
        release_step(records_of(db), sender, escrow_id, evidence_hash, timestamp, reward) == recorded(release_step(db, sender, escrow_id, evidence_hash, timestamp, reward)),
        Some(refund_step(records_of(db), sender, escrow_id, timestamp)) == recorded(Some(refund_step(db, sender, escrow_id, timestamp))),
{
    lemma_records_of();
    assert forall|d: Db, e: Escrow|
        #[trigger] released_step(records_of(d), escrow_id, e, timestamp, reward) == recorded(released_step(d, escrow_id, e, timestamp, reward)) by {
        lemma_released(d, escrow_id, e, timestamp, reward);
    }
}

proof fn lemma_disputes(db: Db, sender: Id, dispute_id: Id, escrow_id: Id, reason: DisputeReason, evidence_hash: [u8; 32], timestamp: i64)
    ensures
        Some(raise_step(records_of(db), dispute_id, escrow_id, sender, reason, evidence_hash, timestamp)) == recorded(
            Some(raise_step(db, dispute_id, escrow_id, sender, reason, evidence_hash, timestamp)),
        ),
        Some(evidence_step(records_of(db), sender, dispute_id, evidence_hash)) == recorded(Some(evidence_step(db, sender, dispute_id, evidence_hash))),
{
    lemma_records_of();
}

proof fn lemma_vote(db: Db, dispute_id: Id, voter: Id, decision: DisputeDecision, timestamp: i64, reward: u64, threshold: usize)
    ensures
        vote_step(records_of(db), dispute_id, voter, decision, timestamp, reward, threshold) == recorded(
            vote_step(db, dispute_id, voter, decision, timestamp, reward, threshold),
        ),
{
    lemma_records_of();
    assert forall|d: Db, by: Id, e: Escrow, v: u8|
        #[trigger] verdict_step(records_of(d), by, e, v, reward) == recorded(verdict_step(d, by, e, v, reward)) by {
        lemma_verdict(d, by, e, v, reward);
    }
}

proof fn lemma_tokens(db: Db, from: Id, to: Id, amount: u64, purpose: Seq<char>)
    ensures
        transfer_step(records_of(db), from, to, amount) == recorded(transfer_step(db, from, to, amount)),
        spend_step(records_of(db), from, amount, purpose) == recorded(spend_step(db, from, amount, purpose)),
{
    lemma_records_of();
}

proof fn lemma_anchor(rules: Rules, db: Db, sender: Id, record: AnchorRecord)
    ensures
        Some(anchor_step(rules, records_of(db), sender, record)) == recorded(Some(anchor_step(rules, db, sender, record))),
{
    lemma_records_of();
}

/// What a payload does depends on nothing else.
proof fn lemma_payload(rules: Rules, db: Db, sender: Id, payload: PayloadView, timestamp: i64)
    ensures
        payload_step(rules, records_of(db), sender, payload, timestamp) == recorded(payload_step(rules, db, sender, payload, timestamp)),
{
    reveal(payload_step);
    match payload {
        PayloadView::RegisterParticipant { id, p_type, metadata } => {
            lemma_participants(db, sender, id, p_type, metadata, timestamp);
        },
        PayloadView::UpdateParticipant { id, metadata } => {
            lemma_participants(db, sender, id, ParticipantType::Seller, metadata, timestamp);
        },
        PayloadView::DeactivateParticipant { id } => {
            lemma_participants(db, sender, id, ParticipantType::Seller, Seq::empty(), timestamp);
        },
        PayloadView::RecordSettlement { participant_id, record } => {
            lemma_settlements(db, sender, participant_id, record, 0, true, timestamp, rules.rewards.settlement_recorded);
        },
        PayloadView::RecordRating { participant_id, rating, success } => {
            lemma_settlements(db, sender, participant_id, arbitrary(), rating, success, timestamp, rules.rewards.rating_submitted);
        },
        PayloadView::CreateEscrow { escrow_id, buyer, seller, amount, expires_at } => {
            lemma_create(db, sender, escrow_id, buyer, seller, amount, expires_at, timestamp);
        },
        PayloadView::ReleaseEscrow { escrow_id, evidence_hash } => {
            lemma_settling(db, sender, escrow_id, evidence_hash, timestamp, rules.rewards.escrow_completed);
        },
        PayloadView::RefundEscrow { escrow_id } => {
            lemma_settling(db, sender, escrow_id, EMPTY_HASH, timestamp, 0);
        },
        PayloadView::RaiseDispute { dispute_id, escrow_id, reason, evidence_hash } => {
            lemma_disputes(db, sender, dispute_id, escrow_id, reason, evidence_hash, timestamp);
        },
        PayloadView::SubmitEvidence { dispute_id, evidence_hash } => {
            lemma_disputes(db, sender, dispute_id, dispute_id, DisputeReason::Other, evidence_hash, timestamp);
        },
        PayloadView::VoteDispute { dispute_id, decision } => {
            lemma_vote(db, dispute_id, sender, decision, timestamp, rules.rewards.dispute_won, rules.vote_threshold);
        },
        PayloadView::TransferRCW { to, amount, memo } => {
            lemma_tokens(db, sender, to, amount, memo);
        },
        PayloadView::SpendRCW { amount, purpose } => {
            lemma_tokens(db, sender, sender, amount, purpose);
        },
        PayloadView::AnchorMerkleRoot { batch_id, merkle_root, entry_count, from_entry_id, to_entry_id } => {
            lemma_anchor(rules, db, sender, AnchorRecord { batch_id, merkle_root, entry_count, from_entry_id, to_entry_id, anchored_at: timestamp });
        },
    }
}

/// A payload changes nothing else.
proof fn lemma_payload_leaves(rules: Rules, db: Db, sender: Id, payload: PayloadView, timestamp: i64)
    ensures
        payload_step(rules, db, sender, payload, timestamp) matches Some((after, _)) ==> forall|k: Seq<u8>| !is_record_key(k) ==> #[trigger] at(after, k) == at(db, k),
{
    if let Some((after, _)) = payload_step(rules, db, sender, payload, timestamp) {
        assert forall|k: Seq<u8>| !is_record_key(k) implies #[trigger] at(after, k) == at(db, k) by {
            assert forall|id: Id| #![trigger participant_key(id)] is_record_key(participant_key(id)) by {
                lemma_leads(PREFIX_PARTICIPANT@, id@);
            }
            assert forall|id: Id| #![trigger settlement_key(id)] is_record_key(settlement_key(id)) by {
                lemma_leads(PREFIX_SETTLEMENT@, id@);
            }
            assert forall|id: Id| #![trigger balance_key(id)] is_record_key(balance_key(id)) by {
                lemma_leads(PREFIX_BALANCE@, id@);
            }
            assert forall|id: Id| #![trigger escrow_key(id)] is_record_key(escrow_key(id)) by {
                lemma_leads(PREFIX_ESCROW@, id@);
            }
            assert forall|id: Id| #![trigger dispute_key(id)] is_record_key(dispute_key(id)) by {
                lemma_leads(PREFIX_DISPUTE@, id@);
            }
            assert forall|id: Id| #![trigger anchor_key(id)] is_record_key(anchor_key(id)) by {
                lemma_leads(PREFIX_ANCHOR@, id@);
            }
            law_writes_only_named(rules, db, sender, payload, timestamp, k);
        }
    }
}

/// Where the records are the same, a payload comes to the same.
proof fn lemma_same_records(rules: Rules, a: Db, b: Db, sender: Id, payload: PayloadView, timestamp: i64)
    requires
        records_of(a) == records_of(b),
    ensures
        match (payload_step(rules, a, sender, payload, timestamp), payload_step(rules, b, sender, payload, timestamp)) {
            (Some((a1, x)), Some((b1, y))) => {
                &&& x == y
                &&& records_of(a1) == records_of(b1)
                &&& forall|k: Seq<u8>| !is_record_key(k) ==> #[trigger] at(a1, k) == at(a, k)
                &&& forall|k: Seq<u8>| !is_record_key(k) ==> #[trigger] at(b1, k) == at(b, k)
            },
            (None, None) => true,
            _ => false,
        },
{
    lemma_payload(rules, a, sender, payload, timestamp);
    lemma_payload(rules, b, sender, payload, timestamp);
    lemma_payload_leaves(rules, a, sender, payload, timestamp);
    lemma_payload_leaves(rules, b, sender, payload, timestamp);
}

/// Stores that have the same under each key are the same.
pub proof fn lemma_same_db(a: Db, b: Db)
    requires
        forall|k: Seq<u8>| #[trigger] at(a, k) == at(b, k),
    ensures
        a == b,
{
    assert forall|k: Seq<u8>| #[trigger] a.dom().contains(k) == b.dom().contains(k) by {
        assert(at(a, k) == at(b, k));
    }
    assert forall|k: Seq<u8>| #[trigger] a.dom().contains(k) implies a[k] == b[k] by {
        assert(at(a, k) == at(b, k));
    }
    assert(a =~= b);
}

/// What is under a key in a part of the store.
pub proof fn lemma_at_part(db: Db)
    ensures
        forall|k: Seq<u8>| #[trigger] at(records_of(db), k) == if is_record_key(k) { at(db, k) } else { None },
        forall|k: Seq<u8>| #[trigger] at(state_of(db), k) == if is_state_key(k) { at(db, k) } else { None },
{
}

/// The key of a nonce is one that the state root covers and no payload touches.
proof fn lemma_nonce_key(id: Id)
    ensures
        is_state_key(nonce_key(id)),
        !is_record_key(nonce_key(id)),
{
    let k = nonce_key(id);
    lemma_leads(PREFIX_NONCE@, id@);
    lemma_prefixes_differ();
    lemma_other_prefix(k, PREFIX_PARTICIPANT@);
    lemma_other_prefix(k, PREFIX_SETTLEMENT@);
    lemma_other_prefix(k, PREFIX_BALANCE@);
    lemma_other_prefix(k, PREFIX_ESCROW@);
    lemma_other_prefix(k, PREFIX_DISPUTE@);
    lemma_other_prefix(k, PREFIX_ANCHOR@);
    assert(k.take(4) =~= PREFIX_NONCE@);
}

/// Writing a nonce leaves the records alone.
proof fn lemma_note(db: Db, id: Id, n: u64)
    ensures
        records_of(put_nonce(db, id, n)) == records_of(db),
        state_of(put_nonce(db, id, n)) == put_nonce(state_of(db), id, n),
        nonce_at(state_of(db), id) == nonce_at(db, id),
{
    lemma_nonce_key(id);
    reveal(put_nonce);
    assert(records_of(put_nonce(db, id, n)) =~= records_of(db));
    assert(state_of(put_nonce(db, id, n)) =~= put_nonce(state_of(db), id, n));
}

/// A step of the state.
pub open spec fn step_of(step: Step) -> Step {
    match step {
        Some((db, how)) => Some((state_of(db), how)),
        None => None,
    }
}

/// What a transaction does depends on the state alone, not on the blocks.
pub proof fn law_execution_ignores_blocks(rules: Rules, db: Db, tx: TransactionView, timestamp: i64)
    ensures
        execute_step(rules, state_of(db), tx, timestamp) == step_of(execute_step(rules, db, tx, timestamp)),
{
    lemma_note(db, tx.sender, tx.nonce);
    let noted = put_nonce(db, tx.sender, tx.nonce);
    let part = state_of(noted);
    lemma_at_part(noted);
    assert(records_of(part) =~= records_of(noted));
    lemma_same_records(rules, noted, part, tx.sender, tx.payload, timestamp);
    if let (Some((a, _)), Some((b, _))) = (
        payload_step(rules, noted, tx.sender, tx.payload, timestamp),
        payload_step(rules, part, tx.sender, tx.payload, timestamp),
    ) {
        lemma_at_part(a);
        lemma_at_part(b);
        assert forall|k: Seq<u8>| #[trigger] at(b, k) == at(state_of(a), k) by {
            if is_record_key(k) {
                assert(at(records_of(a), k) == at(records_of(b), k));
            } else {
                assert(at(part, k) == at(state_of(noted), k));
                assert(at(a, k) == at(noted, k));
            }
        }
        lemma_same_db(b, state_of(a));
    }
}

/// What a list of transactions does depends on the state alone.
pub proof fn law_run_ignores_blocks(rules: Rules, db: Db, txs: Seq<TransactionView>, timestamp: i64)
    ensures
        run_step(rules, state_of(db), txs, timestamp) == match run_step(rules, db, txs, timestamp) {
            Some((after, events)) => Some((state_of(after), events)),
            None => None,
        },
    decreases txs.len(),
{
    if txs.len() > 0 {
        law_run_ignores_blocks(rules, db, txs.drop_last(), timestamp);
        if let Some((before, _)) = run_step(rules, db, txs.drop_last(), timestamp) {
            law_execution_ignores_blocks(rules, before, txs.last(), timestamp);
        }
    }
}

/// The state root covers the state alone.
pub proof fn law_root_of_state(db: Db)
    requires
        db.dom().finite(),
    ensures
        state_bytes(state_of(db)) == state_bytes(db),
        state_root(state_of(db)) == state_root(db),
{
    lemma_same_section(db, PREFIX_PARTICIPANT@);
    lemma_same_section(db, PREFIX_SETTLEMENT@);
    lemma_same_section(db, PREFIX_BALANCE@);
    lemma_same_section(db, PREFIX_ESCROW@);
    lemma_same_section(db, PREFIX_DISPUTE@);
    lemma_same_section(db, PREFIX_NONCE@);
    lemma_same_section(db, PREFIX_ANCHOR@);
}

proof fn lemma_same_section(db: Db, prefix: Seq<u8>)
    requires
        db.dom().finite(),
        forall|k: Seq<u8>| #[trigger] prefix.is_prefix_of(k) ==> is_state_key(k),
    ensures
        section(state_of(db), prefix) == section(db, prefix),
{
    lemma_listing_exists(db, prefix);
    lemma_section_agree(db, state_of(db), prefix);
}

/// Storing a block leaves the state as it is.
pub proof fn law_blocks_outside_state(db: Db, block: BlockView)
    ensures
        state_of(put_block(db, block)) == state_of(db),
{
    reveal(put_block);
    let (h, l) = (block_key(block.header.height), KEY_LATEST_HEIGHT@);
    lemma_prefixes_differ();
    assert(!is_state_key(h)) by {
        lemma_other_prefix(h, PREFIX_PARTICIPANT@);
        lemma_other_prefix(h, PREFIX_SETTLEMENT@);
        lemma_other_prefix(h, PREFIX_BALANCE@);
        lemma_other_prefix(h, PREFIX_ESCROW@);
        lemma_other_prefix(h, PREFIX_DISPUTE@);
        lemma_other_prefix(h, PREFIX_NONCE@);
        lemma_other_prefix(h, PREFIX_ANCHOR@);
        assert(h.take(4) =~= PREFIX_BLOCK@);
    }
    assert(!is_state_key(l)) by {
        assert(l[0] == 109);
        lemma_first_byte(l, PREFIX_PARTICIPANT@);
        lemma_first_byte(l, PREFIX_SETTLEMENT@);
        lemma_first_byte(l, PREFIX_BALANCE@);
        lemma_first_byte(l, PREFIX_ESCROW@);
        lemma_first_byte(l, PREFIX_DISPUTE@);
        lemma_first_byte(l, PREFIX_NONCE@);
        lemma_first_byte(l, PREFIX_ANCHOR@);
        assert(PREFIX_PARTICIPANT@[0] == 112 && PREFIX_SETTLEMENT@[0] == 115 && PREFIX_BALANCE@[0] == 98 && PREFIX_ESCROW@[0] == 101);
        assert(PREFIX_DISPUTE@[0] == 100 && PREFIX_NONCE@[0] == 110 && PREFIX_ANCHOR@[0] == 97);
    }
    assert(state_of(put_block(db, block)) =~= state_of(db));
}

/// Storing a block leaves the state, and so the state root, as it is.
pub proof fn law_blocks_outside_root(db: Db, block: BlockView)
    requires
        db.dom().finite(),
    ensures
        state_of(put_block(db, block)) == state_of(db),
        state_root(put_block(db, block)) == state_root(db),
{
    law_blocks_outside_state(db, block);
    reveal(put_block);
    law_root_of_state(db);
    law_root_of_state(put_block(db, block));
}

pub proof fn lemma_other_prefix(k: Seq<u8>, p: Seq<u8>)
    requires
        p.len() == 4,
    ensures
        p.is_prefix_of(k) ==> k.take(4) == p,
{
    if p.is_prefix_of(k) {
        assert(k.take(4) =~= p);
    }
}

proof fn lemma_first_byte(k: Seq<u8>, p: Seq<u8>)
    requires
        p.len() == 4,
    ensures
        p.is_prefix_of(k) ==> k[0] == p[0],
{
    if p.is_prefix_of(k) {
        assert(p =~= k.subrange(0, 4));
        assert(k.subrange(0, 4)[0] == k[0]);
    }
}

/// Nodes with the same state that apply the same transactions end with the same
/// events, the same state and the same state root.
pub proof fn law_same_state_same_run(rules: Rules, a: Db, b: Db, txs: Seq<TransactionView>, timestamp: i64)
    requires
        state_of(a) == state_of(b),
    ensures
        match (run_step(rules, a, txs, timestamp), run_step(rules, b, txs, timestamp)) {
            (Some((a1, x)), Some((b1, y))) => state_of(a1) == state_of(b1) && x == y && (a1.dom().finite() && b1.dom().finite() ==> state_root(a1) == state_root(b1)),
            (None, None) => true,
            _ => false,
        },
{
    law_run_ignores_blocks(rules, a, txs, timestamp);
    law_run_ignores_blocks(rules, b, txs, timestamp);
    if let (Some((a1, _)), Some((b1, _))) = (run_step(rules, a, txs, timestamp), run_step(rules, b, txs, timestamp)) {
        if a1.dom().finite() && b1.dom().finite() {
            law_root_of_state(a1);
            law_root_of_state(b1);
        }
    }
}

/// Do the transactions that were refused leave no trace? Then those that were kept
/// come to the same state by themselves.
pub open spec fn traceless(rules: Rules, db: Db, txs: Seq<TransactionView>, timestamp: i64) -> bool {
    select_step(rules, db, txs, timestamp) matches Some((after, kept, _)) ==> (run_step(rules, db, kept, timestamp) matches Some((own, _))
        && state_of(own) == state_of(after))
}

/// What the leader makes, followers can apply: where what was refused left no trace,
/// the block with what was kept and with the leader's state root is applied by any
/// node that had the leader's state, and leads to the state that the leader has.
pub proof fn law_followers_agree(rules: Rules, leader: Db, follower: Db, txs: Seq<TransactionView>, block: BlockView)
    requires
        state_of(leader) == state_of(follower),
        leader.dom().finite(),
        follower.dom().finite(),
        traceless(rules, leader, txs, block.header.timestamp),
        select_step(rules, leader, txs, block.header.timestamp) matches Some((after, kept, _)) && block.transactions == kept && block.header.state_root@
            == state_root(after),
    ensures
        ({
            let (after, kept, _) = select_step(rules, leader, txs, block.header.timestamp)->0;
            &&& apply_step(rules, follower, block) matches Some((own, Ok(seen)))
            &&& state_of(own) == state_of(after)
            &&& run_step(rules, leader, kept, block.header.timestamp) matches Some((_, events)) && seen == events
        }),
{
    let ts = block.header.timestamp;
    let (after, kept, _) = select_step(rules, leader, txs, ts)->0;
    law_same_state_same_run(rules, leader, follower, kept, ts);
    lemma_select_finite(rules, leader, txs, ts);
    lemma_run_finite(rules, leader, kept, ts);
    lemma_run_finite(rules, follower, kept, ts);
    let (own, _) = run_step(rules, follower, kept, ts)->0;
    law_root_of_state(own);
    law_root_of_state(after);
    law_blocks_outside_root(own, block);
}

/// A block that gives a state root is taken in only with that state root.
pub proof fn law_applied_root(rules: Rules, db: Db, block: BlockView)
    requires
        db.dom().finite(),
        block.header.state_root != EMPTY_HASH,
    ensures
        apply_step(rules, db, block) matches Some((own, Ok(_))) ==> state_root(own) == block.header.state_root@,
{
    lemma_run_finite(rules, db, block.transactions, block.header.timestamp);
    if let Some((after, _)) = run_step(rules, db, block.transactions, block.header.timestamp) {
        law_blocks_outside_root(after, block);
    }
}

// ── When nothing leaves a trace ──

/// Does each transaction, executed in order, succeed, or else leave all but its
/// sender's nonce as it is?
pub open spec fn tidy(rules: Rules, db: Db, txs: Seq<TransactionView>, timestamp: i64) -> bool
    decreases txs.len(),
{
    txs.len() == 0 || {
        &&& tidy(rules, db, txs.drop_last(), timestamp)
        &&& match select_step(rules, db, txs.drop_last(), timestamp) {
            Some((before, _, _)) => match execute_step(rules, before, txs.last(), timestamp) {
                Some((after, Err(_))) => records_of(after) == records_of(before),
                _ => true,
            },
            None => true,
        }
    }
}

/// The nonce of a sender after transactions that succeeded.
pub open spec fn nonce_after(db: Db, kept: Seq<TransactionView>, id: Id) -> u64
    decreases kept.len(),
{
    if kept.len() == 0 {
        nonce_at(db, id)
    } else if kept.last().sender == id {
        kept.last().nonce
    } else {
        nonce_after(db, kept.drop_last(), id)
    }
}

/// `b` differs from `a` in nonces only, and those that differ are lower.
spec fn trails(a: Db, b: Db) -> bool {
    &&& records_of(a) == records_of(b)
    &&& forall|id: Id| #![trigger nonce_key(id)] at(a, nonce_key(id)) == at(b, nonce_key(id)) || nonce_at(b, id) < nonce_at(a, id)
    &&& forall|k: Seq<u8>| !is_record_key(k) && (forall|id: Id| k != #[trigger] nonce_key(id)) ==> #[trigger] at(a, k) == at(b, k)
}

/// What is under the keys of nonces after one is written.
proof fn lemma_nonces_noted(db: Db, sender: Id, n: u64)
    ensures
        forall|id: Id| #![trigger nonce_key(id)] at(put_nonce(db, sender, n), nonce_key(id)) == if id == sender { Some(be(n as int, 8)) } else { at(db, nonce_key(id)) },
        forall|k: Seq<u8>| k != nonce_key(sender) ==> #[trigger] at(put_nonce(db, sender, n), k) == at(db, k),
        nonce_at(put_nonce(db, sender, n), sender) == n,
{
    reveal(put_nonce);
    lemma_number_found(n);
    assert forall|id: Id| #![trigger nonce_key(id)] id != sender implies nonce_key(id) != nonce_key(sender) by {
        law_keys_distinct(id, sender, 0, 0);
    }
}

/// Equal under its key, a nonce is equal.
proof fn lemma_nonce_of(a: Db, b: Db, id: Id)
    ensures
        at(a, nonce_key(id)) == at(b, nonce_key(id)) ==> nonce_at(a, id) == nonce_at(b, id),
{
}

/// After a transaction that both execute, the one still trails the other.
proof fn lemma_both_execute(rules: Rules, a: Db, b: Db, tx: TransactionView, timestamp: i64)
    requires
        trails(a, b),
        execute_step(rules, a, tx, timestamp) matches Some((_, Ok(_))),
    ensures
        ({
            let (a1, how) = execute_step(rules, a, tx, timestamp)->0;
            execute_step(rules, b, tx, timestamp) matches Some((b1, x)) && x == how && trails(a1, b1)
        }),
{
    let (x, y) = (put_nonce(a, tx.sender, tx.nonce), put_nonce(b, tx.sender, tx.nonce));
    lemma_nonce_of(a, b, tx.sender);
    assert(at(a, nonce_key(tx.sender)) == at(b, nonce_key(tx.sender)) || nonce_at(b, tx.sender) < nonce_at(a, tx.sender));
    lemma_note(a, tx.sender, tx.nonce);
    lemma_note(b, tx.sender, tx.nonce);
    lemma_nonces_noted(a, tx.sender, tx.nonce);
    lemma_nonces_noted(b, tx.sender, tx.nonce);
    lemma_same_records(rules, x, y, tx.sender, tx.payload, timestamp);
    let (a1, _) = execute_step(rules, a, tx, timestamp)->0;
    let (b1, _) = execute_step(rules, b, tx, timestamp)->0;
    assert forall|id: Id| #![trigger nonce_key(id)] at(a1, nonce_key(id)) == at(b1, nonce_key(id)) || nonce_at(b1, id) < nonce_at(a1, id) by {
        lemma_nonce_key(id);
        assert(at(a1, nonce_key(id)) == at(x, nonce_key(id)));
        assert(at(b1, nonce_key(id)) == at(y, nonce_key(id)));
        if id != tx.sender {
            lemma_nonce_of(a1, a, id);
            lemma_nonce_of(b1, b, id);
        }
    }
    assert forall|k: Seq<u8>| !is_record_key(k) && (forall|id: Id| k != #[trigger] nonce_key(id)) implies #[trigger] at(a1, k) == at(b1, k) by {
        assert(k != nonce_key(tx.sender));
        assert(at(a1, k) == at(x, k) && at(b1, k) == at(y, k));
        assert(at(x, k) == at(a, k) && at(y, k) == at(b, k));
    }
}

/// After a transaction that was refused and of which only the nonce stays, what
/// trailed still trails.
proof fn lemma_refused_trails(rules: Rules, a: Db, b: Db, tx: TransactionView, timestamp: i64)
    requires
        trails(a, b),
        execute_step(rules, a, tx, timestamp) matches Some((a1, Err(_))) && records_of(a1) == records_of(a),
    ensures
        ({
            let (a1, _) = execute_step(rules, a, tx, timestamp)->0;
            trails(a1, b)
        }),
{
    let (a1, _) = execute_step(rules, a, tx, timestamp)->0;
    if tx.nonce > nonce_at(a, tx.sender) {
        let x = put_nonce(a, tx.sender, tx.nonce);
        lemma_nonces_noted(a, tx.sender, tx.nonce);
        lemma_payload_leaves(rules, x, tx.sender, tx.payload, timestamp);
        assert forall|id: Id| #![trigger nonce_key(id)] at(a1, nonce_key(id)) == at(b, nonce_key(id)) || nonce_at(b, id) < nonce_at(a1, id) by {
            lemma_nonce_key(id);
            assert(at(a1, nonce_key(id)) == at(x, nonce_key(id)));
            assert(at(a, nonce_key(id)) == at(b, nonce_key(id)) || nonce_at(b, id) < nonce_at(a, id));
            lemma_nonce_of(a1, x, id);
            lemma_nonce_of(a, b, id);
            if id != tx.sender {
                lemma_nonce_of(x, a, id);
            }
        }
        assert forall|k: Seq<u8>| !is_record_key(k) && (forall|id: Id| k != #[trigger] nonce_key(id)) implies #[trigger] at(a1, k) == at(b, k) by {
            assert(k != nonce_key(tx.sender));
            assert(at(a1, k) == at(x, k));
            assert(at(x, k) == at(a, k));
        }
    }
}

proof fn lemma_kept_run(rules: Rules, db: Db, txs: Seq<TransactionView>, timestamp: i64)
    requires
        select_step(rules, db, txs, timestamp) matches Some((_, kept, _)) && forall|i: int| 0 <= i < kept.len() ==> is_signed(#[trigger] kept[i]),
        tidy(rules, db, txs, timestamp),
    ensures
        ({
            let (after, kept, events) = select_step(rules, db, txs, timestamp)->0;
            &&& run_step(rules, db, kept, timestamp) matches Some((own, seen))
            &&& seen == events
            &&& trails(after, own)
            &&& forall|id: Id| #[trigger] nonce_at(own, id) == nonce_after(db, kept, id)
        }),
    decreases txs.len(),
{
    if txs.len() > 0 {
        let rest = txs.drop_last();
        let (before, kept, events) = select_step(rules, db, rest, timestamp)->0;
        let (_, all_kept, _) = select_step(rules, db, txs, timestamp)->0;
        assert forall|i: int| 0 <= i < kept.len() implies is_signed(#[trigger] kept[i]) by {
            assert(kept[i] == all_kept[i]);
        }
        lemma_kept_run(rules, db, rest, timestamp);
        let (own, _) = run_step(rules, db, kept, timestamp)->0;
        let (_, how) = execute_step(rules, before, txs.last(), timestamp)->0;
        match how {
            Ok(more) => {
                assert(kept.push(txs.last()).drop_last() =~= kept);
                assert(is_signed(all_kept[kept.len() as int]));
                lemma_both_execute(rules, before, own, txs.last(), timestamp);
                let (next, _) = execute_step(rules, own, txs.last(), timestamp)->0;
                assert forall|id: Id| #[trigger] nonce_at(next, id) == nonce_after(db, all_kept, id) by {
                    law_nonces(rules, own, txs.last(), timestamp, id);
                    assert(nonce_at(own, id) == nonce_after(db, kept, id));
                }
            },
            Err(_) => {
                lemma_refused_trails(rules, before, own, txs.last(), timestamp);
            },
        }
    }
}

/// In every store that executing transactions leads to from the empty one, each
/// transaction of a list succeeds, or else leaves all but its sender's nonce as it is.
pub proof fn law_runs_are_tidy(rules: Rules, db: Db, txs: Seq<TransactionView>, timestamp: i64)
    requires
        sound(db),
        fits_throughout(rules, db, txs, timestamp),
    ensures
        tidy(rules, db, txs, timestamp),
        select_step(rules, db, txs, timestamp) matches Some((after, _, _)) ==> sound(after),
    decreases txs.len(),
{
    if txs.len() > 0 {
        let tx = txs.last();
        reveal_with_fuel(fits_throughout, 2);
        law_runs_are_tidy(rules, db, txs.drop_last(), timestamp);
        if let Some((before, _, _)) = select_step(rules, db, txs.drop_last(), timestamp) {
            law_sound_stays_sound(rules, before, tx, timestamp);
            law_refused_changes_nothing(rules, before, tx, timestamp);
            lemma_note(before, tx.sender, tx.nonce);
        }
    }
}

/// Refusals leave no trace where the last nonce that a sender used is one of a
/// transaction that was kept, and those that were kept are signed. What was kept comes
/// to the same records and the same events by itself. So it is in every store that
/// executing transactions leads to from the empty one.
pub proof fn law_refusals_without_trace(rules: Rules, db: Db, txs: Seq<TransactionView>, timestamp: i64)
    requires
        sound(db),
        fits_throughout(rules, db, txs, timestamp),
        select_step(rules, db, txs, timestamp) matches Some((after, kept, _)) && (forall|i: int| 0 <= i < kept.len() ==> is_signed(#[trigger] kept[i])) && (forall|id: Id|
            #[trigger] nonce_at(after, id) == nonce_after(db, kept, id)),
    ensures
        traceless(rules, db, txs, timestamp),
        ({
            let (after, kept, events) = select_step(rules, db, txs, timestamp)->0;
            run_step(rules, db, kept, timestamp) == Some((after, events))
        }),
{
    let (after, kept, events) = select_step(rules, db, txs, timestamp)->0;
    law_runs_are_tidy(rules, db, txs, timestamp);
    lemma_kept_run(rules, db, txs, timestamp);
    let (own, _) = run_step(rules, db, kept, timestamp)->0;
    lemma_at_part(after);
    lemma_at_part(own);
    assert forall|k: Seq<u8>| #[trigger] at(after, k) == at(own, k) by {
        if is_record_key(k) {
            assert(at(records_of(after), k) == at(records_of(own), k));
        } else if exists|id: Id| k == #[trigger] nonce_key(id) {
            let id = choose|id: Id| k == #[trigger] nonce_key(id);
            assert(nonce_at(after, id) == nonce_at(own, id));
            assert(at(after, nonce_key(id)) == at(own, nonce_key(id)));
        }
    }
    lemma_same_db(after, own);
}

/// What a node makes in its turn, another signs and takes in, and both have the same
/// state then: the other is in the same round, knows the same nodes and the maker's
/// key, goes by the same rules and had the same state, and what the maker refused
/// left no trace.
pub proof fn law_made_block_is_taken(v: NodeView, w: NodeView, block: BlockView, parent: BlockHeader, height: u64, now: i64)
    requires
        v.consensus.leader(height, v.consensus.round) == v.consensus.node_id,
        select_step(v.rules, v.db, v.consensus.pending, now) matches Some((db, kept, _)) && v.is_made(block, parent, db, kept, height, now),
        traceless(v.rules, v.db, v.consensus.pending, now),
        known(v.consensus).to_multiset() == known(w.consensus).to_multiset(),
        w.consensus.round == v.consensus.round,
        w.consensus.node_id != v.consensus.node_id,
        w.consensus.key_of(v.consensus.node_id) matches Some(key) && key@ == ed25519_public(v.consensus.private_key@),
        w.rules == v.rules,
        state_of(w.db) == state_of(v.db),
        v.db.dom().finite(),
        w.db.dom().finite(),
    ensures
        ({
            let (db, _, _) = select_step(v.rules, v.db, v.consensus.pending, now)->0;
            &&& block.header.prev_hash@ == header_hash(parent)
            &&& w.consensus.accepts(block, block.header.prev_hash)
            &&& apply_step(w.rules, w.db, block) matches Some((own, Ok(_))) && state_of(own) == state_of(put_block(db, block))
        }),
{
    let (db, kept, _) = select_step(v.rules, v.db, v.consensus.pending, now)->0;
    let maker = ConsensusView { pending: kept, ..v.consensus };
    assert(known(maker) == known(v.consensus));
    assert(maker.roster() == v.consensus.roster());
    law_honest_proposal_accepted(maker, w.consensus, block, now, height, block.header.prev_hash, block.header.state_root);
    law_followers_agree(v.rules, v.db, w.db, v.consensus.pending, block);
    lemma_select_finite(v.rules, v.db, v.consensus.pending, now);
    law_blocks_outside_root(db, block);
}

// ── Finitely many records ──

proof fn lemma_run_finite(rules: Rules, db: Db, txs: Seq<TransactionView>, timestamp: i64)
    requires
        db.dom().finite(),
    ensures
        run_step(rules, db, txs, timestamp) matches Some((after, _)) ==> after.dom().finite(),
    decreases txs.len(),
{
    if txs.len() > 0 {
        lemma_run_finite(rules, db, txs.drop_last(), timestamp);
        if let Some((before, _)) = run_step(rules, db, txs.drop_last(), timestamp) {
            law_finite_stays_finite(rules, before, txs.last(), timestamp);
        }
    }
}

proof fn lemma_select_finite(rules: Rules, db: Db, txs: Seq<TransactionView>, timestamp: i64)
    requires
        db.dom().finite(),
    ensures
        select_step(rules, db, txs, timestamp) matches Some((after, _, _)) ==> after.dom().finite(),
    decreases txs.len(),
{
    if txs.len() > 0 {
        lemma_select_finite(rules, db, txs.drop_last(), timestamp);
        if let Some((before, _, _)) = select_step(rules, db, txs.drop_last(), timestamp) {
            law_finite_stays_finite(rules, before, txs.last(), timestamp);
        }
    }
}

} // verus!

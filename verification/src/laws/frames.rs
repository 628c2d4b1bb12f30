//! What a transaction can change.

use crate::laws::keys::{at, law_keys_distinct, lemma_at_put, lemma_number_found, lemma_slot_at};
use crate::laws::reads::law_escrow_reads;
use crate::state::dispute::{as_disputed, verdict_step};
use crate::state::escrow::{as_refunded, as_released, is_open, is_settled, released_step};
use crate::state::machine::{execute_step, nonce_too_low, payload_step, Rules};
use crate::state::step::{refused, Step};
use crate::state::token::{debit_step, mint_step};
use crate::store::{anchor_at, anchor_key, balance_key, block_at, block_key, dispute_at, dispute_key, escrow_at, escrow_key, latest_height, nonce_at, nonce_key, participant_key, put_nonce, settlement_key, Db, Slot, KEY_LATEST_HEIGHT};
use crate::types::{AnchorRecord, Block, Dispute, Escrow, EscrowState, Id, PayloadView, TransactionView};
use vstd::prelude::*;

verus! {

pub open spec fn is_participant_key(k: Seq<u8>) -> bool {
    exists|id: Id| k == #[trigger] participant_key(id)
}

pub open spec fn is_balance_key(k: Seq<u8>) -> bool {
    exists|id: Id| k == #[trigger] balance_key(id)
}

/// Is this the key of a settlement, escrow, dispute or anchor that the payload names?
pub open spec fn names(payload: PayloadView, k: Seq<u8>) -> bool {
    match payload {
        PayloadView::RecordSettlement { record, .. } => k == settlement_key(record.record_id),
        PayloadView::CreateEscrow { escrow_id, .. } => k == escrow_key(escrow_id),
        PayloadView::ReleaseEscrow { escrow_id, .. } => k == escrow_key(escrow_id),
        PayloadView::RefundEscrow { escrow_id } => k == escrow_key(escrow_id),
        PayloadView::RaiseDispute { dispute_id, escrow_id, .. } => k == escrow_key(escrow_id) || k == dispute_key(dispute_id),
        PayloadView::SubmitEvidence { dispute_id, .. } => k == dispute_key(dispute_id),
        PayloadView::VoteDispute { dispute_id, .. } => k == dispute_key(dispute_id),
        PayloadView::AnchorMerkleRoot { batch_id, .. } => k == anchor_key(batch_id),
        _ => false,
    }
}

/// Does a step leave alone what is under a key?
pub open spec fn leaves(step: Step, db: Db, k: Seq<u8>) -> bool {
    match step {
        Some((after, _)) => at(after, k) == at(db, k),
        None => true,
    }
}

proof fn lemma_mint_leaves(db: Db, to: Id, amount: u64, reason: Seq<char>, k: Seq<u8>)
    requires
        !is_balance_key(k),
    ensures
        leaves(mint_step(db, to, amount, reason), db, k),
{
    lemma_at_put(k);
    assert(balance_key(to) != k);
}

proof fn lemma_debit_leaves(db: Db, from: Id, amount: u64, k: Seq<u8>)
    requires
        !is_balance_key(k),
    ensures
        leaves(debit_step(db, from, amount), db, k),
{
    lemma_at_put(k);
    assert(balance_key(from) != k);
}

proof fn lemma_release_leaves(db: Db, escrow_id: Id, e: Escrow, timestamp: i64, reward: u64, k: Seq<u8>)
    requires
        !is_balance_key(k),
        !is_participant_key(k),
    ensures
        leaves(released_step(db, escrow_id, e, timestamp, reward), db, k),
{
    lemma_at_put(k);
    assert(participant_key(e.buyer) != k && participant_key(e.seller) != k);
    assert forall|d: Db, id: Id| leaves(#[trigger] mint_step(d, id, reward, "escrow_complete"@), d, k) by {
        lemma_mint_leaves(d, id, reward, "escrow_complete"@, k);
    }
}

proof fn lemma_vote_leaves(db: Db, raised_by: Id, e: Escrow, resolution: u8, reward: u64, k: Seq<u8>)
    requires
        !is_balance_key(k),
        !is_participant_key(k),
    ensures
        leaves(verdict_step(db, raised_by, e, resolution, reward), db, k),
{
    lemma_at_put(k);
    assert(participant_key(e.buyer) != k && participant_key(e.seller) != k);
    assert forall|d: Db, id: Id| leaves(#[trigger] mint_step(d, id, reward, "dispute_won"@), d, k) by {
        lemma_mint_leaves(d, id, reward, "dispute_won"@, k);
    }
}

/// A transaction's payload writes participants, balances and the records that it
/// names, and nothing else.
pub proof fn law_writes_only_named(rules: Rules, db: Db, sender: Id, payload: PayloadView, timestamp: i64, k: Seq<u8>)
    requires
        !is_participant_key(k),
        !is_balance_key(k),
        !names(payload, k),
    ensures
        leaves(payload_step(rules, db, sender, payload, timestamp), db, k),
{
    reveal(payload_step);
    lemma_at_put(k);
    assert forall|id: Id| #[trigger] participant_key(id) != k by {}
    match payload {
        PayloadView::RecordSettlement { participant_id, record } => {
            assert forall|d: Db, id: Id| leaves(#[trigger] mint_step(d, id, rules.rewards.settlement_recorded, "settlement_reward"@), d, k) by {
                lemma_mint_leaves(d, id, rules.rewards.settlement_recorded, "settlement_reward"@, k);
            }
        },
        PayloadView::RecordRating { participant_id, rating, success } => {
            assert forall|d: Db, id: Id| leaves(#[trigger] mint_step(d, id, rules.rewards.rating_submitted, "rating_reward"@), d, k) by {
                lemma_mint_leaves(d, id, rules.rewards.rating_submitted, "rating_reward"@, k);
            }
        },
        PayloadView::ReleaseEscrow { escrow_id, evidence_hash } => {
            assert forall|d: Db, e: Escrow| leaves(#[trigger] released_step(d, escrow_id, e, timestamp, rules.rewards.escrow_completed), d, k) by {
                lemma_release_leaves(d, escrow_id, e, timestamp, rules.rewards.escrow_completed, k);
            }
        },
        PayloadView::VoteDispute { dispute_id, decision } => {
            assert forall|d: Db, by: Id, e: Escrow, v: u8| leaves(#[trigger] verdict_step(d, by, e, v, rules.rewards.dispute_won), d, k) by {
                lemma_vote_leaves(d, by, e, v, rules.rewards.dispute_won, k);
            }
        },
        PayloadView::TransferRCW { to, amount, memo } => {
            lemma_debit_leaves(db, sender, amount, k);
            assert(balance_key(to) != k);
        },
        PayloadView::SpendRCW { amount, purpose } => {
            lemma_debit_leaves(db, sender, amount, k);
        },
        _ => {},
    }
}

/// The keys of some kinds are not those of participants and balances.
proof fn lemma_other_kinds(id: Id, height: u64)
    ensures
        !is_participant_key(settlement_key(id)) && !is_balance_key(settlement_key(id)),
        !is_participant_key(escrow_key(id)) && !is_balance_key(escrow_key(id)),
        !is_participant_key(dispute_key(id)) && !is_balance_key(dispute_key(id)),
        !is_participant_key(nonce_key(id)) && !is_balance_key(nonce_key(id)),
        !is_participant_key(anchor_key(id)) && !is_balance_key(anchor_key(id)),
        !is_participant_key(block_key(height)) && !is_balance_key(block_key(height)),
        !is_participant_key(KEY_LATEST_HEIGHT@) && !is_balance_key(KEY_LATEST_HEIGHT@),
{
    assert forall|x: Id| #![trigger participant_key(x)]
        participant_key(x) != settlement_key(id) && participant_key(x) != escrow_key(id) && participant_key(x) != dispute_key(id) && participant_key(x)
            != nonce_key(id) && participant_key(x) != anchor_key(id) && participant_key(x) != block_key(height) && participant_key(x)
            != KEY_LATEST_HEIGHT@ by {
        law_keys_distinct(x, id, height, height);
    }
    assert forall|x: Id| #![trigger balance_key(x)]
        balance_key(x) != settlement_key(id) && balance_key(x) != escrow_key(id) && balance_key(x) != dispute_key(id) && balance_key(x)
            != nonce_key(id) && balance_key(x) != anchor_key(id) && balance_key(x) != block_key(height) && balance_key(x) != KEY_LATEST_HEIGHT@ by {
        law_keys_distinct(x, id, height, height);
        law_keys_distinct(id, x, height, height);
    }
}

/// No payload names a nonce, a block or the latest height.
proof fn lemma_unnamed(payload: PayloadView, id: Id, height: u64)
    ensures
        !names(payload, nonce_key(id)),
        !names(payload, block_key(height)),
        !names(payload, KEY_LATEST_HEIGHT@),
{
    match payload {
        PayloadView::RecordSettlement { record, .. } => {
            law_keys_distinct(record.record_id, id, height, height);
        },
        PayloadView::CreateEscrow { escrow_id, .. } => {
            law_keys_distinct(escrow_id, id, height, height);
        },
        PayloadView::ReleaseEscrow { escrow_id, .. } => {
            law_keys_distinct(escrow_id, id, height, height);
        },
        PayloadView::RefundEscrow { escrow_id } => {
            law_keys_distinct(escrow_id, id, height, height);
        },
        PayloadView::RaiseDispute { dispute_id, escrow_id, .. } => {
            law_keys_distinct(escrow_id, id, height, height);
            law_keys_distinct(dispute_id, id, height, height);
        },
        PayloadView::SubmitEvidence { dispute_id, .. } => {
            law_keys_distinct(dispute_id, id, height, height);
        },
        PayloadView::VoteDispute { dispute_id, .. } => {
            law_keys_distinct(dispute_id, id, height, height);
        },
        PayloadView::AnchorMerkleRoot { batch_id, .. } => {
            law_keys_distinct(id, batch_id, height, height);
            law_keys_distinct(batch_id, id, height, height);
        },
        _ => {},
    }
}

/// A transaction changes no block and not the latest height.
pub proof fn law_execution_keeps_blocks(rules: Rules, db: Db, tx: TransactionView, timestamp: i64, height: u64)
    ensures
        execute_step(rules, db, tx, timestamp) matches Some((after, _)) ==> block_at(after, height) == block_at(db, height) && latest_height(after) == latest_height(db),
{
    let noted = put_nonce(db, tx.sender, tx.nonce);
    lemma_other_kinds(tx.sender, height);
    lemma_unnamed(tx.payload, tx.sender, height);
    lemma_at_put(block_key(height));
    lemma_at_put(KEY_LATEST_HEIGHT@);
    law_keys_distinct(tx.sender, tx.sender, height, height);
    law_writes_only_named(rules, noted, tx.sender, tx.payload, timestamp, block_key(height));
    law_writes_only_named(rules, noted, tx.sender, tx.payload, timestamp, KEY_LATEST_HEIGHT@);
    lemma_slot_at::<Block>(block_key(height));
}

/// The nonces after a transaction: the sender's is the transaction's, where that is
/// higher than before, and all others are as they were. So nonces never fall.
pub proof fn law_nonces(rules: Rules, db: Db, tx: TransactionView, timestamp: i64, id: Id)
    ensures
        execute_step(rules, db, tx, timestamp) matches Some((after, _)) ==> nonce_at(after, id) == if id == tx.sender && tx.nonce > nonce_at(db, id) {
            tx.nonce
        } else {
            nonce_at(db, id)
        },
{
    let noted = put_nonce(db, tx.sender, tx.nonce);
    lemma_other_kinds(id, 0);
    lemma_unnamed(tx.payload, id, 0);
    lemma_at_put(nonce_key(id));
    law_keys_distinct(tx.sender, id, 0, 0);
    law_writes_only_named(rules, noted, tx.sender, tx.payload, timestamp, nonce_key(id));
    lemma_number_found(tx.nonce);
}

/// Replay protection: once a transaction has been executed, whether it succeeded or
/// was refused, no transaction of its sender with its nonce or a lower one is
/// executed; such a one changes nothing.
pub proof fn law_no_replay(rules: Rules, db: Db, tx: TransactionView, timestamp: i64, again: TransactionView, later: i64)
    requires
        execute_step(rules, db, tx, timestamp) is Some,
        again.sender == tx.sender,
        again.nonce <= tx.nonce,
    ensures
        ({
            let (after, _) = execute_step(rules, db, tx, timestamp)->0;
            execute_step(rules, after, again, later) == refused(after, nonce_too_low(again.nonce, nonce_at(after, tx.sender)))
        }),
{
    law_nonces(rules, db, tx, timestamp, tx.sender);
}

/// Money that has gone to one side stays there: no transaction changes a settled
/// escrow.
pub proof fn law_settled_escrow_is_final(rules: Rules, db: Db, tx: TransactionView, timestamp: i64, id: Id)
    requires
        escrow_at(db, id) matches Slot::Present(e) && is_settled(e.state),
    ensures
        execute_step(rules, db, tx, timestamp) matches Some((after, _)) ==> escrow_at(after, id) == escrow_at(db, id),
{
    reveal(payload_step);
    let k = escrow_key(id);
    let noted = put_nonce(db, tx.sender, tx.nonce);
    lemma_other_kinds(id, 0);
    lemma_at_put(k);
    lemma_slot_at::<Escrow>(k);
    law_keys_distinct(id, tx.sender, 0, 0);
    assert(escrow_at(noted, id) == escrow_at(db, id));
    match tx.payload {
        PayloadView::CreateEscrow { escrow_id, .. } => {
            law_keys_distinct(escrow_id, id, 0, 0);
        },
        PayloadView::ReleaseEscrow { escrow_id, .. } => {
            law_keys_distinct(escrow_id, id, 0, 0);
        },
        PayloadView::RefundEscrow { escrow_id } => {
            law_keys_distinct(escrow_id, id, 0, 0);
        },
        PayloadView::RaiseDispute { dispute_id, escrow_id, .. } => {
            law_keys_distinct(escrow_id, id, 0, 0);
            law_keys_distinct(id, dispute_id, 0, 0);
        },
        PayloadView::RecordSettlement { record, .. } => {
            law_keys_distinct(record.record_id, id, 0, 0);
        },
        PayloadView::SubmitEvidence { dispute_id, .. } => {
            law_keys_distinct(id, dispute_id, 0, 0);
        },
        PayloadView::VoteDispute { dispute_id, .. } => {
            law_keys_distinct(id, dispute_id, 0, 0);
        },
        PayloadView::AnchorMerkleRoot { batch_id, .. } => {
            law_keys_distinct(id, batch_id, 0, 0);
        },
        _ => {},
    }
    if !names(tx.payload, k) {
        law_writes_only_named(rules, noted, tx.sender, tx.payload, timestamp, k);
    }
}

/// Is `f` the escrow `e`, as it was or once it has been released, refunded or
/// disputed?
pub open spec fn moved(e: Escrow, f: Escrow) -> bool {
    ||| f == e
    ||| is_open(e.state) && (f.evidence_hash matches Some(hash) && f == as_released(e, hash))
    ||| is_open(e.state) && f == as_refunded(e)
    ||| !is_settled(e.state) && (f.dispute_id matches Some(dispute_id) && f == as_disputed(e, dispute_id))
}

spec fn same_escrow(step: Step, db: Db, id: Id) -> bool {
    match step {
        Some((after, _)) => escrow_at(after, id) == escrow_at(db, id),
        None => true,
    }
}

proof fn lemma_released_same_escrow(db: Db, escrow_id: Id, e: Escrow, timestamp: i64, reward: u64, id: Id)
    ensures
        same_escrow(released_step(db, escrow_id, e, timestamp, reward), db, id),
{
    law_escrow_reads(id);
}

proof fn lemma_verdict_same_escrow(db: Db, raised_by: Id, e: Escrow, resolution: u8, reward: u64, id: Id)
    ensures
        same_escrow(verdict_step(db, raised_by, e, resolution, reward), db, id),
{
    law_escrow_reads(id);
}

/// An escrow never vanishes, and no transaction changes its id, its parties, its
/// amount or its times. While it is open it may be released, refunded or disputed,
/// once; a disputed one stays disputed, though it may be disputed anew.
pub proof fn law_escrow_moves(rules: Rules, db: Db, tx: TransactionView, timestamp: i64, id: Id, e: Escrow)
    requires
        escrow_at(db, id) == Slot::Present(e),
    ensures
        execute_step(rules, db, tx, timestamp) matches Some((after, _)) ==> (escrow_at(after, id) matches Slot::Present(f) && {
            &&& moved(e, f)
            &&& f.id == e.id
            &&& f.buyer == e.buyer && f.seller == e.seller
            &&& f.amount == e.amount
            &&& f.created_at == e.created_at && f.expires_at == e.expires_at
            &&& f.state == e.state || is_open(e.state) && (is_settled(f.state) || f.state == EscrowState::Disputed)
            &&& e.state == EscrowState::Disputed ==> f.state == EscrowState::Disputed
        }),
{
    let noted = put_nonce(db, tx.sender, tx.nonce);
    reveal(payload_step);
    law_escrow_reads(id);
    assert(escrow_at(noted, id) == Slot::Present(e));
    match tx.payload {
        PayloadView::ReleaseEscrow { escrow_id, evidence_hash } => {
            assert forall|d: Db, x: Escrow| same_escrow(#[trigger] released_step(d, escrow_id, x, timestamp, rules.rewards.escrow_completed), d, id) by {
                lemma_released_same_escrow(d, escrow_id, x, timestamp, rules.rewards.escrow_completed, id);
            }
        },
        PayloadView::VoteDispute { dispute_id, decision } => {
            assert forall|d: Db, by: Id, x: Escrow, v: u8| same_escrow(#[trigger] verdict_step(d, by, x, v, rules.rewards.dispute_won), d, id) by {
                lemma_verdict_same_escrow(d, by, x, v, rules.rewards.dispute_won, id);
            }
        },
        _ => {},
    }
}

/// An anchored batch stays as it was anchored.
pub proof fn law_anchor_is_final(rules: Rules, db: Db, tx: TransactionView, timestamp: i64, id: Id)
    requires
        anchor_at(db, id) is Present,
    ensures
        execute_step(rules, db, tx, timestamp) matches Some((after, _)) ==> anchor_at(after, id) == anchor_at(db, id),
{
    reveal(payload_step);
    let k = anchor_key(id);
    let noted = put_nonce(db, tx.sender, tx.nonce);
    lemma_other_kinds(id, 0);
    lemma_at_put(k);
    lemma_slot_at::<AnchorRecord>(k);
    law_keys_distinct(tx.sender, id, 0, 0);
    assert(anchor_at(noted, id) == anchor_at(db, id));
    match tx.payload {
        PayloadView::CreateEscrow { escrow_id, .. } => {
            law_keys_distinct(escrow_id, id, 0, 0);
        },
        PayloadView::ReleaseEscrow { escrow_id, .. } => {
            law_keys_distinct(escrow_id, id, 0, 0);
        },
        PayloadView::RefundEscrow { escrow_id } => {
            law_keys_distinct(escrow_id, id, 0, 0);
        },
        PayloadView::RaiseDispute { dispute_id, escrow_id, .. } => {
            law_keys_distinct(escrow_id, id, 0, 0);
            law_keys_distinct(dispute_id, id, 0, 0);
        },
        PayloadView::RecordSettlement { record, .. } => {
            law_keys_distinct(record.record_id, id, 0, 0);
        },
        PayloadView::SubmitEvidence { dispute_id, .. } => {
            law_keys_distinct(dispute_id, id, 0, 0);
        },
        PayloadView::VoteDispute { dispute_id, .. } => {
            law_keys_distinct(dispute_id, id, 0, 0);
        },
        PayloadView::AnchorMerkleRoot { batch_id, .. } => {
            law_keys_distinct(id, batch_id, 0, 0);
        },
        _ => {},
    }
    if !names(tx.payload, k) {
        law_writes_only_named(rules, noted, tx.sender, tx.payload, timestamp, k);
    }
}

/// A decided dispute stays decided: no transaction changes it but one that raises a
/// dispute under the same id anew.
pub proof fn law_resolved_dispute_is_final(rules: Rules, db: Db, tx: TransactionView, timestamp: i64, id: Id)
    requires
        dispute_at(db, id) matches Slot::Present(d) && d.state == crate::types::DisputeState::Resolved,
        !(tx.payload matches PayloadView::RaiseDispute { dispute_id, .. } && dispute_id == id),
    ensures
        execute_step(rules, db, tx, timestamp) matches Some((after, _)) ==> dispute_at(after, id) == dispute_at(db, id),
{
    reveal(payload_step);
    let k = dispute_key(id);
    let noted = put_nonce(db, tx.sender, tx.nonce);
    lemma_other_kinds(id, 0);
    lemma_at_put(k);
    lemma_slot_at::<Dispute>(k);
    law_keys_distinct(id, tx.sender, 0, 0);
    assert(dispute_at(noted, id) == dispute_at(db, id));
    match tx.payload {
        PayloadView::CreateEscrow { escrow_id, .. } => {
            law_keys_distinct(escrow_id, id, 0, 0);
        },
        PayloadView::ReleaseEscrow { escrow_id, .. } => {
            law_keys_distinct(escrow_id, id, 0, 0);
        },
        PayloadView::RefundEscrow { escrow_id } => {
            law_keys_distinct(escrow_id, id, 0, 0);
        },
        PayloadView::RaiseDispute { dispute_id, escrow_id, .. } => {
            law_keys_distinct(escrow_id, id, 0, 0);
            law_keys_distinct(dispute_id, id, 0, 0);
        },
        PayloadView::RecordSettlement { record, .. } => {
            law_keys_distinct(record.record_id, id, 0, 0);
        },
        PayloadView::SubmitEvidence { dispute_id, .. } => {
            law_keys_distinct(dispute_id, id, 0, 0);
        },
        PayloadView::VoteDispute { dispute_id, .. } => {
            law_keys_distinct(dispute_id, id, 0, 0);
        },
        PayloadView::AnchorMerkleRoot { batch_id, .. } => {
            law_keys_distinct(id, batch_id, 0, 0);
        },
        _ => {},
    }
    if !names(tx.payload, k) {
        law_writes_only_named(rules, noted, tx.sender, tx.payload, timestamp, k);
    }
}

} // verus!

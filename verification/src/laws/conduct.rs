//! Who may do what, and what stays whatever is done.

use crate::laws::keys::{at, law_keys_distinct, lemma_at_put};
use crate::laws::reads::{law_dispute_reads, law_escrow_reads, law_participant_reads, lemma_participant_fits, participant_fits};
use crate::state::dispute::{accused, evidence_step, has_voted, is_party, lost, raise_step, verdict, verdict_step, vote_step, with_vote, won};
use crate::state::escrow::{refund_step, release_step, released_step};
use crate::state::machine::{execute_step, payload_step, Rules};
use crate::state::participant::{deactivate_step, register_step, update_step};
use crate::state::settlement::{rating_step, record_step};
use crate::state::step::{refused, Step};
use crate::state::token::{mint_step, spend_step, transfer_step};
use crate::store::{dispute_at, dispute_key, escrow_at, fits, participant_at, participant_key, put_dispute, put_nonce, put_participant, Db, Slot};
use crate::types::{Dispute, DisputeDecision, DisputeReason, DisputeView, DisputeVote, Escrow, Id, ParticipantType, ParticipantView, PayloadView, SettlementData, TransactionView, EMPTY_HASH};
use crate::wire::Wire;
use vstd::prelude::*;

verus! {

// ── Authorization ──

/// May the sender ask for this?
pub open spec fn may(rules: Rules, db: Db, sender: Id, payload: PayloadView, timestamp: i64) -> bool {
    match payload {
        PayloadView::RegisterParticipant { id, .. } => sender == id,
        PayloadView::UpdateParticipant { id, .. } => sender == id,
        PayloadView::DeactivateParticipant { id } => sender == id,
        PayloadView::RecordSettlement { participant_id, .. } => sender == participant_id,
        PayloadView::CreateEscrow { buyer, .. } => sender == buyer,
        PayloadView::ReleaseEscrow { escrow_id, .. } => escrow_at(db, escrow_id) matches Slot::Present(e) && sender == e.buyer,
        PayloadView::RefundEscrow { escrow_id } => escrow_at(db, escrow_id) matches Slot::Present(e) && (sender == e.buyer || timestamp > e.expires_at),
        PayloadView::RaiseDispute { escrow_id, .. } => escrow_at(db, escrow_id) matches Slot::Present(e) && is_party(e, sender),
        PayloadView::SubmitEvidence { dispute_id, .. } => dispute_at(db, dispute_id) matches Slot::Present(d) && (escrow_at(db, d.escrow_id) matches Slot::Present(e)
            && is_party(e, sender)),
        PayloadView::VoteDispute { .. } => participant_at(db, sender) matches Slot::Present(p) && p.p_type == ParticipantType::Arbiter.code(),
        PayloadView::AnchorMerkleRoot { .. } => rules.platform_keys.contains(sender),
        PayloadView::RecordRating { .. } => true,
        PayloadView::TransferRCW { .. } => true,
        PayloadView::SpendRCW { .. } => true,
    }
}

/// What the sender may not ask for is refused, and of all records only the sender's
/// nonce changes.
pub proof fn law_unauthorized(rules: Rules, db: Db, tx: TransactionView, timestamp: i64)
    requires
        !may(rules, db, tx.sender, tx.payload, timestamp),
    ensures
        execute_step(rules, db, tx, timestamp) matches Some((after, Err(_))) && (after == db || after == put_nonce(db, tx.sender, tx.nonce)),
{
    reveal(payload_step);
    law_rights_ignore_nonces(rules, db, tx.sender, tx.nonce, tx.sender, tx.payload, timestamp);
}

/// Whether the sender may ask for something does not depend on nonces.
pub proof fn law_rights_ignore_nonces(rules: Rules, db: Db, x: Id, n: u64, sender: Id, payload: PayloadView, timestamp: i64)
    ensures
        may(rules, put_nonce(db, x, n), sender, payload, timestamp) == may(rules, db, sender, payload, timestamp),
{
    law_participant_reads(sender);
    match payload {
        PayloadView::ReleaseEscrow { escrow_id, .. } => {
            law_escrow_reads(escrow_id);
        },
        PayloadView::RefundEscrow { escrow_id } => {
            law_escrow_reads(escrow_id);
        },
        PayloadView::RaiseDispute { escrow_id, .. } => {
            law_escrow_reads(escrow_id);
        },
        PayloadView::SubmitEvidence { dispute_id, .. } => {
            law_dispute_reads(dispute_id);
            if let Slot::Present(d) = dispute_at(db, dispute_id) {
                law_escrow_reads(d.escrow_id);
            }
        },
        _ => {},
    }
}

// ── Participants ──

/// Is `q` the profile `p` with more behind it?
pub open spec fn grown(p: ParticipantView, q: ParticipantView) -> bool {
    &&& q.id == p.id
    &&& q.p_type == p.p_type
    &&& q.registered_at == p.registered_at
    &&& q.total_tx >= p.total_tx
    &&& q.success_tx >= p.success_tx
    &&& q.dispute_won >= p.dispute_won
    &&& q.rating_sum >= p.rating_sum
    &&& q.rating_count >= p.rating_count
    &&& q.total_volume >= p.total_volume
    &&& q.total_settled >= p.total_settled
}

/// The participant is there, with at least the history it had.
pub open spec fn stands(db: Db, id: Id, p: ParticipantView) -> bool {
    participant_at(db, id) matches Slot::Present(q) && grown(p, q)
}

/// It stands, and its record fits.
spec fn holds(db: Db, id: Id, p: ParticipantView) -> bool {
    participant_at(db, id) matches Slot::Present(q) && grown(p, q) && participant_fits(q)
}

/// Does the participant stand after the step, if it stood before?
spec fn keeps(step: Step, id: Id, p: ParticipantView) -> bool {
    match step {
        Some((after, _)) => holds(after, id, p),
        None => true,
    }
}

proof fn lemma_mint_keeps(db: Db, to: Id, amount: u64, reason: Seq<char>, id: Id, p: ParticipantView)
    requires
        holds(db, id, p),
    ensures
        keeps(mint_step(db, to, amount, reason), id, p),
{
    law_participant_reads(id);
}

proof fn lemma_released_keeps(db: Db, escrow_id: Id, e: Escrow, timestamp: i64, reward: u64, id: Id, p: ParticipantView)
    requires
        holds(db, id, p),
    ensures
        keeps(released_step(db, escrow_id, e, timestamp, reward), id, p),
{
    law_participant_reads(id);
    law_participant_reads(e.buyer);
    law_participant_reads(e.seller);
    assert forall|d: Db, to: Id| holds(d, id, p) implies keeps(#[trigger] mint_step(d, to, reward, "escrow_complete"@), id, p) by {
        lemma_mint_keeps(d, to, reward, "escrow_complete"@, id, p);
    }
}

proof fn lemma_verdict_keeps(db: Db, raised_by: Id, e: Escrow, resolution: u8, reward: u64, id: Id, p: ParticipantView)
    requires
        holds(db, id, p),
    ensures
        keeps(verdict_step(db, raised_by, e, resolution, reward), id, p),
{
    law_participant_reads(id);
    assert forall|d: Db, to: Id| holds(d, id, p) implies keeps(#[trigger] mint_step(d, to, reward, "dispute_won"@), id, p) by {
        lemma_mint_keeps(d, to, reward, "dispute_won"@, id, p);
    }
}

proof fn lemma_own_record_keeps(db: Db, sender: Id, who: Id, p_type: ParticipantType, metadata: Seq<char>, timestamp: i64, id: Id, p: ParticipantView)
    requires
        holds(db, id, p),
    ensures
        holds(register_step(db, sender, who, p_type, metadata, timestamp).0, id, p),
        fits(update_step(db, sender, who, metadata, timestamp).0) ==> holds(update_step(db, sender, who, metadata, timestamp).0, id, p),
        holds(deactivate_step(db, sender, who).0, id, p),
{
    law_participant_reads(id);
    let updated = update_step(db, sender, who, metadata, timestamp).0;
    if fits(updated) {
        lemma_at_put(participant_key(who));
        lemma_participant_fits(updated, who);
    }
}

proof fn lemma_record_keeps(db: Db, sender: Id, who: Id, data: SettlementData, timestamp: i64, reward: u64, id: Id, p: ParticipantView)
    requires
        holds(db, id, p),
    ensures
        keeps(record_step(db, sender, who, data, timestamp, reward), id, p),
{
    law_participant_reads(id);
    assert forall|d: Db, to: Id| holds(d, id, p) implies keeps(#[trigger] mint_step(d, to, reward, "settlement_reward"@), id, p) by {
        lemma_mint_keeps(d, to, reward, "settlement_reward"@, id, p);
    }
}

proof fn lemma_rating_keeps(db: Db, who: Id, rating: u16, success: bool, timestamp: i64, reward: u64, id: Id, p: ParticipantView)
    requires
        holds(db, id, p),
    ensures
        keeps(rating_step(db, who, rating, success, timestamp, reward), id, p),
{
    law_participant_reads(id);
    assert forall|d: Db, to: Id| holds(d, id, p) implies keeps(#[trigger] mint_step(d, to, reward, "rating_reward"@), id, p) by {
        lemma_mint_keeps(d, to, reward, "rating_reward"@, id, p);
    }
}

proof fn lemma_escrow_keeps(db: Db, sender: Id, escrow_id: Id, evidence_hash: [u8; 32], timestamp: i64, reward: u64, id: Id, p: ParticipantView)
    requires
        holds(db, id, p),
    ensures
        keeps(release_step(db, sender, escrow_id, evidence_hash, timestamp, reward), id, p),
        holds(refund_step(db, sender, escrow_id, timestamp).0, id, p),
{
    law_participant_reads(id);
    assert forall|d: Db, e: Escrow| holds(d, id, p) implies keeps(#[trigger] released_step(d, escrow_id, e, timestamp, reward), id, p) by {
        lemma_released_keeps(d, escrow_id, e, timestamp, reward, id, p);
    }
}

proof fn lemma_dispute_keeps(db: Db, sender: Id, dispute_id: Id, escrow_id: Id, reason: DisputeReason, evidence_hash: [u8; 32], timestamp: i64, id: Id, p: ParticipantView)
    requires
        holds(db, id, p),
    ensures
        holds(raise_step(db, dispute_id, escrow_id, sender, reason, evidence_hash, timestamp).0, id, p),
        holds(evidence_step(db, sender, dispute_id, evidence_hash).0, id, p),
{
    law_participant_reads(id);
}

proof fn lemma_vote_keeps(db: Db, dispute_id: Id, voter: Id, decision: DisputeDecision, timestamp: i64, reward: u64, threshold: usize, id: Id, p: ParticipantView)
    requires
        holds(db, id, p),
    ensures
        keeps(vote_step(db, dispute_id, voter, decision, timestamp, reward, threshold), id, p),
{
    law_participant_reads(id);
    assert forall|d: Db, by: Id, e: Escrow, v: u8| holds(d, id, p) implies keeps(#[trigger] verdict_step(d, by, e, v, reward), id, p) by {
        lemma_verdict_keeps(d, by, e, v, reward, id, p);
    }
}

proof fn lemma_tokens_keep(db: Db, from: Id, to: Id, amount: u64, purpose: Seq<char>, id: Id, p: ParticipantView)
    requires
        holds(db, id, p),
    ensures
        keeps(transfer_step(db, from, to, amount), id, p),
        keeps(spend_step(db, from, amount, purpose), id, p),
{
    law_participant_reads(id);
}

/// A participant never disappears and never changes its type, and its history only
/// grows: no transaction takes a transaction, a success, a won dispute, a rating or
/// a volume away. What is written must fit into a store, as it does in every one.
pub proof fn law_participant_stands(rules: Rules, db: Db, tx: TransactionView, timestamp: i64, id: Id, p: ParticipantView)
    requires
        participant_at(db, id) == Slot::Present(p),
        fits(db),
    ensures
        execute_step(rules, db, tx, timestamp) matches Some((after, _)) ==> fits(after) ==> stands(after, id, p),
{
    let noted = put_nonce(db, tx.sender, tx.nonce);
    lemma_participant_fits(db, id);
    assert(holds(noted, id, p)) by {
        law_participant_reads(id);
    }
    let step = payload_step(rules, noted, tx.sender, tx.payload, timestamp);
    if step matches Some((after, _)) && fits(after) {
        reveal(payload_step);
        let sender = tx.sender;
        match tx.payload {
            PayloadView::RegisterParticipant { id: who, p_type, metadata } => {
                lemma_own_record_keeps(noted, sender, who, p_type, metadata, timestamp, id, p);
            },
            PayloadView::UpdateParticipant { id: who, metadata } => {
                lemma_own_record_keeps(noted, sender, who, ParticipantType::Seller, metadata, timestamp, id, p);
            },
            PayloadView::DeactivateParticipant { id: who } => {
                lemma_own_record_keeps(noted, sender, who, ParticipantType::Seller, Seq::empty(), timestamp, id, p);
            },
            PayloadView::RecordSettlement { participant_id, record } => {
                lemma_record_keeps(noted, sender, participant_id, record, timestamp, rules.rewards.settlement_recorded, id, p);
            },
            PayloadView::RecordRating { participant_id, rating, success } => {
                lemma_rating_keeps(noted, participant_id, rating, success, timestamp, rules.rewards.rating_submitted, id, p);
            },
            PayloadView::CreateEscrow { .. } => {
                law_participant_reads(id);
            },
            PayloadView::ReleaseEscrow { escrow_id, evidence_hash } => {
                lemma_escrow_keeps(noted, sender, escrow_id, evidence_hash, timestamp, rules.rewards.escrow_completed, id, p);
            },
            PayloadView::RefundEscrow { escrow_id } => {
                lemma_escrow_keeps(noted, sender, escrow_id, EMPTY_HASH, timestamp, 0, id, p);
            },
            PayloadView::RaiseDispute { dispute_id, escrow_id, reason, evidence_hash } => {
                lemma_dispute_keeps(noted, sender, dispute_id, escrow_id, reason, evidence_hash, timestamp, id, p);
            },
            PayloadView::SubmitEvidence { dispute_id, evidence_hash } => {
                lemma_dispute_keeps(noted, sender, dispute_id, dispute_id, DisputeReason::Other, evidence_hash, timestamp, id, p);
            },
            PayloadView::VoteDispute { dispute_id, decision } => {
                lemma_vote_keeps(noted, dispute_id, sender, decision, timestamp, rules.rewards.dispute_won, rules.vote_threshold, id, p);
            },
            PayloadView::TransferRCW { to, amount, memo } => {
                lemma_tokens_keep(noted, sender, to, amount, memo, id, p);
            },
            PayloadView::SpendRCW { amount, purpose } => {
                lemma_tokens_keep(noted, sender, sender, amount, purpose, id, p);
            },
            PayloadView::AnchorMerkleRoot { .. } => {
                law_participant_reads(id);
            },
        }
        assert(keeps(step, id, p));
    }
}

/// One registers once: whoever is registered is refused.
pub proof fn law_registered_once(db: Db, sender: Id, id: Id, p_type: ParticipantType, metadata: Seq<char>, timestamp: i64, again: ParticipantType, other: Seq<char>, later: i64)
    requires
        register_step(db, sender, id, p_type, metadata, timestamp).1 is Ok,
        fits(register_step(db, sender, id, p_type, metadata, timestamp).0),
    ensures
        ({
            let after = register_step(db, sender, id, p_type, metadata, timestamp).0;
            register_step(after, sender, id, again, other, later) == (after, Err::<Seq<crate::types::EventView>, Seq<char>>("Participant already exists"@))
        }),
{
    law_participant_reads(id);
    lemma_at_put(participant_key(id));
    lemma_participant_fits(register_step(db, sender, id, p_type, metadata, timestamp).0, id);
}

// ── Disputes ──

/// Nobody has voted twice.
pub open spec fn distinct_voters(votes: Seq<DisputeVote>) -> bool {
    forall|i: int, j: int| 0 <= i < j < votes.len() ==> (#[trigger] votes[i]).voter != (#[trigger] votes[j]).voter
}

proof fn lemma_vote_distinct(d: DisputeView, voter: Id, decision: DisputeDecision, timestamp: i64)
    requires
        distinct_voters(d.votes),
        !has_voted(d.votes, voter),
    ensures
        distinct_voters(with_vote(d, voter, decision, timestamp).votes),
{
    let votes = with_vote(d, voter, decision, timestamp).votes;
    assert forall|i: int, j: int| 0 <= i < j < votes.len() implies (#[trigger] votes[i]).voter != (#[trigger] votes[j]).voter by {
        assert(votes[i] == d.votes[i]);
        if j < d.votes.len() {
            assert(votes[j] == d.votes[j]);
        }
    }
}

/// Is every vote on the dispute a different arbiter's?
pub open spec fn fairly_voted(db: Db, id: Id) -> bool {
    dispute_at(db, id) matches Slot::Present(d) ==> distinct_voters(d.votes)
}

spec fn same_dispute(step: Step, db: Db, id: Id) -> bool {
    match step {
        Some((after, _)) => dispute_at(after, id) == dispute_at(db, id),
        None => true,
    }
}

proof fn lemma_verdict_same(db: Db, raised_by: Id, e: Escrow, resolution: u8, reward: u64, id: Id)
    ensures
        same_dispute(verdict_step(db, raised_by, e, resolution, reward), db, id),
{
    law_dispute_reads(id);
}

proof fn lemma_released_same(db: Db, escrow_id: Id, e: Escrow, timestamp: i64, reward: u64, id: Id)
    ensures
        same_dispute(released_step(db, escrow_id, e, timestamp, reward), db, id),
{
    law_dispute_reads(id);
}

/// What is under a dispute's key after a dispute or a participant is written.
proof fn lemma_at_dispute(id: Id)
    ensures
        forall|db: Db, m: DisputeView| at(#[trigger] put_dispute(db, id, m), dispute_key(id)) == Some(Dispute::bytes(m)),
        forall|db: Db, x: Id, m: ParticipantView| at(#[trigger] put_participant(db, x, m), dispute_key(id)) == at(db, dispute_key(id)),
{
    lemma_at_put(dispute_key(id));
    assert forall|x: Id| #![trigger participant_key(x)] participant_key(x) != dispute_key(id) by {
        law_keys_distinct(x, id, 0, 0);
    }
}

/// One arbiter, one vote: no transaction makes a voter count twice.
pub proof fn law_one_vote_each(rules: Rules, db: Db, tx: TransactionView, timestamp: i64, id: Id)
    requires
        fairly_voted(db, id),
    ensures
        execute_step(rules, db, tx, timestamp) matches Some((after, _)) ==> fits(after) ==> fairly_voted(after, id),
{
    reveal(payload_step);
    law_dispute_reads(id);
    let noted = put_nonce(db, tx.sender, tx.nonce);
    assert(dispute_at(noted, id) == dispute_at(db, id));
    match tx.payload {
        PayloadView::RaiseDispute { dispute_id, escrow_id, .. } => {
            lemma_at_dispute(id);
            if let Some((after, _)) = execute_step(rules, db, tx, timestamp) {
                assert(fits(after) ==> (at(after, dispute_key(id)) matches Some(v) ==> v.len() <= u64::MAX));
            }
        },
        PayloadView::SubmitEvidence { dispute_id, .. } => {
            lemma_at_dispute(id);
            if let Some((after, _)) = execute_step(rules, db, tx, timestamp) {
                assert(fits(after) ==> (at(after, dispute_key(id)) matches Some(v) ==> v.len() <= u64::MAX));
            }
        },
        PayloadView::ReleaseEscrow { escrow_id, evidence_hash } => {
            assert forall|d: Db, e: Escrow| same_dispute(#[trigger] released_step(d, escrow_id, e, timestamp, rules.rewards.escrow_completed), d, id) by {
                lemma_released_same(d, escrow_id, e, timestamp, rules.rewards.escrow_completed, id);
            }
        },
        PayloadView::VoteDispute { dispute_id, decision } => {
            assert forall|d: Db, by: Id, e: Escrow, v: u8| same_dispute(#[trigger] verdict_step(d, by, e, v, rules.rewards.dispute_won), d, id) by {
                lemma_verdict_same(d, by, e, v, rules.rewards.dispute_won, id);
            }
            if let Slot::Present(d) = dispute_at(noted, dispute_id) {
                if dispute_id == id && !has_voted(d.votes, tx.sender) {
                    lemma_vote_distinct(d, tx.sender, decision, timestamp);
                }
            }
            lemma_at_dispute(id);
            if let Some((after, _)) = execute_step(rules, db, tx, timestamp) {
                assert(fits(after) ==> (at(after, dispute_key(id)) matches Some(v) ==> v.len() <= u64::MAX));
            }
        },
        _ => {},
    }
}

/// One who is accused and wins has no more disputes than before the accusation; one
/// who accused and lost has two more.
pub proof fn law_dispute_counts(p: ParticipantView)
    requires
        p.dispute_count < u64::MAX - 1,
    ensures
        won(accused(p), false).dispute_count == p.dispute_count,
        lost(p, true).dispute_count == p.dispute_count + 2,
        lost(accused(p), false).dispute_count == p.dispute_count + 2,
{
}

/// Where every vote is for a split, so is the verdict.
pub proof fn law_split_verdict(votes: Seq<DisputeVote>)
    requires
        forall|i: int| 0 <= i < votes.len() ==> (#[trigger] votes[i]).decision == 2,
    ensures
        verdict(votes) == 2,
    decreases votes.len(),
{
    if votes.len() > 0 {
        let rest = votes.drop_last();
        assert forall|i: int| 0 <= i < rest.len() implies (#[trigger] rest[i]).decision == 2 by {
            assert(rest[i] == votes[i]);
        }
        law_split_verdict(rest);
        assert(votes.last() == votes[votes.len() - 1]);
    }
}

} // verus!

//! What every transaction keeps.

use crate::laws::keys::lemma_at_put;
use crate::laws::reads::{law_participant_reads, lemma_participant_fits, participant_fits};
use crate::state::dispute::{evidence_step, raise_step, verdict_step, vote_step};
use crate::state::escrow::{refund_step, release_step, released_step};
use crate::state::machine::{execute_step, payload_step, Rules};
use crate::state::participant::{deactivate_step, register_step, update_step};
use crate::state::settlement::{rating_step, record_step};
use crate::state::step::Step;
use crate::store::{fits, participant_at, participant_key, put_anchor, put_balance, put_dispute, put_escrow, put_nonce, put_participant, put_settlement, Db, Slot};
use crate::types::{AnchorRecord, DisputeDecision, DisputeReason, DisputeView, Escrow, Id, ParticipantType, ParticipantView, PayloadView, RCWBalance, SettlementData, SettlementRecord, TransactionView, EMPTY_HASH};
use vstd::prelude::*;

verus! {

// ── What no write breaks ──

/// Does every write of a record keep `inv`?
pub open spec fn writes_keep(inv: spec_fn(Db) -> bool) -> bool {
    &&& forall|db: Db, id: Id, m: ParticipantView| inv(db) ==> inv(#[trigger] put_participant(db, id, m))
    &&& forall|db: Db, id: Id, m: SettlementRecord| inv(db) ==> inv(#[trigger] put_settlement(db, id, m))
    &&& forall|db: Db, id: Id, m: RCWBalance| inv(db) ==> inv(#[trigger] put_balance(db, id, m))
    &&& forall|db: Db, id: Id, m: Escrow| inv(db) ==> inv(#[trigger] put_escrow(db, id, m))
    &&& forall|db: Db, id: Id, m: DisputeView| inv(db) ==> inv(#[trigger] put_dispute(db, id, m))
    &&& forall|db: Db, id: Id, m: AnchorRecord| inv(db) ==> inv(#[trigger] put_anchor(db, id, m))
    &&& forall|db: Db, id: Id, n: u64| inv(db) ==> inv(#[trigger] put_nonce(db, id, n))
}

spec fn holds_after(inv: spec_fn(Db) -> bool, step: Step) -> bool {
    match step {
        Some((after, _)) => inv(after),
        None => true,
    }
}

proof fn lemma_released_holds(inv: spec_fn(Db) -> bool, db: Db, escrow_id: Id, e: Escrow, timestamp: i64, reward: u64)
    requires
        writes_keep(inv),
        inv(db),
    ensures
        holds_after(inv, released_step(db, escrow_id, e, timestamp, reward)),
{
}

proof fn lemma_verdict_holds(inv: spec_fn(Db) -> bool, db: Db, raised_by: Id, e: Escrow, resolution: u8, reward: u64)
    requires
        writes_keep(inv),
        inv(db),
    ensures
        holds_after(inv, verdict_step(db, raised_by, e, resolution, reward)),
{
}

/// What every write keeps, every transaction keeps.
pub proof fn law_writes_suffice(inv: spec_fn(Db) -> bool, rules: Rules, db: Db, tx: TransactionView, timestamp: i64)
    requires
        writes_keep(inv),
        inv(db),
    ensures
        execute_step(rules, db, tx, timestamp) matches Some((after, _)) ==> inv(after),
{
    reveal(payload_step);
    match tx.payload {
        PayloadView::ReleaseEscrow { escrow_id, evidence_hash } => {
            assert forall|d: Db, e: Escrow| inv(d) implies holds_after(
                inv,
                #[trigger] released_step(d, escrow_id, e, timestamp, rules.rewards.escrow_completed),
            ) by {
                lemma_released_holds(inv, d, escrow_id, e, timestamp, rules.rewards.escrow_completed);
            }
        },
        PayloadView::VoteDispute { dispute_id, decision } => {
            assert forall|d: Db, by: Id, e: Escrow, v: u8| inv(d) implies holds_after(inv, #[trigger] verdict_step(d, by, e, v, rules.rewards.dispute_won)) by {
                lemma_verdict_holds(inv, d, by, e, v, rules.rewards.dispute_won);
            }
        },
        _ => {},
    }
}

/// Finitely many records stay finitely many.
pub proof fn law_finite_stays_finite(rules: Rules, db: Db, tx: TransactionView, timestamp: i64)
    requires
        db.dom().finite(),
    ensures
        execute_step(rules, db, tx, timestamp) matches Some((after, _)) ==> after.dom().finite(),
{
    reveal(put_participant);
    reveal(put_settlement);
    reveal(put_balance);
    reveal(put_escrow);
    reveal(put_dispute);
    reveal(put_anchor);
    reveal(put_nonce);
    let inv = |d: Db| d.dom().finite();
    law_writes_suffice(inv, rules, db, tx, timestamp);
    assert(inv(db));
}

// ── Profiles whose counts agree ──

/// No more successes than transactions, and ratings from one to five hundred.
pub open spec fn counts_agree(p: ParticipantView) -> bool {
    &&& p.success_tx <= p.total_tx
    &&& p.rating_count <= p.rating_sum <= 500 * p.rating_count
}

/// Do the counts of every participant agree?
pub open spec fn orderly(db: Db) -> bool {
    forall|id: Id| (#[trigger] participant_at(db, id)) matches Slot::Present(p) ==> counts_agree(p)
}

/// Counts that agree, in a record that fits.
spec fn is_sound(p: ParticipantView) -> bool {
    counts_agree(p) && participant_fits(p)
}

#[verifier::opaque]
spec fn ordered(db: Db) -> bool {
    forall|id: Id| (#[trigger] participant_at(db, id)) matches Slot::Present(p) ==> is_sound(p)
}

spec fn stays_orderly(step: Step) -> bool {
    match step {
        Some((after, _)) => ordered(after),
        None => true,
    }
}

/// How writes bear on that.
proof fn lemma_orderly()
    ensures
        forall|db: Db, id: Id| ordered(db) ==> ((#[trigger] participant_at(db, id)) matches Slot::Present(p) ==> is_sound(p)),
        forall|db: Db, id: Id, m: ParticipantView| ordered(db) && is_sound(m) ==> ordered(#[trigger] put_participant(db, id, m)),
        forall|db: Db, id: Id, m: SettlementRecord| ordered(db) ==> ordered(#[trigger] put_settlement(db, id, m)),
        forall|db: Db, id: Id, m: RCWBalance| ordered(db) ==> ordered(#[trigger] put_balance(db, id, m)),
        forall|db: Db, id: Id, m: Escrow| ordered(db) ==> ordered(#[trigger] put_escrow(db, id, m)),
        forall|db: Db, id: Id, m: DisputeView| ordered(db) ==> ordered(#[trigger] put_dispute(db, id, m)),
        forall|db: Db, id: Id, m: AnchorRecord| ordered(db) ==> ordered(#[trigger] put_anchor(db, id, m)),
        forall|db: Db, id: Id, n: u64| ordered(db) ==> ordered(#[trigger] put_nonce(db, id, n)),
{
    reveal(ordered);
    assert forall|db: Db, id: Id, m: ParticipantView| ordered(db) && is_sound(m) implies ordered(#[trigger] put_participant(db, id, m)) by {
        assert forall|x: Id| (#[trigger] participant_at(put_participant(db, id, m), x)) matches Slot::Present(p) ==> is_sound(p) by {
            law_participant_reads(x);
            assert(participant_at(db, x) matches Slot::Present(p) ==> is_sound(p));
        }
    }
    assert forall|db: Db, id: Id, m: SettlementRecord| ordered(db) implies ordered(#[trigger] put_settlement(db, id, m)) by {
        assert forall|x: Id| #[trigger] participant_at(put_settlement(db, id, m), x) == participant_at(db, x) by {
            law_participant_reads(x);
        }
        lemma_same_participants(db, put_settlement(db, id, m));
    }
    assert forall|db: Db, id: Id, m: RCWBalance| ordered(db) implies ordered(#[trigger] put_balance(db, id, m)) by {
        assert forall|x: Id| #[trigger] participant_at(put_balance(db, id, m), x) == participant_at(db, x) by {
            law_participant_reads(x);
        }
        lemma_same_participants(db, put_balance(db, id, m));
    }
    assert forall|db: Db, id: Id, m: Escrow| ordered(db) implies ordered(#[trigger] put_escrow(db, id, m)) by {
        assert forall|x: Id| #[trigger] participant_at(put_escrow(db, id, m), x) == participant_at(db, x) by {
            law_participant_reads(x);
        }
        lemma_same_participants(db, put_escrow(db, id, m));
    }
    assert forall|db: Db, id: Id, m: DisputeView| ordered(db) implies ordered(#[trigger] put_dispute(db, id, m)) by {
        assert forall|x: Id| #[trigger] participant_at(put_dispute(db, id, m), x) == participant_at(db, x) by {
            law_participant_reads(x);
        }
        lemma_same_participants(db, put_dispute(db, id, m));
    }
    assert forall|db: Db, id: Id, m: AnchorRecord| ordered(db) implies ordered(#[trigger] put_anchor(db, id, m)) by {
        assert forall|x: Id| #[trigger] participant_at(put_anchor(db, id, m), x) == participant_at(db, x) by {
            law_participant_reads(x);
        }
        lemma_same_participants(db, put_anchor(db, id, m));
    }
    assert forall|db: Db, id: Id, n: u64| ordered(db) implies ordered(#[trigger] put_nonce(db, id, n)) by {
        assert forall|x: Id| #[trigger] participant_at(put_nonce(db, id, n), x) == participant_at(db, x) by {
            law_participant_reads(x);
        }
        lemma_same_participants(db, put_nonce(db, id, n));
    }
}

proof fn lemma_same_participants(a: Db, b: Db)
    requires
        ordered(a),
        forall|x: Id| #[trigger] participant_at(b, x) == participant_at(a, x),
    ensures
        ordered(b),
{
    reveal(ordered);
    assert forall|x: Id| (#[trigger] participant_at(b, x)) matches Slot::Present(p) ==> is_sound(p) by {
        assert(participant_at(b, x) == participant_at(a, x));
    }
}

proof fn lemma_released_orderly(db: Db, escrow_id: Id, e: Escrow, timestamp: i64, reward: u64)
    requires
        ordered(db),
    ensures
        stays_orderly(released_step(db, escrow_id, e, timestamp, reward)),
{
    lemma_orderly();
}

proof fn lemma_verdict_orderly(db: Db, raised_by: Id, e: Escrow, resolution: u8, reward: u64)
    requires
        ordered(db),
    ensures
        stays_orderly(verdict_step(db, raised_by, e, resolution, reward)),
{
    lemma_orderly();
}

proof fn lemma_own_record_orderly(db: Db, sender: Id, id: Id, p_type: ParticipantType, metadata: Seq<char>, timestamp: i64)
    requires
        ordered(db),
    ensures
        fits(register_step(db, sender, id, p_type, metadata, timestamp).0) ==> ordered(register_step(db, sender, id, p_type, metadata, timestamp).0),
        fits(update_step(db, sender, id, metadata, timestamp).0) ==> ordered(update_step(db, sender, id, metadata, timestamp).0),
        ordered(deactivate_step(db, sender, id).0),
{
    lemma_orderly();
    lemma_at_put(participant_key(id));
    let registered = register_step(db, sender, id, p_type, metadata, timestamp).0;
    if fits(registered) {
        lemma_participant_fits(registered, id);
    }
    let updated = update_step(db, sender, id, metadata, timestamp).0;
    if fits(updated) {
        lemma_participant_fits(updated, id);
    }
}

proof fn lemma_record_orderly(db: Db, sender: Id, id: Id, data: SettlementData, timestamp: i64, reward: u64)
    requires
        ordered(db),
    ensures
        stays_orderly(record_step(db, sender, id, data, timestamp, reward)),
{
    lemma_orderly();
}

proof fn lemma_rating_orderly(db: Db, id: Id, rating: u16, success: bool, timestamp: i64, reward: u64)
    requires
        ordered(db),
    ensures
        stays_orderly(rating_step(db, id, rating, success, timestamp, reward)),
{
    lemma_orderly();
}

proof fn lemma_escrow_orderly(db: Db, sender: Id, escrow_id: Id, evidence_hash: [u8; 32], timestamp: i64, reward: u64)
    requires
        ordered(db),
    ensures
        stays_orderly(release_step(db, sender, escrow_id, evidence_hash, timestamp, reward)),
        ordered(refund_step(db, sender, escrow_id, timestamp).0),
{
    lemma_orderly();
    assert forall|d: Db, e: Escrow| ordered(d) implies stays_orderly(#[trigger] released_step(d, escrow_id, e, timestamp, reward)) by {
        lemma_released_orderly(d, escrow_id, e, timestamp, reward);
    }
}

proof fn lemma_dispute_orderly(db: Db, sender: Id, dispute_id: Id, escrow_id: Id, reason: DisputeReason, evidence_hash: [u8; 32], timestamp: i64)
    requires
        ordered(db),
    ensures
        ordered(raise_step(db, dispute_id, escrow_id, sender, reason, evidence_hash, timestamp).0),
        ordered(evidence_step(db, sender, dispute_id, evidence_hash).0),
{
    lemma_orderly();
}

proof fn lemma_vote_orderly(db: Db, dispute_id: Id, voter: Id, decision: DisputeDecision, timestamp: i64, reward: u64, threshold: usize)
    requires
        ordered(db),
    ensures
        stays_orderly(vote_step(db, dispute_id, voter, decision, timestamp, reward, threshold)),
{
    lemma_orderly();
    assert forall|d: Db, by: Id, e: Escrow, v: u8| ordered(d) implies stays_orderly(#[trigger] verdict_step(d, by, e, v, reward)) by {
        lemma_verdict_orderly(d, by, e, v, reward);
    }
}

/// The counts of every participant go on agreeing, whether a transaction succeeds or
/// is refused: there are no more successes than transactions, and the ratings lie
/// between one and five hundred each. What is written must fit into a store, as it
/// does in every one.
pub proof fn law_counts_agree(rules: Rules, db: Db, tx: TransactionView, timestamp: i64)
    requires
        orderly(db),
        fits(db),
    ensures
        execute_step(rules, db, tx, timestamp) matches Some((after, _)) ==> fits(after) ==> orderly(after),
{
    let noted = put_nonce(db, tx.sender, tx.nonce);
    assert(ordered(db)) by {
        reveal(ordered);
        assert forall|id: Id| (#[trigger] participant_at(db, id)) matches Slot::Present(p) ==> is_sound(p) by {
            lemma_participant_fits(db, id);
        }
    }
    assert(ordered(noted)) by {
        lemma_orderly();
    }
    let step = payload_step(rules, noted, tx.sender, tx.payload, timestamp);
    if step matches Some((after, _)) && fits(after) {
        reveal(payload_step);
        let sender = tx.sender;
        match tx.payload {
            PayloadView::RegisterParticipant { id, p_type, metadata } => {
                lemma_own_record_orderly(noted, sender, id, p_type, metadata, timestamp);
            },
            PayloadView::UpdateParticipant { id, metadata } => {
                lemma_own_record_orderly(noted, sender, id, ParticipantType::Seller, metadata, timestamp);
            },
            PayloadView::DeactivateParticipant { id } => {
                lemma_own_record_orderly(noted, sender, id, ParticipantType::Seller, Seq::empty(), timestamp);
            },
            PayloadView::RecordSettlement { participant_id, record } => {
                lemma_record_orderly(noted, sender, participant_id, record, timestamp, rules.rewards.settlement_recorded);
            },
            PayloadView::RecordRating { participant_id, rating, success } => {
                lemma_rating_orderly(noted, participant_id, rating, success, timestamp, rules.rewards.rating_submitted);
            },
            PayloadView::CreateEscrow { .. } => {
                lemma_orderly();
            },
            PayloadView::ReleaseEscrow { escrow_id, evidence_hash } => {
                lemma_escrow_orderly(noted, sender, escrow_id, evidence_hash, timestamp, rules.rewards.escrow_completed);
            },
            PayloadView::RefundEscrow { escrow_id } => {
                lemma_escrow_orderly(noted, sender, escrow_id, EMPTY_HASH, timestamp, 0);
            },
            PayloadView::RaiseDispute { dispute_id, escrow_id, reason, evidence_hash } => {
                lemma_dispute_orderly(noted, sender, dispute_id, escrow_id, reason, evidence_hash, timestamp);
            },
            PayloadView::SubmitEvidence { dispute_id, evidence_hash } => {
                lemma_dispute_orderly(noted, sender, dispute_id, dispute_id, DisputeReason::Other, evidence_hash, timestamp);
            },
            PayloadView::VoteDispute { dispute_id, decision } => {
                lemma_vote_orderly(noted, dispute_id, sender, decision, timestamp, rules.rewards.dispute_won, rules.vote_threshold);
            },
            PayloadView::TransferRCW { .. } => {
                lemma_orderly();
            },
            PayloadView::SpendRCW { .. } => {
                lemma_orderly();
            },
            PayloadView::AnchorMerkleRoot { .. } => {
                lemma_orderly();
            },
        }
        assert(stays_orderly(step));
        reveal(ordered);
    }
}

/// At first there are no participants, so their counts agree.
pub proof fn law_orderly_at_first()
    ensures
        orderly(Map::empty()),
{
    reveal(crate::store::slot);
}

} // verus!

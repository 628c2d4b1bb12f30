//! Which transactions succeed, which are refused, and which come to nothing.

use crate::laws::deeds::{is_done, law_carried_out};
use crate::laws::frames::law_nonces;
use crate::laws::keys::{at, law_keys_distinct, lemma_at_put, lemma_number_found, lemma_slot_at};
use crate::laws::reads::{law_balance_reads, law_participant_reads, lemma_participant_fits};
use crate::laws::refusals::{is_there, law_sound_is_readable, lemma_noted, lemma_released_succeeds, lemma_verdict_succeeds, sound};
use crate::state::dispute::{raise_step, tally, verdict, verdict_step, vote_step, with_vote};
use crate::state::escrow::{as_released, refund_step, release_step};
use crate::state::machine::{execute_step, payload_step, Rules};
use crate::state::settlement::{rating_step, record_step};
use crate::state::step::Step;
use crate::state::token::{spend_step, transfer_step};
use crate::store::{anchor_at, anchor_key, balance_at, dispute_at, escrow_at, fits, nonce_at, participant_at, put_escrow, put_nonce, Db, Slot};
use crate::text::decimal;
use crate::types::{AnchorRecord, DisputeDecision, DisputeReason, DisputeState, DisputeVote, Escrow, EscrowState, EventView, Id, PayloadView, SettlementData, TransactionView};
use vstd::prelude::*;

verus! {

/// Nobody has got the money yet, and nobody quarrels over it.
pub open spec fn is_undecided(state: EscrowState) -> bool {
    state == EscrowState::Created || state == EscrowState::Funded
}

/// Is it in order for the sender to ask for this now?
pub open spec fn is_due(rules: Rules, db: Db, sender: Id, payload: PayloadView, timestamp: i64) -> bool {
    match payload {
        // One registers oneself, once
        PayloadView::RegisterParticipant { id, .. } => sender == id && participant_at(db, id) is Absent,
        // One sees to one's own record
        PayloadView::UpdateParticipant { id, .. } => sender == id && participant_at(db, id) is Present,
        PayloadView::DeactivateParticipant { id } => sender == id && participant_at(db, id) is Present,
        PayloadView::RecordSettlement { participant_id, .. } => sender == participant_id && participant_at(db, participant_id) is Present,
        // Anybody rates anybody who is registered
        PayloadView::RecordRating { participant_id, .. } => participant_at(db, participant_id) is Present,
        // The buyer puts up the money, between those who are registered
        PayloadView::CreateEscrow { escrow_id, buyer, seller, .. } => sender == buyer && escrow_at(db, escrow_id) is Absent && participant_at(db, buyer) is Present
            && participant_at(db, seller) is Present,
        // The buyer lets the seller have it, as long as it has not expired
        PayloadView::ReleaseEscrow { escrow_id, .. } => escrow_at(db, escrow_id) matches Slot::Present(e) && sender == e.buyer && is_undecided(e.state) && timestamp
            <= e.expires_at,
        // The buyer takes it back, or anybody gives it back once it has expired
        PayloadView::RefundEscrow { escrow_id } => escrow_at(db, escrow_id) matches Slot::Present(e) && (sender == e.buyer || timestamp > e.expires_at) && is_undecided(
            e.state,
        ),
        // Either side disputes it until somebody has it
        PayloadView::RaiseDispute { escrow_id, .. } => escrow_at(db, escrow_id) matches Slot::Present(e) && (sender == e.buyer || sender == e.seller) && e.state
            != EscrowState::Released && e.state != EscrowState::Refunded,
        // Either side gives evidence before the first vote
        PayloadView::SubmitEvidence { dispute_id, .. } => dispute_at(db, dispute_id) matches Slot::Present(d) && escrow_at(db, d.escrow_id) matches Slot::Present(e) && (sender
            == e.buyer || sender == e.seller) && (d.state == DisputeState::Raised || d.state == DisputeState::Evidence),
        // Arbiters vote, once each, until it is decided
        PayloadView::VoteDispute { dispute_id, .. } => dispute_at(db, dispute_id) matches Slot::Present(d) && participant_at(db, sender) matches Slot::Present(p) && {
            &&& p.p_type == 54
            &&& d.state != DisputeState::Resolved
            &&& forall|i: int| 0 <= i < d.votes.len() ==> (#[trigger] d.votes[i]).voter != sender
            &&& d.votes.len() + 1 < rules.vote_threshold || escrow_at(db, d.escrow_id) is Present
        },
        // One pays what one has
        PayloadView::TransferRCW { amount, .. } => amount > 0 && (balance_at(db, sender) matches Ok(b) && b.earned + b.purchased >= amount),
        PayloadView::SpendRCW { amount, .. } => amount > 0 && (balance_at(db, sender) matches Ok(b) && b.earned + b.purchased >= amount),
        // The platform anchors each batch once
        PayloadView::AnchorMerkleRoot { batch_id, .. } => rules.platform_keys.contains(sender) && anchor_at(db, batch_id) is Absent,
    }
}

/// Is there room for what the payload adds to counts and balances?
pub open spec fn has_room(rules: Rules, db: Db, sender: Id, payload: PayloadView, timestamp: i64) -> bool {
    match payload {
        PayloadView::RecordSettlement { participant_id, .. } => has_purse_room(db, participant_id, rules.rewards.settlement_recorded as int),
        PayloadView::RecordRating { participant_id, .. } => {
            &&& participant_at(db, participant_id) matches Slot::Present(p) ==> {
                &&& p.rating_sum + 500 <= u64::MAX && p.rating_count < u64::MAX && p.total_tx < u64::MAX
                &&& timestamp - p.registered_at <= i64::MAX
            }
            &&& has_purse_room(db, participant_id, rules.rewards.rating_submitted as int)
        },
        PayloadView::ReleaseEscrow { escrow_id, .. } => escrow_at(db, escrow_id) matches Slot::Present(e) ==> has_purse_room(db, e.buyer, 2 * rules.rewards.escrow_completed)
            && has_purse_room(db, e.seller, 2 * rules.rewards.escrow_completed),
        PayloadView::VoteDispute { dispute_id, .. } => dispute_at(db, dispute_id) matches Slot::Present(d) ==> {
            &&& d.votes.len() < u32::MAX
            &&& escrow_at(db, d.escrow_id) matches Slot::Present(e) ==> has_purse_room(db, e.buyer, rules.rewards.dispute_won as int) && has_purse_room(
                db,
                e.seller,
                rules.rewards.dispute_won as int,
            )
        },
        PayloadView::TransferRCW { to, amount, .. } => has_purse_room(db, sender, 0) && (to != sender ==> has_purse_room(db, to, amount as int)),
        PayloadView::SpendRCW { .. } => has_purse_room(db, sender, 0),
        _ => true,
    }
}

/// Is there room for so many tokens more?
pub open spec fn has_purse_room(db: Db, owner: Id, amount: int) -> bool {
    balance_at(db, owner) matches Ok(b) ==> b.earned + b.purchased + amount <= u64::MAX
}

/// Does the step, if it comes to anything, succeed just where it is due? And does it
/// come to something where there is room?
spec fn answers(step: Step, due: bool, room: bool) -> bool {
    &&& step matches Some((_, how)) ==> (how is Ok <==> due)
    &&& room ==> step is Some
}

proof fn lemma_release_answers(rules: Rules, db: Db, sender: Id, escrow_id: Id, evidence_hash: [u8; 32], timestamp: i64)
    requires
        escrow_at(db, escrow_id) matches Slot::Present(e) ==> is_there(db, e.buyer) && is_there(db, e.seller) && balance_at(db, e.buyer) is Ok && balance_at(db, e.seller) is Ok,
    ensures
        ({
            let payload = PayloadView::ReleaseEscrow { escrow_id, evidence_hash };
            answers(
                release_step(db, sender, escrow_id, evidence_hash, timestamp, rules.rewards.escrow_completed),
                is_due(rules, db, sender, payload, timestamp),
                has_room(rules, db, sender, payload, timestamp),
            )
        }),
{
    if let Slot::Present(e) = escrow_at(db, escrow_id) {
        law_participant_reads(e.buyer);
        law_participant_reads(e.seller);
        law_balance_reads(e.buyer);
        law_balance_reads(e.seller);
        let done = as_released(e, evidence_hash);
        lemma_released_succeeds(put_escrow(db, escrow_id, done), escrow_id, done, timestamp, rules.rewards.escrow_completed);
    }
}

proof fn lemma_refund_answers(rules: Rules, db: Db, sender: Id, escrow_id: Id, timestamp: i64)
    requires
        escrow_at(db, escrow_id) matches Slot::Present(e) ==> is_there(db, e.seller),
    ensures
        answers(Some(refund_step(db, sender, escrow_id, timestamp)), is_due(rules, db, sender, PayloadView::RefundEscrow { escrow_id }, timestamp), true),
{
    if let Slot::Present(e) = escrow_at(db, escrow_id) {
        law_participant_reads(e.seller);
    }
}

proof fn lemma_raise_answers(rules: Rules, db: Db, sender: Id, dispute_id: Id, escrow_id: Id, reason: DisputeReason, evidence_hash: [u8; 32], timestamp: i64)
    requires
        escrow_at(db, escrow_id) matches Slot::Present(e) ==> is_there(db, e.buyer) && is_there(db, e.seller),
    ensures
        answers(
            Some(raise_step(db, dispute_id, escrow_id, sender, reason, evidence_hash, timestamp)),
            is_due(rules, db, sender, PayloadView::RaiseDispute { dispute_id, escrow_id, reason, evidence_hash }, timestamp),
            true,
        ),
{
    if let Slot::Present(e) = escrow_at(db, escrow_id) {
        law_participant_reads(e.buyer);
        law_participant_reads(e.seller);
    }
}

proof fn lemma_tally_bound(votes: Seq<DisputeVote>, side: u8)
    ensures
        tally(votes, side) <= votes.len(),
    decreases votes.len(),
{
    if votes.len() > 0 {
        lemma_tally_bound(votes.drop_last(), side);
    }
}

proof fn lemma_verdict_room(db: Db, raised_by: Id, e: Escrow, resolution: u8, reward: u64)
    requires
        has_purse_room(db, e.buyer, reward as int),
        has_purse_room(db, e.seller, reward as int),
    ensures
        verdict_step(db, raised_by, e, resolution, reward) is Some,
{
    law_balance_reads(e.buyer);
    law_balance_reads(e.seller);
}

proof fn lemma_vote_answers(rules: Rules, db: Db, sender: Id, dispute_id: Id, decision: DisputeDecision, timestamp: i64)
    requires
        dispute_at(db, dispute_id) matches Slot::Present(d) ==> (escrow_at(db, d.escrow_id) matches Slot::Present(e) ==> is_there(db, e.buyer) && is_there(db, e.seller)
            && balance_at(db, e.buyer) is Ok && balance_at(db, e.seller) is Ok),
    ensures
        ({
            let payload = PayloadView::VoteDispute { dispute_id, decision };
            answers(
                vote_step(db, dispute_id, sender, decision, timestamp, rules.rewards.dispute_won, rules.vote_threshold),
                is_due(rules, db, sender, payload, timestamp),
                has_room(rules, db, sender, payload, timestamp),
            )
        }),
{
    if let Slot::Present(d) = dispute_at(db, dispute_id) {
        let voted = with_vote(d, sender, decision, timestamp);
        lemma_tally_bound(voted.votes, 0);
        lemma_tally_bound(voted.votes, 1);
        if let Slot::Present(e) = escrow_at(db, d.escrow_id) {
            lemma_verdict_succeeds(db, d.raised_by, e, verdict(voted.votes), rules.rewards.dispute_won);
            if has_purse_room(db, e.buyer, rules.rewards.dispute_won as int) && has_purse_room(db, e.seller, rules.rewards.dispute_won as int) {
                lemma_verdict_room(db, d.raised_by, e, verdict(voted.votes), rules.rewards.dispute_won);
            }
        }
    }
}

proof fn lemma_report_answers(rules: Rules, db: Db, sender: Id, id: Id, data: SettlementData, rating: u16, success: bool, timestamp: i64)
    requires
        balance_at(db, id) is Ok,
    ensures
        ({
            let payload = PayloadView::RecordSettlement { participant_id: id, record: data };
            answers(
                record_step(db, sender, id, data, timestamp, rules.rewards.settlement_recorded),
                is_due(rules, db, sender, payload, timestamp),
                has_room(rules, db, sender, payload, timestamp),
            )
        }),
        ({
            let payload = PayloadView::RecordRating { participant_id: id, rating, success };
            answers(
                rating_step(db, id, rating, success, timestamp, rules.rewards.rating_submitted),
                is_due(rules, db, sender, payload, timestamp),
                has_room(rules, db, sender, payload, timestamp),
            )
        }),
{
    law_balance_reads(id);
}

proof fn lemma_payment_answers(rules: Rules, db: Db, sender: Id, to: Id, amount: u64, text: Seq<char>, timestamp: i64)
    requires
        balance_at(db, sender) is Ok,
        balance_at(db, to) is Ok,
    ensures
        ({
            let payload = PayloadView::TransferRCW { to, amount, memo: text };
            answers(transfer_step(db, sender, to, amount), is_due(rules, db, sender, payload, timestamp), has_room(rules, db, sender, payload, timestamp))
        }),
        ({
            let payload = PayloadView::SpendRCW { amount, purpose: text };
            answers(spend_step(db, sender, amount, text), is_due(rules, db, sender, payload, timestamp), has_room(rules, db, sender, payload, timestamp))
        }),
{
    law_balance_reads(sender);
    law_balance_reads(to);
}

/// A nonce has nothing to do with what is due.
proof fn lemma_noted_due(rules: Rules, db: Db, n: u64, sender: Id, payload: PayloadView, timestamp: i64)
    ensures
        is_due(rules, put_nonce(db, sender, n), sender, payload, timestamp) == is_due(rules, db, sender, payload, timestamp),
        has_room(rules, put_nonce(db, sender, n), sender, payload, timestamp) == has_room(rules, db, sender, payload, timestamp),
{
    lemma_noted(db, sender, n);
    if let PayloadView::AnchorMerkleRoot { batch_id, .. } = payload {
        lemma_at_put(anchor_key(batch_id));
        lemma_slot_at::<AnchorRecord>(anchor_key(batch_id));
        law_keys_distinct(batch_id, sender, 0, 0);
        law_keys_distinct(sender, batch_id, 0, 0);
        assert(at(put_nonce(db, sender, n), anchor_key(batch_id)) == at(db, anchor_key(batch_id)));
    }
}

/// A transaction succeeds just where its nonce exceeds the sender's last one and what
/// it asks for is due, and it is refused otherwise. It comes to nothing only where
/// there is no room for a count or a balance.
pub proof fn law_answer(rules: Rules, db: Db, tx: TransactionView, timestamp: i64)
    requires
        sound(db),
        fits(db),
    ensures
        execute_step(rules, db, tx, timestamp) matches Some((_, how)) ==> (how is Ok <==> tx.nonce > nonce_at(db, tx.sender) && is_due(
            rules,
            db,
            tx.sender,
            tx.payload,
            timestamp,
        )),
        has_room(rules, db, tx.sender, tx.payload, timestamp) ==> execute_step(rules, db, tx, timestamp) is Some,
{
    let noted = put_nonce(db, tx.sender, tx.nonce);
    let sender = tx.sender;
    lemma_noted(db, sender, tx.nonce);
    lemma_noted_due(rules, db, tx.nonce, sender, tx.payload, timestamp);
    law_sound_is_readable(db);
    assert forall|id: Id| (#[trigger] escrow_at(noted, id)) matches Slot::Present(e) ==> is_there(noted, e.buyer) && is_there(noted, e.seller) by {
        assert(escrow_at(noted, id) == escrow_at(db, id));
        if let Slot::Present(e) = escrow_at(db, id) {
            lemma_participant_fits(db, e.buyer);
            lemma_participant_fits(db, e.seller);
            assert(participant_at(noted, e.buyer) == participant_at(db, e.buyer));
            assert(participant_at(noted, e.seller) == participant_at(db, e.seller));
        }
    }
    assert forall|id: Id| (#[trigger] balance_at(noted, id)) is Ok by {
        assert(balance_at(noted, id) == balance_at(db, id));
    }
    assert(answers(
        payload_step(rules, noted, sender, tx.payload, timestamp),
        is_due(rules, noted, sender, tx.payload, timestamp),
        has_room(rules, noted, sender, tx.payload, timestamp),
    )) by {
        reveal(payload_step);
        match tx.payload {
            PayloadView::RecordSettlement { participant_id, record } => {
                lemma_report_answers(rules, noted, sender, participant_id, record, 0, true, timestamp);
            },
            PayloadView::RecordRating { participant_id, rating, success } => {
                lemma_report_answers(rules, noted, sender, participant_id, arbitrary(), rating, success, timestamp);
            },
            PayloadView::ReleaseEscrow { escrow_id, evidence_hash } => {
                lemma_release_answers(rules, noted, sender, escrow_id, evidence_hash, timestamp);
            },
            PayloadView::RefundEscrow { escrow_id } => {
                lemma_refund_answers(rules, noted, sender, escrow_id, timestamp);
            },
            PayloadView::RaiseDispute { dispute_id, escrow_id, reason, evidence_hash } => {
                lemma_raise_answers(rules, noted, sender, dispute_id, escrow_id, reason, evidence_hash, timestamp);
            },
            PayloadView::VoteDispute { dispute_id, decision } => {
                lemma_vote_answers(rules, noted, sender, dispute_id, decision, timestamp);
            },
            PayloadView::TransferRCW { to, amount, memo } => {
                lemma_payment_answers(rules, noted, sender, to, amount, memo, timestamp);
            },
            PayloadView::SpendRCW { amount, purpose } => {
                lemma_payment_answers(rules, noted, sender, sender, amount, purpose, timestamp);
            },
            _ => {},
        }
    }
}

proof fn lemma_noted_fits(db: Db, sender: Id, n: u64)
    requires
        fits(db),
    ensures
        fits(put_nonce(db, sender, n)),
{
    reveal(put_nonce);
    lemma_number_found(n);
}

/// What is done from a store is done from the same store without the nonce.
proof fn lemma_done_before(rules: Rules, db: Db, n: u64, after: Db, events: Seq<EventView>, sender: Id, payload: PayloadView, timestamp: i64)
    requires
        is_done(rules, put_nonce(db, sender, n), after, events, sender, payload, timestamp),
    ensures
        is_done(rules, db, after, events, sender, payload, timestamp),
{
    let noted = put_nonce(db, sender, n);
    lemma_noted(db, sender, n);
    if let PayloadView::AnchorMerkleRoot { batch_id, .. } = payload {
        lemma_at_put(anchor_key(batch_id));
        lemma_slot_at::<AnchorRecord>(anchor_key(batch_id));
        law_keys_distinct(batch_id, sender, 0, 0);
        law_keys_distinct(sender, batch_id, 0, 0);
        assert(at(noted, anchor_key(batch_id)) == at(db, anchor_key(batch_id)));
    }
    assert forall|id: Id| participant_at(after, id) == participant_at(noted, id) implies #[trigger] participant_at(after, id) == participant_at(db, id) by {
        assert(participant_at(noted, id) == participant_at(db, id));
    }
    assert forall|id: Id| balance_at(after, id) == balance_at(noted, id) implies #[trigger] balance_at(after, id) == balance_at(db, id) by {
        assert(balance_at(noted, id) == balance_at(db, id));
    }
    assert forall|id: Id| escrow_at(after, id) == escrow_at(noted, id) implies #[trigger] escrow_at(after, id) == escrow_at(db, id) by {
        assert(escrow_at(noted, id) == escrow_at(db, id));
    }
    assert forall|id: Id| dispute_at(after, id) == dispute_at(noted, id) implies #[trigger] dispute_at(after, id) == dispute_at(db, id) by {
        assert(dispute_at(noted, id) == dispute_at(db, id));
    }
}

/// A transaction that succeeds does what its payload says, by the rules, in the
/// sender's name and at the time it is executed; and its nonce is the sender's last.
pub proof fn law_executed(rules: Rules, db: Db, tx: TransactionView, timestamp: i64)
    requires
        fits(db),
        execute_step(rules, db, tx, timestamp) matches Some((after, _)) ==> fits(after),
    ensures
        execute_step(rules, db, tx, timestamp) matches Some((after, Ok(events))) ==> {
            &&& is_done(rules, db, after, events, tx.sender, tx.payload, timestamp)
            &&& nonce_at(after, tx.sender) == tx.nonce
            &&& tx.nonce > nonce_at(db, tx.sender)
        },
{
    if let Some((after, Ok(events))) = execute_step(rules, db, tx, timestamp) {
        lemma_noted_fits(db, tx.sender, tx.nonce);
        law_carried_out(rules, put_nonce(db, tx.sender, tx.nonce), tx.sender, tx.payload, timestamp);
        lemma_done_before(rules, db, tx.nonce, after, events, tx.sender, tx.payload, timestamp);
        law_nonces(rules, db, tx, timestamp, tx.sender);
    }
}

// ── Reasons ──

/// The first thing that is wrong with a request, as it is told; of a request that is
/// due this says nothing.
pub open spec fn what_is_wrong(rules: Rules, db: Db, sender: Id, payload: PayloadView, timestamp: i64) -> Seq<char> {
    match payload {
        PayloadView::RegisterParticipant { id, .. } => if sender != id {
            "Unauthorized: sender must match participant id"@
        } else {
            "Participant already exists"@
        },
        PayloadView::UpdateParticipant { id, .. } => own_record_wrong(sender, id),
        PayloadView::DeactivateParticipant { id } => own_record_wrong(sender, id),
        PayloadView::RecordSettlement { participant_id, .. } => own_record_wrong(sender, participant_id),
        PayloadView::RecordRating { .. } => "Participant not found"@,
        PayloadView::CreateEscrow { escrow_id, buyer, .. } => if sender != buyer {
            "Unauthorized: only buyer can create escrow"@
        } else if escrow_at(db, escrow_id) is Present {
            "Escrow already exists"@
        } else if participant_at(db, buyer) is Absent {
            "Buyer not found"@
        } else {
            "Seller not found"@
        },
        PayloadView::ReleaseEscrow { escrow_id, .. } => match escrow_at(db, escrow_id) {
            Slot::Present(e) => if sender != e.buyer {
                "Unauthorized: only buyer can release escrow"@
            } else if !is_undecided(e.state) {
                "Escrow cannot be released in state "@ + name_of(e.state)
            } else {
                "Escrow has expired"@
            },
            _ => "Escrow not found"@,
        },
        PayloadView::RefundEscrow { escrow_id } => match escrow_at(db, escrow_id) {
            Slot::Present(e) => if sender != e.buyer && timestamp <= e.expires_at {
                "Unauthorized: only buyer can refund, or escrow must be expired"@
            } else {
                "Escrow cannot be refunded in state "@ + name_of(e.state)
            },
            _ => "Escrow not found"@,
        },
        PayloadView::RaiseDispute { escrow_id, .. } => match escrow_at(db, escrow_id) {
            Slot::Present(e) => if sender != e.buyer && sender != e.seller {
                "Unauthorized: only escrow buyer or seller can raise dispute"@
            } else {
                "Escrow already settled"@
            },
            _ => "Escrow not found"@,
        },
        PayloadView::SubmitEvidence { dispute_id, .. } => match dispute_at(db, dispute_id) {
            Slot::Present(d) => match escrow_at(db, d.escrow_id) {
                Slot::Present(e) => if sender != e.buyer && sender != e.seller {
                    "Unauthorized: only escrow parties can submit evidence"@
                } else {
                    "Dispute not in evidence phase"@
                },
                _ => "Escrow not found"@,
            },
            _ => "Dispute not found"@,
        },
        PayloadView::VoteDispute { dispute_id, .. } => match dispute_at(db, dispute_id) {
            Slot::Present(d) => match participant_at(db, sender) {
                Slot::Present(p) => if p.p_type != 54 {
                    "Unauthorized: only Arbiter participants can vote on disputes"@
                } else if d.state == DisputeState::Resolved {
                    "Dispute not in voting phase"@
                } else if exists|i: int| 0 <= i < d.votes.len() && (#[trigger] d.votes[i]).voter == sender {
                    "Already voted"@
                } else {
                    "Escrow not found"@
                },
                _ => "Voter not registered as participant"@,
            },
            _ => "Dispute not found"@,
        },
        PayloadView::TransferRCW { amount, .. } => payment_wrong(db, sender, amount),
        PayloadView::SpendRCW { amount, .. } => payment_wrong(db, sender, amount),
        PayloadView::AnchorMerkleRoot { .. } => if !rules.platform_keys.contains(sender) {
            "Unauthorized: only platform can anchor"@
        } else {
            "Anchor batch already recorded"@
        },
    }
}

pub open spec fn own_record_wrong(sender: Id, id: Id) -> Seq<char> {
    if sender != id {
        "Unauthorized: sender must match participant id"@
    } else {
        "Participant not found"@
    }
}

pub open spec fn payment_wrong(db: Db, sender: Id, amount: u64) -> Seq<char> {
    if amount == 0 {
        "Amount must be positive"@
    } else {
        let b = balance_at(db, sender)->Ok_0;
        "Insufficient balance: have "@ + decimal((b.earned + b.purchased) as nat) + ", need "@ + decimal(amount as nat)
    }
}

/// What the states of an escrow are called.
pub open spec fn name_of(state: EscrowState) -> Seq<char> {
    match state {
        EscrowState::Created => "Created"@,
        EscrowState::Funded => "Funded"@,
        EscrowState::Released => "Released"@,
        EscrowState::Refunded => "Refunded"@,
        EscrowState::Disputed => "Disputed"@,
    }
}

/// Is `how` a refusal for this reason, if it is one?
spec fn for_reason(step: Step, why: Seq<char>) -> bool {
    step matches Some((_, Err(reason))) ==> reason == why
}

/// A transaction that is refused is refused for the first thing that is wrong: its
/// nonce, or else what it asks for.
pub proof fn law_reason(rules: Rules, db: Db, tx: TransactionView, timestamp: i64)
    requires
        sound(db),
        fits(db),
    ensures
        execute_step(rules, db, tx, timestamp) matches Some((_, Err(reason))) ==> reason == if tx.nonce <= nonce_at(db, tx.sender) {
            "Nonce too low: got "@ + decimal(tx.nonce as nat) + ", expected > "@ + decimal(nonce_at(db, tx.sender) as nat)
        } else {
            what_is_wrong(rules, db, tx.sender, tx.payload, timestamp)
        },
{
    let noted = put_nonce(db, tx.sender, tx.nonce);
    let sender = tx.sender;
    lemma_noted(db, sender, tx.nonce);
    law_sound_is_readable(db);
    law_answer(rules, db, tx, timestamp);
    assert(what_is_wrong(rules, noted, sender, tx.payload, timestamp) == what_is_wrong(rules, db, sender, tx.payload, timestamp));
    assert forall|id: Id| (#[trigger] participant_at(noted, id)) !is Unreadable by {
        assert(participant_at(noted, id) == participant_at(db, id));
    }
    assert forall|id: Id| (#[trigger] escrow_at(noted, id)) !is Unreadable by {
        assert(escrow_at(noted, id) == escrow_at(db, id));
    }
    assert forall|id: Id| (#[trigger] dispute_at(noted, id)) !is Unreadable by {
        assert(dispute_at(noted, id) == dispute_at(db, id));
    }
    assert forall|id: Id| (#[trigger] balance_at(noted, id)) is Ok by {
        assert(balance_at(noted, id) == balance_at(db, id));
    }
    assert forall|id: Id| (#[trigger] escrow_at(noted, id)) matches Slot::Present(e) ==> is_there(noted, e.buyer) && is_there(noted, e.seller) by {
        assert(escrow_at(noted, id) == escrow_at(db, id));
        if let Slot::Present(e) = escrow_at(db, id) {
            lemma_participant_fits(db, e.buyer);
            lemma_participant_fits(db, e.seller);
            assert(participant_at(noted, e.buyer) == participant_at(db, e.buyer));
            assert(participant_at(noted, e.seller) == participant_at(db, e.seller));
        }
    }
    assert(tx.nonce > nonce_at(db, sender) ==> for_reason(payload_step(rules, noted, sender, tx.payload, timestamp), what_is_wrong(rules, noted, sender, tx.payload, timestamp))) by {
        reveal(payload_step);
        match tx.payload {
            PayloadView::RecordSettlement { participant_id, record } => {
                lemma_report_answers(rules, noted, sender, participant_id, record, 0, true, timestamp);
            },
            PayloadView::RecordRating { participant_id, rating, success } => {
                lemma_report_answers(rules, noted, sender, participant_id, arbitrary(), rating, success, timestamp);
            },
            PayloadView::ReleaseEscrow { escrow_id, evidence_hash } => {
                lemma_release_answers(rules, noted, sender, escrow_id, evidence_hash, timestamp);
            },
            PayloadView::RefundEscrow { escrow_id } => {
                lemma_refund_answers(rules, noted, sender, escrow_id, timestamp);
            },
            PayloadView::RaiseDispute { dispute_id, escrow_id, reason, evidence_hash } => {
                lemma_raise_answers(rules, noted, sender, dispute_id, escrow_id, reason, evidence_hash, timestamp);
            },
            PayloadView::VoteDispute { dispute_id, decision } => {
                lemma_vote_answers(rules, noted, sender, dispute_id, decision, timestamp);
                if let Slot::Present(d) = dispute_at(noted, dispute_id) {
                    if let Slot::Present(e) = escrow_at(noted, d.escrow_id) {
                        lemma_verdict_succeeds(noted, d.raised_by, e, verdict(with_vote(d, sender, decision, timestamp).votes), rules.rewards.dispute_won);
                    }
                }
            },
            PayloadView::TransferRCW { to, amount, memo } => {
                lemma_payment_answers(rules, noted, sender, to, amount, memo, timestamp);
            },
            PayloadView::SpendRCW { amount, purpose } => {
                lemma_payment_answers(rules, noted, sender, sender, amount, purpose, timestamp);
            },
            PayloadView::AnchorMerkleRoot { batch_id, .. } => {
                lemma_at_put(anchor_key(batch_id));
                lemma_slot_at::<AnchorRecord>(anchor_key(batch_id));
                law_keys_distinct(batch_id, sender, 0, 0);
                law_keys_distinct(sender, batch_id, 0, 0);
                assert(at(noted, anchor_key(batch_id)) == at(db, anchor_key(batch_id)));
                assert(anchor_at(db, batch_id) !is Unreadable);
            },
            _ => {},
        }
    }
}

} // verus!

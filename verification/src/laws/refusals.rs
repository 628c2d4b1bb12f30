//! What is refused changes nothing but a nonce, whatever has been executed before.

use crate::laws::agreement::{is_state_key, law_blocks_outside_state, lemma_at_part, lemma_leads, state_of};
use crate::laws::invariants::law_writes_suffice;
use crate::laws::keys::{at, lemma_found};
use crate::laws::reads::{law_balance_reads, law_dispute_reads, law_escrow_reads, law_participant_reads, lemma_participant_fits, participant_fits};
use crate::laws::root::{exact, law_exact_at_first, law_exact_stays_exact};
use crate::state::dispute::{other_party, raise_step, verdict, verdict_step, vote_step, with_vote};
use crate::state::escrow::{as_released, refund_step, release_step, released_step};
use crate::state::machine::{apply_step, execute_step, payload_step, run_step, Rules};
use crate::state::settlement::{rating_step, record_step};
use crate::state::step::Step;
use crate::state::token::{spend_step, transfer_step};
use crate::store::{anchor_at, anchor_key, balance_at, balance_key, dispute_at, dispute_key, escrow_at, escrow_key, fits, participant_at, participant_key, put_anchor, put_balance, put_block, put_dispute, put_escrow, put_nonce, put_participant, put_settlement, settlement_at, settlement_key, slot, Db, Slot, PREFIX_ANCHOR, PREFIX_BALANCE, PREFIX_DISPUTE, PREFIX_ESCROW, PREFIX_PARTICIPANT, PREFIX_SETTLEMENT};
use crate::types::{AnchorRecord, BlockView, Dispute, DisputeDecision, DisputeReason, DisputeView, Escrow, Id, Participant, ParticipantView, PayloadView, RCWBalance, SettlementData, SettlementRecord, TransactionView, EMPTY_HASH};
use crate::wire::Wire;
use vstd::prelude::*;

verus! {

// ── What is stored stays ──

/// Nothing that is stored vanishes: a key with a record has one after every
/// transaction.
pub proof fn law_records_stay(rules: Rules, db: Db, tx: TransactionView, timestamp: i64, k: Seq<u8>)
    requires
        db.dom().contains(k),
    ensures
        execute_step(rules, db, tx, timestamp) matches Some((after, _)) ==> after.dom().contains(k),
{
    reveal(put_participant);
    reveal(put_settlement);
    reveal(put_balance);
    reveal(put_escrow);
    reveal(put_dispute);
    reveal(put_anchor);
    reveal(put_nonce);
    let inv = |d: Db| d.dom().contains(k);
    law_writes_suffice(inv, rules, db, tx, timestamp);
    assert(inv(db));
}

// ── Parties are registered ──

/// Is there a record of the participant?
pub open spec fn is_listed(db: Db, id: Id) -> bool {
    db.dom().contains(participant_key(id))
}

/// Is there a record of each party of every escrow?
#[verifier::opaque]
pub open spec fn parties_listed(db: Db) -> bool {
    forall|id: Id| (#[trigger] escrow_at(db, id)) matches Slot::Present(e) ==> is_listed(db, e.buyer) && is_listed(db, e.seller)
}

/// Are there none but records as they are written, and is there one of each party of
/// every escrow?
pub open spec fn sound(db: Db) -> bool {
    exact(db) && parties_listed(db)
}

spec fn parties_stay(step: Step) -> bool {
    match step {
        Some((after, _)) => parties_listed(after),
        None => true,
    }
}

/// Where the escrows stay and no participant vanishes, the parties stay listed.
proof fn lemma_same_escrows(a: Db, b: Db)
    requires
        parties_listed(a),
        forall|x: Id| #[trigger] escrow_at(b, x) == escrow_at(a, x),
        forall|x: Id| #[trigger] is_listed(a, x) ==> is_listed(b, x),
    ensures
        parties_listed(b),
{
    reveal(parties_listed);
    assert forall|id: Id| (#[trigger] escrow_at(b, id)) matches Slot::Present(e) ==> is_listed(b, e.buyer) && is_listed(b, e.seller) by {
        assert(escrow_at(b, id) == escrow_at(a, id));
        if let Slot::Present(e) = escrow_at(a, id) {
            assert(is_listed(a, e.buyer) && is_listed(a, e.seller));
        }
    }
}

/// How writes bear on that.
proof fn lemma_parties()
    ensures
        forall|db: Db, id: Id| parties_listed(db) ==> ((#[trigger] escrow_at(db, id)) matches Slot::Present(e) ==> is_listed(db, e.buyer) && is_listed(db, e.seller)),
        forall|db: Db, id: Id| (#[trigger] participant_at(db, id)) is Present ==> is_listed(db, id),
        forall|db: Db, id: Id, m: ParticipantView| parties_listed(db) ==> parties_listed(#[trigger] put_participant(db, id, m)),
        forall|db: Db, id: Id, m: SettlementRecord| parties_listed(db) ==> parties_listed(#[trigger] put_settlement(db, id, m)),
        forall|db: Db, id: Id, m: RCWBalance| parties_listed(db) ==> parties_listed(#[trigger] put_balance(db, id, m)),
        forall|db: Db, id: Id, m: Escrow| parties_listed(db) && is_listed(db, m.buyer) && is_listed(db, m.seller) ==> parties_listed(#[trigger] put_escrow(db, id, m)),
        forall|db: Db, id: Id, m: DisputeView| parties_listed(db) ==> parties_listed(#[trigger] put_dispute(db, id, m)),
        forall|db: Db, id: Id, m: AnchorRecord| parties_listed(db) ==> parties_listed(#[trigger] put_anchor(db, id, m)),
        forall|db: Db, id: Id, n: u64| parties_listed(db) ==> parties_listed(#[trigger] put_nonce(db, id, n)),
{
    reveal(put_participant);
    reveal(put_settlement);
    reveal(put_balance);
    reveal(put_escrow);
    reveal(put_dispute);
    reveal(put_anchor);
    reveal(put_nonce);
    assert(forall|db: Db, id: Id| parties_listed(db) ==> ((#[trigger] escrow_at(db, id)) matches Slot::Present(e) ==> is_listed(db, e.buyer) && is_listed(db, e.seller))) by {
        reveal(parties_listed);
    }
    assert forall|db: Db, id: Id| (#[trigger] participant_at(db, id)) is Present implies is_listed(db, id) by {
        reveal(slot);
    }
    assert forall|db: Db, id: Id, m: ParticipantView| parties_listed(db) implies parties_listed(#[trigger] put_participant(db, id, m)) by {
        assert forall|x: Id| #[trigger] escrow_at(put_participant(db, id, m), x) == escrow_at(db, x) by {
            law_escrow_reads(x);
        }
        lemma_same_escrows(db, put_participant(db, id, m));
    }
    assert forall|db: Db, id: Id, m: SettlementRecord| parties_listed(db) implies parties_listed(#[trigger] put_settlement(db, id, m)) by {
        assert forall|x: Id| #[trigger] escrow_at(put_settlement(db, id, m), x) == escrow_at(db, x) by {
            law_escrow_reads(x);
        }
        lemma_same_escrows(db, put_settlement(db, id, m));
    }
    assert forall|db: Db, id: Id, m: RCWBalance| parties_listed(db) implies parties_listed(#[trigger] put_balance(db, id, m)) by {
        assert forall|x: Id| #[trigger] escrow_at(put_balance(db, id, m), x) == escrow_at(db, x) by {
            law_escrow_reads(x);
        }
        lemma_same_escrows(db, put_balance(db, id, m));
    }
    assert forall|db: Db, id: Id, m: Escrow| parties_listed(db) && is_listed(db, m.buyer) && is_listed(db, m.seller) implies parties_listed(
        #[trigger] put_escrow(db, id, m),
    ) by {
        lemma_escrow_written(db, id, m);
    }
    assert forall|db: Db, id: Id, m: DisputeView| parties_listed(db) implies parties_listed(#[trigger] put_dispute(db, id, m)) by {
        assert forall|x: Id| #[trigger] escrow_at(put_dispute(db, id, m), x) == escrow_at(db, x) by {
            law_escrow_reads(x);
        }
        lemma_same_escrows(db, put_dispute(db, id, m));
    }
    assert forall|db: Db, id: Id, m: AnchorRecord| parties_listed(db) implies parties_listed(#[trigger] put_anchor(db, id, m)) by {
        assert forall|x: Id| #[trigger] escrow_at(put_anchor(db, id, m), x) == escrow_at(db, x) by {
            law_escrow_reads(x);
        }
        lemma_same_escrows(db, put_anchor(db, id, m));
    }
    assert forall|db: Db, id: Id, n: u64| parties_listed(db) implies parties_listed(#[trigger] put_nonce(db, id, n)) by {
        assert forall|x: Id| #[trigger] escrow_at(put_nonce(db, id, n), x) == escrow_at(db, x) by {
            law_escrow_reads(x);
        }
        lemma_same_escrows(db, put_nonce(db, id, n));
    }
}

proof fn lemma_escrow_written(db: Db, id: Id, m: Escrow)
    requires
        parties_listed(db),
        is_listed(db, m.buyer),
        is_listed(db, m.seller),
    ensures
        parties_listed(put_escrow(db, id, m)),
{
    let after = put_escrow(db, id, m);
    reveal(parties_listed);
    assert forall|x: Id| #[trigger] is_listed(db, x) implies is_listed(after, x) by {
        reveal(put_escrow);
    }
    assert forall|x: Id| (#[trigger] escrow_at(after, x)) matches Slot::Present(e) ==> is_listed(after, e.buyer) && is_listed(after, e.seller) by {
        law_escrow_reads(x);
        if x != id {
            assert(escrow_at(after, x) == escrow_at(db, x));
            if let Slot::Present(e) = escrow_at(db, x) {
                assert(is_listed(db, e.buyer) && is_listed(db, e.seller));
            }
        }
    }
}

proof fn lemma_released_parties(db: Db, escrow_id: Id, e: Escrow, timestamp: i64, reward: u64)
    requires
        parties_listed(db),
    ensures
        parties_stay(released_step(db, escrow_id, e, timestamp, reward)),
{
    lemma_parties();
}

proof fn lemma_verdict_parties(db: Db, raised_by: Id, e: Escrow, resolution: u8, reward: u64)
    requires
        parties_listed(db),
    ensures
        parties_stay(verdict_step(db, raised_by, e, resolution, reward)),
{
    lemma_parties();
}

proof fn lemma_settling_parties(db: Db, sender: Id, escrow_id: Id, evidence_hash: [u8; 32], timestamp: i64, reward: u64)
    requires
        parties_listed(db),
    ensures
        parties_stay(release_step(db, sender, escrow_id, evidence_hash, timestamp, reward)),
        parties_listed(refund_step(db, sender, escrow_id, timestamp).0),
{
    lemma_parties();
    if let Slot::Present(e) = escrow_at(db, escrow_id) {
        let done = as_released(e, evidence_hash);
        lemma_released_parties(put_escrow(db, escrow_id, done), escrow_id, done, timestamp, reward);
    }
}

proof fn lemma_raise_parties(db: Db, dispute_id: Id, escrow_id: Id, raised_by: Id, reason: DisputeReason, evidence_hash: [u8; 32], timestamp: i64)
    requires
        parties_listed(db),
    ensures
        parties_listed(raise_step(db, dispute_id, escrow_id, raised_by, reason, evidence_hash, timestamp).0),
{
    lemma_parties();
}

proof fn lemma_vote_parties(db: Db, dispute_id: Id, voter: Id, decision: DisputeDecision, timestamp: i64, reward: u64, threshold: usize)
    requires
        parties_listed(db),
    ensures
        parties_stay(vote_step(db, dispute_id, voter, decision, timestamp, reward, threshold)),
{
    lemma_parties();
    assert forall|by: Id, e: Escrow, v: u8| parties_stay(#[trigger] verdict_step(db, by, e, v, reward)) by {
        lemma_verdict_parties(db, by, e, v, reward);
    }
}

/// Whatever is executed, there are none but records as they are written, and there
/// is one of each party of every escrow.
pub proof fn law_sound_stays_sound(rules: Rules, db: Db, tx: TransactionView, timestamp: i64)
    requires
        sound(db),
    ensures
        execute_step(rules, db, tx, timestamp) matches Some((after, _)) ==> sound(after),
{
    law_exact_stays_exact(rules, db, tx, timestamp);
    let noted = put_nonce(db, tx.sender, tx.nonce);
    assert(parties_listed(noted)) by {
        lemma_parties();
    }
    let step = payload_step(rules, noted, tx.sender, tx.payload, timestamp);
    assert(parties_stay(step)) by {
        reveal(payload_step);
        let sender = tx.sender;
        match tx.payload {
            PayloadView::ReleaseEscrow { escrow_id, evidence_hash } => {
                lemma_settling_parties(noted, sender, escrow_id, evidence_hash, timestamp, rules.rewards.escrow_completed);
            },
            PayloadView::RefundEscrow { escrow_id } => {
                lemma_settling_parties(noted, sender, escrow_id, EMPTY_HASH, timestamp, 0);
            },
            PayloadView::RaiseDispute { dispute_id, escrow_id, reason, evidence_hash } => {
                lemma_raise_parties(noted, dispute_id, escrow_id, sender, reason, evidence_hash, timestamp);
            },
            PayloadView::VoteDispute { dispute_id, decision } => {
                lemma_vote_parties(noted, dispute_id, sender, decision, timestamp, rules.rewards.dispute_won, rules.vote_threshold);
            },
            _ => {
                lemma_parties();
            },
        }
    }
}

/// At first there are no records and no escrows.
pub proof fn law_sound_at_first()
    ensures
        sound(Map::empty()),
{
    law_exact_at_first();
    reveal(parties_listed);
    reveal(slot);
}

/// A sound store is sound with a block more.
pub proof fn law_sound_with_a_block(db: Db, block: BlockView)
    requires
        sound(db),
    ensures
        sound(put_block(db, block)),
{
    let after = put_block(db, block);
    law_blocks_outside_state(db, block);
    lemma_at_part(db);
    lemma_at_part(after);
    assert forall|k: Seq<u8>| is_state_key(k) implies #[trigger] at(after, k) == at(db, k) by {
        assert(at(state_of(after), k) == at(state_of(db), k));
    }
    assert forall|id: Id| #[trigger] escrow_at(after, id) == escrow_at(db, id) by {
        law_escrow_reads(id);
    }
    assert forall|id: Id| #[trigger] is_listed(db, id) implies is_listed(after, id) by {
        reveal(put_block);
    }
    lemma_same_escrows(db, after);
}

/// A sound store is sound after a block is taken in, and after it is refused.
pub proof fn law_sound_after_a_block(rules: Rules, db: Db, block: BlockView)
    requires
        sound(db),
    ensures
        apply_step(rules, db, block) matches Some((after, _)) ==> sound(after),
{
    lemma_sound_run(rules, db, block.transactions, block.header.timestamp);
    if let Some((after, _)) = run_step(rules, db, block.transactions, block.header.timestamp) {
        law_sound_with_a_block(after, block);
    }
}

proof fn lemma_sound_run(rules: Rules, db: Db, txs: Seq<TransactionView>, timestamp: i64)
    requires
        sound(db),
    ensures
        run_step(rules, db, txs, timestamp) matches Some((after, _)) ==> sound(after),
    decreases txs.len(),
{
    if txs.len() > 0 {
        lemma_sound_run(rules, db, txs.drop_last(), timestamp);
        if let Some((before, _)) = run_step(rules, db, txs.drop_last(), timestamp) {
            law_sound_stays_sound(rules, before, txs.last(), timestamp);
        }
    }
}

// ── Everything can be read ──

/// Can every record of the state be read?
pub open spec fn readable(db: Db) -> bool {
    &&& forall|id: Id| (#[trigger] participant_at(db, id)) !is Unreadable
    &&& forall|id: Id| (#[trigger] settlement_at(db, id)) !is Unreadable
    &&& forall|id: Id| (#[trigger] balance_at(db, id)) is Ok
    &&& forall|id: Id| (#[trigger] escrow_at(db, id)) !is Unreadable
    &&& forall|id: Id| (#[trigger] dispute_at(db, id)) !is Unreadable
    &&& forall|id: Id| (#[trigger] anchor_at(db, id)) !is Unreadable
}

/// What is written as a record is read as one.
proof fn lemma_exact_read<T: Wire>(db: Db, k: Seq<u8>)
    requires
        fits(db),
        db.dom().contains(k) ==> exists|m: T::Model| db[k] == #[trigger] T::bytes(m),
    ensures
        slot::<T>(db, k) is Present <==> db.dom().contains(k),
        slot::<T>(db, k) !is Unreadable,
{
    reveal(slot);
    if db.dom().contains(k) {
        let m = choose|m: T::Model| db[k] == #[trigger] T::bytes(m);
        lemma_found::<T>(m);
    }
}

/// Of a sound store every record can be read, and the parties of every escrow are
/// registered.
pub proof fn law_sound_is_readable(db: Db)
    requires
        sound(db),
        fits(db),
    ensures
        readable(db),
        forall|id: Id| (#[trigger] escrow_at(db, id)) matches Slot::Present(e) ==> participant_at(db, e.buyer) is Present && participant_at(db, e.seller) is Present,
{
    assert forall|id: Id| (#[trigger] participant_at(db, id)) !is Unreadable && (participant_at(db, id) is Present <==> is_listed(db, id)) by {
        lemma_leads(PREFIX_PARTICIPANT@, id@);
        assert(is_state_key(participant_key(id)) && at(db, participant_key(id)) is Some == is_listed(db, id));
        lemma_exact_read::<Participant>(db, participant_key(id));
    }
    assert forall|id: Id| (#[trigger] settlement_at(db, id)) !is Unreadable by {
        lemma_leads(PREFIX_SETTLEMENT@, id@);
        let k = settlement_key(id);
        assert(is_state_key(k) && at(db, k) is Some == db.dom().contains(k));
        lemma_exact_read::<SettlementRecord>(db, k);
    }
    assert forall|id: Id| (#[trigger] balance_at(db, id)) is Ok by {
        lemma_leads(PREFIX_BALANCE@, id@);
        let k = balance_key(id);
        assert(is_state_key(k) && at(db, k) is Some == db.dom().contains(k));
        lemma_exact_read::<RCWBalance>(db, k);
    }
    assert forall|id: Id| (#[trigger] escrow_at(db, id)) !is Unreadable by {
        lemma_leads(PREFIX_ESCROW@, id@);
        let k = escrow_key(id);
        assert(is_state_key(k) && at(db, k) is Some == db.dom().contains(k));
        lemma_exact_read::<Escrow>(db, k);
    }
    assert forall|id: Id| (#[trigger] dispute_at(db, id)) !is Unreadable by {
        lemma_leads(PREFIX_DISPUTE@, id@);
        let k = dispute_key(id);
        assert(is_state_key(k) && at(db, k) is Some == db.dom().contains(k));
        lemma_exact_read::<Dispute>(db, k);
    }
    assert forall|id: Id| (#[trigger] anchor_at(db, id)) !is Unreadable by {
        lemma_leads(PREFIX_ANCHOR@, id@);
        let k = anchor_key(id);
        assert(is_state_key(k) && at(db, k) is Some == db.dom().contains(k));
        lemma_exact_read::<AnchorRecord>(db, k);
    }
    assert forall|id: Id| (#[trigger] escrow_at(db, id)) matches Slot::Present(e) ==> participant_at(db, e.buyer) is Present && participant_at(db, e.seller) is Present by {
        reveal(parties_listed);
        if let Slot::Present(e) = escrow_at(db, id) {
            assert(is_listed(db, e.buyer) && is_listed(db, e.seller));
        }
    }
}

// ── What is refused ──

/// Is the participant there, with a record that fits?
pub open spec fn is_there(db: Db, id: Id) -> bool {
    participant_at(db, id) matches Slot::Present(p) && participant_fits(p)
}

/// Does the step, where it is refused, leave everything as it is?
spec fn all_or_nothing(step: Step, db: Db) -> bool {
    step matches Some((after, Err(_))) ==> after == db
}

pub proof fn lemma_released_succeeds(db: Db, escrow_id: Id, e: Escrow, timestamp: i64, reward: u64)
    requires
        is_there(db, e.buyer),
        is_there(db, e.seller),
        balance_at(db, e.buyer) is Ok,
        balance_at(db, e.seller) is Ok,
    ensures
        !(released_step(db, escrow_id, e, timestamp, reward) matches Some((_, Err(_)))),
{
    law_participant_reads(e.buyer);
    law_participant_reads(e.seller);
    law_balance_reads(e.buyer);
    law_balance_reads(e.seller);
}

pub proof fn lemma_verdict_succeeds(db: Db, raised_by: Id, e: Escrow, resolution: u8, reward: u64)
    requires
        is_there(db, e.buyer),
        is_there(db, e.seller),
        balance_at(db, e.buyer) is Ok,
        balance_at(db, e.seller) is Ok,
    ensures
        !(verdict_step(db, raised_by, e, resolution, reward) matches Some((_, Err(_)))),
{
    law_participant_reads(e.buyer);
    law_participant_reads(e.seller);
    law_balance_reads(e.buyer);
    law_balance_reads(e.seller);
}

proof fn lemma_settling_whole(db: Db, sender: Id, escrow_id: Id, evidence_hash: [u8; 32], timestamp: i64, reward: u64)
    requires
        escrow_at(db, escrow_id) matches Slot::Present(e) ==> is_there(db, e.buyer) && is_there(db, e.seller) && balance_at(db, e.buyer) is Ok && balance_at(db, e.seller) is Ok,
    ensures
        all_or_nothing(release_step(db, sender, escrow_id, evidence_hash, timestamp, reward), db),
        all_or_nothing(Some(refund_step(db, sender, escrow_id, timestamp)), db),
{
    if let Slot::Present(e) = escrow_at(db, escrow_id) {
        law_participant_reads(e.buyer);
        law_participant_reads(e.seller);
        law_balance_reads(e.buyer);
        law_balance_reads(e.seller);
        let done = as_released(e, evidence_hash);
        lemma_released_succeeds(put_escrow(db, escrow_id, done), escrow_id, done, timestamp, reward);
    }
}

proof fn lemma_raise_whole(db: Db, dispute_id: Id, escrow_id: Id, raised_by: Id, reason: DisputeReason, evidence_hash: [u8; 32], timestamp: i64)
    requires
        escrow_at(db, escrow_id) matches Slot::Present(e) ==> is_there(db, e.buyer) && is_there(db, e.seller),
    ensures
        all_or_nothing(Some(raise_step(db, dispute_id, escrow_id, raised_by, reason, evidence_hash, timestamp)), db),
{
    if let Slot::Present(e) = escrow_at(db, escrow_id) {
        law_participant_reads(other_party(e, raised_by));
    }
}

proof fn lemma_vote_whole(db: Db, dispute_id: Id, voter: Id, decision: DisputeDecision, timestamp: i64, reward: u64, threshold: usize)
    requires
        dispute_at(db, dispute_id) matches Slot::Present(d) ==> (escrow_at(db, d.escrow_id) matches Slot::Present(e) ==> is_there(db, e.buyer) && is_there(db, e.seller)
            && balance_at(db, e.buyer) is Ok && balance_at(db, e.seller) is Ok),
    ensures
        all_or_nothing(vote_step(db, dispute_id, voter, decision, timestamp, reward, threshold), db),
{
    if let Slot::Present(d) = dispute_at(db, dispute_id) {
        if let Slot::Present(e) = escrow_at(db, d.escrow_id) {
            lemma_verdict_succeeds(db, d.raised_by, e, verdict(with_vote(d, voter, decision, timestamp).votes), reward);
        }
    }
}

proof fn lemma_reported_whole(db: Db, sender: Id, id: Id, data: SettlementData, rating: u16, success: bool, timestamp: i64, reward: u64)
    requires
        balance_at(db, id) is Ok,
    ensures
        all_or_nothing(record_step(db, sender, id, data, timestamp, reward), db),
        all_or_nothing(rating_step(db, id, rating, success, timestamp, reward), db),
{
    law_balance_reads(id);
}

proof fn lemma_paid_whole(db: Db, from: Id, to: Id, amount: u64, purpose: Seq<char>)
    requires
        balance_at(db, to) is Ok,
    ensures
        all_or_nothing(transfer_step(db, from, to, amount), db),
        all_or_nothing(spend_step(db, from, amount, purpose), db),
{
    law_balance_reads(to);
}

/// What a nonce has nothing to do with.
pub proof fn lemma_noted(db: Db, sender: Id, n: u64)
    ensures
        forall|id: Id| #[trigger] participant_at(put_nonce(db, sender, n), id) == participant_at(db, id),
        forall|id: Id| #[trigger] balance_at(put_nonce(db, sender, n), id) == balance_at(db, id),
        forall|id: Id| #[trigger] escrow_at(put_nonce(db, sender, n), id) == escrow_at(db, id),
        forall|id: Id| #[trigger] dispute_at(put_nonce(db, sender, n), id) == dispute_at(db, id),
{
    assert forall|id: Id| #[trigger] participant_at(put_nonce(db, sender, n), id) == participant_at(db, id) by {
        law_participant_reads(id);
    }
    assert forall|id: Id| #[trigger] balance_at(put_nonce(db, sender, n), id) == balance_at(db, id) by {
        law_balance_reads(id);
    }
    assert forall|id: Id| #[trigger] escrow_at(put_nonce(db, sender, n), id) == escrow_at(db, id) by {
        law_escrow_reads(id);
    }
    assert forall|id: Id| #[trigger] dispute_at(put_nonce(db, sender, n), id) == dispute_at(db, id) by {
        law_dispute_reads(id);
    }
}

/// All or nothing: of a transaction that is refused nothing stays but its nonce, in
/// every store that executing transactions leads to from the empty one.
pub proof fn law_refused_changes_nothing(rules: Rules, db: Db, tx: TransactionView, timestamp: i64)
    requires
        sound(db),
        fits(db),
    ensures
        execute_step(rules, db, tx, timestamp) matches Some((after, Err(_))) ==> after == db || after == put_nonce(db, tx.sender, tx.nonce),
{
    let noted = put_nonce(db, tx.sender, tx.nonce);
    let sender = tx.sender;
    lemma_noted(db, sender, tx.nonce);
    law_sound_is_readable(db);
    assert forall|id: Id| (#[trigger] escrow_at(noted, id)) matches Slot::Present(e) ==> is_there(noted, e.buyer) && is_there(noted, e.seller) by {
        assert(escrow_at(noted, id) == escrow_at(db, id));
        if let Slot::Present(e) = escrow_at(db, id) {
            lemma_participant_fits(db, e.buyer);
            lemma_participant_fits(db, e.seller);
            assert(participant_at(noted, e.buyer) == participant_at(db, e.buyer));
            assert(participant_at(noted, e.seller) == participant_at(db, e.seller));
        }
    }
    assert forall|id: Id| (#[trigger] balance_at(noted, id)) is Ok by {
        assert(balance_at(noted, id) == balance_at(db, id));
    }
    assert(all_or_nothing(payload_step(rules, noted, sender, tx.payload, timestamp), noted)) by {
        reveal(payload_step);
        match tx.payload {
            PayloadView::RecordSettlement { participant_id, record } => {
                lemma_reported_whole(noted, sender, participant_id, record, 0, true, timestamp, rules.rewards.settlement_recorded);
            },
            PayloadView::RecordRating { participant_id, rating, success } => {
                lemma_reported_whole(noted, sender, participant_id, arbitrary(), rating, success, timestamp, rules.rewards.rating_submitted);
            },
            PayloadView::ReleaseEscrow { escrow_id, evidence_hash } => {
                lemma_settling_whole(noted, sender, escrow_id, evidence_hash, timestamp, rules.rewards.escrow_completed);
            },
            PayloadView::RefundEscrow { escrow_id } => {
                lemma_settling_whole(noted, sender, escrow_id, EMPTY_HASH, timestamp, 0);
            },
            PayloadView::RaiseDispute { dispute_id, escrow_id, reason, evidence_hash } => {
                lemma_raise_whole(noted, dispute_id, escrow_id, sender, reason, evidence_hash, timestamp);
            },
            PayloadView::VoteDispute { dispute_id, decision } => {
                lemma_vote_whole(noted, dispute_id, sender, decision, timestamp, rules.rewards.dispute_won, rules.vote_threshold);
            },
            PayloadView::TransferRCW { to, amount, memo } => {
                lemma_paid_whole(noted, sender, to, amount, memo);
            },
            PayloadView::SpendRCW { amount, purpose } => {
                lemma_paid_whole(noted, sender, sender, amount, purpose);
            },
            _ => {},
        }
    }
}

} // verus!

//! What is there after a transaction that succeeded, record by record.

use crate::laws::keys::{at, law_keys_distinct, lemma_at_put, lemma_found, lemma_slot_at};
use crate::laws::reads::{law_balance_reads, law_dispute_reads, law_escrow_reads, law_other_reads, law_participant_reads, lemma_participant_fits, participant_fits};
use crate::laws::verdicts::{law_verdict, votes_for};
use crate::state::dispute::{as_resolved, evidence_step, new_dispute, other_party, raise_step, verdict_step, vote_step, with_evidence, with_vote};
use crate::state::escrow::{as_released, both_rewards_step, create_step, refund_step, release_step};
use crate::state::machine::{anchor_step, payload_step, Rules};
use crate::state::participant::{deactivate_step, newcomer, register_step, update_step};
use crate::state::settlement::{kept_record, rating_step, record_step, reward_step};
use crate::state::token::{debit_step, mint_step, spend_step, transfer_step};
use crate::store::{anchor_at, balance_at, dispute_at, dispute_key, escrow_at, fits, participant_at, participant_key, put_dispute, put_escrow, put_participant, settlement_at, Db, Slot};
use crate::types::state::trust_score;
use crate::types::{AnchorRecord, Dispute, DisputeDecision, DisputeReason, DisputeState, DisputeView, Escrow, EscrowState, EventView, Id, Participant, ParticipantType, ParticipantView, PayloadView, RCWBalance, SettlementData};
use crate::wire::Wire;
use vstd::prelude::*;

verus! {

// ── Words ──

/// `c` is `a` and `n` more, or the most there can be.
pub open spec fn grows_by(a: u64, n: int, c: u64) -> bool {
    if a + n <= u64::MAX {
        c == a + n
    } else {
        c == u64::MAX
    }
}

/// `c` is `a` and `n` less, or nothing.
pub open spec fn shrinks_by(a: u64, n: int, c: u64) -> bool {
    if a >= n {
        c == a - n
    } else {
        c == 0
    }
}

/// Who it is, and since when, stays.
pub open spec fn same_person(p: ParticipantView, q: ParticipantView) -> bool {
    q.id == p.id && q.p_type == p.p_type && q.metadata == p.metadata && q.registered_at == p.registered_at && q.is_active == p.is_active
}

/// What was traded stays.
pub open spec fn same_trade(p: ParticipantView, q: ParticipantView) -> bool {
    q.total_tx == p.total_tx && q.success_tx == p.success_tx && q.total_volume == p.total_volume && q.total_settled == p.total_settled
}

pub open spec fn same_ratings(p: ParticipantView, q: ParticipantView) -> bool {
    q.rating_sum == p.rating_sum && q.rating_count == p.rating_count
}

pub open spec fn same_disputes(p: ParticipantView, q: ParticipantView) -> bool {
    q.dispute_count == p.dispute_count && q.dispute_won == p.dispute_won
}

/// Every participant but these two is as it was.
pub open spec fn others_stay(a: Db, b: Db, x: Id, y: Id) -> bool {
    forall|id: Id| id != x && id != y ==> #[trigger] participant_at(b, id) == participant_at(a, id)
}

/// Every participant is as it was.
pub open spec fn all_stay(a: Db, b: Db) -> bool {
    forall|id: Id| #[trigger] participant_at(b, id) == participant_at(a, id)
}

/// Every balance but those of these two is as it was.
pub open spec fn purses_stay(a: Db, b: Db, x: Id, y: Id) -> bool {
    forall|id: Id| id != x && id != y ==> #[trigger] balance_at(b, id) == balance_at(a, id)
}

/// Every balance is as it was.
pub open spec fn money_stays(a: Db, b: Db) -> bool {
    forall|id: Id| #[trigger] balance_at(b, id) == balance_at(a, id)
}

/// Every escrow but this one is as it was.
pub open spec fn escrows_stay(a: Db, b: Db, x: Id) -> bool {
    forall|id: Id| id != x ==> #[trigger] escrow_at(b, id) == escrow_at(a, id)
}

/// Every dispute but this one is as it was.
pub open spec fn disputes_stay(a: Db, b: Db, x: Id) -> bool {
    forall|id: Id| id != x ==> #[trigger] dispute_at(b, id) == dispute_at(a, id)
}

/// The owner has `amount` more that was earned, and as much that was purchased.
pub open spec fn earns(a: Db, b: Db, owner: Id, amount: int) -> bool {
    balance_at(a, owner) matches Ok(x) && balance_at(b, owner) matches Ok(y) && y.owner == x.owner && y.earned == x.earned + amount && y.purchased == x.purchased
}

/// `y` is the balance `x` less `amount`, of which as much as possible was earned.
pub open spec fn pays(x: RCWBalance, y: RCWBalance, amount: int) -> bool {
    &&& y.owner == x.owner
    &&& y.earned + y.purchased + amount == x.earned + x.purchased
    &&& amount <= x.earned ==> y.purchased == x.purchased
    &&& amount > x.earned ==> y.earned == 0
}

/// The event of a reward, where there is one.
pub open spec fn reward_events(to: Id, amount: u64, reason: Seq<char>) -> Seq<EventView> {
    if amount > 0 {
        seq![EventView::RCWMinted { to, amount, reason }]
    } else {
        Seq::empty()
    }
}

/// The number for a type of participant.
pub open spec fn type_number(t: ParticipantType) -> int {
    match t {
        ParticipantType::Seller => 1,
        ParticipantType::Buyer => 2,
        ParticipantType::Author => 10,
        ParticipantType::ContentWork => 11,
        ParticipantType::Franchisee => 20,
        ParticipantType::Investor => 21,
        ParticipantType::Host => 22,
        ParticipantType::Influencer => 30,
        ParticipantType::Brand => 31,
        ParticipantType::Agency => 32,
        ParticipantType::ServiceProvider => 40,
        ParticipantType::BuyerAgent => 50,
        ParticipantType::SellerAgent => 51,
        ParticipantType::MatchingAgent => 52,
        ParticipantType::Arbiter => 54,
    }
}

/// The number for a reason.
pub open spec fn reason_number(r: DisputeReason) -> int {
    match r {
        DisputeReason::NotDelivered => 0,
        DisputeReason::Damaged => 1,
        DisputeReason::NotAsDescribed => 2,
        DisputeReason::Unauthorized => 3,
        DisputeReason::Other => 99,
    }
}

/// The number for a decision.
pub open spec fn decision_number(d: DisputeDecision) -> int {
    match d {
        DisputeDecision::FavorBuyer => 0,
        DisputeDecision::FavorSeller => 1,
        DisputeDecision::Split => 2,
    }
}

// ── Reading what was written ──

proof fn lemma_participant_written(db: Db, id: Id, m: ParticipantView)
    requires
        fits(db),
        at(db, participant_key(id)) == Some(Participant::bytes(m)),
    ensures
        participant_at(db, id) == Slot::Present(m),
{
    lemma_slot_at::<Participant>(participant_key(id));
    lemma_found::<Participant>(m);
}

proof fn lemma_dispute_written(db: Db, id: Id, m: DisputeView)
    requires
        fits(db),
        at(db, dispute_key(id)) == Some(Dispute::bytes(m)),
    ensures
        dispute_at(db, id) == Slot::Present(m),
{
    lemma_slot_at::<Dispute>(dispute_key(id));
    lemma_found::<Dispute>(m);
}

proof fn lemma_reads()
    ensures
        forall|db: Db, x: Id, m: ParticipantView, id: Id| participant_fits(m) ==> #[trigger] participant_at(put_participant(db, x, m), id) == if id == x { Slot::Present(m) } else { participant_at(db, id) },
        forall|db: Db, x: Id, m: RCWBalance, id: Id| #[trigger] balance_at(crate::store::put_balance(db, x, m), id) == if id == x { Ok(m) } else { balance_at(db, id) },
        forall|db: Db, x: Id, m: Escrow, id: Id| #[trigger] escrow_at(put_escrow(db, x, m), id) == if id == x { Slot::Present(m) } else { escrow_at(db, id) },
{
    assert forall|db: Db, x: Id, m: ParticipantView, id: Id| participant_fits(m) implies #[trigger] participant_at(put_participant(db, x, m), id) == if id == x { Slot::Present(m) } else { participant_at(db, id) } by {
        law_participant_reads(id);
    }
    assert forall|db: Db, x: Id, m: RCWBalance, id: Id| #[trigger] balance_at(crate::store::put_balance(db, x, m), id) == if id == x { Ok(m) } else { balance_at(db, id) } by {
        law_balance_reads(id);
    }
    assert forall|db: Db, x: Id, m: Escrow, id: Id| #[trigger] escrow_at(put_escrow(db, x, m), id) == if id == x { Slot::Present(m) } else { escrow_at(db, id) } by {
        law_escrow_reads(id);
    }
}

// ── Participants ──

/// A newcomer with an empty history.
pub open spec fn is_registered(a: Db, b: Db, events: Seq<EventView>, id: Id, p_type: ParticipantType, metadata: Seq<char>, timestamp: i64) -> bool {
    &&& participant_at(a, id) is Absent
    &&& participant_at(b, id) matches Slot::Present(q) && {
        &&& q.id == id && q.p_type == type_number(p_type) && q.metadata == metadata && q.is_active
        &&& q.registered_at == timestamp && q.last_activity_at == timestamp
        &&& q.total_tx == 0 && q.success_tx == 0 && q.total_volume == 0 && q.total_settled == 0
        &&& q.dispute_count == 0 && q.dispute_won == 0 && q.rating_sum == 0 && q.rating_count == 0
    }
    &&& others_stay(a, b, id, id)
    &&& money_stays(a, b)
    &&& events.len() == 1 && (events[0] matches EventView::ParticipantRegistered { id: x, p_type: t } && x == id && t == type_number(p_type))
}

/// After a registration there is a newcomer with an empty history, and nobody else
/// is touched.
pub proof fn law_register(db: Db, sender: Id, id: Id, p_type: ParticipantType, metadata: Seq<char>, timestamp: i64)
    requires
        fits(register_step(db, sender, id, p_type, metadata, timestamp).0),
    ensures
        register_step(db, sender, id, p_type, metadata, timestamp).1 matches Ok(events) ==> is_registered(
            db,
            register_step(db, sender, id, p_type, metadata, timestamp).0,
            events,
            id,
            p_type,
            metadata,
            timestamp,
        ),
        register_step(db, sender, id, p_type, metadata, timestamp).1 is Ok <==> sender == id && participant_at(db, id) is Absent,
{
    let (after, how) = register_step(db, sender, id, p_type, metadata, timestamp);
    if how is Ok {
        lemma_at_put(participant_key(id));
        lemma_participant_written(after, id, newcomer(id, p_type, metadata, timestamp));
        assert forall|x: Id| x != id implies #[trigger] participant_at(after, x) == participant_at(db, x) by {
            law_participant_reads(x);
        }
        assert forall|x: Id| #[trigger] balance_at(after, x) == balance_at(db, x) by {
            law_balance_reads(x);
        }
    }
}

/// New metadata, and nothing else but the time.
pub open spec fn is_updated(a: Db, b: Db, events: Seq<EventView>, id: Id, metadata: Seq<char>, timestamp: i64) -> bool {
    &&& participant_at(a, id) matches Slot::Present(p) && participant_at(b, id) matches Slot::Present(q) && {
        &&& q.metadata == metadata && q.last_activity_at == timestamp
        &&& q.id == p.id && q.p_type == p.p_type && q.registered_at == p.registered_at && q.is_active == p.is_active
        &&& same_trade(p, q) && same_ratings(p, q) && same_disputes(p, q)
    }
    &&& others_stay(a, b, id, id)
    &&& money_stays(a, b)
    &&& events.len() == 1 && (events[0] matches EventView::ParticipantUpdated { id: x } && x == id)
}

/// An update changes one's metadata and the time of one's last activity, and nobody
/// else is touched.
pub proof fn law_update(db: Db, sender: Id, id: Id, metadata: Seq<char>, timestamp: i64)
    requires
        fits(update_step(db, sender, id, metadata, timestamp).0),
    ensures
        update_step(db, sender, id, metadata, timestamp).1 matches Ok(events) ==> is_updated(db, update_step(db, sender, id, metadata, timestamp).0, events, id, metadata, timestamp),
        update_step(db, sender, id, metadata, timestamp).1 is Ok <==> sender == id && participant_at(db, id) is Present,
{
    let (after, how) = update_step(db, sender, id, metadata, timestamp);
    if how is Ok {
        let p = participant_at(db, id)->Present_0;
        lemma_at_put(participant_key(id));
        lemma_participant_written(after, id, ParticipantView { metadata, last_activity_at: timestamp, ..p });
        assert forall|x: Id| x != id implies #[trigger] participant_at(after, x) == participant_at(db, x) by {
            law_participant_reads(x);
        }
        assert forall|x: Id| #[trigger] balance_at(after, x) == balance_at(db, x) by {
            law_balance_reads(x);
        }
    }
}

/// Inactive, and nothing else.
pub open spec fn is_deactivated(a: Db, b: Db, events: Seq<EventView>, id: Id) -> bool {
    &&& participant_at(a, id) matches Slot::Present(p) && participant_at(b, id) matches Slot::Present(q) && {
        &&& !q.is_active
        &&& q.id == p.id && q.p_type == p.p_type && q.metadata == p.metadata && q.registered_at == p.registered_at && q.last_activity_at == p.last_activity_at
        &&& same_trade(p, q) && same_ratings(p, q) && same_disputes(p, q)
    }
    &&& others_stay(a, b, id, id)
    &&& money_stays(a, b)
    &&& events.len() == 1 && (events[0] matches EventView::ParticipantDeactivated { id: x } && x == id)
}

/// Who deactivates oneself is inactive, and nothing else changes.
pub proof fn law_deactivate(db: Db, sender: Id, id: Id)
    requires
        fits(db),
    ensures
        deactivate_step(db, sender, id).1 matches Ok(events) ==> is_deactivated(db, deactivate_step(db, sender, id).0, events, id),
        deactivate_step(db, sender, id).1 is Ok <==> sender == id && participant_at(db, id) is Present,
{
    let (after, how) = deactivate_step(db, sender, id);
    if how is Ok {
        lemma_participant_fits(db, id);
        lemma_reads();
        assert forall|x: Id| #[trigger] balance_at(after, x) == balance_at(db, x) by {
            law_balance_reads(x);
        }
    }
}

// ── Rewards ──

/// A reward is earned by one, and nothing else changes.
proof fn lemma_reward(db: Db, first: Seq<EventView>, to: Id, amount: u64, reason: Seq<char>)
    ensures
        reward_step(db, first, to, amount, reason) matches Some((after, Ok(events))) ==> {
            &&& amount > 0 ==> earns(db, after, to, amount as int)
            &&& amount == 0 ==> after == db
            &&& purses_stay(db, after, to, to)
            &&& all_stay(db, after)
            &&& forall|id: Id| #[trigger] escrow_at(after, id) == escrow_at(db, id)
            &&& forall|id: Id| #[trigger] dispute_at(after, id) == dispute_at(db, id)
            &&& forall|id: Id| #[trigger] settlement_at(after, id) == settlement_at(db, id)
            &&& events == first + reward_events(to, amount, reason)
        },
{
    if let Some((after, Ok(events))) = reward_step(db, first, to, amount, reason) {
        lemma_reads();
        assert forall|id: Id| #[trigger] participant_at(after, id) == participant_at(db, id) by {
            law_participant_reads(id);
        }
        assert forall|id: Id| #[trigger] escrow_at(after, id) == escrow_at(db, id) by {
            law_escrow_reads(id);
        }
        assert forall|id: Id| #[trigger] dispute_at(after, id) == dispute_at(db, id) by {
            law_dispute_reads(id);
        }
        assert forall|id: Id| #[trigger] settlement_at(after, id) == settlement_at(db, id) by {
            lemma_settlements_apart(id);
        }
        assert(events =~= first + reward_events(to, amount, reason));
    }
}

/// Settlements are not touched by other writes.
proof fn lemma_settlements_apart(id: Id)
    ensures
        forall|db: Db, x: Id, m: ParticipantView| #[trigger] settlement_at(put_participant(db, x, m), id) == settlement_at(db, id),
        forall|db: Db, x: Id, m: RCWBalance| #[trigger] settlement_at(crate::store::put_balance(db, x, m), id) == settlement_at(db, id),
{
    let k = crate::store::settlement_key(id);
    lemma_at_put(k);
    lemma_slot_at::<crate::types::SettlementRecord>(k);
    assert forall|x: Id| #![trigger participant_key(x)] participant_key(x) != k by {
        law_keys_distinct(x, id, 0, 0);
    }
    assert forall|x: Id| #![trigger crate::store::balance_key(x)] crate::store::balance_key(x) != k by {
        law_keys_distinct(id, x, 0, 0);
    }
}

// ── Settlements and ratings ──

/// The settlement as it was reported, a success more, and a reward.
pub open spec fn is_recorded(a: Db, b: Db, events: Seq<EventView>, id: Id, data: SettlementData, timestamp: i64, reward: u64) -> bool {
    &&& settlement_at(b, data.record_id) matches Slot::Present(s) && {
        &&& s.record_id == data.record_id && s.participant_id == id
        &&& s.gross_amount == data.gross_amount && s.platform_fee == data.platform_fee && s.net_amount == data.net_amount
        &&& s.currency == data.currency && s.settled_at == data.settled_at && s.recorded_at == timestamp
    }
    &&& participant_at(a, id) matches Slot::Present(p) && participant_at(b, id) matches Slot::Present(q) && {
        &&& grows_by(p.total_tx, 1, q.total_tx) && grows_by(p.success_tx, 1, q.success_tx)
        &&& grows_by(p.total_volume, data.gross_amount as int, q.total_volume)
        &&& grows_by(p.total_settled, data.net_amount as int, q.total_settled)
        &&& q.last_activity_at == timestamp
        &&& same_person(p, q) && same_ratings(p, q) && same_disputes(p, q)
    }
    &&& others_stay(a, b, id, id)
    &&& if reward > 0 {
        earns(a, b, id, reward as int)
    } else {
        money_stays(a, b)
    }
    &&& purses_stay(a, b, id, id)
    &&& events == seq![EventView::SettlementRecorded { participant_id: id, record_id: data.record_id }] + reward_events(id, reward, "settlement_reward"@)
}

/// What was reported of a settlement is what is kept of it, field by field, with who
/// reported it and when. The profile has a success more, the volume and what was
/// settled grow by the gross and the net amount, and the reward is earned.
pub proof fn law_record(db: Db, sender: Id, id: Id, data: SettlementData, timestamp: i64, reward: u64)
    requires
        fits(db),
    ensures
        record_step(db, sender, id, data, timestamp, reward) matches Some((after, Ok(events))) ==> is_recorded(db, after, events, id, data, timestamp, reward),
        record_step(db, sender, id, data, timestamp, reward) matches Some((_, Ok(_))) ==> sender == id && participant_at(db, id) is Present,
{
    if let Some((after, Ok(events))) = record_step(db, sender, id, data, timestamp, reward) {
        let p = participant_at(db, id)->Present_0;
        let s = kept_record(id, data, timestamp);
        let recorded = crate::store::put_settlement(db, data.record_id, s);
        let updated = put_participant(recorded, id, crate::state::settlement::with_settlement(p, data, timestamp));
        lemma_participant_fits(db, id);
        lemma_reads();
        lemma_settlements_apart(data.record_id);
        law_other_reads(db, data.record_id, data.record_id, s, arbitrary(), 0);
        assert forall|x: Id| #[trigger] participant_at(recorded, x) == participant_at(db, x) by {
            law_participant_reads(x);
        }
        assert forall|x: Id| #[trigger] balance_at(updated, x) == balance_at(db, x) by {
            law_balance_reads(x);
        }
        lemma_reward(updated, seq![EventView::SettlementRecorded { participant_id: id, record_id: data.record_id }], id, reward, "settlement_reward"@);
        assert(settlement_at(after, data.record_id) == settlement_at(updated, data.record_id));
    }
}

/// A rating from one to five hundred counts; a failure is a transaction; and a reward.
pub open spec fn is_rated(a: Db, b: Db, events: Seq<EventView>, id: Id, rating: u16, success: bool, timestamp: i64, reward: u64) -> bool {
    &&& participant_at(a, id) matches Slot::Present(p) && participant_at(b, id) matches Slot::Present(q) && {
        &&& 1 <= rating <= 500 ==> q.rating_sum == p.rating_sum + rating && q.rating_count == p.rating_count + 1
        &&& rating == 0 || rating > 500 ==> same_ratings(p, q)
        &&& success ==> q.total_tx == p.total_tx
        &&& !success ==> q.total_tx == p.total_tx + 1
        &&& q.success_tx == p.success_tx && q.total_volume == p.total_volume && q.total_settled == p.total_settled
        &&& q.last_activity_at == timestamp
        &&& same_person(p, q) && same_disputes(p, q)
        &&& events == seq![EventView::RatingRecorded { participant_id: id, new_score: trust_score(q) }] + reward_events(id, reward, "rating_reward"@)
    }
    &&& others_stay(a, b, id, id)
    &&& if reward > 0 {
        earns(a, b, id, reward as int)
    } else {
        money_stays(a, b)
    }
    &&& purses_stay(a, b, id, id)
}

/// A rating is added where it counts, and counted. What failed is a transaction more
/// without success, what succeeded is counted elsewhere. The one who is rated earns
/// the reward, and the event tells the new score.
pub proof fn law_rate(db: Db, id: Id, rating: u16, success: bool, timestamp: i64, reward: u64)
    requires
        fits(db),
    ensures
        rating_step(db, id, rating, success, timestamp, reward) matches Some((after, Ok(events))) ==> is_rated(db, after, events, id, rating, success, timestamp, reward),
{
    if let Some((after, Ok(events))) = rating_step(db, id, rating, success, timestamp, reward) {
        let p = participant_at(db, id)->Present_0;
        let q = crate::state::settlement::with_rating(p, rating, success, timestamp)->0;
        let updated = put_participant(db, id, q);
        lemma_participant_fits(db, id);
        lemma_reads();
        assert forall|x: Id| #[trigger] balance_at(updated, x) == balance_at(db, x) by {
            law_balance_reads(x);
        }
        lemma_reward(updated, seq![EventView::RatingRecorded { participant_id: id, new_score: trust_score(q) }], id, reward, "rating_reward"@);
    }
}

// ── Escrows ──

/// A new escrow as it was asked for.
pub open spec fn is_created(a: Db, b: Db, events: Seq<EventView>, escrow_id: Id, buyer: Id, seller: Id, amount: u64, expires_at: i64, timestamp: i64) -> bool {
    &&& escrow_at(a, escrow_id) is Absent
    &&& escrow_at(b, escrow_id) matches Slot::Present(f) && {
        &&& f.id == escrow_id && f.buyer == buyer && f.seller == seller && f.amount == amount
        &&& f.state == EscrowState::Created && f.created_at == timestamp && f.expires_at == expires_at
        &&& f.evidence_hash is None && f.dispute_id is None
    }
    &&& escrows_stay(a, b, escrow_id)
    &&& all_stay(a, b)
    &&& money_stays(a, b)
    &&& events == seq![EventView::EscrowCreated { escrow_id, buyer, seller, amount }]
}

/// An escrow is created as it was asked for, and nothing else changes. Only the buyer
/// may, between participants, under an id that is free.
pub proof fn law_create(db: Db, sender: Id, escrow_id: Id, buyer: Id, seller: Id, amount: u64, expires_at: i64, timestamp: i64)
    ensures
        create_step(db, sender, escrow_id, buyer, seller, amount, expires_at, timestamp).1 matches Ok(events) ==> is_created(
            db,
            create_step(db, sender, escrow_id, buyer, seller, amount, expires_at, timestamp).0,
            events,
            escrow_id,
            buyer,
            seller,
            amount,
            expires_at,
            timestamp,
        ),
        create_step(db, sender, escrow_id, buyer, seller, amount, expires_at, timestamp).1 is Ok <==> sender == buyer && escrow_at(db, escrow_id) is Absent
            && participant_at(db, buyer) is Present && participant_at(db, seller) is Present,
{
    let (after, how) = create_step(db, sender, escrow_id, buyer, seller, amount, expires_at, timestamp);
    if how is Ok {
        lemma_reads();
        assert forall|x: Id| #[trigger] participant_at(after, x) == participant_at(db, x) by {
            law_participant_reads(x);
        }
        assert forall|x: Id| #[trigger] balance_at(after, x) == balance_at(db, x) by {
            law_balance_reads(x);
        }
    }
}

/// The money goes to the seller: a success for both sides, volume for the seller, and
/// a reward for each. One who is both sides has both.
pub open spec fn is_released(a: Db, b: Db, events: Seq<EventView>, escrow_id: Id, evidence_hash: [u8; 32], timestamp: i64, reward: u64) -> bool {
    escrow_at(a, escrow_id) matches Slot::Present(e) && {
        &&& escrow_at(b, escrow_id) matches Slot::Present(f) && {
            &&& f.state == EscrowState::Released && f.evidence_hash == Some(evidence_hash) && f.dispute_id == e.dispute_id
            &&& f.id == e.id && f.buyer == e.buyer && f.seller == e.seller && f.amount == e.amount && f.created_at == e.created_at && f.expires_at == e.expires_at
        }
        &&& escrows_stay(a, b, escrow_id)
        &&& e.buyer != e.seller ==> {
            &&& participant_at(a, e.buyer) matches Slot::Present(p) && participant_at(b, e.buyer) matches Slot::Present(q) && {
                &&& grows_by(p.total_tx, 1, q.total_tx) && grows_by(p.success_tx, 1, q.success_tx)
                &&& q.total_volume == p.total_volume && q.total_settled == p.total_settled && q.last_activity_at == timestamp
                &&& same_person(p, q) && same_ratings(p, q) && same_disputes(p, q)
            }
            &&& participant_at(a, e.seller) matches Slot::Present(p) && participant_at(b, e.seller) matches Slot::Present(q) && {
                &&& grows_by(p.total_tx, 1, q.total_tx) && grows_by(p.success_tx, 1, q.success_tx)
                &&& grows_by(p.total_volume, e.amount as int, q.total_volume) && q.total_settled == p.total_settled && q.last_activity_at == timestamp
                &&& same_person(p, q) && same_ratings(p, q) && same_disputes(p, q)
            }
            &&& reward > 0 ==> earns(a, b, e.buyer, reward as int) && earns(a, b, e.seller, reward as int)
        }
        &&& e.buyer == e.seller ==> {
            &&& participant_at(a, e.buyer) matches Slot::Present(p) && participant_at(b, e.buyer) matches Slot::Present(q) && {
                &&& grows_by(p.total_tx, 2, q.total_tx) && grows_by(p.success_tx, 2, q.success_tx)
                &&& grows_by(p.total_volume, e.amount as int, q.total_volume) && q.total_settled == p.total_settled && q.last_activity_at == timestamp
                &&& same_person(p, q) && same_ratings(p, q) && same_disputes(p, q)
            }
            &&& reward > 0 ==> earns(a, b, e.buyer, 2 * reward)
        }
        &&& others_stay(a, b, e.buyer, e.seller)
        &&& purses_stay(a, b, e.buyer, e.seller)
        &&& reward == 0 ==> money_stays(a, b)
        &&& events == seq![EventView::EscrowReleased { escrow_id }] + reward_events(e.buyer, reward, "escrow_complete"@) + reward_events(e.seller, reward, "escrow_complete"@)
    }
}

proof fn lemma_both_rewards(db: Db, first: Seq<EventView>, buyer: Id, seller: Id, reward: u64)
    ensures
        both_rewards_step(db, first, buyer, seller, reward) matches Some((after, Ok(events))) ==> {
            &&& reward == 0 ==> after == db
            &&& reward > 0 && buyer != seller ==> earns(db, after, buyer, reward as int) && earns(db, after, seller, reward as int)
            &&& reward > 0 && buyer == seller ==> earns(db, after, buyer, 2 * reward)
            &&& purses_stay(db, after, buyer, seller)
            &&& all_stay(db, after)
            &&& forall|id: Id| #[trigger] escrow_at(after, id) == escrow_at(db, id)
            &&& events == first + reward_events(buyer, reward, "escrow_complete"@) + reward_events(seller, reward, "escrow_complete"@)
        },
{
    if let Some((after, Ok(events))) = both_rewards_step(db, first, buyer, seller, reward) {
        if reward > 0 {
            lemma_reads();
            let (mid, more) = mint_step(db, buyer, reward, "escrow_complete"@)->0;
            assert forall|id: Id| #[trigger] participant_at(after, id) == participant_at(db, id) by {
                law_participant_reads(id);
            }
            assert forall|id: Id| #[trigger] escrow_at(after, id) == escrow_at(db, id) by {
                law_escrow_reads(id);
            }
        }
        assert(events =~= first + reward_events(buyer, reward, "escrow_complete"@) + reward_events(seller, reward, "escrow_complete"@));
    }
}

/// A release settles the escrow and changes nothing else of it; both sides have a
/// transaction and a success more, the seller the amount as volume, and each earns
/// the reward. Nobody else is touched.
pub proof fn law_release(db: Db, sender: Id, escrow_id: Id, evidence_hash: [u8; 32], timestamp: i64, reward: u64)
    requires
        fits(db),
    ensures
        release_step(db, sender, escrow_id, evidence_hash, timestamp, reward) matches Some((after, Ok(events))) ==> is_released(
            db,
            after,
            events,
            escrow_id,
            evidence_hash,
            timestamp,
            reward,
        ),
{
    if let Some((after, Ok(events))) = release_step(db, sender, escrow_id, evidence_hash, timestamp, reward) {
        let e = escrow_at(db, escrow_id)->Present_0;
        let done = as_released(e, evidence_hash);
        let db0 = put_escrow(db, escrow_id, done);
        lemma_reads();
        lemma_participant_fits(db, e.buyer);
        lemma_participant_fits(db, e.seller);
        assert forall|x: Id| #[trigger] participant_at(db0, x) == participant_at(db, x) by {
            law_participant_reads(x);
        }
        let p = participant_at(db0, e.buyer)->Present_0;
        let db1 = put_participant(db0, e.buyer, crate::state::escrow::bought(p, timestamp));
        let q = participant_at(db1, e.seller)->Present_0;
        let db2 = put_participant(db1, e.seller, crate::state::escrow::sold(q, e.amount, timestamp));
        assert forall|x: Id| #[trigger] balance_at(db2, x) == balance_at(db, x) by {
            law_balance_reads(x);
        }
        assert forall|x: Id| #[trigger] escrow_at(db2, x) == escrow_at(db0, x) by {
            law_escrow_reads(x);
        }
        lemma_both_rewards(db2, seq![EventView::EscrowReleased { escrow_id }], e.buyer, e.seller, reward);
    }
}

/// The money goes back: a transaction without success for the seller, and nothing
/// else.
pub open spec fn is_refunded(a: Db, b: Db, events: Seq<EventView>, escrow_id: Id, timestamp: i64) -> bool {
    escrow_at(a, escrow_id) matches Slot::Present(e) && {
        &&& escrow_at(b, escrow_id) matches Slot::Present(f) && {
            &&& f.state == EscrowState::Refunded && f.evidence_hash == e.evidence_hash && f.dispute_id == e.dispute_id
            &&& f.id == e.id && f.buyer == e.buyer && f.seller == e.seller && f.amount == e.amount && f.created_at == e.created_at && f.expires_at == e.expires_at
        }
        &&& escrows_stay(a, b, escrow_id)
        &&& participant_at(a, e.seller) matches Slot::Present(p) && participant_at(b, e.seller) matches Slot::Present(q) && {
            &&& grows_by(p.total_tx, 1, q.total_tx)
            &&& q.success_tx == p.success_tx && q.total_volume == p.total_volume && q.total_settled == p.total_settled && q.last_activity_at == timestamp
            &&& same_person(p, q) && same_ratings(p, q) && same_disputes(p, q)
        }
        &&& others_stay(a, b, e.seller, e.seller)
        &&& money_stays(a, b)
        &&& events == seq![EventView::EscrowRefunded { escrow_id }]
    }
}

/// A refund settles the escrow and changes nothing else of it; the seller has a
/// transaction more and no success more. Nobody else is touched, and no balance.
pub proof fn law_refund(db: Db, sender: Id, escrow_id: Id, timestamp: i64)
    requires
        fits(db),
    ensures
        refund_step(db, sender, escrow_id, timestamp).1 matches Ok(events) ==> is_refunded(db, refund_step(db, sender, escrow_id, timestamp).0, events, escrow_id, timestamp),
{
    let (after, how) = refund_step(db, sender, escrow_id, timestamp);
    if how is Ok {
        let e = escrow_at(db, escrow_id)->Present_0;
        let db1 = put_escrow(db, escrow_id, crate::state::escrow::as_refunded(e));
        lemma_reads();
        lemma_participant_fits(db, e.seller);
        assert forall|x: Id| #[trigger] participant_at(db1, x) == participant_at(db, x) by {
            law_participant_reads(x);
        }
        assert forall|x: Id| #[trigger] balance_at(after, x) == balance_at(db, x) by {
            law_balance_reads(x);
        }
        assert forall|x: Id| #[trigger] escrow_at(after, x) == escrow_at(db1, x) by {
            law_escrow_reads(x);
        }
    }
}

// ── Disputes ──

/// The escrow is disputed, there is a dispute with its first evidence, and the other
/// side has a dispute more.
pub open spec fn is_raised(a: Db, b: Db, events: Seq<EventView>, dispute_id: Id, escrow_id: Id, raised_by: Id, reason: DisputeReason, evidence_hash: [u8; 32], timestamp: i64) -> bool {
    escrow_at(a, escrow_id) matches Slot::Present(e) && {
        let other = if raised_by == e.buyer {
            e.seller
        } else {
            e.buyer
        };
        &&& escrow_at(b, escrow_id) matches Slot::Present(f) && {
            &&& f.state == EscrowState::Disputed && f.dispute_id == Some(dispute_id) && f.evidence_hash == e.evidence_hash
            &&& f.id == e.id && f.buyer == e.buyer && f.seller == e.seller && f.amount == e.amount && f.created_at == e.created_at && f.expires_at == e.expires_at
        }
        &&& dispute_at(b, dispute_id) matches Slot::Present(d) && {
            &&& d.id == dispute_id && d.escrow_id == escrow_id && d.raised_by == raised_by && d.reason == reason_number(reason)
            &&& d.evidence_hashes == seq![evidence_hash] && d.votes.len() == 0
            &&& d.state == DisputeState::Raised && d.resolution is None && d.raised_at == timestamp && d.resolved_at is None
        }
        &&& participant_at(a, other) matches Slot::Present(p) ==> (participant_at(b, other) matches Slot::Present(q) && {
            &&& grows_by(p.dispute_count, 1, q.dispute_count) && q.dispute_won == p.dispute_won && q.last_activity_at == p.last_activity_at
            &&& same_person(p, q) && same_trade(p, q) && same_ratings(p, q)
        })
        &&& participant_at(a, other) !is Present ==> participant_at(b, other) == participant_at(a, other)
        &&& others_stay(a, b, other, other)
        &&& escrows_stay(a, b, escrow_id)
        &&& disputes_stay(a, b, dispute_id)
        &&& money_stays(a, b)
        &&& events == seq![EventView::DisputeRaised { dispute_id, escrow_id }]
    }
}

/// A dispute is raised with its first evidence; its escrow is disputed, and the other
/// side has a dispute more on its profile. Whoever raised it has none, and nobody
/// else is touched.
pub proof fn law_raise(db: Db, dispute_id: Id, escrow_id: Id, raised_by: Id, reason: DisputeReason, evidence_hash: [u8; 32], timestamp: i64)
    requires
        fits(db),
        fits(raise_step(db, dispute_id, escrow_id, raised_by, reason, evidence_hash, timestamp).0),
    ensures
        raise_step(db, dispute_id, escrow_id, raised_by, reason, evidence_hash, timestamp).1 matches Ok(events) ==> is_raised(
            db,
            raise_step(db, dispute_id, escrow_id, raised_by, reason, evidence_hash, timestamp).0,
            events,
            dispute_id,
            escrow_id,
            raised_by,
            reason,
            evidence_hash,
            timestamp,
        ),
{
    let (after, how) = raise_step(db, dispute_id, escrow_id, raised_by, reason, evidence_hash, timestamp);
    if how is Ok {
        let e = escrow_at(db, escrow_id)->Present_0;
        let other = other_party(e, raised_by);
        let d = new_dispute(dispute_id, escrow_id, raised_by, reason, evidence_hash, timestamp);
        let db1 = put_escrow(db, escrow_id, crate::state::dispute::as_disputed(e, dispute_id));
        let db2 = put_dispute(db1, dispute_id, d);
        lemma_reads();
        lemma_participant_fits(db, other);
        assert forall|x: Id| #[trigger] participant_at(db2, x) == participant_at(db, x) by {
            law_participant_reads(x);
        }
        assert forall|x: Id| #[trigger] balance_at(after, x) == balance_at(db, x) by {
            law_balance_reads(x);
        }
        assert forall|x: Id| #[trigger] escrow_at(after, x) == escrow_at(db1, x) by {
            law_escrow_reads(x);
        }
        assert forall|x: Id| x != dispute_id implies #[trigger] dispute_at(after, x) == dispute_at(db, x) by {
            law_dispute_reads(x);
        }
        assert(at(after, dispute_key(dispute_id)) == Some(Dispute::bytes(d))) by {
            lemma_at_put(dispute_key(dispute_id));
            law_keys_distinct(other, dispute_id, 0, 0);
        }
        lemma_dispute_written(after, dispute_id, d);
    }
}

/// One piece of evidence more, and nothing else.
pub open spec fn is_supported(a: Db, b: Db, events: Seq<EventView>, dispute_id: Id, evidence_hash: [u8; 32]) -> bool {
    &&& dispute_at(a, dispute_id) matches Slot::Present(d) && dispute_at(b, dispute_id) matches Slot::Present(f) && {
        &&& f.evidence_hashes == d.evidence_hashes.push(evidence_hash) && f.state == DisputeState::Evidence
        &&& f.id == d.id && f.escrow_id == d.escrow_id && f.raised_by == d.raised_by && f.reason == d.reason
        &&& f.votes == d.votes && f.resolution == d.resolution && f.raised_at == d.raised_at && f.resolved_at == d.resolved_at
    }
    &&& disputes_stay(a, b, dispute_id)
    &&& forall|id: Id| #[trigger] escrow_at(b, id) == escrow_at(a, id)
    &&& all_stay(a, b)
    &&& money_stays(a, b)
    &&& events.len() == 0
}

/// Evidence is added after the rest, and nothing else changes.
pub proof fn law_evidence(db: Db, sender: Id, dispute_id: Id, evidence_hash: [u8; 32])
    requires
        fits(evidence_step(db, sender, dispute_id, evidence_hash).0),
    ensures
        evidence_step(db, sender, dispute_id, evidence_hash).1 matches Ok(events) ==> is_supported(db, evidence_step(db, sender, dispute_id, evidence_hash).0, events, dispute_id, evidence_hash),
{
    let (after, how) = evidence_step(db, sender, dispute_id, evidence_hash);
    if how is Ok {
        let d = dispute_at(db, dispute_id)->Present_0;
        lemma_at_put(dispute_key(dispute_id));
        lemma_dispute_written(after, dispute_id, with_evidence(d, evidence_hash));
        lemma_dispute_frame(db, dispute_id, with_evidence(d, evidence_hash));
    }
}

proof fn lemma_dispute_frame(db: Db, dispute_id: Id, m: DisputeView)
    ensures
        disputes_stay(db, put_dispute(db, dispute_id, m), dispute_id),
        forall|id: Id| #[trigger] escrow_at(put_dispute(db, dispute_id, m), id) == escrow_at(db, id),
        all_stay(db, put_dispute(db, dispute_id, m)),
        money_stays(db, put_dispute(db, dispute_id, m)),
{
    let after = put_dispute(db, dispute_id, m);
    assert forall|x: Id| #[trigger] participant_at(after, x) == participant_at(db, x) by {
        law_participant_reads(x);
    }
    assert forall|x: Id| #[trigger] balance_at(after, x) == balance_at(db, x) by {
        law_balance_reads(x);
    }
    assert forall|x: Id| #[trigger] escrow_at(after, x) == escrow_at(db, x) by {
        law_escrow_reads(x);
    }
    assert forall|x: Id| x != dispute_id implies #[trigger] dispute_at(after, x) == dispute_at(db, x) by {
        law_dispute_reads(x);
    }
}

/// What a verdict comes to: the winner has a dispute won, is cleared of the accusation
/// and earns the reward; the loser has a dispute more, and two where the loser raised
/// it. A split changes nothing.
pub open spec fn is_decided(a: Db, b: Db, e: Escrow, raised_by: Id, resolution: u8, reward: u64) -> bool {
    if resolution == 2 {
        all_stay(a, b) && money_stays(a, b)
    } else {
        let (winner, loser) = if resolution == 0 {
            (e.buyer, e.seller)
        } else {
            (e.seller, e.buyer)
        };
        &&& winner != loser ==> {
            &&& participant_at(a, winner) matches Slot::Present(p) ==> (participant_at(b, winner) matches Slot::Present(q) && {
                &&& grows_by(p.dispute_won, 1, q.dispute_won)
                &&& raised_by == winner ==> q.dispute_count == p.dispute_count
                &&& raised_by != winner ==> shrinks_by(p.dispute_count, 1, q.dispute_count)
                &&& same_person(p, q) && same_trade(p, q) && same_ratings(p, q) && q.last_activity_at == p.last_activity_at
            })
            &&& participant_at(a, loser) matches Slot::Present(p) ==> (participant_at(b, loser) matches Slot::Present(q) && {
                &&& q.dispute_won == p.dispute_won
                &&& raised_by == loser ==> grows_by(p.dispute_count, 2, q.dispute_count)
                &&& raised_by != loser ==> grows_by(p.dispute_count, 1, q.dispute_count)
                &&& same_person(p, q) && same_trade(p, q) && same_ratings(p, q) && q.last_activity_at == p.last_activity_at
            })
        }
        &&& winner == loser ==> (participant_at(a, winner) matches Slot::Present(p) ==> (participant_at(b, winner) matches Slot::Present(q) && {
            &&& grows_by(p.dispute_won, 1, q.dispute_won)
            &&& raised_by == winner ==> grows_by(p.dispute_count, 2, q.dispute_count)
            &&& same_person(p, q) && same_trade(p, q) && same_ratings(p, q) && q.last_activity_at == p.last_activity_at
        }))
        &&& participant_at(a, winner) !is Present ==> participant_at(b, winner) == participant_at(a, winner)
        &&& participant_at(a, loser) !is Present ==> participant_at(b, loser) == participant_at(a, loser)
        &&& others_stay(a, b, winner, loser)
        &&& purses_stay(a, b, winner, winner)
        &&& if reward > 0 {
            earns(a, b, winner, reward as int)
        } else {
            money_stays(a, b)
        }
    }
}

/// Who earns a reward by a verdict.
pub open spec fn verdict_events(e: Escrow, resolution: u8, reward: u64) -> Seq<EventView> {
    if resolution == 2 {
        Seq::empty()
    } else if resolution == 0 {
        reward_events(e.buyer, reward, "dispute_won"@)
    } else {
        reward_events(e.seller, reward, "dispute_won"@)
    }
}

#[verifier::rlimit(30)]
proof fn lemma_decided(db: Db, raised_by: Id, e: Escrow, resolution: u8, reward: u64)
    requires
        fits(db),
    ensures
        verdict_step(db, raised_by, e, resolution, reward) matches Some((after, Ok(events))) ==> {
            &&& is_decided(db, after, e, raised_by, resolution, reward)
            &&& events == verdict_events(e, resolution, reward)
            &&& forall|id: Id| #[trigger] escrow_at(after, id) == escrow_at(db, id)
            &&& forall|id: Id| #[trigger] dispute_at(after, id) == dispute_at(db, id)
        },
{
    if let Some((after, Ok(events))) = verdict_step(db, raised_by, e, resolution, reward) {
        if resolution != 2 {
            let (winner, loser) = if resolution == 0 {
                (e.buyer, e.seller)
            } else {
                (e.seller, e.buyer)
            };
            lemma_reads();
            lemma_participant_fits(db, e.buyer);
            lemma_participant_fits(db, e.seller);
            let db1 = match participant_at(db, winner) {
                Slot::Present(p) => put_participant(db, winner, crate::state::dispute::won(p, raised_by == winner)),
                _ => db,
            };
            let db2 = match participant_at(db1, loser) {
                Slot::Present(p) => put_participant(db1, loser, crate::state::dispute::lost(p, raised_by == loser)),
                _ => db1,
            };
            assert(reward_step(db2, Seq::empty(), winner, reward, "dispute_won"@) == Some((after, Ok::<Seq<EventView>, Seq<char>>(events))));
            lemma_reward(db2, Seq::empty(), winner, reward, "dispute_won"@);
            assert(Seq::<EventView>::empty() + reward_events(winner, reward, "dispute_won"@) =~= reward_events(winner, reward, "dispute_won"@));
            assert forall|x: Id| #[trigger] balance_at(db2, x) == balance_at(db, x) by {
                law_balance_reads(x);
            }
            assert forall|x: Id| #[trigger] escrow_at(after, x) == escrow_at(db, x) by {
                law_escrow_reads(x);
                assert(escrow_at(after, x) == escrow_at(db2, x));
            }
            assert forall|x: Id| #[trigger] dispute_at(after, x) == dispute_at(db, x) by {
                law_dispute_reads(x);
                assert(dispute_at(after, x) == dispute_at(db2, x));
            }
            assert forall|x: Id| x != winner && x != loser implies #[trigger] participant_at(after, x) == participant_at(db, x) by {
                assert(participant_at(after, x) == participant_at(db2, x));
            }
            assert(participant_at(after, winner) == participant_at(db2, winner));
            assert(participant_at(after, loser) == participant_at(db2, loser));
            assert(balance_at(db2, winner) == balance_at(db, winner));
            if reward > 0 {
                assert(earns(db, after, winner, reward as int));
            }
        }
    }
}

/// One vote more. With fewer votes than it takes, nothing else changes; else the
/// dispute is decided by the votes for either side.
pub open spec fn is_voted(a: Db, b: Db, events: Seq<EventView>, dispute_id: Id, voter: Id, decision: DisputeDecision, timestamp: i64, reward: u64, threshold: usize) -> bool {
    dispute_at(a, dispute_id) matches Slot::Present(d) && dispute_at(b, dispute_id) matches Slot::Present(f) && {
        &&& f.votes.len() == d.votes.len() + 1 && f.votes.drop_last() == d.votes
        &&& f.votes.last().voter == voter && f.votes.last().decision == decision_number(decision) && f.votes.last().voted_at == timestamp
        &&& f.id == d.id && f.escrow_id == d.escrow_id && f.raised_by == d.raised_by && f.reason == d.reason
        &&& f.evidence_hashes == d.evidence_hashes && f.raised_at == d.raised_at
        &&& disputes_stay(a, b, dispute_id)
        &&& forall|id: Id| #[trigger] escrow_at(b, id) == escrow_at(a, id)
        &&& f.votes.len() < threshold ==> {
            &&& f.state == DisputeState::Voting && f.resolution == d.resolution && f.resolved_at == d.resolved_at
            &&& all_stay(a, b) && money_stays(a, b) && events.len() == 0
        }
        &&& f.votes.len() >= threshold ==> {
            let (buyer, seller) = (votes_for(f.votes, 0), votes_for(f.votes, 1));
            let resolution: u8 = if buyer > seller {
                0
            } else if buyer < seller {
                1
            } else {
                2
            };
            &&& f.state == DisputeState::Resolved && f.resolution == Some(resolution) && f.resolved_at == Some(timestamp)
            &&& escrow_at(a, d.escrow_id) matches Slot::Present(e) && is_decided(a, b, e, d.raised_by, resolution, reward) && events == verdict_events(e, resolution, reward).push(
                EventView::DisputeResolved { dispute_id, decision: resolution },
            )
        }
    }
}

/// A vote is added after the rest. Once there are enough, the dispute is decided: for
/// the side with more votes, which wins, or as a split.
#[verifier::rlimit(30)]
pub proof fn law_vote(db: Db, dispute_id: Id, voter: Id, decision: DisputeDecision, timestamp: i64, reward: u64, threshold: usize)
    requires
        fits(db),
        vote_step(db, dispute_id, voter, decision, timestamp, reward, threshold) matches Some((after, _)) ==> fits(after),
    ensures
        vote_step(db, dispute_id, voter, decision, timestamp, reward, threshold) matches Some((after, Ok(events))) ==> is_voted(
            db,
            after,
            events,
            dispute_id,
            voter,
            decision,
            timestamp,
            reward,
            threshold,
        ),
{
    if let Some((after, Ok(events))) = vote_step(db, dispute_id, voter, decision, timestamp, reward, threshold) {
        let d = dispute_at(db, dispute_id)->Present_0;
        let voted = with_vote(d, voter, decision, timestamp);
        assert(voted.votes.drop_last() =~= d.votes);
        lemma_at_put(dispute_key(dispute_id));
        if voted.votes.len() < threshold {
            lemma_dispute_written(after, dispute_id, voted);
            lemma_dispute_frame(db, dispute_id, voted);
        } else {
            let e = escrow_at(db, d.escrow_id)->Present_0;
            let v = crate::state::dispute::verdict(voted.votes);
            let (db1, first) = verdict_step(db, d.raised_by, e, v, reward)->0;
            law_verdict(voted.votes);
            lemma_decided(db, d.raised_by, e, v, reward);
            lemma_dispute_written(after, dispute_id, as_resolved(voted, timestamp));
            lemma_dispute_frame(db1, dispute_id, as_resolved(voted, timestamp));
            lemma_decided_later(db, db1, after, e, d.raised_by, v, reward);
            assert forall|x: Id| #[trigger] escrow_at(after, x) == escrow_at(db, x) by {
                assert(escrow_at(after, x) == escrow_at(db1, x));
            }
            assert forall|x: Id| x != dispute_id implies #[trigger] dispute_at(after, x) == dispute_at(db, x) by {
                assert(dispute_at(after, x) == dispute_at(db1, x));
            }
        }
    }
}

proof fn lemma_decided_later(a: Db, b: Db, c: Db, e: Escrow, raised_by: Id, resolution: u8, reward: u64)
    requires
        is_decided(a, b, e, raised_by, resolution, reward),
        all_stay(b, c),
        money_stays(b, c),
    ensures
        is_decided(a, c, e, raised_by, resolution, reward),
{
    assert forall|x: Id| participant_at(b, x) == participant_at(a, x) implies #[trigger] participant_at(c, x) == participant_at(a, x) by {}
    assert forall|x: Id| balance_at(b, x) == balance_at(a, x) implies #[trigger] balance_at(c, x) == balance_at(a, x) by {}
    assert(participant_at(c, e.buyer) == participant_at(b, e.buyer));
    assert(participant_at(c, e.seller) == participant_at(b, e.seller));
    assert(balance_at(c, e.buyer) == balance_at(b, e.buyer));
    assert(balance_at(c, e.seller) == balance_at(b, e.seller));
}

// ── Tokens ──

/// What one has less the other has more, as earned.
pub open spec fn is_transferred(a: Db, b: Db, events: Seq<EventView>, from: Id, to: Id, amount: u64) -> bool {
    &&& amount > 0
    &&& balance_at(a, from) matches Ok(x) && balance_at(b, from) matches Ok(y) && {
        &&& x.earned + x.purchased >= amount
        &&& from != to ==> pays(x, y, amount as int)
        &&& from == to ==> {
            &&& y.owner == x.owner && y.earned + y.purchased == x.earned + x.purchased
            &&& amount <= x.earned ==> y.purchased == x.purchased
            &&& amount > x.earned ==> y.earned == amount
        }
    }
    &&& from != to ==> earns(a, b, to, amount as int)
    &&& purses_stay(a, b, from, to)
    &&& all_stay(a, b)
    &&& events == seq![EventView::RCWTransferred { from, to, amount }]
}

/// A transfer takes the amount from what one has earned and then from what one has
/// purchased, and the other has earned it. Nobody else's balance changes, and no
/// profile.
pub proof fn law_transfer(db: Db, from: Id, to: Id, amount: u64)
    ensures
        transfer_step(db, from, to, amount) matches Some((after, Ok(events))) ==> is_transferred(db, after, events, from, to, amount),
{
    if let Some((after, Ok(events))) = transfer_step(db, from, to, amount) {
        lemma_reads();
        let (paid, _) = debit_step(db, from, amount)->0;
        assert forall|x: Id| #[trigger] participant_at(after, x) == participant_at(db, x) by {
            law_participant_reads(x);
        }
    }
}

/// One has less.
pub open spec fn is_spent(a: Db, b: Db, events: Seq<EventView>, from: Id, amount: u64, purpose: Seq<char>) -> bool {
    &&& amount > 0
    &&& balance_at(a, from) matches Ok(x) && balance_at(b, from) matches Ok(y) && x.earned + x.purchased >= amount && pays(x, y, amount as int)
    &&& purses_stay(a, b, from, from)
    &&& all_stay(a, b)
    &&& events == seq![EventView::RCWSpent { from, amount, purpose }]
}

/// Spending takes the amount from what one has earned and then from what one has
/// purchased. Nobody else's balance changes, and no profile.
pub proof fn law_spend(db: Db, from: Id, amount: u64, purpose: Seq<char>)
    ensures
        spend_step(db, from, amount, purpose) matches Some((after, Ok(events))) ==> is_spent(db, after, events, from, amount, purpose),
{
    if let Some((after, Ok(events))) = spend_step(db, from, amount, purpose) {
        lemma_reads();
        assert forall|x: Id| #[trigger] participant_at(after, x) == participant_at(db, x) by {
            law_participant_reads(x);
        }
    }
}

/// Minting gives one the amount as earned. Nobody else's balance changes, and no
/// profile.
pub proof fn law_mint(db: Db, to: Id, amount: u64, reason: Seq<char>)
    ensures
        mint_step(db, to, amount, reason) matches Some((after, Ok(events))) ==> earns(db, after, to, amount as int) && purses_stay(db, after, to, to) && all_stay(db, after)
            && events == seq![EventView::RCWMinted { to, amount, reason }],
        mint_step(db, to, amount, reason) is None <==> (balance_at(db, to) matches Ok(b) && b.earned + amount > u64::MAX),
{
    if let Some((after, Ok(events))) = mint_step(db, to, amount, reason) {
        lemma_reads();
        assert forall|x: Id| #[trigger] participant_at(after, x) == participant_at(db, x) by {
            law_participant_reads(x);
        }
    }
}

/// Whoever has no record has nothing, under one's own name.
pub proof fn law_nothing_at_first(db: Db, owner: Id)
    requires
        !db.dom().contains(crate::store::balance_key(owner)),
    ensures
        balance_at(db, owner) matches Ok(b) && b.owner == owner && b.earned == 0 && b.purchased == 0 && b.spec_total() == 0,
{
    reveal(crate::store::slot);
}

// ── Anchors ──

/// The batch as it was anchored.
pub open spec fn is_anchored(a: Db, b: Db, events: Seq<EventView>, batch_id: Id, merkle_root: [u8; 32], entry_count: u64, from_entry_id: u64, to_entry_id: u64, timestamp: i64) -> bool {
    &&& anchor_at(a, batch_id) is Absent
    &&& anchor_at(b, batch_id) matches Slot::Present(r) && {
        &&& r.batch_id == batch_id && r.merkle_root == merkle_root && r.entry_count == entry_count
        &&& r.from_entry_id == from_entry_id && r.to_entry_id == to_entry_id && r.anchored_at == timestamp
    }
    &&& all_stay(a, b)
    &&& money_stays(a, b)
    &&& events == seq![EventView::AnchorRecorded { batch_id, merkle_root, entry_count }]
}

/// A batch is anchored as it was handed in, once, and only by the platform.
pub proof fn law_anchor(rules: Rules, db: Db, sender: Id, r: AnchorRecord)
    ensures
        anchor_step(rules, db, sender, r).1 matches Ok(events) ==> is_anchored(
            db,
            anchor_step(rules, db, sender, r).0,
            events,
            r.batch_id,
            r.merkle_root,
            r.entry_count,
            r.from_entry_id,
            r.to_entry_id,
            r.anchored_at,
        ),
        anchor_step(rules, db, sender, r).1 is Ok <==> rules.platform_keys.contains(sender) && anchor_at(db, r.batch_id) is Absent,
{
    let (after, how) = anchor_step(rules, db, sender, r);
    if how is Ok {
        law_other_reads(db, r.batch_id, r.batch_id, arbitrary(), r, 0);
        assert forall|x: Id| #[trigger] participant_at(after, x) == participant_at(db, x) by {
            law_participant_reads(x);
        }
        assert forall|x: Id| #[trigger] balance_at(after, x) == balance_at(db, x) by {
            law_balance_reads(x);
        }
    }
}

// ── Transactions ──

/// What there is after a payload was carried out.
pub open spec fn is_done(rules: Rules, a: Db, b: Db, events: Seq<EventView>, sender: Id, payload: PayloadView, timestamp: i64) -> bool {
    match payload {
        PayloadView::RegisterParticipant { id, p_type, metadata } => is_registered(a, b, events, id, p_type, metadata, timestamp),
        PayloadView::UpdateParticipant { id, metadata } => is_updated(a, b, events, id, metadata, timestamp),
        PayloadView::DeactivateParticipant { id } => is_deactivated(a, b, events, id),
        PayloadView::RecordSettlement { participant_id, record } => is_recorded(a, b, events, participant_id, record, timestamp, rules.rewards.settlement_recorded),
        PayloadView::RecordRating { participant_id, rating, success } => is_rated(a, b, events, participant_id, rating, success, timestamp, rules.rewards.rating_submitted),
        PayloadView::CreateEscrow { escrow_id, buyer, seller, amount, expires_at } => is_created(a, b, events, escrow_id, buyer, seller, amount, expires_at, timestamp),
        PayloadView::ReleaseEscrow { escrow_id, evidence_hash } => is_released(a, b, events, escrow_id, evidence_hash, timestamp, rules.rewards.escrow_completed),
        PayloadView::RefundEscrow { escrow_id } => is_refunded(a, b, events, escrow_id, timestamp),
        PayloadView::RaiseDispute { dispute_id, escrow_id, reason, evidence_hash } => is_raised(a, b, events, dispute_id, escrow_id, sender, reason, evidence_hash, timestamp),
        PayloadView::SubmitEvidence { dispute_id, evidence_hash } => is_supported(a, b, events, dispute_id, evidence_hash),
        PayloadView::VoteDispute { dispute_id, decision } => is_voted(
            a,
            b,
            events,
            dispute_id,
            sender,
            decision,
            timestamp,
            rules.rewards.dispute_won,
            rules.vote_threshold,
        ),
        PayloadView::TransferRCW { to, amount, memo: _ } => is_transferred(a, b, events, sender, to, amount),
        PayloadView::SpendRCW { amount, purpose } => is_spent(a, b, events, sender, amount, purpose),
        PayloadView::AnchorMerkleRoot { batch_id, merkle_root, entry_count, from_entry_id, to_entry_id } => is_anchored(
            a,
            b,
            events,
            batch_id,
            merkle_root,
            entry_count,
            from_entry_id,
            to_entry_id,
            timestamp,
        ),
    }
}

/// A payload that is carried out does what it says.
pub proof fn law_carried_out(rules: Rules, db: Db, sender: Id, payload: PayloadView, timestamp: i64)
    requires
        fits(db),
        payload_step(rules, db, sender, payload, timestamp) matches Some((after, _)) ==> fits(after),
    ensures
        payload_step(rules, db, sender, payload, timestamp) matches Some((after, Ok(events))) ==> is_done(rules, db, after, events, sender, payload, timestamp),
{
    reveal(payload_step);
    match payload {
        PayloadView::RegisterParticipant { id, p_type, metadata } => {
            law_register(db, sender, id, p_type, metadata, timestamp);
        },
        PayloadView::UpdateParticipant { id, metadata } => {
            law_update(db, sender, id, metadata, timestamp);
        },
        PayloadView::DeactivateParticipant { id } => {
            law_deactivate(db, sender, id);
        },
        PayloadView::RecordSettlement { participant_id, record } => {
            law_record(db, sender, participant_id, record, timestamp, rules.rewards.settlement_recorded);
        },
        PayloadView::RecordRating { participant_id, rating, success } => {
            law_rate(db, participant_id, rating, success, timestamp, rules.rewards.rating_submitted);
        },
        PayloadView::CreateEscrow { escrow_id, buyer, seller, amount, expires_at } => {
            law_create(db, sender, escrow_id, buyer, seller, amount, expires_at, timestamp);
        },
        PayloadView::ReleaseEscrow { escrow_id, evidence_hash } => {
            law_release(db, sender, escrow_id, evidence_hash, timestamp, rules.rewards.escrow_completed);
        },
        PayloadView::RefundEscrow { escrow_id } => {
            law_refund(db, sender, escrow_id, timestamp);
        },
        PayloadView::RaiseDispute { dispute_id, escrow_id, reason, evidence_hash } => {
            law_raise(db, dispute_id, escrow_id, sender, reason, evidence_hash, timestamp);
        },
        PayloadView::SubmitEvidence { dispute_id, evidence_hash } => {
            law_evidence(db, sender, dispute_id, evidence_hash);
        },
        PayloadView::VoteDispute { dispute_id, decision } => {
            law_vote(db, dispute_id, sender, decision, timestamp, rules.rewards.dispute_won, rules.vote_threshold);
        },
        PayloadView::TransferRCW { to, amount, memo } => {
            law_transfer(db, sender, to, amount);
        },
        PayloadView::SpendRCW { amount, purpose } => {
            law_spend(db, sender, amount, purpose);
        },
        PayloadView::AnchorMerkleRoot { batch_id, merkle_root, entry_count, from_entry_id, to_entry_id } => {
            law_anchor(rules, db, sender, AnchorRecord { batch_id, merkle_root, entry_count, from_entry_id, to_entry_id, anchored_at: timestamp });
        },
    }
}

} // verus!

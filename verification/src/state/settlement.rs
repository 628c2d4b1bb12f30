//! Settlements and ratings.

use crate::bytes::same_id;
use crate::state::participant::{no_participant, not_self};
use crate::state::step::{after_events, one, outcome, refused, sat_add, took, with_more, Step};
use crate::state::token::{mint_checked, mint_step};
use crate::store::{participant_at, put_participant, put_settlement, Db, Slot, Store};
use crate::types::state::{age_fits, can_score, compute_trust_score, event_views, trust_score};
use crate::types::{Event, EventView, Id, ParticipantView, SettlementData, SettlementRecord};
use vstd::prelude::*;

verus! {

/// A reported settlement as the chain keeps it.
pub open spec fn kept_record(participant_id: Id, data: SettlementData, timestamp: i64) -> SettlementRecord {
    SettlementRecord {
        record_id: data.record_id,
        participant_id,
        gross_amount: data.gross_amount,
        platform_fee: data.platform_fee,
        net_amount: data.net_amount,
        currency: data.currency,
        settled_at: data.settled_at,
        recorded_at: timestamp,
    }
}

/// The profile after a settlement: one more success, and its amounts.
pub open spec fn with_settlement(p: ParticipantView, data: SettlementData, timestamp: i64) -> ParticipantView {
    ParticipantView {
        total_tx: sat_add(p.total_tx, 1),
        success_tx: sat_add(p.success_tx, 1),
        total_volume: sat_add(p.total_volume, data.gross_amount),
        total_settled: sat_add(p.total_settled, data.net_amount),
        last_activity_at: timestamp,
        ..p
    }
}

/// Mint a reward, where there is one, after `first` happened.
pub open spec fn reward_step(db: Db, first: Seq<EventView>, to: Id, amount: u64, reason: Seq<char>) -> Step {
    if amount > 0 {
        after_events(first, mint_step(db, to, amount, reason))
    } else {
        Some((db, Ok(first)))
    }
}

/// Record one's own settlement.
pub open spec fn record_step(db: Db, sender: Id, participant_id: Id, data: SettlementData, timestamp: i64, reward: u64) -> Step {
    if sender != participant_id {
        refused(db, not_self())
    } else {
        match participant_at(db, participant_id) {
            Slot::Absent => refused(db, no_participant()),
            Slot::Unreadable(why) => refused(db, why),
            Slot::Present(p) => {
                let recorded = put_settlement(db, data.record_id, kept_record(participant_id, data, timestamp));
                let updated = put_participant(recorded, participant_id, with_settlement(p, data, timestamp));
                let first = seq![EventView::SettlementRecorded { participant_id, record_id: data.record_id }];
                reward_step(updated, first, participant_id, reward, "settlement_reward"@)
            },
        }
    }
}

/// A rating counts from 1 to 500.
pub open spec fn counts(rating: u16) -> bool {
    0 < rating <= 500
}

/// The profile after a rating: the rating where it counts, and a transaction that
/// failed where it did. Nothing where a count leaves its range.
pub open spec fn with_rating(p: ParticipantView, rating: u16, success: bool, timestamp: i64) -> Option<ParticipantView> {
    let sum = p.rating_sum + if counts(rating) { rating as int } else { 0 };
    let count = p.rating_count + if counts(rating) { 1int } else { 0 };
    let total = p.total_tx + if success { 0int } else { 1 };
    if sum > u64::MAX || count > u64::MAX || total > u64::MAX {
        None
    } else {
        Some(
            ParticipantView {
                rating_sum: sum as u64,
                rating_count: count as u64,
                total_tx: total as u64,
                last_activity_at: timestamp,
                ..p
            },
        )
    }
}

/// Record a rating; anyone may.
pub open spec fn rating_step(db: Db, participant_id: Id, rating: u16, success: bool, timestamp: i64, reward: u64) -> Step {
    match participant_at(db, participant_id) {
        Slot::Absent => refused(db, no_participant()),
        Slot::Unreadable(why) => refused(db, why),
        Slot::Present(p) => match with_rating(p, rating, success, timestamp) {
            None => None,
            Some(rated) => {
                if age_fits(rated) {
                    let updated = put_participant(db, participant_id, rated);
                    let first = seq![EventView::RatingRecorded { participant_id, new_score: trust_score(rated) }];
                    reward_step(updated, first, participant_id, reward, "rating_reward"@)
                } else {
                    None
                }
            },
        },
    }
}

/// Mint a reward, where there is one, after `first` happened.
pub(crate) fn reward_checked(store: &mut Store, first: Vec<Event>, to: &Id, amount: u64, reason: &str) -> (r: Option<Result<Vec<Event>, String>>)
    ensures
        took(reward_step(old(store)@, event_views(first@), *to, amount, reason@), final(store)@, r),
        final(store).saved() == old(store).saved(),
{
    if amount > 0 {
        match mint_checked(store, to, amount, reason) {
            None => None,
            Some(Err(e)) => Some(Err(e)),
            Some(Ok(more)) => Some(Ok(with_more(first, more))),
        }
    } else {
        Some(Ok(first))
    }
}

/// As `record`; nothing where the balance would leave its range.
pub fn record_checked(store: &mut Store, sender: &Id, participant_id: &Id, data: &SettlementData, timestamp: i64, reward_amount: u64) -> (r: Option<Result<Vec<Event>, String>>)
    ensures
        took(record_step(old(store)@, *sender, *participant_id, *data, timestamp, reward_amount), final(store)@, r),
        final(store).saved() == old(store).saved(),
{
    // Authorization: sender must be the participant recording their own settlement
    if !same_id(sender, participant_id) {
        return Some(Err("Unauthorized: sender must match participant id".to_string()));
    }

    let mut p = match store.get_participant(participant_id) {
        Err(e) => return Some(Err(e)),
        Ok(None) => return Some(Err("Participant not found".to_string())),
        Ok(Some(p)) => p,
    };

    // Save settlement record
    let record = SettlementRecord {
        record_id: data.record_id,
        participant_id: *participant_id,
        gross_amount: data.gross_amount,
        platform_fee: data.platform_fee,
        net_amount: data.net_amount,
        currency: data.currency,
        settled_at: data.settled_at,
        recorded_at: timestamp,
    };
    if let Err(e) = store.set_settlement(&data.record_id, &record) {
        return Some(Err(e));
    }

    // Update participant stats (saturating arithmetic to prevent overflow)
    p.total_tx = p.total_tx.saturating_add(1);
    p.success_tx = p.success_tx.saturating_add(1);
    p.total_volume = p.total_volume.saturating_add(data.gross_amount);
    p.total_settled = p.total_settled.saturating_add(data.net_amount);
    p.last_activity_at = timestamp;
    if let Err(e) = store.set_participant(participant_id, &p) {
        return Some(Err(e));
    }

    // Mint RCW reward
    let events = one(Event::SettlementRecorded { participant_id: *participant_id, record_id: data.record_id });
    reward_checked(store, events, participant_id, reward_amount, "settlement_reward")
}

pub fn record(store: &mut Store, sender: &Id, participant_id: &Id, data: &SettlementData, timestamp: i64, reward_amount: u64) -> (r: Result<Vec<Event>, String>)
    requires
        record_step(old(store)@, *sender, *participant_id, *data, timestamp, reward_amount) is Some,
    ensures
        record_step(old(store)@, *sender, *participant_id, *data, timestamp, reward_amount) == Some((final(store)@, outcome(r))),
        final(store).saved() == old(store).saved(),
{
    match record_checked(store, sender, participant_id, data, timestamp, reward_amount) {
        Some(r) => r,
        None => vstd::pervasive::unreached(),
    }
}

/// As `record_rating`; nothing where a count, the participant's age or the balance
/// would leave its range.
pub fn record_rating_checked(store: &mut Store, participant_id: &Id, rating: u16, success: bool, timestamp: i64, reward_amount: u64) -> (r: Option<Result<Vec<Event>, String>>)
    ensures
        took(rating_step(old(store)@, *participant_id, rating, success, timestamp, reward_amount), final(store)@, r),
        final(store).saved() == old(store).saved(),
{
    let mut p = match store.get_participant(participant_id) {
        Err(e) => return Some(Err(e)),
        Ok(None) => return Some(Err("Participant not found".to_string())),
        Ok(Some(p)) => p,
    };

    // Update rating
    if rating > 0 && rating <= 500 {
        p.rating_sum = match p.rating_sum.checked_add(rating as u64) {
            Some(sum) => sum,
            None => return None,
        };
        p.rating_count = match p.rating_count.checked_add(1) {
            Some(count) => count,
            None => return None,
        };
    }

    // A failure is a transaction without success
    if !success {
        p.total_tx = match p.total_tx.checked_add(1) {
            Some(total) => total,
            None => return None,
        };
    }

    p.last_activity_at = timestamp;
    if !can_score(&p) {
        return None;
    }
    if let Err(e) = store.set_participant(participant_id, &p) {
        return Some(Err(e));
    }

    let new_score: u16 = compute_trust_score(&p);
    let events = one(Event::RatingRecorded { participant_id: *participant_id, new_score });

    // Reward for submitting rating
    reward_checked(store, events, participant_id, reward_amount, "rating_reward")
}

pub fn record_rating(store: &mut Store, participant_id: &Id, rating: u16, success: bool, timestamp: i64, reward_amount: u64) -> (r: Result<Vec<Event>, String>)
    requires
        rating_step(old(store)@, *participant_id, rating, success, timestamp, reward_amount) is Some,
    ensures
        rating_step(old(store)@, *participant_id, rating, success, timestamp, reward_amount) == Some((final(store)@, outcome(r))),
        final(store).saved() == old(store).saved(),
{
    match record_rating_checked(store, participant_id, rating, success, timestamp, reward_amount) {
        Some(r) => r,
        None => vstd::pervasive::unreached(),
    }
}

} // verus!

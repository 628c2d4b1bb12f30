//! Escrows: creation, release, refund.

use crate::bytes::same_id;
use crate::state::step::{after_events, one, outcome, refused, sat_add, took, with_more, Outcome, Step};
use crate::state::token::{mint_checked, mint_step};
use crate::store::{escrow_at, participant_at, put_escrow, put_participant, Db, Slot, Store};
use crate::types::state::event_views;
use crate::types::{Escrow, EscrowState, Event, EventView, Id, ParticipantView};
use vstd::prelude::*;
use vstd::string::*;

verus! {

pub open spec fn no_escrow() -> Seq<char> {
    "Escrow not found"@
}

pub open spec fn no_buyer() -> Seq<char> {
    "Buyer not found"@
}

pub open spec fn no_seller() -> Seq<char> {
    "Seller not found"@
}

/// The name of a state.
pub open spec fn state_name(state: EscrowState) -> Seq<char> {
    match state {
        EscrowState::Created => "Created"@,
        EscrowState::Funded => "Funded"@,
        EscrowState::Released => "Released"@,
        EscrowState::Refunded => "Refunded"@,
        EscrowState::Disputed => "Disputed"@,
    }
}

/// Money that neither side has got yet and nobody quarrels over.
pub open spec fn is_open(state: EscrowState) -> bool {
    state == EscrowState::Created || state == EscrowState::Funded
}

/// Money that has gone to one side.
pub open spec fn is_settled(state: EscrowState) -> bool {
    state == EscrowState::Released || state == EscrowState::Refunded
}

/// Why a look-up that must find a record fails.
pub open spec fn missing<M>(found: Slot<M>, absent: Seq<char>) -> Seq<char> {
    match found {
        Slot::Unreadable(why) => why,
        _ => absent,
    }
}

/// Create an escrow between registered parties; only the buyer may.
pub open spec fn create_step(db: Db, sender: Id, escrow_id: Id, buyer: Id, seller: Id, amount: u64, expires_at: i64, timestamp: i64) -> (Db, Outcome) {
    if sender != buyer {
        (db, Err("Unauthorized: only buyer can create escrow"@))
    } else if escrow_at(db, escrow_id) is Present {
        (db, Err("Escrow already exists"@))
    } else if let Slot::Unreadable(why) = escrow_at(db, escrow_id) {
        (db, Err(why))
    } else if participant_at(db, buyer) !is Present {
        (db, Err(missing(participant_at(db, buyer), no_buyer())))
    } else if participant_at(db, seller) !is Present {
        (db, Err(missing(participant_at(db, seller), no_seller())))
    } else {
        let escrow = Escrow {
            id: escrow_id,
            buyer,
            seller,
            amount,
            state: EscrowState::Created,
            created_at: timestamp,
            expires_at,
            evidence_hash: None,
            dispute_id: None,
        };
        (put_escrow(db, escrow_id, escrow), Ok(seq![EventView::EscrowCreated { escrow_id, buyer, seller, amount }]))
    }
}

/// The buyer's profile after a release.
pub open spec fn bought(p: ParticipantView, timestamp: i64) -> ParticipantView {
    ParticipantView { total_tx: sat_add(p.total_tx, 1), success_tx: sat_add(p.success_tx, 1), last_activity_at: timestamp, ..p }
}

/// The seller's profile after a release.
pub open spec fn sold(p: ParticipantView, amount: u64, timestamp: i64) -> ParticipantView {
    ParticipantView { total_volume: sat_add(p.total_volume, amount), ..bought(p, timestamp) }
}

/// The seller's profile after a refund: a transaction without success.
pub open spec fn unsold(p: ParticipantView, timestamp: i64) -> ParticipantView {
    ParticipantView { total_tx: sat_add(p.total_tx, 1), last_activity_at: timestamp, ..p }
}

/// The escrow once the buyer has confirmed delivery.
pub open spec fn as_released(e: Escrow, evidence_hash: [u8; 32]) -> Escrow {
    Escrow { state: EscrowState::Released, evidence_hash: Some(evidence_hash), ..e }
}

/// The escrow once the money has gone back.
pub open spec fn as_refunded(e: Escrow) -> Escrow {
    Escrow { state: EscrowState::Refunded, ..e }
}

/// Reward both sides, where there is a reward.
pub open spec fn both_rewards_step(db: Db, first: Seq<EventView>, buyer: Id, seller: Id, reward: u64) -> Step {
    if reward == 0 {
        Some((db, Ok(first)))
    } else {
        match mint_step(db, buyer, reward, "escrow_complete"@) {
            Some((rewarded, Ok(events))) => after_events(first + events, mint_step(rewarded, seller, reward, "escrow_complete"@)),
            other => other,
        }
    }
}

/// What follows the release of an escrow: both profiles, then the rewards.
pub open spec fn released_step(db: Db, escrow_id: Id, e: Escrow, timestamp: i64, reward: u64) -> Step {
    match participant_at(db, e.buyer) {
        Slot::Present(buyer) => {
            let db1 = put_participant(db, e.buyer, bought(buyer, timestamp));
            match participant_at(db1, e.seller) {
                Slot::Present(seller) => {
                    let db2 = put_participant(db1, e.seller, sold(seller, e.amount, timestamp));
                    both_rewards_step(db2, seq![EventView::EscrowReleased { escrow_id }], e.buyer, e.seller, reward)
                },
                other => refused(db1, missing(other, no_seller())),
            }
        },
        other => refused(db, missing(other, no_buyer())),
    }
}

/// Release an escrow that is open and not expired; only the buyer may.
pub open spec fn release_step(db: Db, sender: Id, escrow_id: Id, evidence_hash: [u8; 32], timestamp: i64, reward: u64) -> Step {
    match escrow_at(db, escrow_id) {
        Slot::Present(e) => {
            if sender != e.buyer {
                refused(db, "Unauthorized: only buyer can release escrow"@)
            } else if !is_open(e.state) {
                refused(db, "Escrow cannot be released in state "@ + state_name(e.state))
            } else if timestamp > e.expires_at {
                refused(db, "Escrow has expired"@)
            } else {
                let done = as_released(e, evidence_hash);
                released_step(put_escrow(db, escrow_id, done), escrow_id, done, timestamp, reward)
            }
        },
        other => refused(db, missing(other, no_escrow())),
    }
}

/// Refund an escrow that is open: the buyer may at any time, anyone once it has
/// expired.
pub open spec fn refund_step(db: Db, sender: Id, escrow_id: Id, timestamp: i64) -> (Db, Outcome) {
    match escrow_at(db, escrow_id) {
        Slot::Present(e) => {
            if sender != e.buyer && timestamp <= e.expires_at {
                (db, Err("Unauthorized: only buyer can refund, or escrow must be expired"@))
            } else if !is_open(e.state) {
                (db, Err("Escrow cannot be refunded in state "@ + state_name(e.state)))
            } else {
                let db1 = put_escrow(db, escrow_id, as_refunded(e));
                match participant_at(db1, e.seller) {
                    Slot::Present(seller) => (
                        put_participant(db1, e.seller, unsold(seller, timestamp)),
                        Ok(seq![EventView::EscrowRefunded { escrow_id }]),
                    ),
                    other => (db1, Err(missing(other, no_seller()))),
                }
            }
        },
        other => (db, Err(missing(other, no_escrow()))),
    }
}

fn push_state_name(text: &mut String, state: EscrowState)
    ensures
        final(text)@ == old(text)@ + state_name(state),
{
    text.append(
        match state {
            EscrowState::Created => "Created",
            EscrowState::Funded => "Funded",
            EscrowState::Released => "Released",
            EscrowState::Refunded => "Refunded",
            EscrowState::Disputed => "Disputed",
        },
    );
}

pub fn create(store: &mut Store, sender: &Id, escrow_id: &Id, buyer: &Id, seller: &Id, amount: u64, expires_at: i64, timestamp: i64) -> (r: Result<Vec<Event>, String>)
    ensures
        (final(store)@, outcome(r)) == create_step(old(store)@, *sender, *escrow_id, *buyer, *seller, amount, expires_at, timestamp),
        final(store).saved() == old(store).saved(),
{
    // Authorization: only the buyer can create an escrow
    if !same_id(sender, buyer) {
        return Err("Unauthorized: only buyer can create escrow".to_string());
    }

    // Check escrow doesn't exist
    match store.get_escrow(escrow_id) {
        Err(e) => return Err(e),
        Ok(Some(_)) => return Err("Escrow already exists".to_string()),
        Ok(None) => {},
    }

    // Verify buyer and seller exist
    match store.get_participant(buyer) {
        Err(e) => return Err(e),
        Ok(None) => return Err("Buyer not found".to_string()),
        Ok(Some(_)) => {},
    }
    match store.get_participant(seller) {
        Err(e) => return Err(e),
        Ok(None) => return Err("Seller not found".to_string()),
        Ok(Some(_)) => {},
    }

    let escrow = Escrow {
        id: *escrow_id,
        buyer: *buyer,
        seller: *seller,
        amount,
        state: EscrowState::Created,
        created_at: timestamp,
        expires_at,
        evidence_hash: None,
        dispute_id: None,
    };

    if let Err(e) = store.set_escrow(escrow_id, &escrow) {
        return Err(e);
    }

    Ok(one(Event::EscrowCreated { escrow_id: *escrow_id, buyer: *buyer, seller: *seller, amount }))
}

fn reward_both(store: &mut Store, first: Vec<Event>, buyer: &Id, seller: &Id, reward_amount: u64) -> (r: Option<Result<Vec<Event>, String>>)
    ensures
        took(both_rewards_step(old(store)@, event_views(first@), *buyer, *seller, reward_amount), final(store)@, r),
        final(store).saved() == old(store).saved(),
{
    if reward_amount == 0 {
        return Some(Ok(first));
    }
    let buyer_rewards = match mint_checked(store, buyer, reward_amount, "escrow_complete") {
        None => return None,
        Some(Err(e)) => return Some(Err(e)),
        Some(Ok(v)) => v,
    };
    let seller_rewards = match mint_checked(store, seller, reward_amount, "escrow_complete") {
        None => return None,
        Some(Err(e)) => return Some(Err(e)),
        Some(Ok(v)) => v,
    };
    Some(Ok(with_more(with_more(first, buyer_rewards), seller_rewards)))
}

fn finish_release(store: &mut Store, escrow_id: &Id, escrow: &Escrow, timestamp: i64, reward_amount: u64) -> (r: Option<Result<Vec<Event>, String>>)
    ensures
        took(released_step(old(store)@, *escrow_id, *escrow, timestamp, reward_amount), final(store)@, r),
        final(store).saved() == old(store).saved(),
{
    // Update both parties' stats (saturating arithmetic)
    let mut buyer = match store.get_participant(&escrow.buyer) {
        Err(e) => return Some(Err(e)),
        Ok(None) => return Some(Err("Buyer not found".to_string())),
        Ok(Some(p)) => p,
    };
    buyer.total_tx = buyer.total_tx.saturating_add(1);
    buyer.success_tx = buyer.success_tx.saturating_add(1);
    buyer.last_activity_at = timestamp;
    if let Err(e) = store.set_participant(&escrow.buyer, &buyer) {
        return Some(Err(e));
    }

    let mut seller = match store.get_participant(&escrow.seller) {
        Err(e) => return Some(Err(e)),
        Ok(None) => return Some(Err("Seller not found".to_string())),
        Ok(Some(p)) => p,
    };
    seller.total_tx = seller.total_tx.saturating_add(1);
    seller.success_tx = seller.success_tx.saturating_add(1);
    seller.total_volume = seller.total_volume.saturating_add(escrow.amount);
    seller.last_activity_at = timestamp;
    if let Err(e) = store.set_participant(&escrow.seller, &seller) {
        return Some(Err(e));
    }

    // Reward both parties
    let events = one(Event::EscrowReleased { escrow_id: *escrow_id });
    reward_both(store, events, &escrow.buyer, &escrow.seller, reward_amount)
}

/// As `release`; nothing where a balance would leave its range.
pub fn release_checked(store: &mut Store, sender: &Id, escrow_id: &Id, evidence_hash: &[u8; 32], timestamp: i64, reward_amount: u64) -> (r: Option<Result<Vec<Event>, String>>)
    ensures
        took(release_step(old(store)@, *sender, *escrow_id, *evidence_hash, timestamp, reward_amount), final(store)@, r),
        final(store).saved() == old(store).saved(),
{
    let mut escrow = match store.get_escrow(escrow_id) {
        Err(e) => return Some(Err(e)),
        Ok(None) => return Some(Err("Escrow not found".to_string())),
        Ok(Some(e)) => e,
    };

    // Authorization: only the buyer can confirm delivery and release
    if !same_id(sender, &escrow.buyer) {
        return Some(Err("Unauthorized: only buyer can release escrow".to_string()));
    }

    if escrow.state != EscrowState::Created && escrow.state != EscrowState::Funded {
        let mut text = "Escrow cannot be released in state ".to_string();
        push_state_name(&mut text, escrow.state);
        return Some(Err(text));
    }

    // Check not expired
    if timestamp > escrow.expires_at {
        return Some(Err("Escrow has expired".to_string()));
    }

    escrow.state = EscrowState::Released;
    escrow.evidence_hash = Some(*evidence_hash);
    if let Err(e) = store.set_escrow(escrow_id, &escrow) {
        return Some(Err(e));
    }

    finish_release(store, escrow_id, &escrow, timestamp, reward_amount)
}

pub fn release(store: &mut Store, sender: &Id, escrow_id: &Id, evidence_hash: &[u8; 32], timestamp: i64, reward_amount: u64) -> (r: Result<Vec<Event>, String>)
    requires
        release_step(old(store)@, *sender, *escrow_id, *evidence_hash, timestamp, reward_amount) is Some,
    ensures
        release_step(old(store)@, *sender, *escrow_id, *evidence_hash, timestamp, reward_amount) == Some((final(store)@, outcome(r))),
        final(store).saved() == old(store).saved(),
{
    match release_checked(store, sender, escrow_id, evidence_hash, timestamp, reward_amount) {
        Some(r) => r,
        None => vstd::pervasive::unreached(),
    }
}

pub fn refund(store: &mut Store, sender: &Id, escrow_id: &Id, timestamp: i64) -> (r: Result<Vec<Event>, String>)
    ensures
        (final(store)@, outcome(r)) == refund_step(old(store)@, *sender, *escrow_id, timestamp),
        final(store).saved() == old(store).saved(),
{
    let mut escrow = match store.get_escrow(escrow_id) {
        Err(e) => return Err(e),
        Ok(None) => return Err("Escrow not found".to_string()),
        Ok(Some(e)) => e,
    };

    // Authorization: buyer can refund anytime, anyone can refund after expiry
    let is_buyer = same_id(sender, &escrow.buyer);
    let is_expired = timestamp > escrow.expires_at;
    if !is_buyer && !is_expired {
        return Err("Unauthorized: only buyer can refund, or escrow must be expired".to_string());
    }

    if escrow.state != EscrowState::Created && escrow.state != EscrowState::Funded {
        let mut text = "Escrow cannot be refunded in state ".to_string();
        push_state_name(&mut text, escrow.state);
        return Err(text);
    }

    escrow.state = EscrowState::Refunded;
    if let Err(e) = store.set_escrow(escrow_id, &escrow) {
        return Err(e);
    }

    // Update seller stats (refund implies failure)
    let mut seller = match store.get_participant(&escrow.seller) {
        Err(e) => return Err(e),
        Ok(None) => return Err("Seller not found".to_string()),
        Ok(Some(p)) => p,
    };
    seller.total_tx = seller.total_tx.saturating_add(1);
    seller.last_activity_at = timestamp;
    if let Err(e) = store.set_participant(&escrow.seller, &seller) {
        return Err(e);
    }

    Ok(one(Event::EscrowRefunded { escrow_id: *escrow_id }))
}

} // verus!

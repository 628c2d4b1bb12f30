//! Participants: registration, update, deactivation.

use crate::bytes::same_id;
use crate::state::step::{one, outcome, Outcome};
use crate::store::{participant_at, put_participant, Db, Slot, Store};
use crate::types::{Event, EventView, Id, Participant, ParticipantType, ParticipantView};
use vstd::prelude::*;

verus! {

/// Nobody acts for another participant.
pub open spec fn not_self() -> Seq<char> {
    "Unauthorized: sender must match participant id"@
}

pub open spec fn no_participant() -> Seq<char> {
    "Participant not found"@
}

/// The profile of a new participant.
pub open spec fn newcomer(id: Id, p_type: ParticipantType, metadata: Seq<char>, timestamp: i64) -> ParticipantView {
    ParticipantView {
        p_type: p_type.code(),
        registered_at: timestamp,
        last_activity_at: timestamp,
        is_active: true,
        ..ParticipantView::blank(id, metadata)
    }
}

/// Register: for oneself, and once.
pub open spec fn register_step(db: Db, sender: Id, id: Id, p_type: ParticipantType, metadata: Seq<char>, timestamp: i64) -> (Db, Outcome) {
    if sender != id {
        (db, Err(not_self()))
    } else {
        match participant_at(db, id) {
            Slot::Present(_) => (db, Err("Participant already exists"@)),
            Slot::Unreadable(why) => (db, Err(why)),
            Slot::Absent => (
                put_participant(db, id, newcomer(id, p_type, metadata, timestamp)),
                Ok(seq![EventView::ParticipantRegistered { id, p_type: p_type.code() }]),
            ),
        }
    }
}

/// Update one's own metadata.
pub open spec fn update_step(db: Db, sender: Id, id: Id, metadata: Seq<char>, timestamp: i64) -> (Db, Outcome) {
    if sender != id {
        (db, Err(not_self()))
    } else {
        match participant_at(db, id) {
            Slot::Absent => (db, Err(no_participant())),
            Slot::Unreadable(why) => (db, Err(why)),
            Slot::Present(p) => (
                put_participant(db, id, ParticipantView { metadata, last_activity_at: timestamp, ..p }),
                Ok(seq![EventView::ParticipantUpdated { id }]),
            ),
        }
    }
}

/// Deactivate oneself.
pub open spec fn deactivate_step(db: Db, sender: Id, id: Id) -> (Db, Outcome) {
    if sender != id {
        (db, Err(not_self()))
    } else {
        match participant_at(db, id) {
            Slot::Absent => (db, Err(no_participant())),
            Slot::Unreadable(why) => (db, Err(why)),
            Slot::Present(p) => (
                put_participant(db, id, ParticipantView { is_active: false, ..p }),
                Ok(seq![EventView::ParticipantDeactivated { id }]),
            ),
        }
    }
}

pub fn register(store: &mut Store, sender: &Id, id: &Id, p_type: ParticipantType, metadata: &str, timestamp: i64) -> (r: Result<Vec<Event>, String>)
    ensures
        (final(store)@, outcome(r)) == register_step(old(store)@, *sender, *id, p_type, metadata@, timestamp),
        final(store).saved() == old(store).saved(),
{
    // Authorization: sender must be the participant being registered (self-registration)
    if !same_id(sender, id) {
        return Err("Unauthorized: sender must match participant id".to_string());
    }

    // Check not already registered
    match store.get_participant(id) {
        Err(e) => return Err(e),
        Ok(Some(_)) => return Err("Participant already exists".to_string()),
        Ok(None) => {},
    }

    let participant = Participant {
        id: *id,
        p_type: p_type.code(),
        metadata: metadata.to_string(),
        total_tx: 0,
        success_tx: 0,
        dispute_count: 0,
        dispute_won: 0,
        rating_sum: 0,
        rating_count: 0,
        total_volume: 0,
        total_settled: 0,
        registered_at: timestamp,
        last_activity_at: timestamp,
        is_active: true,
    };

    if let Err(e) = store.set_participant(id, &participant) {
        return Err(e);
    }

    Ok(one(Event::ParticipantRegistered { id: *id, p_type: p_type.code() }))
}

pub fn update(store: &mut Store, sender: &Id, id: &Id, metadata: &str, timestamp: i64) -> (r: Result<Vec<Event>, String>)
    ensures
        (final(store)@, outcome(r)) == update_step(old(store)@, *sender, *id, metadata@, timestamp),
        final(store).saved() == old(store).saved(),
{
    // Authorization: only the participant can update their own data
    if !same_id(sender, id) {
        return Err("Unauthorized: sender must match participant id".to_string());
    }

    let mut p = match store.get_participant(id) {
        Err(e) => return Err(e),
        Ok(None) => return Err("Participant not found".to_string()),
        Ok(Some(p)) => p,
    };

    p.metadata = metadata.to_string();
    p.last_activity_at = timestamp;
    if let Err(e) = store.set_participant(id, &p) {
        return Err(e);
    }

    Ok(one(Event::ParticipantUpdated { id: *id }))
}

pub fn deactivate(store: &mut Store, sender: &Id, id: &Id) -> (r: Result<Vec<Event>, String>)
    ensures
        (final(store)@, outcome(r)) == deactivate_step(old(store)@, *sender, *id),
        final(store).saved() == old(store).saved(),
{
    // Authorization: only the participant can deactivate themselves
    if !same_id(sender, id) {
        return Err("Unauthorized: sender must match participant id".to_string());
    }

    let mut p = match store.get_participant(id) {
        Err(e) => return Err(e),
        Ok(None) => return Err("Participant not found".to_string()),
        Ok(Some(p)) => p,
    };

    p.is_active = false;
    if let Err(e) = store.set_participant(id, &p) {
        return Err(e);
    }

    Ok(one(Event::ParticipantDeactivated { id: *id }))
}

} // verus!

//! Disputes: raising, evidence, votes.

use crate::bytes::same_id;
use crate::state::escrow::{is_settled, missing, no_escrow};
use crate::state::settlement::{reward_checked, reward_step};
use crate::state::step::{one, outcome, refused, sat_add, sat_sub, took, with_more, Outcome, Step};
use crate::store::{dispute_at, escrow_at, participant_at, put_dispute, put_escrow, put_participant, Db, Slot, Store};
use crate::types::state::event_views;
use crate::types::{Dispute, DisputeDecision, DisputeReason, DisputeState, DisputeView, DisputeVote, Escrow, EscrowState, Event, EventView, Id, ParticipantType, ParticipantView};
use vstd::prelude::*;

verus! {

pub open spec fn no_dispute() -> Seq<char> {
    "Dispute not found"@
}

/// Only those between whom the money stands take part in a dispute.
pub open spec fn is_party(e: Escrow, id: Id) -> bool {
    id == e.buyer || id == e.seller
}

/// The other side of an escrow.
pub open spec fn other_party(e: Escrow, id: Id) -> Id {
    if id == e.buyer {
        e.seller
    } else {
        e.buyer
    }
}

/// The escrow once it is disputed.
pub open spec fn as_disputed(e: Escrow, dispute_id: Id) -> Escrow {
    Escrow { state: EscrowState::Disputed, dispute_id: Some(dispute_id), ..e }
}

/// A dispute at its start.
pub open spec fn new_dispute(dispute_id: Id, escrow_id: Id, raised_by: Id, reason: DisputeReason, evidence_hash: [u8; 32], timestamp: i64) -> DisputeView {
    DisputeView {
        id: dispute_id,
        escrow_id,
        raised_by,
        reason: reason.code(),
        evidence_hashes: seq![evidence_hash],
        votes: Seq::empty(),
        state: DisputeState::Raised,
        resolution: None,
        raised_at: timestamp,
        resolved_at: None,
    }
}

/// The profile of one against whom a dispute is raised.
pub open spec fn accused(p: ParticipantView) -> ParticipantView {
    ParticipantView { dispute_count: sat_add(p.dispute_count, 1), ..p }
}

/// Raise a dispute over an escrow that is not settled; only its parties may.
pub open spec fn raise_step(db: Db, dispute_id: Id, escrow_id: Id, raised_by: Id, reason: DisputeReason, evidence_hash: [u8; 32], timestamp: i64) -> (Db, Outcome) {
    match escrow_at(db, escrow_id) {
        Slot::Present(e) => {
            if !is_party(e, raised_by) {
                (db, Err("Unauthorized: only escrow buyer or seller can raise dispute"@))
            } else if is_settled(e.state) {
                (db, Err("Escrow already settled"@))
            } else {
                let db1 = put_escrow(db, escrow_id, as_disputed(e, dispute_id));
                let db2 = put_dispute(db1, dispute_id, new_dispute(dispute_id, escrow_id, raised_by, reason, evidence_hash, timestamp));
                let other = other_party(e, raised_by);
                let events = seq![EventView::DisputeRaised { dispute_id, escrow_id }];
                match participant_at(db2, other) {
                    Slot::Present(p) => (put_participant(db2, other, accused(p)), Ok(events)),
                    Slot::Absent => (db2, Ok(events)),
                    Slot::Unreadable(why) => (db2, Err(why)),
                }
            }
        },
        other => (db, Err(missing(other, no_escrow()))),
    }
}

/// The dispute with one more piece of evidence.
pub open spec fn with_evidence(d: DisputeView, evidence_hash: [u8; 32]) -> DisputeView {
    DisputeView { state: DisputeState::Evidence, evidence_hashes: d.evidence_hashes.push(evidence_hash), ..d }
}

/// Add evidence before the first vote; only the parties may.
pub open spec fn evidence_step(db: Db, sender: Id, dispute_id: Id, evidence_hash: [u8; 32]) -> (Db, Outcome) {
    match dispute_at(db, dispute_id) {
        Slot::Present(d) => match escrow_at(db, d.escrow_id) {
            Slot::Present(e) => {
                if !is_party(e, sender) {
                    (db, Err("Unauthorized: only escrow parties can submit evidence"@))
                } else if d.state != DisputeState::Raised && d.state != DisputeState::Evidence {
                    (db, Err("Dispute not in evidence phase"@))
                } else {
                    (put_dispute(db, dispute_id, with_evidence(d, evidence_hash)), Ok(Seq::empty()))
                }
            },
            other => (db, Err(missing(other, no_escrow()))),
        },
        other => (db, Err(missing(other, no_dispute()))),
    }
}

/// Has the voter voted?
pub open spec fn has_voted(votes: Seq<DisputeVote>, voter: Id) -> bool {
    exists|i: int| 0 <= i < votes.len() && (#[trigger] votes[i]).voter == voter
}

/// How many votes count for a side (0: the buyer, 1: the seller). A split counts
/// for both.
pub open spec fn tally(votes: Seq<DisputeVote>, side: u8) -> nat
    decreases votes.len(),
{
    if votes.len() == 0 {
        0
    } else {
        let decision = votes.last().decision;
        tally(votes.drop_last(), side) + if decision == side || decision == 2 {
            1nat
        } else {
            0
        }
    }
}

/// The side with more votes; a split where they are equal.
pub open spec fn verdict(votes: Seq<DisputeVote>) -> u8 {
    if tally(votes, 0) > tally(votes, 1) {
        0
    } else if tally(votes, 1) > tally(votes, 0) {
        1
    } else {
        2
    }
}

/// The winner's profile: one more dispute won; what the accusation had added is
/// taken back.
pub open spec fn won(p: ParticipantView, raised: bool) -> ParticipantView {
    ParticipantView {
        dispute_won: sat_add(p.dispute_won, 1),
        dispute_count: if raised {
            p.dispute_count
        } else {
            sat_sub(p.dispute_count, 1)
        },
        ..p
    }
}

/// The loser's profile: the penalty is double for one who raised the dispute.
pub open spec fn lost(p: ParticipantView, raised: bool) -> ParticipantView {
    ParticipantView {
        dispute_count: sat_add(p.dispute_count, if raised {
            2
        } else {
            1
        }),
        ..p
    }
}

pub open spec fn loser_step(db: Db, raised_by: Id, winner: Id, loser: Id, reward: u64) -> Step {
    match participant_at(db, loser) {
        Slot::Present(p) => reward_step(put_participant(db, loser, lost(p, raised_by == loser)), Seq::empty(), winner, reward, "dispute_won"@),
        Slot::Absent => reward_step(db, Seq::empty(), winner, reward, "dispute_won"@),
        Slot::Unreadable(why) => refused(db, why),
    }
}

/// What a verdict does to the profiles and the winner's balance. A split does
/// nothing.
pub open spec fn verdict_step(db: Db, raised_by: Id, e: Escrow, resolution: u8, reward: u64) -> Step {
    if resolution == 2 {
        Some((db, Ok(Seq::empty())))
    } else {
        let winner = if resolution == 0 {
            e.buyer
        } else {
            e.seller
        };
        let loser = if resolution == 0 {
            e.seller
        } else {
            e.buyer
        };
        match participant_at(db, winner) {
            Slot::Present(p) => loser_step(put_participant(db, winner, won(p, raised_by == winner)), raised_by, winner, loser, reward),
            Slot::Absent => loser_step(db, raised_by, winner, loser, reward),
            Slot::Unreadable(why) => refused(db, why),
        }
    }
}

/// The dispute with one more vote.
pub open spec fn with_vote(d: DisputeView, voter: Id, decision: DisputeDecision, timestamp: i64) -> DisputeView {
    DisputeView {
        state: DisputeState::Voting,
        votes: d.votes.push(DisputeVote { voter, decision: decision.code(), voted_at: timestamp }),
        ..d
    }
}

/// The dispute once it is decided.
pub open spec fn as_resolved(d: DisputeView, timestamp: i64) -> DisputeView {
    DisputeView { state: DisputeState::Resolved, resolution: Some(verdict(d.votes)), resolved_at: Some(timestamp), ..d }
}

/// What a vote leads to, once it is admitted.
pub open spec fn counted_step(db: Db, dispute_id: Id, voted: DisputeView, timestamp: i64, reward: u64, threshold: usize) -> Step {
    if voted.votes.len() < threshold {
        Some((put_dispute(db, dispute_id, voted), Ok(Seq::empty())))
    } else if tally(voted.votes, 0) > u32::MAX || tally(voted.votes, 1) > u32::MAX {
        None
    } else {
        match escrow_at(db, voted.escrow_id) {
            Slot::Present(e) => match verdict_step(db, voted.raised_by, e, verdict(voted.votes), reward) {
                Some((db1, Ok(events))) => Some(
                    (
                        put_dispute(db1, dispute_id, as_resolved(voted, timestamp)),
                        Ok(events.push(EventView::DisputeResolved { dispute_id, decision: verdict(voted.votes) })),
                    ),
                ),
                other => other,
            },
            other => refused(db, missing(other, no_escrow())),
        }
    }
}

/// Vote on a dispute that is not decided; only arbiters may, and once each.
pub open spec fn vote_step(db: Db, dispute_id: Id, voter: Id, decision: DisputeDecision, timestamp: i64, reward: u64, threshold: usize) -> Step {
    match dispute_at(db, dispute_id) {
        Slot::Present(d) => match participant_at(db, voter) {
            Slot::Present(p) => {
                if p.p_type != ParticipantType::Arbiter.code() {
                    refused(db, "Unauthorized: only Arbiter participants can vote on disputes"@)
                } else if d.state == DisputeState::Resolved {
                    refused(db, "Dispute not in voting phase"@)
                } else if has_voted(d.votes, voter) {
                    refused(db, "Already voted"@)
                } else {
                    counted_step(db, dispute_id, with_vote(d, voter, decision, timestamp), timestamp, reward, threshold)
                }
            },
            other => refused(db, missing(other, "Voter not registered as participant"@)),
        },
        other => refused(db, missing(other, no_dispute())),
    }
}

pub fn raise(store: &mut Store, dispute_id: &Id, escrow_id: &Id, raised_by: &Id, reason: DisputeReason, evidence_hash: &[u8; 32], timestamp: i64) -> (r: Result<Vec<Event>, String>)
    ensures
        (final(store)@, outcome(r)) == raise_step(old(store)@, *dispute_id, *escrow_id, *raised_by, reason, *evidence_hash, timestamp),
        final(store).saved() == old(store).saved(),
{
    // Verify escrow exists and is active
    let mut escrow = match store.get_escrow(escrow_id) {
        Err(e) => return Err(e),
        Ok(None) => return Err("Escrow not found".to_string()),
        Ok(Some(e)) => e,
    };

    // Authorization: only buyer or seller of the escrow can raise a dispute
    if !same_id(raised_by, &escrow.buyer) && !same_id(raised_by, &escrow.seller) {
        return Err("Unauthorized: only escrow buyer or seller can raise dispute".to_string());
    }

    if escrow.state == EscrowState::Released || escrow.state == EscrowState::Refunded {
        return Err("Escrow already settled".to_string());
    }

    // Mark escrow as disputed
    escrow.state = EscrowState::Disputed;
    escrow.dispute_id = Some(*dispute_id);
    if let Err(e) = store.set_escrow(escrow_id, &escrow) {
        return Err(e);
    }

    // Create dispute -- starts in Raised state
    let mut evidence_hashes: Vec<[u8; 32]> = Vec::new();
    evidence_hashes.push(*evidence_hash);
    let dispute = Dispute {
        id: *dispute_id,
        escrow_id: *escrow_id,
        raised_by: *raised_by,
        reason: reason.code(),
        evidence_hashes,
        votes: Vec::new(),
        state: DisputeState::Raised,
        resolution: None,
        raised_at: timestamp,
        resolved_at: None,
    };
    assert(dispute@.evidence_hashes =~= seq![*evidence_hash]);
    assert(dispute@.votes =~= Seq::<DisputeVote>::empty());
    if let Err(e) = store.set_dispute(dispute_id, &dispute) {
        return Err(e);
    }

    // Update dispute count for the other party
    let other: Id = if same_id(raised_by, &escrow.buyer) {
        escrow.seller
    } else {
        escrow.buyer
    };
    match store.get_participant(&other) {
        Err(e) => return Err(e),
        Ok(None) => {},
        Ok(Some(mut p)) => {
            p.dispute_count = p.dispute_count.saturating_add(1);
            if let Err(e) = store.set_participant(&other, &p) {
                return Err(e);
            }
        },
    }

    Ok(one(Event::DisputeRaised { dispute_id: *dispute_id, escrow_id: *escrow_id }))
}

pub fn submit_evidence(store: &mut Store, sender: &Id, dispute_id: &Id, evidence_hash: &[u8; 32]) -> (r: Result<Vec<Event>, String>)
    ensures
        (final(store)@, outcome(r)) == evidence_step(old(store)@, *sender, *dispute_id, *evidence_hash),
        final(store).saved() == old(store).saved(),
{
    let mut dispute = match store.get_dispute(dispute_id) {
        Err(e) => return Err(e),
        Ok(None) => return Err("Dispute not found".to_string()),
        Ok(Some(d)) => d,
    };

    // Authorization: only parties to the escrow can submit evidence
    let escrow = match store.get_escrow(&dispute.escrow_id) {
        Err(e) => return Err(e),
        Ok(None) => return Err("Escrow not found".to_string()),
        Ok(Some(e)) => e,
    };
    if !same_id(sender, &escrow.buyer) && !same_id(sender, &escrow.seller) {
        return Err("Unauthorized: only escrow parties can submit evidence".to_string());
    }

    if dispute.state != DisputeState::Raised && dispute.state != DisputeState::Evidence {
        return Err("Dispute not in evidence phase".to_string());
    }

    // Transition Raised -> Evidence on first evidence submission
    if dispute.state == DisputeState::Raised {
        dispute.state = DisputeState::Evidence;
    }

    dispute.evidence_hashes.push(*evidence_hash);
    if let Err(e) = store.set_dispute(dispute_id, &dispute) {
        return Err(e);
    }

    let none: Vec<Event> = Vec::new();
    assert(event_views(none@) =~= Seq::<EventView>::empty());
    Ok(none)
}

fn voted_before(votes: &Vec<DisputeVote>, voter: &Id) -> (r: bool)
    ensures
        r == has_voted(votes@, *voter),
{
    let n: usize = votes.len();
    let mut i: usize = 0;
    while i < n
        invariant
            n == votes@.len(),
            i <= n,
            forall|j: int| 0 <= j < i ==> (#[trigger] votes@[j]).voter != *voter,
        decreases n - i,
    {
        if same_id(&votes[i].voter, voter) {
            assert(votes@[i as int].voter == *voter);
            return true;
        }
        i += 1;
    }
    false
}

/// The votes for the buyer and for the seller.
fn count_votes(votes: &Vec<DisputeVote>) -> (r: (usize, usize))
    ensures
        r.0 == tally(votes@, 0),
        r.1 == tally(votes@, 1),
{
    let n: usize = votes.len();
    let mut buyer: usize = 0;
    let mut seller: usize = 0;
    let mut i: usize = 0;
    while i < n
        invariant
            n == votes@.len(),
            i <= n,
            buyer <= i,
            seller <= i,
            buyer == tally(votes@.take(i as int), 0),
            seller == tally(votes@.take(i as int), 1),
        decreases n - i,
    {
        proof {
            let t = votes@.take(i + 1);
            assert(t.drop_last() =~= votes@.take(i as int));
            assert(t.last() == votes@[i as int]);
        }
        match votes[i].decision {
            0 => {
                buyer += 1;
            },
            1 => {
                seller += 1;
            },
            2 => {
                // Split: counts for both sides
                buyer += 1;
                seller += 1;
            },
            _ => {},
        }
        i += 1;
    }
    assert(votes@.take(n as int) =~= votes@);
    (buyer, seller)
}

fn apply_verdict(store: &mut Store, raised_by: &Id, escrow: &Escrow, resolution: u8, dispute_won_reward: u64) -> (r: Option<Result<Vec<Event>, String>>)
    ensures
        took(verdict_step(old(store)@, *raised_by, *escrow, resolution, dispute_won_reward), final(store)@, r),
        final(store).saved() == old(store).saved(),
{
    let none: Vec<Event> = Vec::new();
    assert(event_views(none@) =~= Seq::<EventView>::empty());
    if resolution == 2 {
        return Some(Ok(none));
    }
    let winner: Id = if resolution == 0 {
        escrow.buyer
    } else {
        escrow.seller
    };
    let loser: Id = if resolution == 0 {
        escrow.seller
    } else {
        escrow.buyer
    };

    match store.get_participant(&winner) {
        Err(e) => return Some(Err(e)),
        Ok(None) => {},
        Ok(Some(mut p)) => {
            p.dispute_won = p.dispute_won.saturating_add(1);
            if !same_id(raised_by, &winner) {
                p.dispute_count = p.dispute_count.saturating_sub(1);
            }
            if let Err(e) = store.set_participant(&winner, &p) {
                return Some(Err(e));
            }
        },
    }

    punish(store, raised_by, &winner, &loser, dispute_won_reward)
}

fn punish(store: &mut Store, raised_by: &Id, winner: &Id, loser: &Id, dispute_won_reward: u64) -> (r: Option<Result<Vec<Event>, String>>)
    ensures
        took(loser_step(old(store)@, *raised_by, *winner, *loser, dispute_won_reward), final(store)@, r),
        final(store).saved() == old(store).saved(),
{
    match store.get_participant(loser) {
        Err(e) => return Some(Err(e)),
        Ok(None) => {},
        Ok(Some(mut p)) => {
            let penalty: u64 = if same_id(raised_by, loser) {
                2
            } else {
                1
            };
            p.dispute_count = p.dispute_count.saturating_add(penalty);
            if let Err(e) = store.set_participant(loser, &p) {
                return Some(Err(e));
            }
        },
    }

    let none: Vec<Event> = Vec::new();
    assert(event_views(none@) =~= Seq::<EventView>::empty());
    reward_checked(store, none, winner, dispute_won_reward, "dispute_won")
}

fn count_vote(store: &mut Store, dispute_id: &Id, dispute: Dispute, timestamp: i64, dispute_won_reward: u64, vote_threshold: usize) -> (r: Option<Result<Vec<Event>, String>>)
    ensures
        took(counted_step(old(store)@, *dispute_id, dispute@, timestamp, dispute_won_reward, vote_threshold), final(store)@, r),
        final(store).saved() == old(store).saved(),
{
    let mut dispute = dispute;
    let none: Vec<Event> = Vec::new();
    assert(event_views(none@) =~= Seq::<EventView>::empty());

    // Check if enough votes to resolve
    if dispute.votes.len() < vote_threshold {
        if let Err(e) = store.set_dispute(dispute_id, &dispute) {
            return Some(Err(e));
        }
        return Some(Ok(none));
    }

    // Tally votes
    let (favor_buyer, favor_seller) = count_votes(&dispute.votes);
    if favor_buyer as u64 > u32::MAX as u64 || favor_seller as u64 > u32::MAX as u64 {
        return None;
    }

    let resolution: u8 = if favor_buyer > favor_seller {
        0
    } else if favor_seller > favor_buyer {
        1
    } else {
        2
    };

    // Update winner's dispute_won count and reward
    let escrow = match store.get_escrow(&dispute.escrow_id) {
        Err(e) => return Some(Err(e)),
        Ok(None) => return Some(Err("Escrow not found".to_string())),
        Ok(Some(e)) => e,
    };
    let events = match apply_verdict(store, &dispute.raised_by, &escrow, resolution, dispute_won_reward) {
        None => return None,
        Some(Err(e)) => return Some(Err(e)),
        Some(Ok(v)) => v,
    };

    dispute.state = DisputeState::Resolved;
    dispute.resolution = Some(resolution);
    dispute.resolved_at = Some(timestamp);
    if let Err(e) = store.set_dispute(dispute_id, &dispute) {
        return Some(Err(e));
    }

    let ghost seen = event_views(events@);
    let all = with_more(events, one(Event::DisputeResolved { dispute_id: *dispute_id, decision: resolution }));
    assert(event_views(all@) =~= seen.push(EventView::DisputeResolved { dispute_id: *dispute_id, decision: resolution }));
    Some(Ok(all))
}

/// As `vote`; nothing where a tally or a balance would leave its range.
pub fn vote_checked(store: &mut Store, dispute_id: &Id, voter: &Id, decision: DisputeDecision, timestamp: i64, dispute_won_reward: u64, vote_threshold: usize) -> (r: Option<Result<Vec<Event>, String>>)
    ensures
        took(vote_step(old(store)@, *dispute_id, *voter, decision, timestamp, dispute_won_reward, vote_threshold), final(store)@, r),
        final(store).saved() == old(store).saved(),
{
    let mut dispute = match store.get_dispute(dispute_id) {
        Err(e) => return Some(Err(e)),
        Ok(None) => return Some(Err("Dispute not found".to_string())),
        Ok(Some(d)) => d,
    };

    // Authorization: voter must be a registered Arbiter
    let voter_participant = match store.get_participant(voter) {
        Err(e) => return Some(Err(e)),
        Ok(None) => return Some(Err("Voter not registered as participant".to_string())),
        Ok(Some(p)) => p,
    };
    if voter_participant.p_type != ParticipantType::Arbiter.code() {
        return Some(Err("Unauthorized: only Arbiter participants can vote on disputes".to_string()));
    }

    // Move to voting phase if still in evidence or raised
    if dispute.state == DisputeState::Raised || dispute.state == DisputeState::Evidence {
        dispute.state = DisputeState::Voting;
    }

    if dispute.state != DisputeState::Voting {
        return Some(Err("Dispute not in voting phase".to_string()));
    }

    // Check voter hasn't already voted
    if voted_before(&dispute.votes, voter) {
        return Some(Err("Already voted".to_string()));
    }

    dispute.votes.push(DisputeVote { voter: *voter, decision: decision.code(), voted_at: timestamp });

    count_vote(store, dispute_id, dispute, timestamp, dispute_won_reward, vote_threshold)
}

pub fn vote(store: &mut Store, dispute_id: &Id, voter: &Id, decision: DisputeDecision, timestamp: i64, dispute_won_reward: u64, vote_threshold: usize) -> (r: Result<Vec<Event>, String>)
    requires
        vote_step(old(store)@, *dispute_id, *voter, decision, timestamp, dispute_won_reward, vote_threshold) is Some,
    ensures
        vote_step(old(store)@, *dispute_id, *voter, decision, timestamp, dispute_won_reward, vote_threshold) == Some((final(store)@, outcome(r))),
        final(store).saved() == old(store).saved(),
{
    match vote_checked(store, dispute_id, voter, decision, timestamp, dispute_won_reward, vote_threshold) {
        Some(r) => r,
        None => vstd::pervasive::unreached(),
    }
}

} // verus!

//! What a transition of the state is.

use crate::store::Db;
use crate::types::state::event_views;
use crate::types::{Event, EventView};
use vstd::prelude::*;

verus! {

/// How a transition ends: with events, or with the reason why it was refused.
pub type Outcome = Result<Seq<EventView>, Seq<char>>;

/// What a transition leads to: the records afterwards, and how it ended. Nothing,
/// where a number leaves its range.
pub type Step = Option<(Db, Outcome)>;

/// What a result stands for.
pub open spec fn outcome(r: Result<Vec<Event>, String>) -> Outcome {
    match r {
        Ok(events) => Ok(event_views(events@)),
        Err(e) => Err(e@),
    }
}

/// Did a run that was to take `step` end with `db` and `r`?
pub open spec fn took(step: Step, db: Db, r: Option<Result<Vec<Event>, String>>) -> bool {
    match step {
        Some((after, how)) => r is Some && db == after && outcome(r->0) == how,
        None => r is None,
    }
}

/// The step that is refused for `reason`, with the records as they are.
pub open spec fn refused(db: Db, reason: Seq<char>) -> Step {
    Some((db, Err(reason)))
}

/// The step, with events before its own.
pub open spec fn after_events(first: Seq<EventView>, step: Step) -> Step {
    match step {
        Some((db, Ok(events))) => Some((db, Ok(first + events))),
        other => other,
    }
}

/// The larger count, which stays at the top of its range.
pub open spec fn sat_add(a: u64, b: u64) -> u64 {
    if a + b > u64::MAX {
        u64::MAX
    } else {
        (a + b) as u64
    }
}

/// The smaller count, which stays at zero.
pub open spec fn sat_sub(a: u64, b: u64) -> u64 {
    if a < b {
        0
    } else {
        (a - b) as u64
    }
}

/// A list of one event.
pub fn one(event: Event) -> (r: Vec<Event>)
    ensures
        event_views(r@) == seq![event@],
{
    let mut events: Vec<Event> = Vec::new();
    events.push(event);
    assert(event_views(events@) =~= seq![event@]);
    events
}

/// Events followed by more.
pub fn with_more(first: Vec<Event>, more: Vec<Event>) -> (r: Vec<Event>)
    ensures
        event_views(r@) == event_views(first@) + event_views(more@),
{
    let mut events = first;
    let mut more = more;
    let ghost (a, b) = (events@, more@);
    events.append(&mut more);
    assert(event_views(events@) =~= event_views(a) + event_views(b));
    events
}

} // verus!

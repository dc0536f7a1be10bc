//! Events: timestamped units of work the scheduler processes exactly once.

use vstd::prelude::*;
use crate::person::Policeman;

verus! {

/// What a pending event will do when it is popped.  `SendPatrol` and
/// `FinishedPatrol` carry the id of the report or patrol they concern;
/// `Snapshot` carries an index into the configured snapshot list and
/// whether that snapshot ends the run.
#[derive(Debug, Copy, Clone, PartialEq, Eq, Structural)]
pub enum EventAction {
    PolicemanEmployment,
    PolicemanResignation,
    Report,
    SendPatrol(usize),
    FinishedPatrol(usize),
    Snapshot(usize, bool),
    PolicemanLastNameChange,
}

/// A pending event: a time in seconds and the action to take then.
/// Events are ordered by time alone; among equal times the queue keeps
/// first-in first-out order by an internal insertion number.
#[derive(Debug, Copy, Clone, PartialEq, Eq, Structural)]
pub struct Event {
    pub time: i64,
    pub action: EventAction,
}

impl Event {
    /// The resignation event a freshly employed policeman gives rise to,
    /// fixed at the resignation date chosen when he was created.
    pub fn from_policeman_resignation_event(policeman: &Policeman) -> (e: Event)
        ensures
            e.time == policeman.resignment_date,
            e.action == EventAction::PolicemanResignation,
    {
        Event { time: policeman.resignment_date, action: EventAction::PolicemanResignation }
    }
}

} // verus!

//! A discrete-event simulation of police staffing and patrol dispatch.
//!
//! The engine keeps a time-ordered queue of pending events and a mutable
//! world of policemen, vehicles, reports and patrols.  Each step pops the
//! earliest event, applies the matching state transition and schedules the
//! follow-up events it gives rise to, until a terminal snapshot halts the
//! run.  The contracts state the transition rules exactly; the well-formed
//! state carries the exclusivity and conservation invariants of the world.

pub mod dates;
pub mod event;
pub mod export;
pub mod patrol;
pub mod person;
pub mod place;
pub mod queue;
pub mod report;
pub mod rng;
pub mod sim;
pub mod string_occurrences;
pub mod text;
pub mod vehicle;

//! The scheduler: the central loop's state and its single-step transition.
//!
//! A simulation owns the registries of policemen, vehicles, reports and
//! patrols, the immutable place list, the frequency tables and the event
//! queue.  `step` pops the earliest event, applies its transition and
//! schedules the follow-up events; the well-formedness predicate carries
//! the run's invariants: ids are positions, event times never precede the
//! clock, patrols reference only existing entities, and no policeman or
//! vehicle belongs to two patrols that are both still open.

use vstd::prelude::*;
use vstd::set::Set;
use crate::dates::{MAX_EVENT_TIME, SECONDS_PER_DAY};
use crate::event::{Event, EventAction};
use crate::patrol::Patrol;
use crate::person::{Person, Policeman, PolicemanState, EMPLOYMENT_DATE_FLOOR};
use crate::place::{places_wf, Place};
use crate::queue::{entry_le, EventQueue};
use crate::report::Report;
use crate::string_occurrences::StringOccurrences;
use crate::vehicle::{Vehicle, VehicleState, EXPECTED_REGISTRATION_PLATE_LENGTH};

verus! {

broadcast use vstd::multiset::group_multiset_axioms;

/// The longest delay any single event handler ever adds to the clock, in
/// seconds: far below the margin `MAX_EVENT_TIME` leaves to `i64::MAX`.
pub const MAX_DELAY_SECONDS: u64 = 631_152_000;

/// Days between a resignation and the replacing employment.
pub const REPLACEMENT_DELAY_DAYS: i64 = 7;

/// How many policemen a patrol takes.
pub const TARGET_POLICEMEN_COUNT: usize = 2;

/// One configured snapshot: its name tag, whether it ends the run, and
/// when it fires.
#[derive(Debug, Clone)]
pub struct SnapshotSpec {
    pub name: String,
    pub terminal: bool,
    pub time: i64,
}

/// The named constants a run is configured with.
#[derive(Debug, Clone)]
pub struct SimConfig {
    pub start_time: i64,
    pub policemen_count: usize,
    pub vehicles_count: usize,
    pub two_patrols_numerator: u64,
    pub two_patrols_denominator: u64,
    pub min_seconds_between_reports: u64,
    pub max_seconds_between_reports: u64,
    pub min_report_to_sending_seconds: u64,
    pub max_report_to_sending_seconds: u64,
    pub last_name_change_events_count: u64,
    pub snapshots: Vec<SnapshotSpec>,
}

impl SimConfig {
    /// What a usable configuration looks like.  The bounds on times and
    /// delays are what keeps every schedule within `i64` arithmetic.
    pub open spec fn valid(self) -> bool {
        &&& EMPLOYMENT_DATE_FLOOR <= self.start_time <= MAX_EVENT_TIME
        &&& self.policemen_count >= 1
        &&& self.two_patrols_denominator > 0
        &&& 0 < self.min_seconds_between_reports
        &&& self.min_seconds_between_reports < self.max_seconds_between_reports
        &&& self.max_seconds_between_reports <= MAX_DELAY_SECONDS
        &&& 0 < self.min_report_to_sending_seconds
        &&& self.min_report_to_sending_seconds < self.max_report_to_sending_seconds
        &&& self.max_report_to_sending_seconds <= MAX_DELAY_SECONDS
        &&& self.last_name_change_events_count <= 10_000
        &&& forall|i: int|
            0 <= i < self.snapshots@.len() ==> self.start_time <= #[trigger] self.snapshots@[i].time
                <= MAX_EVENT_TIME
        &&& (self.last_name_change_events_count > 0 ==> self.snapshots@.len() >= 1)
    }
}

/// Check a configuration, so unverified callers can test validity before
/// starting a run.
pub fn config_valid(c: &SimConfig) -> (b: bool)
    ensures
        b == c.valid(),
{
    let ok = EMPLOYMENT_DATE_FLOOR <= c.start_time && c.start_time <= MAX_EVENT_TIME
        && c.policemen_count >= 1 && c.two_patrols_denominator > 0 && 0
        < c.min_seconds_between_reports && c.min_seconds_between_reports
        < c.max_seconds_between_reports && c.max_seconds_between_reports <= MAX_DELAY_SECONDS && 0
        < c.min_report_to_sending_seconds && c.min_report_to_sending_seconds
        < c.max_report_to_sending_seconds && c.max_report_to_sending_seconds <= MAX_DELAY_SECONDS
        && c.last_name_change_events_count <= 10_000 && (c.last_name_change_events_count == 0
        || c.snapshots.len() >= 1);
    let mut i: usize = 0;
    while i < c.snapshots.len()
        invariant
            i <= c.snapshots@.len(),
            forall|j: int|
                0 <= j < i ==> c.start_time <= #[trigger] c.snapshots@[j].time <= MAX_EVENT_TIME,
        decreases c.snapshots@.len() - i,
    {
        if !(c.start_time <= c.snapshots[i].time && c.snapshots[i].time <= MAX_EVENT_TIME) {
            return false;
        }
        i += 1;
    }
    ok
}

/// The frequency tables a run draws attributes from.
#[derive(Debug, Clone)]
pub struct Tables {
    pub first_names: StringOccurrences,
    pub last_names: StringOccurrences,
    pub ranks: StringOccurrences,
    pub vehicle_models: StringOccurrences,
    pub registration_plate_codes: StringOccurrences,
    pub report_types: StringOccurrences,
}

impl Tables {
    /// Every table carries weight, and plate area codes leave room inside
    /// a registration plate.
    pub open spec fn usable(self) -> bool {
        &&& self.first_names.wf() && self.first_names.total_occurrences > 0
        &&& self.last_names.wf() && self.last_names.total_occurrences > 0
        &&& self.ranks.wf() && self.ranks.total_occurrences > 0
        &&& self.vehicle_models.wf() && self.vehicle_models.total_occurrences > 0
        &&& self.registration_plate_codes.wf() && self.registration_plate_codes.total_occurrences
            > 0
        &&& self.registration_plate_codes.entries_at_most(
            EXPECTED_REGISTRATION_PLATE_LENGTH - 1,
        )
        &&& self.report_types.wf() && self.report_types.total_occurrences > 0
    }
}

/// Check that every entry of a table fits within `n` characters, so
/// unverified callers can test plate codes before starting a run.
pub fn entries_fit(t: &StringOccurrences, n: usize) -> (b: bool)
    ensures
        b == t.entries_at_most(n as int),
{
    let mut i: usize = 0;
    while i < t.entries.len()
        invariant
            i <= t.entries@.len(),
            forall|j: int| 0 <= j < i ==> #[trigger] t.entries@[j].entry@.len() <= n,
        decreases t.entries@.len() - i,
    {
        if t.entries[i].entry.as_str().unicode_len() > n {
            return false;
        }
        i += 1;
    }
    true
}

/// What one processed event did.
#[derive(Debug, Copy, Clone, PartialEq, Eq, Structural)]
pub enum StepEvent {
    /// A new policeman joined; his resignation event is now pending.
    PolicemanEmployed { policeman_id: usize },
    /// A resignation fired: nobody's state moves, a replacing employment
    /// is scheduled seven days on.
    EmploymentScheduled { employment_time: i64 },
    /// A report was filed; `patrols_required` dispatches are pending at
    /// `dispatch_time`, and the next report is scheduled.
    ReportFiled { report_id: usize, patrols_required: usize, dispatch_time: i64 },
    /// A dispatch succeeded: a patrol was formed and its finish is pending.
    PatrolDispatched { patrol_id: usize, report_id: usize },
    /// A dispatch found too few free policemen or no free vehicle and was
    /// rescheduled unchanged.
    DispatchRetried { report_id: usize, retry_time: i64 },
    /// A patrol came back; its crew went to Available or Resigned by the
    /// resignation date, its vehicle to Available.
    PatrolFinished { patrol_id: usize },
    /// A snapshot point was reached; the caller should export now.  A
    /// terminal snapshot halts the run.
    SnapshotReached { snapshot: usize, terminal: bool },
    /// One policeman, whatever his state, got a fresh surname.
    SurnameChanged { policeman_id: usize },
}

/// What a single step did.
#[derive(Debug, Copy, Clone, PartialEq, Eq, Structural)]
pub enum StepResult {
    Processed(StepEvent),
    /// Nothing pending: the run ends normally.
    QueueEmpty,
    /// A terminal snapshot was already processed; nothing is applied.
    Halted,
    /// The earliest pending event lies beyond `MAX_EVENT_TIME`; it is
    /// refused and dropped rather than risking wraparound.
    TimeOverflow,
}

/// The whole world of one run.
pub struct Simulation {
    pub config: SimConfig,
    pub tables: Tables,
    pub places: Vec<Place>,
    pub policemen: Vec<Policeman>,
    pub vehicles: Vec<Vehicle>,
    pub reports: Vec<Report>,
    pub patrols: Vec<Patrol>,
    pub events: EventQueue,
    pub now: i64,
    pub halted: bool,
    pub employments_processed: u64,
    /// The ids of patrols whose finish event is still pending.
    pub open_patrols: Ghost<Set<int>>,
}


/// `a` is the finish event of patrol `pid`.
pub open spec fn is_finish(a: EventAction, pid: usize) -> bool {
    a == EventAction::FinishedPatrol(pid)
}

/// `y` is `x` with at most the state changed.
pub open spec fn same_policeman_but_state(x: Policeman, y: Policeman) -> bool {
    y == (Policeman { state: y.state, ..x })
}

/// `y` is `x` with at most the state changed.
pub open spec fn same_vehicle_but_state(x: Vehicle, y: Vehicle) -> bool {
    y == (Vehicle { state: y.state, ..x })
}

/// `y` is `x` with at most the surname changed.
pub open spec fn same_policeman_but_surname(x: Policeman, y: Policeman) -> bool {
    y == (Policeman { person: Person { last_name: y.person.last_name, ..x.person }, ..x })
}

/// The indices of the currently Available policemen, in increasing order.
fn available_policemen_indices(v: &Vec<Policeman>) -> (r: Vec<usize>)
    ensures
        r@.len() == Simulation::count_available_policemen(v@),
        forall|k: int|
            0 <= k < r@.len() ==> (#[trigger] r@[k] as int) < v@.len() && v@[r@[k] as int].state
                == PolicemanState::Available,
        forall|k: int, l: int| 0 <= k < l < r@.len() ==> r@[k] < r@[l],
{
    let mut r: Vec<usize> = Vec::new();
    let mut i: usize = 0;
    proof {
        assert(v@.take(0) =~= Seq::<Policeman>::empty());
    }
    while i < v.len()
        invariant
            i <= v@.len(),
            r@.len() == Simulation::count_available_policemen(v@.take(i as int)),
            forall|k: int|
                0 <= k < r@.len() ==> (#[trigger] r@[k] as int) < i && v@[r@[k] as int].state
                    == PolicemanState::Available,
            forall|k: int, l: int| 0 <= k < l < r@.len() ==> r@[k] < r@[l],
        decreases v@.len() - i,
    {
        proof {
            assert(v@.take(i + 1).drop_last() =~= v@.take(i as int));
        }
        if matches!(v[i].state, PolicemanState::Available) {
            r.push(i);
        }
        i += 1;
    }
    proof {
        assert(v@.take(v@.len() as int) =~= v@);
    }
    r
}

/// The indices of the currently Available vehicles, in increasing order.
fn available_vehicle_indices(v: &Vec<Vehicle>) -> (r: Vec<usize>)
    ensures
        r@.len() == Simulation::count_available_vehicles(v@),
        forall|k: int|
            0 <= k < r@.len() ==> (#[trigger] r@[k] as int) < v@.len() && v@[r@[k] as int].state
                == VehicleState::Available,
        forall|k: int, l: int| 0 <= k < l < r@.len() ==> r@[k] < r@[l],
{
    let mut r: Vec<usize> = Vec::new();
    let mut i: usize = 0;
    proof {
        assert(v@.take(0) =~= Seq::<Vehicle>::empty());
    }
    while i < v.len()
        invariant
            i <= v@.len(),
            r@.len() == Simulation::count_available_vehicles(v@.take(i as int)),
            forall|k: int|
                0 <= k < r@.len() ==> (#[trigger] r@[k] as int) < i && v@[r@[k] as int].state
                    == VehicleState::Available,
            forall|k: int, l: int| 0 <= k < l < r@.len() ==> r@[k] < r@[l],
        decreases v@.len() - i,
    {
        proof {
            assert(v@.take(i + 1).drop_last() =~= v@.take(i as int));
        }
        if matches!(v[i].state, VehicleState::Available) {
            r.push(i);
        }
        i += 1;
    }
    proof {
        assert(v@.take(v@.len() as int) =~= v@);
    }
    r
}

/// The registries and counters are untouched.
pub open spec fn registries_unchanged(a: Simulation, b: Simulation) -> bool {
    &&& b.policemen == a.policemen
    &&& b.vehicles == a.vehicles
    &&& b.reports == a.reports
    &&& b.patrols == a.patrols
    &&& b.employments_processed == a.employments_processed
    &&& b.open_patrols@ == a.open_patrols@
}

/// The queue action a step report answers for: each report kind names the
/// kind of event that was popped, with its id where it carries one.
pub open spec fn reported_action(ev: StepEvent) -> EventAction {
    match ev {
        StepEvent::PolicemanEmployed { .. } => EventAction::PolicemanEmployment,
        StepEvent::EmploymentScheduled { .. } => EventAction::PolicemanResignation,
        StepEvent::ReportFiled { .. } => EventAction::Report,
        StepEvent::PatrolDispatched { patrol_id: _, report_id } => EventAction::SendPatrol(
            report_id,
        ),
        StepEvent::DispatchRetried { report_id, retry_time: _ } => EventAction::SendPatrol(
            report_id,
        ),
        StepEvent::PatrolFinished { patrol_id } => EventAction::FinishedPatrol(patrol_id),
        StepEvent::SnapshotReached { snapshot, terminal } => EventAction::Snapshot(
            snapshot,
            terminal,
        ),
        StepEvent::SurnameChanged { .. } => EventAction::PolicemanLastNameChange,
    }
}

/// Whether processing an action adds to the clock: only these kinds are
/// refused beyond the representable horizon.
pub open spec fn schedules_ahead(a: EventAction) -> bool {
    match a {
        EventAction::PolicemanEmployment => true,
        EventAction::PolicemanResignation => true,
        EventAction::Report => true,
        EventAction::SendPatrol(_) => true,
        _ => false,
    }
}

/// `e` is the earliest pending key of `a`: pending exactly once and at or
/// before everything else pending.
pub open spec fn popped_earliest(a: Simulation, e: (i64, u64)) -> bool {
    &&& a.events.pending().count(e) == 1
    &&& forall|f: (i64, u64)| (#[trigger] a.events.pending().count(f)) > 0 ==> entry_le(e, f)
}

/// What processing one event means: the exact relation between the world
/// before the step (`a`), the world after it (`b`), the step's report and
/// the popped key `e`.  The key is the earliest pending one, `b.now` is
/// its time, its stored action is the kind the report names, and each arm
/// fixes the final pending multiset: the old one minus the popped key plus
/// exactly the keys the arm schedules.
pub open spec fn step_spec(a: Simulation, b: Simulation, ev: StepEvent, e: (i64, u64)) -> bool {
    &&& popped_earliest(a, e)
    &&& b.now == e.0
    &&& a.events.action_of(e.1) == reported_action(ev)
    &&& match ev {
        StepEvent::PolicemanEmployed { policeman_id } => {
            let p = b.policemen@.last();
            &&& policeman_id == a.policemen@.len()
            &&& b.policemen@ == a.policemen@.push(p)
            &&& p.person.id == policeman_id
            &&& p.state == PolicemanState::Available
            &&& p.employment_date == b.now
            &&& b.now + (crate::person::MIN_EMPLOYMENT_DURATION as int) * (
            SECONDS_PER_DAY as int) <= p.resignment_date < b.now + (
            crate::person::MAX_EMPLOYMENT_DURATION as int) * (SECONDS_PER_DAY as int)
            &&& b.vehicles == a.vehicles
            &&& b.reports == a.reports
            &&& b.patrols == a.patrols
            &&& b.open_patrols@ == a.open_patrols@
            &&& b.employments_processed == a.employments_processed + 1
            &&& b.halted == a.halted
            &&& b.events.scheduled(p.resignment_date, EventAction::PolicemanResignation)
            &&& b.events.actions@ == a.events.actions@.push(EventAction::PolicemanResignation)
            &&& b.events.pending() == a.events.pending().remove(e).insert(
                (p.resignment_date, a.events.actions@.len() as u64),
            )
        },
        StepEvent::EmploymentScheduled { employment_time } => {
            &&& registries_unchanged(a, b)
            &&& b.halted == a.halted
            &&& employment_time == b.now + REPLACEMENT_DELAY_DAYS * SECONDS_PER_DAY
            &&& b.events.scheduled(employment_time, EventAction::PolicemanEmployment)
            &&& b.events.actions@ == a.events.actions@.push(EventAction::PolicemanEmployment)
            &&& b.events.pending() == a.events.pending().remove(e).insert(
                (employment_time, a.events.actions@.len() as u64),
            )
        },
        StepEvent::ReportFiled { report_id, patrols_required, dispatch_time } => {
            let rep = b.reports@.last();
            &&& report_id == a.reports@.len()
            &&& b.reports@ == a.reports@.push(rep)
            &&& rep.id == report_id
            &&& rep.time == b.now
            &&& (rep.place_id as int) < b.places@.len()
            &&& b.policemen == a.policemen
            &&& b.vehicles == a.vehicles
            &&& b.patrols == a.patrols
            &&& b.open_patrols@ == a.open_patrols@
            &&& b.employments_processed == a.employments_processed
            &&& b.halted == a.halted
            &&& 1 <= patrols_required <= 2
            &&& (a.config.two_patrols_numerator == 0 ==> patrols_required == 1)
            &&& (a.config.two_patrols_numerator >= a.config.two_patrols_denominator
                ==> patrols_required == 2)
            &&& b.now + a.config.min_report_to_sending_seconds <= dispatch_time < b.now
                + a.config.max_report_to_sending_seconds
            &&& b.events.scheduled(dispatch_time, EventAction::SendPatrol(report_id))
            &&& exists|t2: i64|
                b.now + a.config.min_seconds_between_reports <= t2 < b.now
                    + a.config.max_seconds_between_reports && #[trigger] b.events.scheduled(
                    t2,
                    EventAction::Report,
                ) && (patrols_required == 1 ==> b.events.actions@ == a.events.actions@.push(
                    EventAction::SendPatrol(report_id),
                ).push(EventAction::Report) && b.events.pending() == a.events.pending().remove(
                    e,
                ).insert((dispatch_time, a.events.actions@.len() as u64)).insert(
                    (t2, (a.events.actions@.len() + 1) as u64),
                )) && (patrols_required == 2 ==> b.events.actions@ == a.events.actions@.push(
                    EventAction::SendPatrol(report_id),
                ).push(EventAction::SendPatrol(report_id)).push(EventAction::Report)
                    && b.events.pending() == a.events.pending().remove(e).insert(
                    (dispatch_time, a.events.actions@.len() as u64),
                ).insert((dispatch_time, (a.events.actions@.len() + 1) as u64)).insert(
                    (t2, (a.events.actions@.len() + 2) as u64),
                ))
        },
        StepEvent::PatrolDispatched { patrol_id, report_id } => {
            let p = b.patrols@.last();
            let m0 = p.policemen_ids@[0] as int;
            let m1 = p.policemen_ids@[1] as int;
            &&& patrol_id == a.patrols@.len()
            &&& Simulation::count_available_policemen(a.policemen@) >= 2
            &&& Simulation::count_available_vehicles(a.vehicles@) >= 1
            &&& b.patrols@ == a.patrols@.push(p)
            &&& p.id == patrol_id
            &&& p.report_id == report_id
            &&& (report_id as int) < a.reports@.len()
            &&& p.sending_time == b.now
            &&& b.now + crate::patrol::MIN_SENDING_TO_ARRIVAL_SECONDS <= p.arrival_time < b.now
                + crate::patrol::MAX_SENDING_TO_ARRIVAL_SECONDS
            &&& p.arrival_time + crate::patrol::MIN_ARRIVAL_TO_FINISH_SECONDS <= p.finish_time
                < p.arrival_time + crate::patrol::MAX_ARRIVAL_TO_FINISH_SECONDS
            &&& p.policemen_ids@.len() == 2
            &&& m0 != m1
            &&& 0 <= m0 < a.policemen@.len()
            &&& 0 <= m1 < a.policemen@.len()
            &&& a.policemen@[m0].state == PolicemanState::Available
            &&& a.policemen@[m1].state == PolicemanState::Available
            &&& b.policemen@.len() == a.policemen@.len()
            &&& b.policemen@[m0].state == PolicemanState::Occupied
            &&& b.policemen@[m1].state == PolicemanState::Occupied
            &&& same_policeman_but_state(a.policemen@[m0], b.policemen@[m0])
            &&& same_policeman_but_state(a.policemen@[m1], b.policemen@[m1])
            &&& forall|j: int|
                0 <= j < b.policemen@.len() && j != m0 && j != m1 ==> b.policemen@[j]
                    == a.policemen@[j]
            &&& 0 <= (p.vehicle_id as int) < a.vehicles@.len()
            &&& a.vehicles@[p.vehicle_id as int].state == VehicleState::Available
            &&& b.vehicles@.len() == a.vehicles@.len()
            &&& b.vehicles@[p.vehicle_id as int].state == VehicleState::Occupied
            &&& same_vehicle_but_state(
                a.vehicles@[p.vehicle_id as int],
                b.vehicles@[p.vehicle_id as int],
            )
            &&& forall|j: int|
                0 <= j < b.vehicles@.len() && j != p.vehicle_id as int ==> b.vehicles@[j]
                    == a.vehicles@[j]
            &&& b.reports == a.reports
            &&& b.employments_processed == a.employments_processed
            &&& b.halted == a.halted
            &&& b.open_patrols@ == a.open_patrols@.insert(patrol_id as int)
            &&& b.events.scheduled(p.finish_time, EventAction::FinishedPatrol(patrol_id))
            &&& b.events.actions@ == a.events.actions@.push(
                EventAction::FinishedPatrol(patrol_id),
            )
            &&& b.events.pending() == a.events.pending().remove(e).insert(
                (p.finish_time, a.events.actions@.len() as u64),
            )
        },
        StepEvent::DispatchRetried { report_id, retry_time } => {
            &&& !(Simulation::count_available_policemen(a.policemen@) >= 2
                && Simulation::count_available_vehicles(a.vehicles@) >= 1)
            &&& registries_unchanged(a, b)
            &&& b.halted == a.halted
            &&& (report_id as int) < a.reports@.len()
            &&& b.now + a.config.min_report_to_sending_seconds <= retry_time < b.now
                + a.config.max_report_to_sending_seconds
            &&& b.events.scheduled(retry_time, EventAction::SendPatrol(report_id))
            &&& b.events.actions@ == a.events.actions@.push(EventAction::SendPatrol(report_id))
            &&& b.events.pending() == a.events.pending().remove(e).insert(
                (retry_time, a.events.actions@.len() as u64),
            )
        },
        StepEvent::PatrolFinished { patrol_id } => {
            let p = a.patrols@[patrol_id as int];
            let m0 = p.policemen_ids@[0] as int;
            let m1 = p.policemen_ids@[1] as int;
            &&& (patrol_id as int) < a.patrols@.len()
            &&& b.patrols == a.patrols
            &&& b.reports == a.reports
            &&& b.employments_processed == a.employments_processed
            &&& b.halted == a.halted
            &&& b.now == p.finish_time
            &&& b.policemen@.len() == a.policemen@.len()
            &&& b.policemen@[m0].state == (if b.now < a.policemen@[m0].resignment_date {
                PolicemanState::Available
            } else {
                PolicemanState::Resigned
            })
            &&& b.policemen@[m1].state == (if b.now < a.policemen@[m1].resignment_date {
                PolicemanState::Available
            } else {
                PolicemanState::Resigned
            })
            &&& same_policeman_but_state(a.policemen@[m0], b.policemen@[m0])
            &&& same_policeman_but_state(a.policemen@[m1], b.policemen@[m1])
            &&& forall|j: int|
                0 <= j < b.policemen@.len() && j != m0 && j != m1 ==> b.policemen@[j]
                    == a.policemen@[j]
            &&& b.vehicles@.len() == a.vehicles@.len()
            &&& b.vehicles@[p.vehicle_id as int].state == VehicleState::Available
            &&& same_vehicle_but_state(
                a.vehicles@[p.vehicle_id as int],
                b.vehicles@[p.vehicle_id as int],
            )
            &&& forall|j: int|
                0 <= j < b.vehicles@.len() && j != p.vehicle_id as int ==> b.vehicles@[j]
                    == a.vehicles@[j]
            &&& b.open_patrols@ == a.open_patrols@.remove(patrol_id as int)
            &&& b.events.actions@ == a.events.actions@
            &&& b.events.pending() == a.events.pending().remove(e)
        },
        StepEvent::SnapshotReached { snapshot, terminal } => {
            &&& registries_unchanged(a, b)
            &&& (snapshot as int) < a.config.snapshots@.len()
            &&& b.halted == terminal
            &&& b.events.actions@ == a.events.actions@
            &&& b.events.pending() == a.events.pending().remove(e)
        },
        StepEvent::SurnameChanged { policeman_id } => {
            &&& (policeman_id as int) < a.policemen@.len()
            &&& b.policemen@.len() == a.policemen@.len()
            &&& same_policeman_but_surname(
                a.policemen@[policeman_id as int],
                b.policemen@[policeman_id as int],
            )
            &&& a.tables.last_names.has_entry(
                b.policemen@[policeman_id as int].person.last_name@,
            )
            &&& forall|j: int|
                0 <= j < b.policemen@.len() && j != policeman_id as int ==> b.policemen@[j]
                    == a.policemen@[j]
            &&& b.vehicles == a.vehicles
            &&& b.reports == a.reports
            &&& b.patrols == a.patrols
            &&& b.open_patrols@ == a.open_patrols@
            &&& b.employments_processed == a.employments_processed
            &&& b.halted == a.halted
            &&& b.events.actions@ == a.events.actions@
            &&& b.events.pending() == a.events.pending().remove(e)
        },
    }
}

/// Total order: a well-formed run never holds a pending event before its
/// clock, so with each step's guarantee that the clock never goes back,
/// the times a run processes are non-decreasing.
pub proof fn lemma_clock_monotonic(s: Simulation, e: (i64, u64))
    requires
        s.wf(),
        s.events.pending().count(e) > 0,
    ensures
        e.0 >= s.now,
{
}

/// Exclusivity: two distinct patrols whose `[sending_time, finish_time)`
/// intervals are both still open share no policeman and use different
/// vehicles.
pub proof fn lemma_patrol_exclusivity(s: Simulation, j: int, k: int)
    requires
        s.wf(),
        0 <= j < s.patrols@.len(),
        0 <= k < s.patrols@.len(),
        j != k,
        s.patrols@[j].finish_time > s.now,
        s.patrols@[k].finish_time > s.now,
    ensures
        s.patrols_disjoint(j, k),
{
    assert(s.open_patrols@.contains(j));
    assert(s.open_patrols@.contains(k));
}

/// Conservation: the policemen ever created are the initial cohort plus
/// the employment events processed, and no id is ever reused.
pub proof fn lemma_conservation(s: Simulation)
    requires
        s.wf(),
    ensures
        s.policemen@.len() == s.config.policemen_count + s.employments_processed,
        forall|i: int, j: int|
            0 <= i < j < s.policemen@.len() ==> s.policemen@[i].person.id
                != s.policemen@[j].person.id,
{
    assert forall|i: int, j: int|
        0 <= i < j < s.policemen@.len() implies s.policemen@[i].person.id
        != s.policemen@[j].person.id by {
        assert(s.policemen@[i].person.id == i && s.policemen@[j].person.id == j);
    }
}

/// Resignation fidelity: processing a resignation event replaces nothing
/// in the registry — in particular, a policeman past his resignation date
/// who is still Available stays Available; only a finished patrol can
/// resign him.
pub proof fn lemma_resignation_moves_nobody(a: Simulation, b: Simulation, t: i64, e: (i64, u64))
    requires
        step_spec(a, b, StepEvent::EmploymentScheduled { employment_time: t }, e),
    ensures
        b.policemen == a.policemen,
        b.vehicles == a.vehicles,
{
}

/// Retry happens only for want of resources: a dispatch is rescheduled
/// exactly when fewer than two policemen or no vehicle are Available, so
/// once enough resources are free a pending dispatch succeeds.
pub proof fn lemma_retry_only_when_starved(
    a: Simulation,
    b: Simulation,
    rid: usize,
    t: i64,
    e: (i64, u64),
)
    requires
        step_spec(a, b, StepEvent::DispatchRetried { report_id: rid, retry_time: t }, e),
    ensures
        Simulation::count_available_policemen(a.policemen@) < 2
            || Simulation::count_available_vehicles(a.vehicles@) < 1,
{
}

/// The only actions the bootstrap seeds, with any snapshot index within
/// the configured list.
spec fn bootstrap_action_ok(a: EventAction, snaps: int) -> bool {
    match a {
        EventAction::PolicemanResignation => true,
        EventAction::Snapshot(k, _terminal) => (k as int) < snaps,
        EventAction::PolicemanLastNameChange => true,
        EventAction::Report => true,
        _ => false,
    }
}

impl Simulation {
    /// Ids equal positions in every registry, so an id is never reused.
    pub open spec fn ids_ok(self) -> bool {
        &&& forall|i: int|
            0 <= i < self.policemen@.len() ==> #[trigger] self.policemen@[i].person.id == i
        &&& forall|i: int| 0 <= i < self.vehicles@.len() ==> #[trigger] self.vehicles@[i].id == i
        &&& forall|i: int| 0 <= i < self.reports@.len() ==> #[trigger] self.reports@[i].id == i
        &&& forall|i: int| 0 <= i < self.patrols@.len() ==> #[trigger] self.patrols@[i].id == i
    }

    /// A patrol references two distinct existing policemen, an existing
    /// vehicle and an existing report, with ordered times.
    pub open spec fn patrol_ok(self, j: int) -> bool {
        let p = self.patrols@[j];
        &&& p.policemen_ids@.len() == 2
        &&& p.policemen_ids@[0] != p.policemen_ids@[1]
        &&& (p.policemen_ids@[0] as int) < self.policemen@.len()
        &&& (p.policemen_ids@[1] as int) < self.policemen@.len()
        &&& (p.vehicle_id as int) < self.vehicles@.len()
        &&& (p.report_id as int) < self.reports@.len()
        &&& p.sending_time <= p.arrival_time <= p.finish_time
    }

    pub open spec fn patrols_ok(self) -> bool {
        forall|j: int| 0 <= j < self.patrols@.len() ==> #[trigger] self.patrol_ok(j)
    }

    /// Two patrols share no policeman and use different vehicles.
    pub open spec fn patrols_disjoint(self, j: int, k: int) -> bool {
        let p = self.patrols@[j];
        let q = self.patrols@[k];
        &&& p.policemen_ids@[0] != q.policemen_ids@[0]
        &&& p.policemen_ids@[0] != q.policemen_ids@[1]
        &&& p.policemen_ids@[1] != q.policemen_ids@[0]
        &&& p.policemen_ids@[1] != q.policemen_ids@[1]
        &&& p.vehicle_id != q.vehicle_id
    }

    /// The exclusivity invariant over the open patrols: their crews are
    /// marked Occupied, a closed patrol lies wholly in the past, and two
    /// open patrols never share a policeman or a vehicle.
    pub open spec fn open_ok(self) -> bool {
        &&& forall|j: int| #[trigger] self.open_patrols@.contains(j) ==> 0 <= j < self.patrols@.len()
        &&& forall|j: int| #[trigger] self.open_patrols@.contains(j)
            ==> self.policemen@[self.patrols@[j].policemen_ids@[0] as int].state
                == PolicemanState::Occupied
                && self.policemen@[self.patrols@[j].policemen_ids@[1] as int].state
                == PolicemanState::Occupied
                && self.vehicles@[self.patrols@[j].vehicle_id as int].state
                == VehicleState::Occupied
        &&& forall|j: int, k: int|
            #[trigger] self.open_patrols@.contains(j) && #[trigger] self.open_patrols@.contains(k)
                && j != k ==> self.patrols_disjoint(j, k)
        &&& forall|j: int|
            0 <= j < self.patrols@.len() && !(#[trigger] self.open_patrols@.contains(j))
                ==> self.patrols@[j].finish_time <= self.now
    }

    /// What a pending event may refer to.
    pub open spec fn action_ok(self, e: (i64, u64)) -> bool {
        match self.events.action_of(e.1) {
            EventAction::SendPatrol(rid) => (rid as int) < self.reports@.len(),
            EventAction::FinishedPatrol(pid) => {
                &&& self.open_patrols@.contains(pid as int)
                &&& (pid as int) < self.patrols@.len()
                &&& e.0 == self.patrols@[pid as int].finish_time
            },
            EventAction::Snapshot(k, _terminal) => (k as int) < self.config.snapshots@.len(),
            _ => true,
        }
    }

    /// Each open patrol has exactly one pending finish event.
    pub open spec fn finished_unique(self) -> bool {
        forall|e: (i64, u64), f: (i64, u64), pid: usize|
            #![trigger is_finish(self.events.action_of(e.1), pid), is_finish(self.events.action_of(f.1), pid)]
            self.events.pending().count(e) > 0 && self.events.pending().count(f) > 0 && is_finish(
                self.events.action_of(e.1),
                pid,
            ) && is_finish(self.events.action_of(f.1), pid) ==> e == f
    }

    /// Every open patrol still has its finish event pending.
    pub open spec fn open_scheduled(self) -> bool {
        forall|j: int| #[trigger] self.open_patrols@.contains(j)
            ==> self.events.scheduled_action(EventAction::FinishedPatrol(j as usize))
    }

    /// The pending queue is well formed, never behind the clock, and
    /// refers only to existing entities.
    pub open spec fn queue_ok(self) -> bool {
        &&& self.events.wf()
        &&& self.events.at_or_after(self.now)
        &&& forall|e: (i64, u64)|
            self.events.pending().count(e) > 0 ==> #[trigger] self.action_ok(e)
    }

    /// Conservation: the headcount is the initial cohort plus the
    /// employment events processed so far.
    pub open spec fn conservation_ok(self) -> bool {
        self.policemen@.len() == self.config.policemen_count + self.employments_processed
    }

    /// The run's whole invariant.
    pub open spec fn wf(self) -> bool {
        &&& self.config.valid()
        &&& self.tables.usable()
        &&& self.places@.len() >= 1
        &&& places_wf(self.places@)
        &&& self.config.start_time <= self.now
        &&& self.ids_ok()
        &&& self.patrols_ok()
        &&& self.open_ok()
        &&& self.queue_ok()
        &&& self.finished_unique()
        &&& self.open_scheduled()
        &&& self.conservation_ok()
    }

    /// How many policemen are currently Available.
    pub open spec fn count_available_policemen(s: Seq<Policeman>) -> int
        decreases s.len(),
    {
        if s.len() == 0 {
            0
        } else {
            Self::count_available_policemen(s.drop_last()) + if s.last().state
                == PolicemanState::Available {
                1int
            } else {
                0int
            }
        }
    }

    /// How many vehicles are currently Available.
    pub open spec fn count_available_vehicles(s: Seq<Vehicle>) -> int
        decreases s.len(),
    {
        if s.len() == 0 {
            0
        } else {
            Self::count_available_vehicles(s.drop_last()) + if s.last().state
                == VehicleState::Available {
                1int
            } else {
                0int
            }
        }
    }

    /// Seed a run as of the configured start time: the initial cohort of
    /// policemen and vehicles all just employed, one resignation event per
    /// policeman at his fixed resignation date, the configured snapshots,
    /// the configured surname changes spread from the first snapshot on,
    /// and one initial report event at the start time.
    pub fn new(
        config: SimConfig,
        tables: Tables,
        places: Vec<Place>,
        generator: &mut rand::rngs::StdRng,
    ) -> (s: Simulation)
        requires
            config.valid(),
            tables.usable(),
            places@.len() >= 1,
            places_wf(places@),
        ensures
            s.wf(),
            s.config == config,
            s.tables == tables,
            s.places == places,
            s.now == config.start_time,
            s.policemen@.len() == config.policemen_count,
            forall|j: int|
                0 <= j < s.policemen@.len() ==> (#[trigger] s.policemen@[j]).state
                    == PolicemanState::Available && s.policemen@[j].employment_date
                    == config.start_time,
            s.vehicles@.len() == config.vehicles_count,
            forall|j: int|
                0 <= j < s.vehicles@.len() ==> (#[trigger] s.vehicles@[j]).state
                    == VehicleState::Available,
            s.reports@.len() == 0,
            s.patrols@.len() == 0,
            !s.halted,
            s.employments_processed == 0,
            s.open_patrols@ == Set::<int>::empty(),
            s.events.scheduled(config.start_time, EventAction::Report),
            forall|j: int|
                0 <= j < s.policemen@.len() ==> s.events.scheduled(
                    (#[trigger] s.policemen@[j]).resignment_date,
                    EventAction::PolicemanResignation,
                ),
            forall|k: int|
                0 <= k < config.snapshots@.len() ==> s.events.scheduled(
                    (#[trigger] config.snapshots@[k]).time,
                    EventAction::Snapshot(k as usize, config.snapshots@[k].terminal),
                ),
            forall|n: u64|
                n < config.last_name_change_events_count ==> #[trigger] s.events.scheduled(
                    ((config.snapshots@[0].time as int) + (n as int) * (
                    SECONDS_PER_DAY as int)) as i64,
                    EventAction::PolicemanLastNameChange,
                ),
    {
        let ghost snaps = config.snapshots@.len() as int;
        let mut policemen: Vec<Policeman> = Vec::new();
        let mut events = EventQueue::new();
        let mut i: usize = 0;
        while i < config.policemen_count
            invariant
                config.valid(),
                tables.usable(),
                i == policemen@.len(),
                i <= config.policemen_count,
                snaps == config.snapshots@.len() as int,
                forall|j: int|
                    0 <= j < i ==> (#[trigger] policemen@[j]).person.id == j && policemen@[j].state
                        == PolicemanState::Available && policemen@[j].employment_date
                        == config.start_time,
                events.wf(),
                events.at_or_after(config.start_time),
                forall|e: (i64, u64)|
                    events.pending().count(e) > 0 ==> bootstrap_action_ok(
                        #[trigger] events.action_of(e.1),
                        snaps,
                    ),
                forall|j: int|
                    0 <= j < i ==> #[trigger] events.scheduled(
                        policemen@[j].resignment_date,
                        EventAction::PolicemanResignation,
                    ),
            decreases config.policemen_count - i,
        {
            let p = Policeman::generate_just_employed_with_id(
                generator,
                &tables.first_names,
                &tables.last_names,
                &tables.ranks,
                config.start_time,
                i,
            );
            let ev = Event::from_policeman_resignation_event(&p);
            let ghost pre = events;
            events.push(ev);
            policemen.push(p);
            proof {
                let key = (ev.time, pre.actions@.len() as u64);
                assert forall|e: (i64, u64)| events.pending().count(e) > 0 implies
                    bootstrap_action_ok(#[trigger] events.action_of(e.1), snaps) by {
                    if e != key {
                        assert(pre.pending().count(e) > 0);
                    }
                }
                assert forall|j: int| 0 <= j < i + 1 implies #[trigger] events.scheduled(
                    policemen@[j].resignment_date,
                    EventAction::PolicemanResignation,
                ) by {
                    if j < i {
                        assert(pre.scheduled(
                            policemen@[j].resignment_date,
                            EventAction::PolicemanResignation,
                        ));
                    }
                }
            }
            i += 1;
        }
        let mut vehicles: Vec<Vehicle> = Vec::new();
        let mut v: usize = 0;
        while v < config.vehicles_count
            invariant
                config.valid(),
                tables.usable(),
                v == vehicles@.len(),
                v <= config.vehicles_count,
                forall|j: int|
                    0 <= j < v ==> (#[trigger] vehicles@[j]).id == j && vehicles@[j].state
                        == VehicleState::Available,
            decreases config.vehicles_count - v,
        {
            let veh = Vehicle::generate_with_id(
                generator,
                &tables.vehicle_models,
                &tables.registration_plate_codes,
                v,
            );
            vehicles.push(veh);
            v += 1;
        }
        let mut k: usize = 0;
        while k < config.snapshots.len()
            invariant
                config.valid(),
                k <= config.snapshots@.len(),
                snaps == config.snapshots@.len() as int,
                policemen@.len() == config.policemen_count,
                events.wf(),
                events.at_or_after(config.start_time),
                forall|e: (i64, u64)|
                    events.pending().count(e) > 0 ==> bootstrap_action_ok(
                        #[trigger] events.action_of(e.1),
                        snaps,
                    ),
                forall|j: int|
                    0 <= j < policemen@.len() ==> #[trigger] events.scheduled(
                        policemen@[j].resignment_date,
                        EventAction::PolicemanResignation,
                    ),
                forall|m: int|
                    0 <= m < k ==> #[trigger] events.scheduled(
                        config.snapshots@[m].time,
                        EventAction::Snapshot(m as usize, config.snapshots@[m].terminal),
                    ),
            decreases config.snapshots@.len() - k,
        {
            let ev = Event {
                time: config.snapshots[k].time,
                action: EventAction::Snapshot(k, config.snapshots[k].terminal),
            };
            let ghost pre = events;
            events.push(ev);
            proof {
                let key = (ev.time, pre.actions@.len() as u64);
                assert forall|e: (i64, u64)| events.pending().count(e) > 0 implies
                    bootstrap_action_ok(#[trigger] events.action_of(e.1), snaps) by {
                    if e != key {
                        assert(pre.pending().count(e) > 0);
                    }
                }
                assert forall|j: int| 0 <= j < policemen@.len() implies
                    #[trigger] events.scheduled(
                    policemen@[j].resignment_date,
                    EventAction::PolicemanResignation,
                ) by {
                    assert(pre.scheduled(
                        policemen@[j].resignment_date,
                        EventAction::PolicemanResignation,
                    ));
                }
                assert forall|m: int| 0 <= m < k + 1 implies #[trigger] events.scheduled(
                    config.snapshots@[m].time,
                    EventAction::Snapshot(m as usize, config.snapshots@[m].terminal),
                ) by {
                    if m < k {
                        assert(pre.scheduled(
                            config.snapshots@[m].time,
                            EventAction::Snapshot(m as usize, config.snapshots@[m].terminal),
                        ));
                    }
                }
            }
            k += 1;
        }
        if config.last_name_change_events_count > 0 {
            let base = config.snapshots[0].time;
            let mut n: u64 = 0;
            while n < config.last_name_change_events_count
                invariant
                    config.valid(),
                    n <= config.last_name_change_events_count,
                    base == config.snapshots@[0].time,
                    snaps == config.snapshots@.len() as int,
                    config.snapshots@.len() >= 1,
                    policemen@.len() == config.policemen_count,
                    events.wf(),
                    events.at_or_after(config.start_time),
                    forall|e: (i64, u64)|
                        events.pending().count(e) > 0 ==> bootstrap_action_ok(
                            #[trigger] events.action_of(e.1),
                            snaps,
                        ),
                    forall|j: int|
                        0 <= j < policemen@.len() ==> #[trigger] events.scheduled(
                            policemen@[j].resignment_date,
                            EventAction::PolicemanResignation,
                        ),
                    forall|m: int|
                        0 <= m < config.snapshots@.len() ==> #[trigger] events.scheduled(
                            config.snapshots@[m].time,
                            EventAction::Snapshot(m as usize, config.snapshots@[m].terminal),
                        ),
                    forall|m: u64|
                        m < n ==> #[trigger] events.scheduled(
                            ((base as int) + (m as int) * (SECONDS_PER_DAY as int)) as i64,
                            EventAction::PolicemanLastNameChange,
                        ),
                decreases config.last_name_change_events_count - n,
            {
                let t = base + (n as i64) * SECONDS_PER_DAY;
                let ev = Event { time: t, action: EventAction::PolicemanLastNameChange };
                let ghost pre = events;
                events.push(ev);
                proof {
                    let key = (ev.time, pre.actions@.len() as u64);
                    assert(t as int == (base as int) + (n as int) * (SECONDS_PER_DAY as int));
                    assert forall|e: (i64, u64)| events.pending().count(e) > 0 implies
                        bootstrap_action_ok(#[trigger] events.action_of(e.1), snaps) by {
                        if e != key {
                            assert(pre.pending().count(e) > 0);
                        }
                    }
                    assert forall|j: int| 0 <= j < policemen@.len() implies
                        #[trigger] events.scheduled(
                        policemen@[j].resignment_date,
                        EventAction::PolicemanResignation,
                    ) by {
                        assert(pre.scheduled(
                            policemen@[j].resignment_date,
                            EventAction::PolicemanResignation,
                        ));
                    }
                    assert forall|m: int| 0 <= m < config.snapshots@.len() implies
                        #[trigger] events.scheduled(
                        config.snapshots@[m].time,
                        EventAction::Snapshot(m as usize, config.snapshots@[m].terminal),
                    ) by {
                        assert(pre.scheduled(
                            config.snapshots@[m].time,
                            EventAction::Snapshot(m as usize, config.snapshots@[m].terminal),
                        ));
                    }
                    assert forall|m: u64| m < n + 1 implies #[trigger] events.scheduled(
                        ((base as int) + (m as int) * (SECONDS_PER_DAY as int)) as i64,
                        EventAction::PolicemanLastNameChange,
                    ) by {
                        if m < n {
                            assert(pre.scheduled(
                                ((base as int) + (m as int) * (SECONDS_PER_DAY as int)) as i64,
                                EventAction::PolicemanLastNameChange,
                            ));
                        } else {
                            assert(events.scheduled(t, EventAction::PolicemanLastNameChange));
                        }
                    }
                }
                n += 1;
            }
        }
        let first_report = Event { time: config.start_time, action: EventAction::Report };
        let ghost pre = events;
        events.push(first_report);
        proof {
            let key = (first_report.time, pre.actions@.len() as u64);
            assert forall|e: (i64, u64)| events.pending().count(e) > 0 implies
                bootstrap_action_ok(#[trigger] events.action_of(e.1), snaps) by {
                if e != key {
                    assert(pre.pending().count(e) > 0);
                }
            }
            assert forall|j: int| 0 <= j < policemen@.len() implies #[trigger] events.scheduled(
                policemen@[j].resignment_date,
                EventAction::PolicemanResignation,
            ) by {
                assert(pre.scheduled(
                    policemen@[j].resignment_date,
                    EventAction::PolicemanResignation,
                ));
            }
            assert forall|m: int| 0 <= m < config.snapshots@.len() implies
                #[trigger] events.scheduled(
                config.snapshots@[m].time,
                EventAction::Snapshot(m as usize, config.snapshots@[m].terminal),
            ) by {
                assert(pre.scheduled(
                    config.snapshots@[m].time,
                    EventAction::Snapshot(m as usize, config.snapshots@[m].terminal),
                ));
            }
            assert forall|m: u64| m < config.last_name_change_events_count implies
                #[trigger] events.scheduled(
                ((config.snapshots@[0].time as int) + (m as int) * (
                SECONDS_PER_DAY as int)) as i64,
                EventAction::PolicemanLastNameChange,
            ) by {
                assert(pre.scheduled(
                    ((config.snapshots@[0].time as int) + (m as int) * (
                    SECONDS_PER_DAY as int)) as i64,
                    EventAction::PolicemanLastNameChange,
                ));
            }
        }
        let s = Simulation {
            config,
            tables,
            places,
            policemen,
            vehicles,
            reports: Vec::new(),
            patrols: Vec::new(),
            events,
            now: 0,
            halted: false,
            employments_processed: 0,
            open_patrols: Ghost(Set::empty()),
        };
        let mut s = s;
        s.now = s.config.start_time;
        proof {
            assert forall|e: (i64, u64)| s.events.pending().count(e) > 0 implies
                #[trigger] s.action_ok(e) by {
                assert(bootstrap_action_ok(s.events.action_of(e.1), snaps));
            }
            assert forall|e: (i64, u64), f: (i64, u64), pid: usize|
                s.events.pending().count(e) > 0 && s.events.pending().count(f) > 0 && is_finish(
                    s.events.action_of(e.1),
                    pid,
                ) && is_finish(s.events.action_of(f.1), pid) implies e == f by {
                assert(bootstrap_action_ok(s.events.action_of(e.1), snaps));
            }
            assert(s.wf());
        }
        s
    }

    /// Process the earliest pending event: pop it, advance the clock to
    /// its time, apply its transition and schedule what follows from it.
    /// Returns what happened; after a terminal snapshot every further call
    /// reports `Halted` and applies nothing.
    #[verifier::rlimit(60)]
    pub fn step(&mut self, generator: &mut rand::rngs::StdRng) -> (r: StepResult)
        requires
            old(self).wf(),
        ensures
            final(self).wf(),
            final(self).config == old(self).config,
            final(self).tables == old(self).tables,
            final(self).places == old(self).places,
            final(self).now >= old(self).now,
            match r {
                StepResult::Processed(ev) => !old(self).halted && exists|e: (i64, u64)|
                    #[trigger] step_spec(*old(self), *final(self), ev, e),
                StepResult::Halted => old(self).halted && *final(self) == *old(self),
                StepResult::QueueEmpty => {
                    &&& !old(self).halted
                    &&& old(self).events.pending().len() == 0
                    &&& *final(self) == *old(self)
                },
                StepResult::TimeOverflow => {
                    &&& !old(self).halted
                    &&& registries_unchanged(*old(self), *final(self))
                    &&& final(self).halted == old(self).halted
                    &&& final(self).now == old(self).now
                    &&& final(self).events.actions@ == old(self).events.actions@
                    &&& exists|e: (i64, u64)|
                        #[trigger] popped_earliest(*old(self), e) && e.0 > MAX_EVENT_TIME
                            && schedules_ahead(old(self).events.action_of(e.1))
                            && final(self).events.pending() == old(self).events.pending().remove(
                            e,
                        )
                },
            },
    {
        let ghost pre = *old(self);
        if self.halted {
            return StepResult::Halted;
        }
        let popped = self.events.pop_earliest();
        match popped {
            None => StepResult::QueueEmpty,
            Some((ev, key_g)) => {
                let ghost key = key_g@;
                let actions_watermark = self.events.actions.len();
                let patrols_watermark = self.patrols.len();
                proof {
                    assert(pre.events.pending().count(key) == 1);
                    assert(key.0 >= pre.now);
                    assert(pre.events.actions@.len() == actions_watermark as int);
                    assert(pre.patrols@.len() == patrols_watermark as int);
                    assert forall|e: (i64, u64)| self.events.pending().count(e) > 0 implies
                        pre.events.pending().count(e) > 0 && e != key && #[trigger] pre.action_ok(
                            e,
                        ) by {
                        assert(pre.events.pending().count(e) >= self.events.pending().count(e));
                        if e == key {
                            assert(self.events.pending().count(key) == pre.events.pending().count(
                                key,
                            ) - 1);
                        }
                    }
                    assert forall|e: (i64, u64)|
                        pre.events.pending().count(e) > 0 && e != key implies
                        #[trigger] self.events.pending().count(e) > 0 by {
                        assert(self.events.pending().count(e) == pre.events.pending().count(e));
                    }
                    assert(pre.action_ok(key));
                    assert forall|e: (i64, u64)|
                        pre.events.pending().count(e) > 0 && e != key implies e.0 >= key.0 by {
                        assert(crate::queue::entry_le(key, e));
                    }
                    assert forall|f: (i64, u64)|
                        (#[trigger] pre.events.pending().count(f)) > 0 implies entry_le(
                            key,
                            f,
                        ) by {}
                    assert(popped_earliest(pre, key));
                }
                let needs_arithmetic = matches!(
                    ev.action,
                    EventAction::PolicemanEmployment | EventAction::PolicemanResignation
                        | EventAction::Report | EventAction::SendPatrol(_),
                );
                if needs_arithmetic && ev.time > MAX_EVENT_TIME {
                    proof {
                        self.prove_wf_frame(pre, key);
                        assert(schedules_ahead(pre.events.action_of(key.1)));
                        assert(self.events.pending() == pre.events.pending().remove(key));
                    }
                    return StepResult::TimeOverflow;
                }
                self.now = ev.time;
                let ghost mid = *self;
                match ev.action {
                    EventAction::PolicemanEmployment => {
                        let new_id = self.policemen.len();
                        let p = Policeman::generate_just_employed_with_id(
                            generator,
                            &self.tables.first_names,
                            &self.tables.last_names,
                            &self.tables.ranks,
                            self.now,
                            new_id,
                        );
                        let resignation = Event::from_policeman_resignation_event(&p);
                        self.policemen.push(p);
                        proof {
                            assert(pre.policemen@.len() == pre.config.policemen_count
                                + pre.employments_processed);
                            assert(pre.config.policemen_count >= 1);
                            assert(self.employments_processed < new_id as int);
                        }
                        self.employments_processed = self.employments_processed + 1;
                        self.schedule(resignation);
                        proof {
                            self.prove_wf_frame(pre, key);
                            assert(step_spec(
                                pre,
                                *self,
                                StepEvent::PolicemanEmployed { policeman_id: new_id },
                                key,
                            ));
                        }
                        StepResult::Processed(
                            StepEvent::PolicemanEmployed { policeman_id: new_id },
                        )
                    },
                    EventAction::PolicemanResignation => {
                        let employment_time = self.now + REPLACEMENT_DELAY_DAYS
                            * SECONDS_PER_DAY;
                        self.schedule(
                            Event {
                                time: employment_time,
                                action: EventAction::PolicemanEmployment,
                            },
                        );
                        proof {
                            self.prove_wf_frame(pre, key);
                            assert(step_spec(
                                pre,
                                *self,
                                StepEvent::EmploymentScheduled { employment_time },
                                key,
                            ));
                        }
                        StepResult::Processed(
                            StepEvent::EmploymentScheduled { employment_time },
                        )
                    },
                    EventAction::Report => {
                        let report_id = self.reports.len();
                        let place_count = self.places.len();
                        let rep = Report::generate_with_time_and_id(
                            generator,
                            &self.tables.report_types,
                            &self.tables.first_names,
                            &self.tables.last_names,
                            self.now,
                            place_count,
                            report_id,
                        );
                        self.reports.push(rep);
                        let sending_delay = crate::rng::draw_range(
                            generator,
                            self.config.min_report_to_sending_seconds,
                            self.config.max_report_to_sending_seconds,
                        );
                        let dispatch_time = self.now + sending_delay as i64;
                        let two_patrols = crate::rng::draw_range(
                            generator,
                            0,
                            self.config.two_patrols_denominator,
                        ) < self.config.two_patrols_numerator;
                        let patrols_required: usize = if two_patrols {
                            2
                        } else {
                            1
                        };
                        self.schedule(
                            Event {
                                time: dispatch_time,
                                action: EventAction::SendPatrol(report_id),
                            },
                        );
                        if patrols_required == 2 {
                            self.schedule(
                                Event {
                                    time: dispatch_time,
                                    action: EventAction::SendPatrol(report_id),
                                },
                            );
                        }
                        let report_delay = crate::rng::draw_range(
                            generator,
                            self.config.min_seconds_between_reports,
                            self.config.max_seconds_between_reports,
                        );
                        let next_report_time = self.now + report_delay as i64;
                        self.schedule(
                            Event { time: next_report_time, action: EventAction::Report },
                        );
                        proof {
                            self.prove_wf_frame(pre, key);
                            assert(self.events.scheduled(next_report_time, EventAction::Report));
                            if patrols_required == 1 {
                                assert(self.events.actions@ == pre.events.actions@.push(
                                    EventAction::SendPatrol(report_id),
                                ).push(EventAction::Report));
                                assert(self.events.pending() == pre.events.pending().remove(
                                    key,
                                ).insert(
                                    (dispatch_time, pre.events.actions@.len() as u64),
                                ).insert(
                                    (next_report_time, (pre.events.actions@.len() + 1) as u64),
                                ));
                            } else {
                                assert(self.events.actions@ == pre.events.actions@.push(
                                    EventAction::SendPatrol(report_id),
                                ).push(EventAction::SendPatrol(report_id)).push(
                                    EventAction::Report,
                                ));
                                assert(self.events.pending() == pre.events.pending().remove(
                                    key,
                                ).insert(
                                    (dispatch_time, pre.events.actions@.len() as u64),
                                ).insert(
                                    (dispatch_time, (pre.events.actions@.len() + 1) as u64),
                                ).insert(
                                    (next_report_time, (pre.events.actions@.len() + 2) as u64),
                                ));
                            }
                            assert(step_spec(
                                pre,
                                *self,
                                StepEvent::ReportFiled {
                                    report_id,
                                    patrols_required,
                                    dispatch_time,
                                },
                                key,
                            ));
                        }
                        StepResult::Processed(
                            StepEvent::ReportFiled { report_id, patrols_required, dispatch_time },
                        )
                    },
                    EventAction::SendPatrol(report_id) => {
                        let avail_p = available_policemen_indices(&self.policemen);
                        let mut enough = avail_p.len() >= TARGET_POLICEMEN_COUNT;
                        let mut vehicle_found: usize = 0;
                        if enough {
                            let avail_v = available_vehicle_indices(&self.vehicles);
                            if avail_v.len() == 0 {
                                enough = false;
                            } else {
                                let vpicks = crate::rng::draw_distinct_indices(
                                    generator,
                                    avail_v.len(),
                                    1,
                                );
                                vehicle_found = avail_v[vpicks[0]];
                                proof {
                                    assert(mid.vehicles@[vehicle_found as int].state
                                        == VehicleState::Available);
                                }
                            }
                        }
                        if !enough {
                            let retry_delay = crate::rng::draw_range(
                                generator,
                                self.config.min_report_to_sending_seconds,
                                self.config.max_report_to_sending_seconds,
                            );
                            let retry_time = self.now + retry_delay as i64;
                            self.schedule(
                                Event {
                                    time: retry_time,
                                    action: EventAction::SendPatrol(report_id),
                                },
                            );
                            proof {
                                self.prove_wf_frame(pre, key);
                                assert(step_spec(
                                    pre,
                                    *self,
                                    StepEvent::DispatchRetried { report_id, retry_time },
                                    key,
                                ));
                            }
                            return StepResult::Processed(
                                StepEvent::DispatchRetried { report_id, retry_time },
                            );
                        }
                        let picks = crate::rng::draw_distinct_indices(
                            generator,
                            avail_p.len(),
                            TARGET_POLICEMEN_COUNT,
                        );
                        let m0 = avail_p[picks[0]];
                        let m1 = avail_p[picks[1]];
                        proof {
                            if picks@[0] < picks@[1] {
                                assert(avail_p@[picks@[0] as int] < avail_p@[picks@[1] as int]);
                            } else {
                                assert(picks@[1] < picks@[0]);
                                assert(avail_p@[picks@[1] as int] < avail_p@[picks@[0] as int]);
                            }
                            assert(m0 != m1);
                        }
                        let vid = vehicle_found;
                        self.policemen[m0].state = PolicemanState::Occupied;
                        self.policemen[m1].state = PolicemanState::Occupied;
                        self.vehicles[vid].state = VehicleState::Occupied;
                        let patrol_id = self.patrols.len();
                        let mut crew: Vec<usize> = Vec::new();
                        crew.push(m0);
                        crew.push(m1);
                        let patrol =
                            Patrol::generate_with_report_id_policemen_vehicles_and_sending_time_and_id(
                            generator,
                            report_id,
                            crew,
                            vid,
                            self.now,
                            patrol_id,
                        );
                        let finish_time = patrol.finish_time;
                        self.patrols.push(patrol);
                        self.schedule(
                            Event {
                                time: finish_time,
                                action: EventAction::FinishedPatrol(patrol_id),
                            },
                        );
                        self.open_patrols = Ghost(
                            self.open_patrols@.insert(patrol_id as int),
                        );
                        proof {
                            self.prove_wf_after_dispatch(pre, key, m0 as int, m1 as int);
                            assert(step_spec(
                                pre,
                                *self,
                                StepEvent::PatrolDispatched { patrol_id, report_id },
                                key,
                            ));
                        }
                        StepResult::Processed(
                            StepEvent::PatrolDispatched { patrol_id, report_id },
                        )
                    },
                    EventAction::FinishedPatrol(patrol_id) => {
                        proof {
                            assert(pre.action_ok(key));
                            assert((patrol_id as int) < self.patrols@.len());
                            assert(pre.patrol_ok(patrol_id as int));
                        }
                        let m0 = self.patrols[patrol_id].policemen_ids[0];
                        let m1 = self.patrols[patrol_id].policemen_ids[1];
                        let vid = self.patrols[patrol_id].vehicle_id;
                        let r0 = self.policemen[m0].resignment_date;
                        self.policemen[m0].state = if self.now < r0 {
                            PolicemanState::Available
                        } else {
                            PolicemanState::Resigned
                        };
                        let r1 = self.policemen[m1].resignment_date;
                        self.policemen[m1].state = if self.now < r1 {
                            PolicemanState::Available
                        } else {
                            PolicemanState::Resigned
                        };
                        self.vehicles[vid].state = VehicleState::Available;
                        self.open_patrols = Ghost(
                            self.open_patrols@.remove(patrol_id as int),
                        );
                        proof {
                            self.prove_wf_after_finish(pre, key, patrol_id);
                            assert(step_spec(
                                pre,
                                *self,
                                StepEvent::PatrolFinished { patrol_id },
                                key,
                            ));
                        }
                        StepResult::Processed(StepEvent::PatrolFinished { patrol_id })
                    },
                    EventAction::Snapshot(snapshot, terminal) => {
                        if terminal {
                            self.halted = true;
                        }
                        proof {
                            self.prove_wf_frame(pre, key);
                            assert(step_spec(
                                pre,
                                *self,
                                StepEvent::SnapshotReached { snapshot, terminal },
                                key,
                            ));
                        }
                        StepResult::Processed(StepEvent::SnapshotReached { snapshot, terminal })
                    },
                    EventAction::PolicemanLastNameChange => {
                        let n = self.policemen.len();
                        proof {
                            assert(n >= 1);
                        }
                        let picks = crate::rng::draw_distinct_indices(generator, n, 1);
                        let idx = picks[0];
                        let new_name = self.tables.last_names.get_random_entry(generator);
                        self.policemen[idx].person.last_name = new_name;
                        proof {
                            self.prove_wf_frame(pre, key);
                            assert(step_spec(
                                pre,
                                *self,
                                StepEvent::SurnameChanged { policeman_id: idx },
                                key,
                            ));
                        }
                        StepResult::Processed(StepEvent::SurnameChanged { policeman_id: idx })
                    },
                }
            },
        }
    }

    /// Re-establish the invariant after a step that popped `key` and may
    /// have scheduled follow-up events, none of them finish events, while
    /// leaving every state field and the open set alone.
    proof fn prove_wf_frame(self, pre: Simulation, key: (i64, u64))
        requires
            pre.wf(),
            self.events.wf(),
            pre.events.pending().count(key) == 1,
            key.0 >= pre.now,
            pre.now <= self.now <= key.0,
            forall|pid: usize| !is_finish(pre.events.action_of(key.1), pid),
            forall|s: u64|
                s < pre.events.actions@.len() ==> #[trigger] self.events.action_of(s)
                    == pre.events.action_of(s),
            forall|e: (i64, u64)|
                #[trigger] self.events.pending().count(e) > 0 && e.1
                    < pre.events.actions@.len() ==> pre.events.pending().count(e) > 0 && e != key,
            forall|e: (i64, u64)|
                #[trigger] self.events.pending().count(e) > 0 && e.1
                    >= pre.events.actions@.len() ==> self.action_ok(e) && e.0 >= self.now && (
                forall|pid: usize| !is_finish(self.events.action_of(e.1), pid)),
            forall|e: (i64, u64)|
                pre.events.pending().count(e) > 0 && e != key ==> #[trigger] self.events.pending(
                ).count(e) > 0,
            forall|e: (i64, u64)|
                pre.events.pending().count(e) > 0 && e != key ==> e.0 >= key.0,
            self.reports@.len() >= pre.reports@.len(),
            self.patrols@.len() == pre.patrols@.len(),
            self.policemen@.len() >= pre.policemen@.len(),
            self.vehicles@.len() >= pre.vehicles@.len(),
            forall|j: int|
                0 <= j < pre.patrols@.len() ==> #[trigger] self.patrols@[j] == pre.patrols@[j],
            forall|j: int|
                0 <= j < pre.policemen@.len() ==> (#[trigger] self.policemen@[j]).state
                    == pre.policemen@[j].state,
            forall|j: int|
                0 <= j < pre.vehicles@.len() ==> (#[trigger] self.vehicles@[j]).state
                    == pre.vehicles@[j].state,
            self.open_patrols@ == pre.open_patrols@,
            self.config == pre.config,
            self.tables == pre.tables,
            self.places == pre.places,
            self.ids_ok(),
            self.conservation_ok(),
        ensures
            self.wf(),
    {
        let prelen = pre.events.actions@.len();
        assert forall|e: (i64, u64)| self.events.pending().count(e) > 0 implies e.0
            >= self.now by {
            if e.1 < prelen {
                assert(pre.events.pending().count(e) > 0 && e != key);
            }
        }
        assert forall|e: (i64, u64)| self.events.pending().count(e) > 0 implies
            #[trigger] self.action_ok(e) by {
            if e.1 < prelen {
                assert(pre.events.pending().count(e) > 0 && e != key);
                assert(pre.action_ok(e));
                assert(self.events.action_of(e.1) == pre.events.action_of(e.1));
                match pre.events.action_of(e.1) {
                    EventAction::FinishedPatrol(pid) => {
                        assert(pre.patrol_ok(pid as int));
                        assert(self.patrols@[pid as int] == pre.patrols@[pid as int]);
                    },
                    _ => {},
                }
            }
        }
        assert forall|e: (i64, u64), f: (i64, u64), pid: usize|
            self.events.pending().count(e) > 0 && self.events.pending().count(f) > 0 && is_finish(
                self.events.action_of(e.1),
                pid,
            ) && is_finish(self.events.action_of(f.1), pid) implies e == f by {
            assert(e.1 < prelen && f.1 < prelen);
            assert(pre.events.pending().count(e) > 0 && pre.events.pending().count(f) > 0);
            assert(is_finish(pre.events.action_of(e.1), pid) && is_finish(
                pre.events.action_of(f.1),
                pid,
            ));
        }
        assert forall|j: int| #[trigger] self.open_patrols@.contains(j) implies
            self.events.scheduled_action(EventAction::FinishedPatrol(j as usize)) by {
            assert(pre.open_patrols@.contains(j));
            assert(pre.events.scheduled_action(EventAction::FinishedPatrol(j as usize)));
            let w = choose|w: (i64, u64)|
                pre.events.pending().count(w) > 0 && pre.events.action_of(w.1)
                    == EventAction::FinishedPatrol(j as usize);
            assert(is_finish(pre.events.action_of(w.1), j as usize));
            assert(w != key);
            assert(self.events.pending().count(w) > 0);
            assert(w.1 < prelen);
            assert(self.events.action_of(w.1) == EventAction::FinishedPatrol(j as usize));
        }
        assert forall|j: int| 0 <= j < self.patrols@.len() implies #[trigger] self.patrol_ok(
            j,
        ) by {
            assert(pre.patrol_ok(j));
        }
        assert forall|j: int| #[trigger] self.open_patrols@.contains(j) implies 0 <= j
            < self.patrols@.len() && self.policemen@[self.patrols@[j].policemen_ids@[0] as int].state
            == PolicemanState::Occupied && self.policemen@[self.patrols@[j].policemen_ids@[1] as int].state
            == PolicemanState::Occupied && self.vehicles@[self.patrols@[j].vehicle_id as int].state
            == VehicleState::Occupied by {
            assert(pre.open_patrols@.contains(j));
            assert(pre.patrol_ok(j));
            assert(self.patrols@[j] == pre.patrols@[j]);
        }
        assert forall|j: int, k: int|
            #[trigger] self.open_patrols@.contains(j) && #[trigger] self.open_patrols@.contains(k)
                && j != k implies self.patrols_disjoint(j, k) by {
            assert(pre.open_patrols@.contains(j) && pre.open_patrols@.contains(k));
            assert(pre.patrols_disjoint(j, k));
            assert(self.patrols@[j] == pre.patrols@[j] && self.patrols@[k] == pre.patrols@[k]);
        }
        assert forall|j: int|
            0 <= j < self.patrols@.len() && !(#[trigger] self.open_patrols@.contains(j)) implies
            self.patrols@[j].finish_time <= self.now by {
            if j < pre.patrols@.len() {
                assert(self.patrols@[j] == pre.patrols@[j]);
            }
        }
    }

    /// Re-establish the invariant after a successful dispatch: one new
    /// patrol, its crew and vehicle marked Occupied, its finish event
    /// pending, its id added to the open set.
    proof fn prove_wf_after_dispatch(self, pre: Simulation, key: (i64, u64), m0: int, m1: int)
        requires
            pre.wf(),
            self.events.wf(),
            pre.events.actions@.len() <= u64::MAX,
            pre.patrols@.len() <= usize::MAX,
            pre.events.pending().count(key) == 1,
            key.0 >= pre.now,
            self.now == key.0,
            forall|pid: usize| !is_finish(pre.events.action_of(key.1), pid),
            self.events.actions@ == pre.events.actions@.push(
                EventAction::FinishedPatrol(pre.patrols@.len() as usize),
            ),
            self.events.pending() == pre.events.pending().remove(key).insert(
                (self.patrols@.last().finish_time, pre.events.actions@.len() as u64),
            ),
            forall|e: (i64, u64)|
                pre.events.pending().count(e) > 0 && e != key ==> e.0 >= key.0,
            self.patrols@ == pre.patrols@.push(self.patrols@.last()),
            ({
                let pnew = self.patrols@.last();
                &&& pnew.id == pre.patrols@.len()
                &&& pnew.policemen_ids@.len() == 2
                &&& pnew.policemen_ids@[0] as int == m0
                &&& pnew.policemen_ids@[1] as int == m1
                &&& (pnew.report_id as int) < self.reports@.len()
                &&& (pnew.vehicle_id as int) < pre.vehicles@.len()
                &&& pre.vehicles@[pnew.vehicle_id as int].state == VehicleState::Available
                &&& self.vehicles@[pnew.vehicle_id as int].state == VehicleState::Occupied
                &&& forall|j: int|
                    0 <= j < self.vehicles@.len() && j != pnew.vehicle_id as int
                        ==> self.vehicles@[j] == pre.vehicles@[j]
                &&& pnew.sending_time == self.now
                &&& pnew.sending_time <= pnew.arrival_time <= pnew.finish_time
            }),
            0 <= m0 < pre.policemen@.len(),
            0 <= m1 < pre.policemen@.len(),
            m0 != m1,
            pre.policemen@[m0].state == PolicemanState::Available,
            pre.policemen@[m1].state == PolicemanState::Available,
            self.policemen@.len() == pre.policemen@.len(),
            self.policemen@[m0].state == PolicemanState::Occupied,
            self.policemen@[m1].state == PolicemanState::Occupied,
            forall|j: int|
                0 <= j < self.policemen@.len() && j != m0 && j != m1 ==> self.policemen@[j]
                    == pre.policemen@[j],
            self.vehicles@.len() == pre.vehicles@.len(),
            self.reports == pre.reports,
            self.open_patrols@ == pre.open_patrols@.insert(pre.patrols@.len() as int),
            self.config == pre.config,
            self.tables == pre.tables,
            self.places == pre.places,
            self.ids_ok(),
            self.conservation_ok(),
        ensures
            self.wf(),
    {
        let prelen = pre.events.actions@.len();
        let pnew = self.patrols@.last();
        let newpid = pre.patrols@.len() as int;
        let kf = (pnew.finish_time, prelen as u64);
        assert(self.events.action_of(kf.1) == EventAction::FinishedPatrol(newpid as usize));
        assert forall|e: (i64, u64)| self.events.pending().count(e) > 0 implies e.0
            >= self.now by {
            if e != kf {
                assert(pre.events.pending().count(e) > 0 && e != key);
            } else {
                assert(pnew.finish_time >= pnew.sending_time);
            }
        }
        assert forall|j: int| 0 <= j < self.patrols@.len() implies #[trigger] self.patrol_ok(
            j,
        ) by {
            if j < newpid {
                assert(self.patrols@[j] == pre.patrols@[j]);
                assert(pre.patrol_ok(j));
            }
        }
        assert forall|e: (i64, u64)| self.events.pending().count(e) > 0 implies
            #[trigger] self.action_ok(e) by {
            if e == kf {
                assert(self.open_patrols@.contains(newpid));
            } else {
                assert(pre.events.pending().count(e) > 0 && e != key);
                assert(e.1 < prelen);
                assert(self.events.action_of(e.1) == pre.events.action_of(e.1));
                assert(pre.action_ok(e));
                match pre.events.action_of(e.1) {
                    EventAction::FinishedPatrol(q) => {
                        assert(self.patrols@[q as int] == pre.patrols@[q as int]);
                        assert(self.open_patrols@.contains(q as int));
                    },
                    _ => {},
                }
            }
        }
        assert forall|e: (i64, u64), f: (i64, u64), pid: usize|
            self.events.pending().count(e) > 0 && self.events.pending().count(f) > 0 && is_finish(
                self.events.action_of(e.1),
                pid,
            ) && is_finish(self.events.action_of(f.1), pid) implies e == f by {
            if e != kf && f != kf {
                assert(pre.events.pending().count(e) > 0 && pre.events.pending().count(f) > 0);
                assert(e.1 < prelen && f.1 < prelen);
                assert(is_finish(pre.events.action_of(e.1), pid) && is_finish(
                    pre.events.action_of(f.1),
                    pid,
                ));
            } else if e == kf && f != kf {
                assert(pre.events.pending().count(f) > 0 && f.1 < prelen);
                assert(pre.action_ok(f));
                assert(false);
            } else if e != kf && f == kf {
                assert(pre.events.pending().count(e) > 0 && e.1 < prelen);
                assert(pre.action_ok(e));
                assert(false);
            }
        }
        assert forall|j: int| #[trigger] self.open_patrols@.contains(j) implies
            self.events.scheduled_action(EventAction::FinishedPatrol(j as usize)) by {
            if j == newpid {
                assert(self.events.pending().count(kf) > 0);
            } else {
                assert(pre.open_patrols@.contains(j));
                let w = choose|w: (i64, u64)|
                    pre.events.pending().count(w) > 0 && pre.events.action_of(w.1)
                        == EventAction::FinishedPatrol(j as usize);
                assert(is_finish(pre.events.action_of(w.1), j as usize));
                assert(w != key);
                assert(self.events.pending().count(w) > 0);
                assert(w.1 < prelen);
                assert(self.events.action_of(w.1) == EventAction::FinishedPatrol(j as usize));
            }
        }
        assert forall|j: int| #[trigger] self.open_patrols@.contains(j) implies 0 <= j
            < self.patrols@.len()
            && self.policemen@[self.patrols@[j].policemen_ids@[0] as int].state
            == PolicemanState::Occupied
            && self.policemen@[self.patrols@[j].policemen_ids@[1] as int].state
            == PolicemanState::Occupied
            && self.vehicles@[self.patrols@[j].vehicle_id as int].state
            == VehicleState::Occupied by {
            if j != newpid {
                assert(pre.open_patrols@.contains(j));
                assert(pre.patrol_ok(j));
                assert(self.patrols@[j] == pre.patrols@[j]);
                let q0 = pre.patrols@[j].policemen_ids@[0] as int;
                let q1 = pre.patrols@[j].policemen_ids@[1] as int;
                assert(pre.policemen@[q0].state == PolicemanState::Occupied);
                assert(pre.policemen@[q1].state == PolicemanState::Occupied);
                assert(q0 != m0 && q0 != m1 && q1 != m0 && q1 != m1);
                assert(pre.vehicles@[pre.patrols@[j].vehicle_id as int].state
                    == VehicleState::Occupied);
                assert(pre.patrols@[j].vehicle_id != pnew.vehicle_id);
            }
        }
        assert forall|j: int, k: int|
            #[trigger] self.open_patrols@.contains(j) && #[trigger] self.open_patrols@.contains(k)
                && j != k implies self.patrols_disjoint(j, k) by {
            if j != newpid && k != newpid {
                assert(pre.open_patrols@.contains(j) && pre.open_patrols@.contains(k));
                assert(pre.patrols_disjoint(j, k));
                assert(self.patrols@[j] == pre.patrols@[j] && self.patrols@[k] == pre.patrols@[k]);
            } else if j == newpid {
                assert(pre.open_patrols@.contains(k));
                assert(pre.patrol_ok(k));
                assert(self.patrols@[k] == pre.patrols@[k]);
                let q0 = pre.patrols@[k].policemen_ids@[0] as int;
                let q1 = pre.patrols@[k].policemen_ids@[1] as int;
                assert(pre.policemen@[q0].state == PolicemanState::Occupied);
                assert(pre.policemen@[q1].state == PolicemanState::Occupied);
                assert(pre.vehicles@[pre.patrols@[k].vehicle_id as int].state
                    == VehicleState::Occupied);
            } else {
                assert(pre.open_patrols@.contains(j));
                assert(pre.patrol_ok(j));
                assert(self.patrols@[j] == pre.patrols@[j]);
                let q0 = pre.patrols@[j].policemen_ids@[0] as int;
                let q1 = pre.patrols@[j].policemen_ids@[1] as int;
                assert(pre.policemen@[q0].state == PolicemanState::Occupied);
                assert(pre.policemen@[q1].state == PolicemanState::Occupied);
                assert(pre.vehicles@[pre.patrols@[j].vehicle_id as int].state
                    == VehicleState::Occupied);
            }
        }
        assert forall|j: int|
            0 <= j < self.patrols@.len() && !(#[trigger] self.open_patrols@.contains(j)) implies
            self.patrols@[j].finish_time <= self.now by {
            assert(j != newpid);
            assert(!pre.open_patrols@.contains(j));
            assert(self.patrols@[j] == pre.patrols@[j]);
        }
    }

    /// Re-establish the invariant after a patrol's finish was processed:
    /// its crew and vehicle released, its id removed from the open set.
    proof fn prove_wf_after_finish(self, pre: Simulation, key: (i64, u64), pid: usize)
        requires
            pre.wf(),
            self.events.wf(),
            pre.patrols@.len() <= usize::MAX,
            pre.events.pending().count(key) == 1,
            key.0 >= pre.now,
            self.now == key.0,
            pre.events.action_of(key.1) == EventAction::FinishedPatrol(pid),
            self.events.actions@ == pre.events.actions@,
            self.events.pending() == pre.events.pending().remove(key),
            forall|e: (i64, u64)|
                pre.events.pending().count(e) > 0 && e != key ==> e.0 >= key.0,
            self.patrols == pre.patrols,
            self.reports == pre.reports,
            self.policemen@.len() == pre.policemen@.len(),
            forall|j: int|
                0 <= j < self.policemen@.len() && j != pre.patrols@[pid as int].policemen_ids@[0] as int
                    && j != pre.patrols@[pid as int].policemen_ids@[1] as int
                    ==> self.policemen@[j] == pre.policemen@[j],
            self.vehicles@.len() == pre.vehicles@.len(),
            forall|j: int|
                0 <= j < self.vehicles@.len() && j != pre.patrols@[pid as int].vehicle_id as int
                    ==> self.vehicles@[j] == pre.vehicles@[j],
            self.open_patrols@ == pre.open_patrols@.remove(pid as int),
            self.config == pre.config,
            self.tables == pre.tables,
            self.places == pre.places,
            self.ids_ok(),
            self.conservation_ok(),
        ensures
            self.wf(),
    {
        assert(pre.events.pending().count(key) > 0);
        assert(pre.action_ok(key));
        assert(pre.open_patrols@.contains(pid as int));
        assert(pre.patrol_ok(pid as int));
        let m0 = pre.patrols@[pid as int].policemen_ids@[0] as int;
        let m1 = pre.patrols@[pid as int].policemen_ids@[1] as int;
        let vid = pre.patrols@[pid as int].vehicle_id as int;
        assert forall|e: (i64, u64)| self.events.pending().count(e) > 0 implies e.0
            >= self.now by {
            assert(pre.events.pending().count(e) > 0 && e != key);
        }
        assert forall|j: int| 0 <= j < self.patrols@.len() implies #[trigger] self.patrol_ok(
            j,
        ) by {
            assert(pre.patrol_ok(j));
        }
        assert forall|e: (i64, u64)| self.events.pending().count(e) > 0 implies
            #[trigger] self.action_ok(e) by {
            assert(pre.events.pending().count(e) > 0 && e != key);
            assert(pre.action_ok(e));
            match pre.events.action_of(e.1) {
                EventAction::FinishedPatrol(q) => {
                    assert(is_finish(pre.events.action_of(e.1), q));
                    if q == pid {
                        assert(is_finish(pre.events.action_of(key.1), pid));
                        assert(e == key);
                        assert(false);
                    }
                    assert(self.open_patrols@.contains(q as int));
                },
                _ => {},
            }
        }
        assert forall|e: (i64, u64), f: (i64, u64), q: usize|
            self.events.pending().count(e) > 0 && self.events.pending().count(f) > 0 && is_finish(
                self.events.action_of(e.1),
                q,
            ) && is_finish(self.events.action_of(f.1), q) implies e == f by {
            assert(pre.events.pending().count(e) > 0 && pre.events.pending().count(f) > 0);
            assert(is_finish(pre.events.action_of(e.1), q) && is_finish(
                pre.events.action_of(f.1),
                q,
            ));
        }
        assert forall|j: int| #[trigger] self.open_patrols@.contains(j) implies
            self.events.scheduled_action(EventAction::FinishedPatrol(j as usize)) by {
            assert(pre.open_patrols@.contains(j) && j != pid as int);
            let w = choose|w: (i64, u64)|
                pre.events.pending().count(w) > 0 && pre.events.action_of(w.1)
                    == EventAction::FinishedPatrol(j as usize);
            assert(pre.events.scheduled_action(EventAction::FinishedPatrol(j as usize)));
            assert(pre.events.pending().count(w) > 0);
            if w == key {
                assert(pre.events.action_of(key.1) == EventAction::FinishedPatrol(j as usize));
                assert(j as usize == pid);
                assert(0 <= j < pre.patrols@.len());
                assert(j == pid as int);
                assert(false);
            }
            assert(self.events.pending().count(w) > 0);
            assert(self.events.action_of(w.1) == EventAction::FinishedPatrol(j as usize));
        }
        assert forall|j: int| #[trigger] self.open_patrols@.contains(j) implies 0 <= j
            < self.patrols@.len()
            && self.policemen@[self.patrols@[j].policemen_ids@[0] as int].state
            == PolicemanState::Occupied
            && self.policemen@[self.patrols@[j].policemen_ids@[1] as int].state
            == PolicemanState::Occupied
            && self.vehicles@[self.patrols@[j].vehicle_id as int].state
            == VehicleState::Occupied by {
            assert(pre.open_patrols@.contains(j) && j != pid as int);
            assert(pre.patrols_disjoint(j, pid as int));
            assert(pre.patrol_ok(j));
            let q0 = self.patrols@[j].policemen_ids@[0] as int;
            let q1 = self.patrols@[j].policemen_ids@[1] as int;
            assert(q0 != m0 && q0 != m1 && q1 != m0 && q1 != m1);
            assert(self.patrols@[j].vehicle_id as int != vid);
        }
        assert forall|j: int, k: int|
            #[trigger] self.open_patrols@.contains(j) && #[trigger] self.open_patrols@.contains(k)
                && j != k implies self.patrols_disjoint(j, k) by {
            assert(pre.open_patrols@.contains(j) && pre.open_patrols@.contains(k));
            assert(pre.patrols_disjoint(j, k));
        }
        assert forall|j: int|
            0 <= j < self.patrols@.len() && !(#[trigger] self.open_patrols@.contains(j)) implies
            self.patrols@[j].finish_time <= self.now by {
            if j == pid as int {
                assert(key.0 == pre.patrols@[pid as int].finish_time);
            } else {
                assert(!pre.open_patrols@.contains(j));
            }
        }
    }

    /// Insert an event for later processing; the rest of the world does
    /// not move.
    fn schedule(&mut self, ev: Event)
        requires
            old(self).events.wf(),
        ensures
            final(self).events.wf(),
            final(self).config == old(self).config,
            final(self).tables == old(self).tables,
            final(self).places == old(self).places,
            final(self).policemen == old(self).policemen,
            final(self).vehicles == old(self).vehicles,
            final(self).reports == old(self).reports,
            final(self).patrols == old(self).patrols,
            final(self).now == old(self).now,
            final(self).halted == old(self).halted,
            final(self).employments_processed == old(self).employments_processed,
            final(self).open_patrols == old(self).open_patrols,
            final(self).events.pending() == old(self).events.pending().insert(
                (ev.time, old(self).events.actions@.len() as u64),
            ),
            final(self).events.actions@ == old(self).events.actions@.push(ev.action),
            final(self).events.action_of(old(self).events.actions@.len() as u64) == ev.action,
            final(self).events.scheduled(ev.time, ev.action),
            forall|t: i64, a: EventAction|
                old(self).events.scheduled(t, a) ==> final(self).events.scheduled(t, a),
            forall|s: u64|
                s < old(self).events.actions@.len() ==> final(self).events.action_of(s) == old(
                    self,
                ).events.action_of(s),
            forall|t: i64|
                old(self).events.at_or_after(t) && ev.time >= t ==> final(self).events.at_or_after(
                    t,
                ),
            forall|e: (i64, u64)|
                (#[trigger] final(self).events.pending().count(e)) > 0 ==> e == (
                    ev.time,
                    old(self).events.actions@.len() as u64,
                ) || old(self).events.pending().count(e) > 0,
            forall|e: (i64, u64)|
                (#[trigger] old(self).events.pending().count(e)) > 0
                    ==> final(self).events.pending().count(e) > 0,
            forall|e: (i64, u64)|
                (#[trigger] final(self).events.pending().count(e)) > 0 && e.1
                    < old(self).events.actions@.len() ==> old(self).events.pending().count(e)
                    > 0,
    {
        let known_len = self.events.actions.len();
        self.events.push(ev);
        proof {
            let pre = *old(self);
            let key = (ev.time, pre.events.actions@.len() as u64);
            assert(pre.events.actions@.len() == known_len as int);
            assert forall|e: (i64, u64)|
                (#[trigger] self.events.pending().count(e)) > 0 && e.1
                    < pre.events.actions@.len() implies pre.events.pending().count(e) > 0 by {
                assert(e != key);
            }
            assert forall|t: i64|
                pre.events.at_or_after(t) && ev.time >= t implies self.events.at_or_after(t) by {
                assert forall|e: (i64, u64)| self.events.pending().count(e) > 0 implies e.0
                    >= t by {
                    if e != key {
                        assert(pre.events.pending().count(e) > 0);
                    }
                }
            }
        }
    }
}

} // verus!

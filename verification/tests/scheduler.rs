use rand::SeedableRng;

use patrol_sim::dates::MAX_EVENT_TIME;
use patrol_sim::event::{Event, EventAction};
use patrol_sim::person::PolicemanState;
use patrol_sim::place::Place;
use patrol_sim::queue::EventQueue;
use patrol_sim::sim::{
    config_valid, entries_fit, SimConfig, Simulation, SnapshotSpec, StepEvent, StepResult, Tables,
};
use patrol_sim::string_occurrences::StringOccurrences;
use patrol_sim::vehicle::VehicleState;

const START: i64 = 1_433_116_800;

fn rng(seed: u64) -> rand::rngs::StdRng {
    rand::rngs::StdRng::seed_from_u64(seed)
}

fn table(data: &str) -> StringOccurrences {
    StringOccurrences::from_str(data).expect("the table text should parse")
}

fn tables() -> Tables {
    Tables {
        first_names: table("Jan,3\nPiotr,2"),
        last_names: table("Nowak,5\nKowalski,1"),
        ranks: table("sierzant,2\naspirant,1"),
        vehicle_models: table("Skoda Octavia,4\nKia Ceed,2"),
        registration_plate_codes: table("WA,3\nKR,1"),
        report_types: table("kolizja,5\nwlamanie,2"),
    }
}

fn places() -> Vec<Place> {
    vec![
        Place { id: 0, city: "Warszawa".to_string(), street: "Mokotowska".to_string() },
        Place { id: 1, city: "Krakow".to_string(), street: "Dluga".to_string() },
    ]
}

fn config(policemen: usize, vehicles: usize, snapshots: Vec<SnapshotSpec>) -> SimConfig {
    SimConfig {
        start_time: START,
        policemen_count: policemen,
        vehicles_count: vehicles,
        two_patrols_numerator: 0,
        two_patrols_denominator: 10,
        min_seconds_between_reports: 600,
        max_seconds_between_reports: 2400,
        min_report_to_sending_seconds: 300,
        max_report_to_sending_seconds: 900,
        last_name_change_events_count: 0,
        snapshots,
    }
}

fn far_snapshot() -> Vec<SnapshotSpec> {
    vec![SnapshotSpec { name: "SNAPSHOT_A_".to_string(), terminal: true, time: START + 100 * 365 * 86400 }]
}

#[test]
fn queue_pops_in_time_order_with_fifo_ties() {
    let mut q = EventQueue::new();
    q.push(Event { time: 50, action: EventAction::Report });
    q.push(Event { time: 10, action: EventAction::SendPatrol(1) });
    q.push(Event { time: 50, action: EventAction::PolicemanLastNameChange });
    q.push(Event { time: 30, action: EventAction::FinishedPatrol(2) });
    let mut last = i64::MIN;
    let mut seen = Vec::new();
    while let Some((ev, _)) = q.pop_earliest() {
        assert!(ev.time >= last);
        last = ev.time;
        seen.push(ev);
    }
    assert_eq!(seen.len(), 4);
    assert_eq!(seen[0].action, EventAction::SendPatrol(1));
    assert_eq!(seen[1].action, EventAction::FinishedPatrol(2));
    // equal times leave in insertion order
    assert_eq!(seen[2].action, EventAction::Report);
    assert_eq!(seen[3].action, EventAction::PolicemanLastNameChange);
}

#[test]
fn config_checks() {
    let good = config(2, 1, far_snapshot());
    assert!(config_valid(&good));
    let mut bad = config(2, 1, far_snapshot());
    bad.policemen_count = 0;
    assert!(!config_valid(&bad));
    let mut bad2 = config(2, 1, far_snapshot());
    bad2.snapshots[0].time = START - 1;
    assert!(!config_valid(&bad2));
    assert!(entries_fit(&table("WA,1"), 7));
    assert!(!entries_fit(&table("ZADLUGIKOD,1"), 7));
}

/// The full dispatch scenario: one report, one successful dispatch with
/// both policemen and the single vehicle, and everyone released when the
/// patrol finishes.
#[test]
fn report_dispatch_finish_roundtrip() {
    let mut generator = rng(42);
    let mut sim = Simulation::new(config(2, 1, far_snapshot()), tables(), places(), &mut generator);
    assert_eq!(sim.policemen.len(), 2);
    assert_eq!(sim.vehicles.len(), 1);

    let first = sim.step(&mut generator);
    let dispatch_time = match first {
        StepResult::Processed(StepEvent::ReportFiled { report_id, patrols_required, dispatch_time }) => {
            assert_eq!(report_id, 0);
            assert_eq!(patrols_required, 1);
            assert!(dispatch_time >= START + 300 && dispatch_time < START + 900);
            dispatch_time
        },
        other => panic!("expected the initial report, got {:?}", other),
    };
    assert_eq!(sim.reports.len(), 1);
    assert_eq!(sim.reports[0].time, START);

    let second = sim.step(&mut generator);
    match second {
        StepResult::Processed(StepEvent::PatrolDispatched { patrol_id, report_id }) => {
            assert_eq!(patrol_id, 0);
            assert_eq!(report_id, 0);
        },
        other => panic!("expected a dispatch, got {:?}", other),
    }
    let patrol = sim.patrols[0].clone();
    assert_eq!(patrol.id, 0);
    assert_eq!(patrol.vehicle_id, 0);
    let mut crew = patrol.policemen_ids.clone();
    crew.sort();
    assert_eq!(crew, vec![0, 1]);
    assert_eq!(patrol.sending_time, dispatch_time);
    assert!(patrol.arrival_time - patrol.sending_time >= 300);
    assert!(patrol.arrival_time - patrol.sending_time < 1200);
    assert!(patrol.finish_time - patrol.arrival_time >= 300);
    assert!(patrol.finish_time - patrol.arrival_time < 1200);
    assert!(matches!(sim.policemen[0].state, PolicemanState::Occupied));
    assert!(matches!(sim.policemen[1].state, PolicemanState::Occupied));
    assert!(matches!(sim.vehicles[0].state, VehicleState::Occupied));

    // step on until that patrol finishes; meanwhile other dispatches only retry
    let mut finished = false;
    for _ in 0..200 {
        match sim.step(&mut generator) {
            StepResult::Processed(StepEvent::PatrolFinished { patrol_id }) => {
                assert_eq!(patrol_id, 0);
                finished = true;
                break;
            },
            StepResult::Processed(StepEvent::PatrolDispatched { .. }) => {
                panic!("no second dispatch can succeed while everyone is occupied");
            },
            _ => {},
        }
    }
    assert!(finished, "the finish event fires at the patrol's finish time");
    assert!(matches!(sim.policemen[0].state, PolicemanState::Available));
    assert!(matches!(sim.policemen[1].state, PolicemanState::Available));
    assert!(matches!(sim.vehicles[0].state, VehicleState::Available));
}

/// Too few available policemen: the dispatch is retried, nothing moves.
#[test]
fn dispatch_retries_when_starved() {
    let mut generator = rng(5);
    let mut sim = Simulation::new(config(1, 1, far_snapshot()), tables(), places(), &mut generator);
    match sim.step(&mut generator) {
        StepResult::Processed(StepEvent::ReportFiled { .. }) => {},
        other => panic!("expected the initial report, got {:?}", other),
    }
    match sim.step(&mut generator) {
        StepResult::Processed(StepEvent::DispatchRetried { report_id, retry_time }) => {
            assert_eq!(report_id, 0);
            assert!(retry_time >= sim.now + 300 && retry_time < sim.now + 900);
        },
        other => panic!("expected a retry, got {:?}", other),
    }
    assert_eq!(sim.patrols.len(), 0);
    assert!(matches!(sim.policemen[0].state, PolicemanState::Available));
    assert!(matches!(sim.vehicles[0].state, VehicleState::Available));
}

/// A policeman whose resignation date has passed while he was Available
/// stays Available: the resignation event only replenishes headcount.
#[test]
fn resignation_does_not_touch_an_idle_policeman() {
    let mut generator = rng(9);
    let mut sim = Simulation::new(config(2, 1, far_snapshot()), tables(), places(), &mut generator);
    // his date is long past, yet nothing below may resign him
    sim.policemen[0].resignment_date = START - 86400;
    sim.events.push(Event { time: START, action: EventAction::PolicemanResignation });
    let mut saw_resignation = false;
    for _ in 0..10 {
        match sim.step(&mut generator) {
            StepResult::Processed(StepEvent::EmploymentScheduled { employment_time }) => {
                assert_eq!(employment_time, sim.now + 7 * 86400);
                saw_resignation = true;
                break;
            },
            _ => {},
        }
    }
    assert!(saw_resignation);
    assert!(sim.now >= sim.policemen[0].resignment_date);
    assert!(matches!(sim.policemen[0].state, PolicemanState::Available));
}

/// Conservation: the headcount is the initial cohort plus the employment
/// events processed, and ids are the positions.
#[test]
fn headcount_is_conserved() {
    let mut generator = rng(21);
    let mut sim = Simulation::new(config(3, 2, far_snapshot()), tables(), places(), &mut generator);
    let initial = sim.policemen.len();
    let mut employments = 0;
    for _ in 0..300 {
        match sim.step(&mut generator) {
            StepResult::Processed(StepEvent::PolicemanEmployed { policeman_id }) => {
                assert_eq!(policeman_id, initial + employments);
                employments += 1;
            },
            StepResult::QueueEmpty | StepResult::Halted | StepResult::TimeOverflow => break,
            _ => {},
        }
    }
    assert_eq!(sim.policemen.len(), initial + employments);
    for (i, p) in sim.policemen.iter().enumerate() {
        assert_eq!(p.person.id, i);
    }
}

/// A terminal snapshot halts the loop: later queued events are never
/// applied.
#[test]
fn terminal_snapshot_halts() {
    let mut generator = rng(33);
    let snaps = vec![
        SnapshotSpec { name: "SNAPSHOT_A_".to_string(), terminal: false, time: START + 50 },
        SnapshotSpec { name: "SNAPSHOT_B_".to_string(), terminal: true, time: START + 60 },
    ];
    let mut sim = Simulation::new(config(2, 1, snaps), tables(), places(), &mut generator);
    let mut reached_terminal = false;
    for _ in 0..50 {
        match sim.step(&mut generator) {
            StepResult::Processed(StepEvent::SnapshotReached { snapshot, terminal }) => {
                if terminal {
                    assert_eq!(snapshot, 1);
                    reached_terminal = true;
                    break;
                } else {
                    assert_eq!(snapshot, 0);
                    assert!(!sim.halted);
                }
            },
            StepResult::Halted => panic!("not halted before the terminal snapshot"),
            _ => {},
        }
    }
    assert!(reached_terminal);
    assert!(sim.halted);
    let reports_before = sim.reports.len();
    let policemen_before = sim.policemen.clone();
    for _ in 0..5 {
        assert!(matches!(sim.step(&mut generator), StepResult::Halted));
    }
    assert_eq!(sim.reports.len(), reports_before);
    assert_eq!(sim.policemen.len(), policemen_before.len());
}

/// One policeman gets a fresh surname from the table; states do not move.
#[test]
fn surname_change_touches_one_surname() {
    let mut generator = rng(57);
    let mut sim = Simulation::new(config(2, 1, far_snapshot()), tables(), places(), &mut generator);
    sim.events.push(Event { time: START, action: EventAction::PolicemanLastNameChange });
    let mut changed = false;
    for _ in 0..5 {
        match sim.step(&mut generator) {
            StepResult::Processed(StepEvent::SurnameChanged { policeman_id }) => {
                assert!(policeman_id < sim.policemen.len());
                let name = &sim.policemen[policeman_id].person.last_name;
                assert!(name == "Nowak" || name == "Kowalski");
                changed = true;
                break;
            },
            _ => {},
        }
    }
    assert!(changed);
}

/// An event beyond the representable horizon is refused, not applied.
#[test]
fn far_future_events_are_refused() {
    let mut generator = rng(3);
    let mut cfg = config(2, 1, Vec::new());
    cfg.start_time = MAX_EVENT_TIME - 100;
    let mut sim = Simulation::new(cfg, tables(), places(), &mut generator);
    match sim.step(&mut generator) {
        StepResult::Processed(StepEvent::ReportFiled { .. }) => {},
        other => panic!("expected the initial report, got {:?}", other),
    }
    let reports_before = sim.reports.len();
    match sim.step(&mut generator) {
        StepResult::TimeOverflow => {},
        other => panic!("expected the overflow refusal, got {:?}", other),
    }
    assert_eq!(sim.reports.len(), reports_before);
}

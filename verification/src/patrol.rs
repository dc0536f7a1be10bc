//! Patrols: immutable dispatch records.  Arrival and finish times are
//! derived from the sending time by two independently drawn travel and
//! handling durations.

use vstd::prelude::*;
use crate::dates;
use crate::rng::draw_range;

verus! {

/// 5 minutes, in seconds.
pub const MIN_SENDING_TO_ARRIVAL_SECONDS: u64 = 300;

/// 20 minutes, in seconds.
pub const MAX_SENDING_TO_ARRIVAL_SECONDS: u64 = 1200;

/// 5 minutes, in seconds.
pub const MIN_ARRIVAL_TO_FINISH_SECONDS: u64 = 300;

/// 20 minutes, in seconds.
pub const MAX_ARRIVAL_TO_FINISH_SECONDS: u64 = 1200;

#[derive(Debug, Clone)]
pub struct Patrol {
    pub id: usize,
    pub report_id: usize,
    pub policemen_ids: Vec<usize>,
    pub vehicle_id: usize,
    pub sending_time: i64,
    pub arrival_time: i64,
    pub finish_time: i64,
}

impl Patrol {
    /// Generate a patrol record for the given report, crew, vehicle and
    /// sending time, drawing the travel and handling durations.
    pub fn generate_with_report_id_policemen_vehicles_and_sending_time_and_id(
        generator: &mut rand::rngs::StdRng,
        report_id: usize,
        policemen_ids: Vec<usize>,
        vehicle_id: usize,
        sending_time: i64,
        id: usize,
    ) -> (p: Patrol)
        requires
            0 <= sending_time <= dates::MAX_EVENT_TIME,
        ensures
            p.id == id,
            p.report_id == report_id,
            p.policemen_ids@ == policemen_ids@,
            p.vehicle_id == vehicle_id,
            p.sending_time == sending_time,
            sending_time + MIN_SENDING_TO_ARRIVAL_SECONDS <= p.arrival_time < sending_time
                + MAX_SENDING_TO_ARRIVAL_SECONDS,
            p.arrival_time + MIN_ARRIVAL_TO_FINISH_SECONDS <= p.finish_time < p.arrival_time
                + MAX_ARRIVAL_TO_FINISH_SECONDS,
    {
        let arriving_time = draw_range(
            generator,
            MIN_SENDING_TO_ARRIVAL_SECONDS,
            MAX_SENDING_TO_ARRIVAL_SECONDS,
        );
        let arrival_time = sending_time + arriving_time as i64;
        let processing_time = draw_range(
            generator,
            MIN_ARRIVAL_TO_FINISH_SECONDS,
            MAX_ARRIVAL_TO_FINISH_SECONDS,
        );
        let finish_time = arrival_time + processing_time as i64;
        Patrol {
            id,
            report_id,
            policemen_ids,
            vehicle_id,
            sending_time,
            arrival_time,
            finish_time,
        }
    }
}

} // verus!

//! Reports: immutable incident records, created once per report event at a
//! uniformly random place, with a freshly generated reporter snapshot that
//! is linked to no policeman identity.

use vstd::prelude::*;
use crate::person::Person;
use crate::rng::draw_range;
use crate::string_occurrences::StringOccurrences;

verus! {

#[derive(Debug, Clone)]
pub struct Report {
    pub id: usize,
    pub report_type: String,
    pub time: i64,
    pub reporter: Person,
    pub place_id: usize,
}

impl Report {
    /// Generate a report at the given time and a random place.  The
    /// reporter gets a fixed id, as reporter identities are never linked.
    pub fn generate_with_time_and_id(
        generator: &mut rand::rngs::StdRng,
        report_types: &StringOccurrences,
        first_names: &StringOccurrences,
        last_names: &StringOccurrences,
        time: i64,
        max_place_id: usize,
        id: usize,
    ) -> (r: Report)
        requires
            report_types.wf(),
            report_types.total_occurrences > 0,
            first_names.wf(),
            first_names.total_occurrences > 0,
            last_names.wf(),
            last_names.total_occurrences > 0,
            max_place_id >= 1,
        ensures
            r.id == id,
            r.time == time,
            r.place_id < max_place_id,
            report_types.has_entry(r.report_type@),
            r.reporter.id == 0,
    {
        let place_id = draw_range(generator, 0, max_place_id as u64) as usize;
        Report {
            id,
            report_type: report_types.get_random_entry(generator),
            time,
            reporter: Person::generate_with_id(generator, first_names, last_names, 0),
            place_id,
        }
    }
}

} // verus!

//! Snapshot export: the comma-separated text of each registry, one row per
//! record, exactly as the row specs say.  Callers persist the returned
//! text under the snapshot's name; nothing here touches a file.

use vstd::prelude::*;
use crate::dates::{format_timestamp, time_text_of, MAX_TEXT_TIME};
use crate::patrol::Patrol;
use crate::person::Policeman;
use crate::place::Place;
use crate::report::Report;
use crate::text::{csv_line, new_string, spec_csv_line, spec_dec, u64_to_string, views_of};
use crate::vehicle::Vehicle;

verus! {

pub open spec fn place_row(p: Place) -> Seq<char> {
    spec_csv_line(seq![spec_dec(p.id as int), p.city@, p.street@])
}

pub open spec fn places_text(s: Seq<Place>) -> Seq<char>
    decreases s.len(),
{
    if s.len() == 0 {
        Seq::<char>::empty()
    } else {
        places_text(s.drop_last()) + place_row(s.last())
    }
}

pub open spec fn report_row(r: Report) -> Seq<char> {
    spec_csv_line(
        seq![
            spec_dec(r.id as int),
            spec_dec(r.place_id as int),
            time_text_of(r.time as int),
            r.report_type@,
            spec_dec(r.reporter.phone_number as int),
            r.reporter.first_name@,
            r.reporter.last_name@,
        ],
    )
}

pub open spec fn reports_text(s: Seq<Report>) -> Seq<char>
    decreases s.len(),
{
    if s.len() == 0 {
        Seq::<char>::empty()
    } else {
        reports_text(s.drop_last()) + report_row(s.last())
    }
}

pub open spec fn policeman_db_row(p: Policeman) -> Seq<char> {
    spec_csv_line(seq![spec_dec(p.person.id as int), spec_dec(p.service_number as int)])
}

pub open spec fn policemen_db_text(s: Seq<Policeman>) -> Seq<char>
    decreases s.len(),
{
    if s.len() == 0 {
        Seq::<char>::empty()
    } else {
        policemen_db_text(s.drop_last()) + policeman_db_row(s.last())
    }
}

pub open spec fn policeman_csv_row(p: Policeman) -> Seq<char> {
    spec_csv_line(
        seq![
            spec_dec(p.service_number as int),
            time_text_of(p.person.birth_date as int),
            time_text_of(p.employment_date as int),
            p.person.first_name@,
            p.person.last_name@,
            spec_dec(p.person.pesel_number as int),
            time_text_of(p.resignment_date as int),
        ],
    )
}

pub open spec fn policemen_csv_text(s: Seq<Policeman>) -> Seq<char>
    decreases s.len(),
{
    if s.len() == 0 {
        Seq::<char>::empty()
    } else {
        policemen_csv_text(s.drop_last()) + policeman_csv_row(s.last())
    }
}

/// The times a policeman row formats all lie in the calendar range.
pub open spec fn policeman_times_ok(p: Policeman) -> bool {
    &&& 0 <= p.person.birth_date <= MAX_TEXT_TIME
    &&& 0 <= p.employment_date <= MAX_TEXT_TIME
    &&& 0 <= p.resignment_date <= MAX_TEXT_TIME
}

pub open spec fn vehicle_csv_row(v: Vehicle) -> Seq<char> {
    spec_csv_line(
        seq![
            v.registration_plate@,
            v.model@,
            spec_dec(v.manufacture_year as int),
            spec_dec(v.seat_count as int),
        ],
    )
}

pub open spec fn vehicles_csv_text(s: Seq<Vehicle>) -> Seq<char>
    decreases s.len(),
{
    if s.len() == 0 {
        Seq::<char>::empty()
    } else {
        vehicles_csv_text(s.drop_last()) + vehicle_csv_row(s.last())
    }
}

pub open spec fn vehicle_db_row(v: Vehicle) -> Seq<char> {
    spec_csv_line(seq![spec_dec(v.id as int), v.registration_plate@, v.vehicle_type@])
}

pub open spec fn vehicles_db_text(s: Seq<Vehicle>) -> Seq<char>
    decreases s.len(),
{
    if s.len() == 0 {
        Seq::<char>::empty()
    } else {
        vehicles_db_text(s.drop_last()) + vehicle_db_row(s.last())
    }
}

pub open spec fn patrol_row(p: Patrol) -> Seq<char> {
    spec_csv_line(
        seq![
            spec_dec(p.id as int),
            spec_dec(p.vehicle_id as int),
            spec_dec(p.report_id as int),
            time_text_of(p.sending_time as int),
            time_text_of(p.arrival_time as int),
            time_text_of(p.finish_time as int),
        ],
    )
}

pub open spec fn patrols_text(s: Seq<Patrol>) -> Seq<char>
    decreases s.len(),
{
    if s.len() == 0 {
        Seq::<char>::empty()
    } else {
        patrols_text(s.drop_last()) + patrol_row(s.last())
    }
}

pub open spec fn patrol_times_ok(p: Patrol) -> bool {
    &&& 0 <= p.sending_time <= MAX_TEXT_TIME
    &&& 0 <= p.arrival_time <= MAX_TEXT_TIME
    &&& 0 <= p.finish_time <= MAX_TEXT_TIME
}

/// One row per crew member of one patrol.
pub open spec fn crew_rows(patrol_id: int, ids: Seq<usize>) -> Seq<char>
    decreases ids.len(),
{
    if ids.len() == 0 {
        Seq::<char>::empty()
    } else {
        crew_rows(patrol_id, ids.drop_last()) + spec_csv_line(
            seq![spec_dec(patrol_id), spec_dec(ids.last() as int)],
        )
    }
}

pub open spec fn policemen_patrols_text(s: Seq<Patrol>) -> Seq<char>
    decreases s.len(),
{
    if s.len() == 0 {
        Seq::<char>::empty()
    } else {
        policemen_patrols_text(s.drop_last()) + crew_rows(
            s.last().id as int,
            s.last().policemen_ids@,
        )
    }
}

/// The place rows of a snapshot.
pub fn write_places_to_file(places: &Vec<Place>) -> (r: String)
    ensures
        r@ == places_text(places@),
{
    let mut r = new_string();
    let mut i: usize = 0;
    proof {
        assert(places@.take(0) =~= Seq::<Place>::empty());
    }
    while i < places.len()
        invariant
            i <= places@.len(),
            r@ =~= places_text(places@.take(i as int)),
        decreases places@.len() - i,
    {
        proof {
            assert(places@.take(i + 1).drop_last() =~= places@.take(i as int));
        }
        let mut items: Vec<String> = Vec::new();
        items.push(u64_to_string(places[i].id as u64));
        items.push(places[i].city.clone());
        items.push(places[i].street.clone());
        let line = csv_line(&items);
        proof {
            assert(views_of(items@) =~= seq![
                spec_dec(places@[i as int].id as int),
                places@[i as int].city@,
                places@[i as int].street@,
            ]);
        }
        r.append(line.as_str());
        proof {
            assert(r@ =~= places_text(places@.take(i + 1)));
        }
        i += 1;
    }
    proof {
        assert(places@.take(places@.len() as int) =~= places@);
    }
    r
}

/// The report rows of a snapshot.
pub fn write_reports_to_file(reports: &Vec<Report>) -> (r: String)
    requires
        forall|j: int|
            0 <= j < reports@.len() ==> 0 <= #[trigger] reports@[j].time <= MAX_TEXT_TIME,
    ensures
        r@ == reports_text(reports@),
{
    let mut r = new_string();
    let mut i: usize = 0;
    proof {
        assert(reports@.take(0) =~= Seq::<Report>::empty());
    }
    while i < reports.len()
        invariant
            i <= reports@.len(),
            forall|j: int|
                0 <= j < reports@.len() ==> 0 <= #[trigger] reports@[j].time <= MAX_TEXT_TIME,
            r@ =~= reports_text(reports@.take(i as int)),
        decreases reports@.len() - i,
    {
        proof {
            assert(reports@.take(i + 1).drop_last() =~= reports@.take(i as int));
        }
        let mut items: Vec<String> = Vec::new();
        items.push(u64_to_string(reports[i].id as u64));
        items.push(u64_to_string(reports[i].place_id as u64));
        items.push(format_timestamp(reports[i].time));
        items.push(reports[i].report_type.clone());
        items.push(u64_to_string(reports[i].reporter.phone_number));
        items.push(reports[i].reporter.first_name.clone());
        items.push(reports[i].reporter.last_name.clone());
        let line = csv_line(&items);
        proof {
            assert(views_of(items@) =~= seq![
                spec_dec(reports@[i as int].id as int),
                spec_dec(reports@[i as int].place_id as int),
                time_text_of(reports@[i as int].time as int),
                reports@[i as int].report_type@,
                spec_dec(reports@[i as int].reporter.phone_number as int),
                reports@[i as int].reporter.first_name@,
                reports@[i as int].reporter.last_name@,
            ]);
        }
        r.append(line.as_str());
        proof {
            assert(r@ =~= reports_text(reports@.take(i + 1)));
        }
        i += 1;
    }
    proof {
        assert(reports@.take(reports@.len() as int) =~= reports@);
    }
    r
}

/// The id and service number rows of a snapshot.
pub fn write_database_policemen_to_file(policemen: &Vec<Policeman>) -> (r: String)
    ensures
        r@ == policemen_db_text(policemen@),
{
    let mut r = new_string();
    let mut i: usize = 0;
    proof {
        assert(policemen@.take(0) =~= Seq::<Policeman>::empty());
    }
    while i < policemen.len()
        invariant
            i <= policemen@.len(),
            r@ =~= policemen_db_text(policemen@.take(i as int)),
        decreases policemen@.len() - i,
    {
        proof {
            assert(policemen@.take(i + 1).drop_last() =~= policemen@.take(i as int));
        }
        let mut items: Vec<String> = Vec::new();
        items.push(u64_to_string(policemen[i].person.id as u64));
        items.push(u64_to_string(policemen[i].service_number as u64));
        let line = csv_line(&items);
        proof {
            assert(views_of(items@) =~= seq![
                spec_dec(policemen@[i as int].person.id as int),
                spec_dec(policemen@[i as int].service_number as int),
            ]);
        }
        r.append(line.as_str());
        proof {
            assert(r@ =~= policemen_db_text(policemen@.take(i + 1)));
        }
        i += 1;
    }
    proof {
        assert(policemen@.take(policemen@.len() as int) =~= policemen@);
    }
    r
}

/// The full personnel rows of a snapshot.
pub fn write_csv_policemen_to_file(policemen: &Vec<Policeman>) -> (r: String)
    requires
        forall|j: int| 0 <= j < policemen@.len() ==> #[trigger] policeman_times_ok(policemen@[j]),
    ensures
        r@ == policemen_csv_text(policemen@),
{
    let mut r = new_string();
    let mut i: usize = 0;
    proof {
        assert(policemen@.take(0) =~= Seq::<Policeman>::empty());
    }
    while i < policemen.len()
        invariant
            i <= policemen@.len(),
            forall|j: int|
                0 <= j < policemen@.len() ==> #[trigger] policeman_times_ok(policemen@[j]),
            r@ =~= policemen_csv_text(policemen@.take(i as int)),
        decreases policemen@.len() - i,
    {
        proof {
            assert(policemen@.take(i + 1).drop_last() =~= policemen@.take(i as int));
            assert(policeman_times_ok(policemen@[i as int]));
        }
        let mut items: Vec<String> = Vec::new();
        items.push(u64_to_string(policemen[i].service_number as u64));
        items.push(format_timestamp(policemen[i].person.birth_date));
        items.push(format_timestamp(policemen[i].employment_date));
        items.push(policemen[i].person.first_name.clone());
        items.push(policemen[i].person.last_name.clone());
        items.push(u64_to_string(policemen[i].person.pesel_number));
        items.push(format_timestamp(policemen[i].resignment_date));
        let line = csv_line(&items);
        proof {
            assert(views_of(items@) =~= seq![
                spec_dec(policemen@[i as int].service_number as int),
                time_text_of(policemen@[i as int].person.birth_date as int),
                time_text_of(policemen@[i as int].employment_date as int),
                policemen@[i as int].person.first_name@,
                policemen@[i as int].person.last_name@,
                spec_dec(policemen@[i as int].person.pesel_number as int),
                time_text_of(policemen@[i as int].resignment_date as int),
            ]);
        }
        r.append(line.as_str());
        proof {
            assert(r@ =~= policemen_csv_text(policemen@.take(i + 1)));
        }
        i += 1;
    }
    proof {
        assert(policemen@.take(policemen@.len() as int) =~= policemen@);
    }
    r
}

/// The vehicle attribute rows of a snapshot.
pub fn write_csv_vehicle_to_file(vehicles: &Vec<Vehicle>) -> (r: String)
    ensures
        r@ == vehicles_csv_text(vehicles@),
{
    let mut r = new_string();
    let mut i: usize = 0;
    proof {
        assert(vehicles@.take(0) =~= Seq::<Vehicle>::empty());
    }
    while i < vehicles.len()
        invariant
            i <= vehicles@.len(),
            r@ =~= vehicles_csv_text(vehicles@.take(i as int)),
        decreases vehicles@.len() - i,
    {
        proof {
            assert(vehicles@.take(i + 1).drop_last() =~= vehicles@.take(i as int));
        }
        let mut items: Vec<String> = Vec::new();
        items.push(vehicles[i].registration_plate.clone());
        items.push(vehicles[i].model.clone());
        items.push(u64_to_string(vehicles[i].manufacture_year as u64));
        items.push(u64_to_string(vehicles[i].seat_count as u64));
        let line = csv_line(&items);
        proof {
            assert(views_of(items@) =~= seq![
                vehicles@[i as int].registration_plate@,
                vehicles@[i as int].model@,
                spec_dec(vehicles@[i as int].manufacture_year as int),
                spec_dec(vehicles@[i as int].seat_count as int),
            ]);
        }
        r.append(line.as_str());
        proof {
            assert(r@ =~= vehicles_csv_text(vehicles@.take(i + 1)));
        }
        i += 1;
    }
    proof {
        assert(vehicles@.take(vehicles@.len() as int) =~= vehicles@);
    }
    r
}

/// The vehicle id rows of a snapshot.
pub fn write_database_vehicle_to_file(vehicles: &Vec<Vehicle>) -> (r: String)
    ensures
        r@ == vehicles_db_text(vehicles@),
{
    let mut r = new_string();
    let mut i: usize = 0;
    proof {
        assert(vehicles@.take(0) =~= Seq::<Vehicle>::empty());
    }
    while i < vehicles.len()
        invariant
            i <= vehicles@.len(),
            r@ =~= vehicles_db_text(vehicles@.take(i as int)),
        decreases vehicles@.len() - i,
    {
        proof {
            assert(vehicles@.take(i + 1).drop_last() =~= vehicles@.take(i as int));
        }
        let mut items: Vec<String> = Vec::new();
        items.push(u64_to_string(vehicles[i].id as u64));
        items.push(vehicles[i].registration_plate.clone());
        items.push(vehicles[i].vehicle_type.clone());
        let line = csv_line(&items);
        proof {
            assert(views_of(items@) =~= seq![
                spec_dec(vehicles@[i as int].id as int),
                vehicles@[i as int].registration_plate@,
                vehicles@[i as int].vehicle_type@,
            ]);
        }
        r.append(line.as_str());
        proof {
            assert(r@ =~= vehicles_db_text(vehicles@.take(i + 1)));
        }
        i += 1;
    }
    proof {
        assert(vehicles@.take(vehicles@.len() as int) =~= vehicles@);
    }
    r
}

/// The patrol rows of a snapshot.
pub fn write_patrols_to_file(patrols: &Vec<Patrol>) -> (r: String)
    requires
        forall|j: int| 0 <= j < patrols@.len() ==> #[trigger] patrol_times_ok(patrols@[j]),
    ensures
        r@ == patrols_text(patrols@),
{
    let mut r = new_string();
    let mut i: usize = 0;
    proof {
        assert(patrols@.take(0) =~= Seq::<Patrol>::empty());
    }
    while i < patrols.len()
        invariant
            i <= patrols@.len(),
            forall|j: int| 0 <= j < patrols@.len() ==> #[trigger] patrol_times_ok(patrols@[j]),
            r@ =~= patrols_text(patrols@.take(i as int)),
        decreases patrols@.len() - i,
    {
        proof {
            assert(patrols@.take(i + 1).drop_last() =~= patrols@.take(i as int));
            assert(patrol_times_ok(patrols@[i as int]));
        }
        let mut items: Vec<String> = Vec::new();
        items.push(u64_to_string(patrols[i].id as u64));
        items.push(u64_to_string(patrols[i].vehicle_id as u64));
        items.push(u64_to_string(patrols[i].report_id as u64));
        items.push(format_timestamp(patrols[i].sending_time));
        items.push(format_timestamp(patrols[i].arrival_time));
        items.push(format_timestamp(patrols[i].finish_time));
        let line = csv_line(&items);
        proof {
            assert(views_of(items@) =~= seq![
                spec_dec(patrols@[i as int].id as int),
                spec_dec(patrols@[i as int].vehicle_id as int),
                spec_dec(patrols@[i as int].report_id as int),
                time_text_of(patrols@[i as int].sending_time as int),
                time_text_of(patrols@[i as int].arrival_time as int),
                time_text_of(patrols@[i as int].finish_time as int),
            ]);
        }
        r.append(line.as_str());
        proof {
            assert(r@ =~= patrols_text(patrols@.take(i + 1)));
        }
        i += 1;
    }
    proof {
        assert(patrols@.take(patrols@.len() as int) =~= patrols@);
    }
    r
}

/// The patrol-to-policeman pairing rows of a snapshot.
pub fn write_policeman_patrol_to_file(patrols: &Vec<Patrol>) -> (r: String)
    ensures
        r@ == policemen_patrols_text(patrols@),
{
    let mut r = new_string();
    let mut i: usize = 0;
    proof {
        assert(patrols@.take(0) =~= Seq::<Patrol>::empty());
    }
    while i < patrols.len()
        invariant
            i <= patrols@.len(),
            r@ =~= policemen_patrols_text(patrols@.take(i as int)),
        decreases patrols@.len() - i,
    {
        proof {
            assert(patrols@.take(i + 1).drop_last() =~= patrols@.take(i as int));
        }
        let ghost pid = patrols@[i as int].id as int;
        let ghost ids = patrols@[i as int].policemen_ids@;
        let mut k: usize = 0;
        proof {
            assert(ids.take(0) =~= Seq::<usize>::empty());
            assert(r@ =~= policemen_patrols_text(patrols@.take(i as int)) + crew_rows(
                pid,
                ids.take(0),
            ));
        }
        while k < patrols[i].policemen_ids.len()
            invariant
                i < patrols@.len(),
                k <= ids.len(),
                pid == patrols@[i as int].id as int,
                ids == patrols@[i as int].policemen_ids@,
                r@ =~= policemen_patrols_text(patrols@.take(i as int)) + crew_rows(
                    pid,
                    ids.take(k as int),
                ),
            decreases ids.len() - k,
        {
            proof {
                assert(ids.take(k + 1).drop_last() =~= ids.take(k as int));
            }
            let mut items: Vec<String> = Vec::new();
            items.push(u64_to_string(patrols[i].id as u64));
            items.push(u64_to_string(patrols[i].policemen_ids[k] as u64));
            let line = csv_line(&items);
            proof {
                assert(views_of(items@) =~= seq![spec_dec(pid), spec_dec(ids[k as int] as int)]);
            }
            r.append(line.as_str());
            proof {
                assert(r@ =~= policemen_patrols_text(patrols@.take(i as int)) + crew_rows(
                    pid,
                    ids.take(k + 1),
                ));
            }
            k += 1;
        }
        proof {
            assert(ids.take(ids.len() as int) =~= ids);
            assert(r@ =~= policemen_patrols_text(patrols@.take(i + 1)));
        }
        i += 1;
    }
    proof {
        assert(patrols@.take(patrols@.len() as int) =~= patrols@);
    }
    r
}

} // verus!

use patrol_sim::export::{
    write_csv_vehicle_to_file, write_database_vehicle_to_file, write_patrols_to_file,
    write_places_to_file, write_policeman_patrol_to_file,
};
use patrol_sim::patrol::Patrol;
use patrol_sim::place::Place;
use patrol_sim::vehicle::{Vehicle, VehicleState};

fn sample_places() -> Vec<Place> {
    vec![
        Place { id: 0, city: "Warszawa".to_string(), street: "Mokotowska".to_string() },
        Place { id: 1, city: "Krakow".to_string(), street: "Dluga".to_string() },
    ]
}

fn sample_vehicle(id: usize) -> Vehicle {
    Vehicle {
        id,
        model: "Skoda Octavia".to_string(),
        registration_plate: "WA 12345".to_string(),
        manufacture_year: 2012,
        seat_count: 5,
        state: VehicleState::Available,
        vehicle_type: "terenowy".to_string(),
    }
}

fn sample_patrol() -> Patrol {
    Patrol {
        id: 0,
        report_id: 3,
        policemen_ids: vec![4, 9],
        vehicle_id: 1,
        sending_time: 1_433_116_800,
        arrival_time: 1_433_117_400,
        finish_time: 1_433_118_000,
    }
}

#[test]
fn places_export_is_exact() {
    let text = write_places_to_file(&sample_places());
    assert_eq!(text, "0,Warszawa,Mokotowska\n1,Krakow,Dluga\n");
}

#[test]
fn empty_export_is_empty() {
    let no_places: Vec<Place> = Vec::new();
    assert_eq!(write_places_to_file(&no_places), "");
}

#[test]
fn vehicle_exports_are_exact() {
    let vehicles = vec![sample_vehicle(0), sample_vehicle(1)];
    assert_eq!(
        write_csv_vehicle_to_file(&vehicles),
        "WA 12345,Skoda Octavia,2012,5\nWA 12345,Skoda Octavia,2012,5\n",
    );
    assert_eq!(
        write_database_vehicle_to_file(&vehicles),
        "0,WA 12345,terenowy\n1,WA 12345,terenowy\n",
    );
}

#[test]
fn patrol_export_formats_times_as_utc() {
    let patrols = vec![sample_patrol()];
    assert_eq!(
        write_patrols_to_file(&patrols),
        "0,1,3,2015-06-01 00:00:00 UTC,2015-06-01 00:10:00 UTC,2015-06-01 00:20:00 UTC\n",
    );
}

#[test]
fn patrol_crew_rows_list_each_member() {
    let patrols = vec![sample_patrol()];
    assert_eq!(write_policeman_patrol_to_file(&patrols), "0,4\n0,9\n");
}

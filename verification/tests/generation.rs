use chrono::Datelike;
use rand::SeedableRng;

use patrol_sim::person::{Policeman, PolicemanState};
use patrol_sim::place::create_places_from_str;
use patrol_sim::string_occurrences::StringOccurrences;
use patrol_sim::text::{try_parse_u32, u64_to_string};
use patrol_sim::vehicle::Vehicle;

fn rng(seed: u64) -> rand::rngs::StdRng {
    rand::rngs::StdRng::seed_from_u64(seed)
}

fn table(data: &str) -> StringOccurrences {
    StringOccurrences::from_str(data).expect("the table text should parse")
}

#[test]
fn should_generate_policeman() {
    let mut generator = rng(7);
    let first_names = table("Jan,3\nPiotr,2");
    let last_names = table("Nowak,5\nKowalski,1");
    let ranks = table("sierzant,2\naspirant,1");
    for _ in 0..100 {
        let a = Policeman::generate_with_id(&mut generator, &first_names, &last_names, &ranks, 0);
        assert_eq!(a.person.id, 0);
        assert!(matches!(a.state, PolicemanState::Available));
    }
}

#[test]
fn policeman_dates_are_ordered() {
    let mut generator = rng(11);
    let names = table("Jan,1");
    let ranks = table("sierzant,1");
    for _ in 0..50 {
        let p = Policeman::generate_with_id(&mut generator, &names, &names, &ranks, 3);
        assert!(p.person.birth_date < p.employment_date);
        assert!(p.employment_date < p.resignment_date);
        assert!(p.resignment_date - p.employment_date >= 365 * 86400);
        assert!(p.resignment_date - p.employment_date < 7305 * 86400);
        assert!((100000..999999).contains(&p.service_number));
        assert!((100000000..999999999).contains(&p.person.phone_number));
    }
}

#[test]
fn pesel_encodes_the_first_birth_date() {
    let mut generator = rng(13);
    let names = table("Jan,1");
    let ranks = table("r,1");
    for _ in 0..50 {
        let p = Policeman::generate_with_id(&mut generator, &names, &names, &ranks, 0);
        let birth = chrono::DateTime::<chrono::Utc>::from_timestamp(p.person.birth_date, 0)
            .expect("in range");
        let expected_prefix = ((birth.year() as u64 % 100) * 100 + birth.month() as u64) * 100
            + birth.day() as u64;
        assert_eq!(p.person.pesel_number / 100000, expected_prefix);
        let suffix = p.person.pesel_number % 100000;
        assert!((10000..99999).contains(&suffix));
    }
}

#[test]
fn vehicle_attributes_are_in_range() {
    let mut generator = rng(17);
    let models = table("Skoda Octavia,4\nKia Ceed,2");
    let codes = table("WA,3\nKR,1");
    for i in 0..50 {
        let v = Vehicle::generate_with_id(&mut generator, &models, &codes, i);
        assert_eq!(v.id, i);
        assert_eq!(v.registration_plate.chars().count(), 8);
        assert!((2005..2020).contains(&v.manufacture_year));
        assert_eq!(v.seat_count, 5);
        assert_eq!(v.vehicle_type, "terenowy");
        assert!(v.model == "Skoda Octavia" || v.model == "Kia Ceed");
    }
}

#[test]
fn table_parsing_is_exact() {
    let t = table("Adam,3\nEwa,2\nbez przecinka\nOla,0");
    assert_eq!(t.total_occurrences, 5);
    assert_eq!(t.entries.len(), 3);
    assert_eq!(t.entries[0].entry, "Adam");
    assert_eq!(t.entries[0].occurrences, 3);
    assert_eq!(t.entries[1].entry, "Ewa");
    assert_eq!(t.entries[1].occurrences, 2);
    assert_eq!(t.entries[2].entry, "Ola");
    assert_eq!(t.entries[2].occurrences, 0);
}

#[test]
fn table_parsing_rejects_bad_counts() {
    assert!(StringOccurrences::from_str("Adam,trzy").is_none());
    assert!(StringOccurrences::from_str("Adam,").is_none());
    assert!(StringOccurrences::from_str("Adam,4294967296").is_none());
    assert!(StringOccurrences::from_str("A,4294967295\nB,1").is_none());
    assert!(StringOccurrences::from_str("A,4294967295").is_some());
}

#[test]
fn weighted_draw_returns_a_label() {
    let mut generator = rng(19);
    let t = table("jedyny,1");
    for _ in 0..10 {
        assert_eq!(t.get_random_entry(&mut generator), "jedyny");
    }
    let t2 = table("a,2\nb,3");
    for _ in 0..50 {
        let e = t2.get_random_entry(&mut generator);
        assert!(e == "a" || e == "b");
    }
}

#[test]
fn zero_weight_labels_are_never_drawn() {
    let mut generator = rng(23);
    let t = table("nigdy,0\nzawsze,1\ntakze_nigdy,0");
    for _ in 0..200 {
        assert_eq!(t.get_random_entry(&mut generator), "zawsze");
    }
}

#[test]
fn plate_is_code_space_and_alphabet_padding() {
    let mut generator = rng(29);
    let models = table("Kia Ceed,1");
    let codes = table("WA,1");
    for _ in 0..30 {
        let v = Vehicle::generate_with_id(&mut generator, &models, &codes, 0);
        let chars: Vec<char> = v.registration_plate.chars().collect();
        assert_eq!(chars.len(), 8);
        assert_eq!(&chars[0..2], &['W', 'A']);
        assert_eq!(chars[2], ' ');
        for c in &chars[3..] {
            assert!(c.is_ascii_digit() || c.is_ascii_uppercase());
        }
    }
}

#[test]
fn places_are_parsed_in_order() {
    let places = create_places_from_str("Warszawa,Mokotowska\nKrakow,Dluga\nzlylinia\n");
    assert_eq!(places.len(), 2);
    assert_eq!(places[0].id, 0);
    assert_eq!(places[0].city, "Warszawa");
    assert_eq!(places[0].street, "Mokotowska");
    assert_eq!(places[1].id, 1);
    assert_eq!(places[1].city, "Krakow");
    assert_eq!(places[1].street, "Dluga");
}

#[test]
fn decimal_formatting_and_parsing() {
    assert_eq!(u64_to_string(0), "0");
    assert_eq!(u64_to_string(7), "7");
    assert_eq!(u64_to_string(1433116800), "1433116800");
    assert_eq!(u64_to_string(u64::MAX), "18446744073709551615");
    assert_eq!(try_parse_u32("123"), Some(123));
    assert_eq!(try_parse_u32("+123"), Some(123));
    assert_eq!(try_parse_u32("4294967295"), Some(u32::MAX));
    assert_eq!(try_parse_u32("4294967296"), None);
    assert_eq!(try_parse_u32(""), None);
    assert_eq!(try_parse_u32("12a"), None);
}

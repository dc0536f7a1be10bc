//! Persons and policemen, and the random generation of their attributes.
//!
//! A policeman's resignation date is fixed once, when he is created, and is
//! never recomputed; the scheduler consults it only when a patrol of his
//! finishes.

use vstd::prelude::*;
use crate::dates::{self, ymd_of, SECONDS_PER_DAY};
use crate::rng::draw_range;
use crate::string_occurrences::StringOccurrences;

verus! {

pub const PHONE_NUMBER_MIN: u64 = 100000000;

pub const PHONE_NUMBER_MAX: u64 = 999999999;

pub const PESEL_SUFFIX_MAX: u64 = 99999;

pub const PESEL_SUFFIX_MIN: u64 = 10000;

pub const SERVICE_NUMBER_MIN: u32 = 100000;

pub const SERVICE_NUMBER_MAX: u32 = 999999;

/// 21 years, in days.
pub const MIN_DAYS_AFTER_BIRTH_TO_EMPLOYMENT: u64 = 7670;

/// 35 years, in days.
pub const MAX_DAYS_AFTER_BIRTH_TO_EMPLOYMENT: u64 = 12783;

/// 1 year, in days.
pub const MIN_EMPLOYMENT_DURATION: u64 = 365;

/// 20 years, in days.
pub const MAX_EMPLOYMENT_DURATION: u64 = 7305;

/// The start of 1970, the earliest birth date drawn.
pub const MIN_BIRTH_DATE: i64 = 0;

/// The start of 1995-12-01, the latest birth date drawn.
pub const MAX_BIRTH_DATE: i64 = 817_776_000;

/// The earliest employment date the generators accept, so that a birth
/// date derived backwards from it stays after the start of 1970.
pub const EMPLOYMENT_DATE_FLOOR: i64 = 1_104_451_200;

/// An immutable snapshot of a person; only the surname is ever replaced,
/// through the explicit rename operation.
#[derive(Debug, Clone)]
pub struct Person {
    pub id: usize,
    pub first_name: String,
    pub last_name: String,
    pub birth_date: i64,
    pub phone_number: u64,
    pub pesel_number: u64,
}

#[derive(Debug, Copy, Clone, PartialEq, Eq, Structural)]
pub enum PolicemanState {
    Available,
    Occupied,
    Resigned,
}

#[derive(Debug, Clone)]
pub struct Policeman {
    pub person: Person,
    pub state: PolicemanState,
    pub service_number: u32,
    pub rank: String,
    pub employment_date: i64,
    pub resignment_date: i64,
}

/// The national identifier derived from a birth date: two digits each of
/// year, month and day, then a five-digit suffix.
pub open spec fn spec_pesel(birth: int, suffix: int) -> int {
    (((ymd_of(birth).0 % 100) * 100 + ymd_of(birth).1) * 100 + ymd_of(birth).2) * 100000 + suffix
}

/// `p` encodes the calendar date of `birth` followed by some in-range
/// suffix.
pub open spec fn pesel_matches(p: int, birth: int) -> bool {
    exists|suffix: int|
        PESEL_SUFFIX_MIN <= suffix < PESEL_SUFFIX_MAX && p == spec_pesel(birth, suffix)
}

/// A birth date drawn uniformly from the configured range, cut back to
/// midnight.
fn generate_birth_date(generator: &mut rand::rngs::StdRng) -> (b: i64)
    ensures
        MIN_BIRTH_DATE <= b < MAX_BIRTH_DATE,
        b as int % (SECONDS_PER_DAY as int) == 0,
{
    let t = draw_range(generator, 0, MAX_BIRTH_DATE as u64) as i64;
    let r = t % SECONDS_PER_DAY;
    let b = t - r;
    proof {
        vstd::arithmetic::div_mod::lemma_fundamental_div_mod(t as int, SECONDS_PER_DAY as int);
        let q = t as int / (SECONDS_PER_DAY as int);
        assert(b as int == (SECONDS_PER_DAY as int) * q);
        assert(((SECONDS_PER_DAY as int) * q) % (SECONDS_PER_DAY as int) == 0)
            by (nonlinear_arith);
    }
    b
}

/// A birth date a whole number of days before the given employment date,
/// between 21 and 35 years back.
fn generate_birth_date_from_employment_date(
    generator: &mut rand::rngs::StdRng,
    employment_date: i64,
) -> (b: i64)
    requires
        EMPLOYMENT_DATE_FLOOR <= employment_date,
    ensures
        employment_date - (MAX_DAYS_AFTER_BIRTH_TO_EMPLOYMENT as int) * (SECONDS_PER_DAY as int)
            < b <= employment_date - (MIN_DAYS_AFTER_BIRTH_TO_EMPLOYMENT as int) * (
        SECONDS_PER_DAY as int),
        0 < b,
{
    let days = draw_range(
        generator,
        MIN_DAYS_AFTER_BIRTH_TO_EMPLOYMENT,
        MAX_DAYS_AFTER_BIRTH_TO_EMPLOYMENT,
    );
    let b = employment_date - (days as i64) * SECONDS_PER_DAY;
    proof {
        assert(MIN_DAYS_AFTER_BIRTH_TO_EMPLOYMENT <= days < MAX_DAYS_AFTER_BIRTH_TO_EMPLOYMENT
            && b == employment_date - (days as int) * (SECONDS_PER_DAY as int));
    }
    b
}

/// An employment date a whole number of days after the given birth date,
/// between 21 and 35 years on.
fn generate_employment_date_from_birth_date(
    generator: &mut rand::rngs::StdRng,
    birth_date: i64,
) -> (e: i64)
    requires
        0 <= birth_date <= MAX_BIRTH_DATE,
    ensures
        birth_date + (MIN_DAYS_AFTER_BIRTH_TO_EMPLOYMENT as int) * (SECONDS_PER_DAY as int) <= e
            < birth_date + (MAX_DAYS_AFTER_BIRTH_TO_EMPLOYMENT as int) * (SECONDS_PER_DAY as int),
{
    let days = draw_range(
        generator,
        MIN_DAYS_AFTER_BIRTH_TO_EMPLOYMENT,
        MAX_DAYS_AFTER_BIRTH_TO_EMPLOYMENT,
    );
    let e = birth_date + (days as i64) * SECONDS_PER_DAY;
    proof {
        assert(MIN_DAYS_AFTER_BIRTH_TO_EMPLOYMENT <= days < MAX_DAYS_AFTER_BIRTH_TO_EMPLOYMENT
            && e == birth_date + (days as int) * (SECONDS_PER_DAY as int));
    }
    e
}

/// A resignation date a whole number of days after the employment date,
/// between 1 and 20 years on; fixed here once and never recomputed.
fn generate_resignation_date_from_employment_date(
    generator: &mut rand::rngs::StdRng,
    employment_date: i64,
) -> (r: i64)
    requires
        0 <= employment_date <= dates::MAX_EVENT_TIME,
    ensures
        employment_date + (MIN_EMPLOYMENT_DURATION as int) * (SECONDS_PER_DAY as int) <= r
            < employment_date + (MAX_EMPLOYMENT_DURATION as int) * (SECONDS_PER_DAY as int),
{
    let days = draw_range(generator, MIN_EMPLOYMENT_DURATION, MAX_EMPLOYMENT_DURATION);
    let r = employment_date + (days as i64) * SECONDS_PER_DAY;
    proof {
        assert(MIN_EMPLOYMENT_DURATION <= days < MAX_EMPLOYMENT_DURATION && r == employment_date
            + (days as int) * (SECONDS_PER_DAY as int));
    }
    r
}

/// Encode a birth date as a national identifier with a random suffix.
fn birth_date_to_pesel(generator: &mut rand::rngs::StdRng, birth_date: i64) -> (p: u64)
    requires
        0 <= birth_date <= dates::MAX_TEXT_TIME,
    ensures
        pesel_matches(p as int, birth_date as int),
{
    let (year, month, day) = dates::civil_from_timestamp(birth_date);
    let mut output: u64 = (year % 100) as u64;
    output = output * 100;
    output = output + month as u64;
    output = output * 100;
    output = output + day as u64;
    output = output * 100000;
    let suffix = draw_range(generator, PESEL_SUFFIX_MIN, PESEL_SUFFIX_MAX);
    output = output + suffix;
    proof {
        assert(output as int == spec_pesel(birth_date as int, suffix as int));
    }
    output
}

impl Person {
    /// Generate a person with fresh random attributes and the given id.
    pub fn generate_with_id(
        generator: &mut rand::rngs::StdRng,
        first_names: &StringOccurrences,
        last_names: &StringOccurrences,
        id: usize,
    ) -> (p: Person)
        requires
            first_names.wf(),
            first_names.total_occurrences > 0,
            last_names.wf(),
            last_names.total_occurrences > 0,
        ensures
            p.id == id,
            MIN_BIRTH_DATE <= p.birth_date < MAX_BIRTH_DATE,
            p.birth_date as int % (SECONDS_PER_DAY as int) == 0,
            PHONE_NUMBER_MIN <= p.phone_number < PHONE_NUMBER_MAX,
            pesel_matches(p.pesel_number as int, p.birth_date as int),
            first_names.has_entry(p.first_name@),
            last_names.has_entry(p.last_name@),
    {
        let birth_date = generate_birth_date(generator);
        let pesel = birth_date_to_pesel(generator, birth_date);
        Person {
            id,
            first_name: first_names.get_random_entry(generator),
            last_name: last_names.get_random_entry(generator),
            birth_date,
            phone_number: draw_range(generator, PHONE_NUMBER_MIN, PHONE_NUMBER_MAX),
            pesel_number: pesel,
        }
    }

    /// Replace the surname with a fresh weighted draw; nothing else moves.
    pub fn change_to_random_surname(
        &mut self,
        generator: &mut rand::rngs::StdRng,
        last_names: &StringOccurrences,
    )
        requires
            last_names.wf(),
            last_names.total_occurrences > 0,
        ensures
            last_names.has_entry(final(self).last_name@),
            final(self).id == old(self).id,
            final(self).first_name == old(self).first_name,
            final(self).birth_date == old(self).birth_date,
            final(self).phone_number == old(self).phone_number,
            final(self).pesel_number == old(self).pesel_number,
    {
        let new_name = last_names.get_random_entry(generator);
        self.last_name = new_name;
    }
}

impl Policeman {
    /// Generate a policeman whose employment date follows from a freshly
    /// drawn birth date.
    pub fn generate_with_id(
        generator: &mut rand::rngs::StdRng,
        first_names: &StringOccurrences,
        last_names: &StringOccurrences,
        ranks: &StringOccurrences,
        id: usize,
    ) -> (p: Policeman)
        requires
            first_names.wf(),
            first_names.total_occurrences > 0,
            last_names.wf(),
            last_names.total_occurrences > 0,
            ranks.wf(),
            ranks.total_occurrences > 0,
        ensures
            p.person.id == id,
            p.state == PolicemanState::Available,
            SERVICE_NUMBER_MIN <= p.service_number < SERVICE_NUMBER_MAX,
            ranks.has_entry(p.rank@),
            first_names.has_entry(p.person.first_name@),
            last_names.has_entry(p.person.last_name@),
            MIN_BIRTH_DATE <= p.person.birth_date < MAX_BIRTH_DATE,
            p.person.birth_date as int % (SECONDS_PER_DAY as int) == 0,
            PHONE_NUMBER_MIN <= p.person.phone_number < PHONE_NUMBER_MAX,
            p.person.birth_date + (MIN_DAYS_AFTER_BIRTH_TO_EMPLOYMENT as int) * (
            SECONDS_PER_DAY as int) <= p.employment_date < p.person.birth_date + (
            MAX_DAYS_AFTER_BIRTH_TO_EMPLOYMENT as int) * (SECONDS_PER_DAY as int),
            p.employment_date + (MIN_EMPLOYMENT_DURATION as int) * (SECONDS_PER_DAY as int)
                <= p.resignment_date < p.employment_date + (MAX_EMPLOYMENT_DURATION as int) * (
            SECONDS_PER_DAY as int),
            pesel_matches(p.person.pesel_number as int, p.person.birth_date as int),
    {
        let person = Person::generate_with_id(generator, first_names, last_names, id);
        let employment_date = generate_employment_date_from_birth_date(
            generator,
            person.birth_date,
        );
        let resignment_date = generate_resignation_date_from_employment_date(
            generator,
            employment_date,
        );
        Policeman {
            service_number: draw_range(
                generator,
                SERVICE_NUMBER_MIN as u64,
                SERVICE_NUMBER_MAX as u64,
            ) as u32,
            person,
            state: PolicemanState::Available,
            rank: ranks.get_random_entry(generator),
            employment_date,
            resignment_date,
        }
    }

    /// Generate a policeman employed exactly at the given date, his birth
    /// date derived backwards from it.  The identifier keeps the digits of
    /// the first drawn birth date, as the original generation did, even
    /// though the birth date is then replaced.
    pub fn generate_just_employed_with_id(
        generator: &mut rand::rngs::StdRng,
        first_names: &StringOccurrences,
        last_names: &StringOccurrences,
        ranks: &StringOccurrences,
        employment_date: i64,
        id: usize,
    ) -> (p: Policeman)
        requires
            first_names.wf(),
            first_names.total_occurrences > 0,
            last_names.wf(),
            last_names.total_occurrences > 0,
            ranks.wf(),
            ranks.total_occurrences > 0,
            EMPLOYMENT_DATE_FLOOR <= employment_date <= dates::MAX_EVENT_TIME,
        ensures
            p.person.id == id,
            p.state == PolicemanState::Available,
            SERVICE_NUMBER_MIN <= p.service_number < SERVICE_NUMBER_MAX,
            ranks.has_entry(p.rank@),
            first_names.has_entry(p.person.first_name@),
            last_names.has_entry(p.person.last_name@),
            PHONE_NUMBER_MIN <= p.person.phone_number < PHONE_NUMBER_MAX,
            p.employment_date == employment_date,
            employment_date - (MAX_DAYS_AFTER_BIRTH_TO_EMPLOYMENT as int) * (
            SECONDS_PER_DAY as int) < p.person.birth_date <= employment_date - (
            MIN_DAYS_AFTER_BIRTH_TO_EMPLOYMENT as int) * (SECONDS_PER_DAY as int),
            0 < p.person.birth_date < employment_date,
            p.employment_date + (MIN_EMPLOYMENT_DURATION as int) * (SECONDS_PER_DAY as int)
                <= p.resignment_date < p.employment_date + (MAX_EMPLOYMENT_DURATION as int) * (
            SECONDS_PER_DAY as int),
            exists|b0: int|
                MIN_BIRTH_DATE <= b0 < MAX_BIRTH_DATE && pesel_matches(
                    p.person.pesel_number as int,
                    b0,
                ),
    {
        let mut person = Person::generate_with_id(generator, first_names, last_names, id);
        let ghost b0 = person.birth_date as int;
        person.birth_date = generate_birth_date_from_employment_date(generator, employment_date);
        let resignment_date = generate_resignation_date_from_employment_date(
            generator,
            employment_date,
        );
        let p = Policeman {
            service_number: draw_range(
                generator,
                SERVICE_NUMBER_MIN as u64,
                SERVICE_NUMBER_MAX as u64,
            ) as u32,
            person,
            state: PolicemanState::Available,
            rank: ranks.get_random_entry(generator),
            employment_date,
            resignment_date,
        };
        proof {
            assert(MIN_BIRTH_DATE <= b0 < MAX_BIRTH_DATE && pesel_matches(
                p.person.pesel_number as int,
                b0,
            ));
        }
        p
    }
}

} // verus!

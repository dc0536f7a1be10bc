//! Vehicles and the random generation of their attributes.

use vstd::prelude::*;
use crate::rng::draw_range;
use crate::string_occurrences::StringOccurrences;

verus! {

pub const MANUFACTURE_YEAR_MIN: u32 = 2005;

pub const MANUFACTURE_YEAR_MAX: u32 = 2020;

pub const EXPECTED_REGISTRATION_PLATE_LENGTH: usize = 8;

pub const DEFAULT_SEAT_COUNT: u32 = 5;

#[derive(Debug, Copy, Clone, PartialEq, Eq, Structural)]
pub enum VehicleState {
    Available,
    Occupied,
}

/// `plate` is `code`, a space, then digits and capital letters.
pub open spec fn is_plate_of(plate: Seq<char>, code: Seq<char>) -> bool {
    &&& code.len() + 1 <= plate.len()
    &&& plate.subrange(0, code.len() as int) == code
    &&& plate[code.len() as int] == ' '
    &&& forall|k: int| code.len() + 1 <= k < plate.len() ==> is_plate_pad_char(#[trigger] plate[k])
}

#[derive(Debug, Clone)]
pub struct Vehicle {
    pub id: usize,
    pub model: String,
    pub registration_plate: String,
    pub manufacture_year: u32,
    pub seat_count: u32,
    pub state: VehicleState,
    pub vehicle_type: String,
}

/// A character the plate is padded with: a digit or a capital letter.
pub open spec fn is_plate_pad_char(c: char) -> bool {
    ('0' <= c && c <= '9') || ('A' <= c && c <= 'Z')
}

/// A registration plate: the area code, a space, then random digits and
/// capital letters up to the expected length.
fn generate_registration_plate(generator: &mut rand::rngs::StdRng, code: &str) -> (r: String)
    requires
        code@.len() + 1 <= EXPECTED_REGISTRATION_PLATE_LENGTH,
    ensures
        r@.len() == EXPECTED_REGISTRATION_PLATE_LENGTH,
        r@.subrange(0, code@.len() as int) == code@,
        r@[code@.len() as int] == ' ',
        forall|k: int|
            code@.len() + 1 <= k < r@.len() ==> is_plate_pad_char(#[trigger] r@[k]),
{
    let pool: &'static str = "0123456789ABCDEFGHIJKLMNOPQRSTUVWXYZ";
    proof {
        reveal_strlit("0123456789ABCDEFGHIJKLMNOPQRSTUVWXYZ");
        reveal_strlit(" ");
    }
    let mut plate = String::from_str(code);
    let space: &'static str = " ";
    plate.append(space);
    proof {
        assert(plate@ =~= code@ + seq![' ']);
    }
    let mut len = plate.as_str().unicode_len();
    while len < EXPECTED_REGISTRATION_PLATE_LENGTH
        invariant
            pool@ == "0123456789ABCDEFGHIJKLMNOPQRSTUVWXYZ"@,
            len == plate@.len(),
            code@.len() + 1 <= len <= EXPECTED_REGISTRATION_PLATE_LENGTH,
            plate@.subrange(0, code@.len() as int) =~= code@,
            plate@[code@.len() as int] == ' ',
            forall|k: int|
                code@.len() + 1 <= k < plate@.len() ==> is_plate_pad_char(#[trigger] plate@[k]),
        decreases EXPECTED_REGISTRATION_PLATE_LENGTH - len,
    {
        let idx = draw_range(generator, 0, 36) as usize;
        proof {
            reveal_strlit("0123456789ABCDEFGHIJKLMNOPQRSTUVWXYZ");
            assert(pool@.len() == 36);
            assert(is_plate_pad_char(pool@[idx as int]));
        }
        let ch = pool.substring_char(idx, idx + 1);
        plate.append(ch);
        len = len + 1;
        proof {
            assert(plate@.subrange(0, code@.len() as int) =~= code@);
        }
    }
    plate
}

impl Vehicle {
    /// Generate a vehicle with fresh random attributes and the given id.
    pub fn generate_with_id(
        generator: &mut rand::rngs::StdRng,
        vehicle_models: &StringOccurrences,
        plate_codes: &StringOccurrences,
        id: usize,
    ) -> (v: Vehicle)
        requires
            vehicle_models.wf(),
            vehicle_models.total_occurrences > 0,
            plate_codes.wf(),
            plate_codes.total_occurrences > 0,
            plate_codes.entries_at_most(EXPECTED_REGISTRATION_PLATE_LENGTH - 1),
        ensures
            v.id == id,
            vehicle_models.has_entry(v.model@),
            v.registration_plate@.len() == EXPECTED_REGISTRATION_PLATE_LENGTH,
            exists|i: int|
                0 <= i < plate_codes.entries@.len() && is_plate_of(
                    v.registration_plate@,
                    #[trigger] plate_codes.entries@[i].entry@,
                ),
            MANUFACTURE_YEAR_MIN <= v.manufacture_year < MANUFACTURE_YEAR_MAX,
            v.seat_count == DEFAULT_SEAT_COUNT,
            v.state == VehicleState::Available,
            v.vehicle_type@ == "terenowy"@,
    {
        let code = plate_codes.get_random_entry(generator);
        let registration_plate = generate_registration_plate(generator, code.as_str());
        Vehicle {
            id,
            model: vehicle_models.get_random_entry(generator),
            registration_plate,
            manufacture_year: draw_range(
                generator,
                MANUFACTURE_YEAR_MIN as u64,
                MANUFACTURE_YEAR_MAX as u64,
            ) as u32,
            seat_count: DEFAULT_SEAT_COUNT,
            state: VehicleState::Available,
            vehicle_type: String::from_str("terenowy"),
        }
    }
}

} // verus!

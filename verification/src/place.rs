//! Places: the immutable locations reports refer to, read once from
//! comma-separated text at the start of a run.

use vstd::prelude::*;
use crate::text::{spec_split, split_chars};

verus! {

/// An immutable place; its id is its position in the loaded list.
#[derive(Debug, Clone)]
pub struct Place {
    pub id: usize,
    pub city: String,
    pub street: String,
}

/// The places a sequence of text lines yields: one place per line holding
/// at least two comma-separated fields, ids assigned in reading order;
/// other lines are passed over.
pub open spec fn spec_places(lines: Seq<Seq<char>>) -> Seq<(Seq<char>, Seq<char>)>
    decreases lines.len(),
{
    if lines.len() == 0 {
        Seq::<(Seq<char>, Seq<char>)>::empty()
    } else {
        let init = spec_places(lines.drop_last());
        let fs = spec_split(lines.last(), ',');
        if fs.len() >= 2 {
            init.push((fs[0], fs[1]))
        } else {
            init
        }
    }
}

/// A place list is well formed when ids are the positions.
pub open spec fn places_wf(s: Seq<Place>) -> bool {
    forall|i: int| 0 <= i < s.len() ==> #[trigger] s[i].id == i
}

/// Read the place list from text: each line with a city and a street
/// becomes a place, with ids assigned by reading order.
pub fn create_places_from_str(data: &str) -> (r: Vec<Place>)
    ensures
        r@.map_values(|p: Place| (p.city@, p.street@)) == spec_places(spec_split(data@, '\n')),
        places_wf(r@),
{
    let lines = split_chars(data, '\n');
    let ghost lviews = spec_split(data@, '\n');
    let mut r: Vec<Place> = Vec::new();
    let mut k: usize = 0;
    proof {
        assert(lviews.take(0) =~= Seq::<Seq<char>>::empty());
        assert(r@.map_values(|p: Place| (p.city@, p.street@)) =~= spec_places(lviews.take(0)));
    }
    while k < lines.len()
        invariant
            k <= lines@.len(),
            crate::text::views_of(lines@) == lviews,
            lviews == spec_split(data@, '\n'),
            r@.map_values(|p: Place| (p.city@, p.street@)) =~= spec_places(lviews.take(k as int)),
            places_wf(r@),
        decreases lines@.len() - k,
    {
        proof {
            assert(lviews.take(k + 1).drop_last() =~= lviews.take(k as int));
            assert(lines@[k as int]@ == lviews[k as int]);
        }
        let fields = split_chars(lines[k].as_str(), ',');
        if fields.len() >= 2 {
            let city = fields[0].clone();
            let street = fields[1].clone();
            let id = r.len();
            r.push(Place { id, city, street });
        }
        proof {
            assert(r@.map_values(|p: Place| (p.city@, p.street@)) =~= spec_places(
                lviews.take(k + 1),
            ));
        }
        k += 1;
    }
    proof {
        assert(lviews.take(lines@.len() as int) =~= lviews);
    }
    r
}

} // verus!

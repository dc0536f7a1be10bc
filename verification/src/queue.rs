//! The event queue: an ordered multiset of pending events keyed by time.
//!
//! The queue holds `(time, sequence)` pairs in an outside sorted vector and
//! keeps each pair's action in a side table indexed by the sequence number.
//! Sequence numbers are assigned in insertion order and are part of the
//! key, so events with equal times leave in first-in first-out order: that
//! is the documented tie-break among simultaneous events.

use vstd::prelude::*;
use vstd::multiset::Multiset;
use crate::event::{Event, EventAction};

verus! {

broadcast use vstd::multiset::group_multiset_axioms;

#[verifier::external_type_specification]
#[verifier::external_body]
#[verifier::reject_recursive_types(T)]
pub struct ExSortedVec<T: Ord>(sorted_vec::SortedVec<T>);

/// What a sorted vector of queue entries holds, as a multiset.
pub uninterp spec fn sv_entries(v: sorted_vec::SortedVec<(i64, u64)>) -> Multiset<(i64, u64)>;

/// The order the sorted vector keeps its entries in: the order `Ord` gives
/// pairs, lexicographic by time and then by sequence number.
pub open spec fn entry_le(a: (i64, u64), b: (i64, u64)) -> bool {
    a.0 < b.0 || (a.0 == b.0 && a.1 <= b.1)
}

/// Relies on sorted_vec::SortedVec::new: the new vector is empty.
#[verifier::external_body]
fn sv_new() -> (r: sorted_vec::SortedVec<(i64, u64)>)
    ensures
        sv_entries(r) == Multiset::<(i64, u64)>::empty(),
{
    sorted_vec::SortedVec::new()
}

/// Relies on sorted_vec::SortedVec::push: the element is inserted at its
/// sorted position; nothing else moves.
#[verifier::external_body]
fn sv_insert(v: &mut sorted_vec::SortedVec<(i64, u64)>, x: (i64, u64))
    ensures
        sv_entries(*final(v)) == sv_entries(*old(v)).insert(x),
{
    let _ = v.push(x);
}

/// Relies on sorted_vec::SortedVec::remove_index at index 0 of a forward
/// sorted vector: it removes and returns a least element under the pair
/// order, and panics only on an empty vector.
#[verifier::external_body]
fn sv_pop_least(v: &mut sorted_vec::SortedVec<(i64, u64)>) -> (r: (i64, u64))
    requires
        sv_entries(*old(v)).len() > 0,
    ensures
        sv_entries(*old(v)).count(r) > 0,
        sv_entries(*final(v)) == sv_entries(*old(v)).remove(r),
        forall|e: (i64, u64)| sv_entries(*old(v)).count(e) > 0 ==> entry_le(r, e),
{
    v.remove_index(0)
}

/// Relies on Vec::len, reached through sorted_vec's Deref to the
/// underlying vector.
#[verifier::external_body]
fn sv_len(v: &sorted_vec::SortedVec<(i64, u64)>) -> (r: usize)
    ensures
        r == sv_entries(*v).len(),
{
    v.len()
}

/// The ordered multiset of pending events.  Popping always yields an event
/// with the least time still pending; pushes during processing become
/// visible to later pops at once.
pub struct EventQueue {
    pub heap: sorted_vec::SortedVec<(i64, u64)>,
    pub actions: Vec<EventAction>,
}

impl EventQueue {
    /// The pending `(time, sequence)` keys.
    pub open spec fn pending(self) -> Multiset<(i64, u64)> {
        sv_entries(self.heap)
    }

    /// The action stored under a sequence number.
    pub open spec fn action_of(self, s: u64) -> EventAction {
        self.actions@[s as int]
    }

    /// Well-formedness: every pending key carries an already assigned
    /// sequence number, each key is pending at most once, and sequence
    /// numbers identify keys.
    pub open spec fn wf(self) -> bool {
        &&& forall|e: (i64, u64)| self.pending().count(e) > 0 ==> e.1 < self.actions@.len()
        &&& forall|e: (i64, u64)| self.pending().count(e) > 0 ==> self.pending().count(e) == 1
        &&& forall|e: (i64, u64), f: (i64, u64)|
            self.pending().count(e) > 0 && self.pending().count(f) > 0 && e.1 == f.1 ==> e == f
    }

    /// Some pending key has this time and this action.
    pub open spec fn scheduled(self, t: i64, a: EventAction) -> bool {
        exists|e: (i64, u64)|
            self.pending().count(e) > 0 && e.0 == t && self.action_of(e.1) == a
    }

    /// Some pending key has this action.
    pub open spec fn scheduled_action(self, a: EventAction) -> bool {
        exists|e: (i64, u64)| self.pending().count(e) > 0 && self.action_of(e.1) == a
    }

    /// All pending keys are at or after `t`.
    pub open spec fn at_or_after(self, t: i64) -> bool {
        forall|e: (i64, u64)| self.pending().count(e) > 0 ==> e.0 >= t
    }

    pub fn new() -> (q: EventQueue)
        ensures
            q.wf(),
            q.pending() == Multiset::<(i64, u64)>::empty(),
            q.actions@.len() == 0,
    {
        EventQueue { heap: sv_new(), actions: Vec::new() }
    }

    pub fn len(&self) -> (r: usize)
        ensures
            r == self.pending().len(),
    {
        sv_len(&self.heap)
    }

    /// Insert an event; its key gets the next sequence number, so among
    /// equal times it leaves after everything already pending.
    pub fn push(&mut self, ev: Event)
        requires
            old(self).wf(),
        ensures
            final(self).wf(),
            final(self).pending() == old(self).pending().insert(
                (ev.time, old(self).actions@.len() as u64),
            ),
            final(self).actions@ == old(self).actions@.push(ev.action),
            final(self).action_of(old(self).actions@.len() as u64) == ev.action,
            final(self).scheduled(ev.time, ev.action),
            forall|t: i64, a: EventAction|
                old(self).scheduled(t, a) ==> final(self).scheduled(t, a),
            forall|t: i64, a: EventAction|
                final(self).scheduled(t, a) && !old(self).scheduled(t, a) ==> t == ev.time && a
                    == ev.action,
            forall|s: u64| s < old(self).actions@.len() ==> final(self).action_of(s) == old(
                self,
            ).action_of(s),
    {
        let seq_no = self.actions.len() as u64;
        let ghost key = (ev.time, seq_no);
        self.actions.push(ev.action);
        sv_insert(&mut self.heap, (ev.time, seq_no));
        proof {
            let pre = *old(self);
            assert(self.pending() == pre.pending().insert(key));
            assert forall|e: (i64, u64)| self.pending().count(e) > 0 implies e.1
                < self.actions@.len() by {
                if e != key {
                    assert(pre.pending().count(e) > 0);
                }
            }
            assert forall|e: (i64, u64)| self.pending().count(e) > 0 implies self.pending().count(
                e,
            ) == 1 by {
                if e != key {
                    assert(pre.pending().count(e) > 0);
                } else {
                    assert(pre.pending().count(key) == 0);
                }
            }
            assert forall|e: (i64, u64), f: (i64, u64)|
                self.pending().count(e) > 0 && self.pending().count(f) > 0 && e.1
                    == f.1 implies e == f by {
                if e != key && f != key {
                    assert(pre.pending().count(e) > 0 && pre.pending().count(f) > 0);
                } else if e == key && f != key {
                    assert(pre.pending().count(f) > 0);
                } else if e != key && f == key {
                    assert(pre.pending().count(e) > 0);
                }
            }
            assert(self.pending().count(key) > 0 && key.0 == ev.time && self.action_of(key.1)
                == ev.action);
            assert forall|t: i64, a: EventAction| pre.scheduled(t, a) implies self.scheduled(
                t,
                a,
            ) by {
                let e = choose|e: (i64, u64)|
                    pre.pending().count(e) > 0 && e.0 == t && pre.action_of(e.1) == a;
                assert(self.pending().count(e) > 0 && self.action_of(e.1) == a);
            }
            assert forall|t: i64, a: EventAction|
                self.scheduled(t, a) && !pre.scheduled(t, a) implies t == ev.time && a
                    == ev.action by {
                let e = choose|e: (i64, u64)|
                    self.pending().count(e) > 0 && e.0 == t && self.action_of(e.1) == a;
                if e != key {
                    assert(pre.pending().count(e) > 0);
                    assert(pre.action_of(e.1) == a);
                    assert(pre.scheduled(t, a));
                }
            }
        }
    }

    /// Remove and return a pending event with the least time; `None` only
    /// when nothing is pending.  The ghost result names the removed key,
    /// so callers can follow exactly which entry left.
    pub fn pop_earliest(&mut self) -> (r: Option<(Event, Ghost<(i64, u64)>)>)
        requires
            old(self).wf(),
        ensures
            final(self).wf(),
            final(self).actions@ == old(self).actions@,
            match r {
                None => {
                    &&& old(self).pending().len() == 0
                    &&& *final(self) == *old(self)
                },
                Some(p) => {
                    let key = p.1@;
                    &&& old(self).pending().count(key) == 1
                    &&& key.0 == p.0.time
                    &&& old(self).action_of(key.1) == p.0.action
                    &&& final(self).pending() == old(self).pending().remove(key)
                    &&& forall|e: (i64, u64)|
                        old(self).pending().count(e) > 0 ==> entry_le(key, e)
                    &&& forall|e: (i64, u64)|
                        final(self).pending().count(e) > 0 ==> e.0 >= p.0.time
                },
            },
    {
        if self.len() == 0 {
            return None;
        }
        let key = sv_pop_least(&mut self.heap);
        let ghost pre = *old(self);
        let alen = self.actions.len();
        proof {
            assert(pre.pending().count(key) > 0);
            assert(key.1 < alen as u64);
        }
        let action = self.actions[key.1 as usize];
        proof {
            assert forall|e: (i64, u64)| self.pending().count(e) > 0 implies e.0 >= key.0 by {
                assert(pre.pending().count(e) > 0);
                assert(entry_le(key, e));
            }
            assert forall|e: (i64, u64)| self.pending().count(e) > 0 implies self.pending().count(
                e,
            ) == 1 by {
                assert(pre.pending().count(e) > 0);
            }
        }
        Some((Event { time: key.0, action }, Ghost(key)))
    }
}

/// Total order of removals: a key the queue yields is at or before every
/// key still pending, so consecutive pops come out with non-decreasing
/// times whatever is popped next.
pub proof fn lemma_pop_order(m: Multiset<(i64, u64)>, first: (i64, u64), second: (i64, u64))
    requires
        forall|e: (i64, u64)| m.count(e) > 0 ==> entry_le(first, e),
        m.remove(first).count(second) > 0,
    ensures
        first.0 <= second.0,
{
    let s = Multiset::singleton(first);
    assert(m.remove(first).count(second) == m.count(second) - s.count(second));
    assert(m.count(second) > 0);
    assert(entry_le(first, second));
}

} // verus!

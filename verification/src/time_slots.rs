use vstd::prelude::*;

use crate::models::TimeSlot;
use crate::scan::{find_first, lemma_find_first_prefix};

verus! {

/// Storage for the recurring weekly teaching slots.
pub struct TimeSlotStore {
    slots: Vec<TimeSlot>,
}

/// The lookup predicate: a slot with the given identity.
pub open spec fn slot_id_pred(id: u128) -> spec_fn(TimeSlot) -> bool {
    |s: TimeSlot| s.id == id
}

/// The first stored slot with the given identity, if any.
pub open spec fn slot_by_id(slots: Seq<TimeSlot>, id: u128) -> Option<TimeSlot> {
    match find_first(slots, slot_id_pred(id)) {
        None => None,
        Some(i) => Some(slots[i]),
    }
}

impl View for TimeSlotStore {
    type V = Seq<TimeSlot>;

    closed spec fn view(&self) -> Seq<TimeSlot> {
        self.slots@
    }
}

impl TimeSlotStore {
    pub fn new() -> (s: Self)
        ensures
            s@ == Seq::<TimeSlot>::empty(),
    {
        TimeSlotStore { slots: Vec::new() }
    }

    /// Stores the slot as given.
    pub fn create(&mut self, time_slot: TimeSlot) -> (r: TimeSlot)
        ensures
            final(self)@ == old(self)@.push(time_slot),
            r == time_slot,
    {
        self.slots.push(time_slot);
        time_slot
    }

    /// Looks a slot up by identity; the first match wins.
    pub fn find_by_id(&self, id: u128) -> (r: Option<TimeSlot>)
        ensures
            r == slot_by_id(self@, id),
    {
        let mut i: usize = 0;
        while i < self.slots.len()
            invariant
                i <= self.slots.len(),
                forall|k: int| 0 <= k < i as int ==> (#[trigger] self.slots@[k]).id != id,
            decreases self.slots.len() - i,
        {
            let s = self.slots[i];
            if s.id == id {
                proof {
                    let p = slot_id_pred(id);
                    assert forall|k: int| 0 <= k < i as int implies !(#[trigger] p(
                        self.slots@[k],
                    )) by {
                        assert(self.slots@[k].id != id);
                    }
                    lemma_find_first_prefix(self.slots@, p, i as int);
                }
                return Some(s);
            }
            i = i + 1;
        }
        proof {
            let p = slot_id_pred(id);
            assert forall|k: int| 0 <= k < self.slots@.len() implies !(#[trigger] p(
                self.slots@[k],
            )) by {
                assert(self.slots@[k].id != id);
            }
            lemma_find_first_prefix(self.slots@, p, self.slots@.len() as int);
        }
        None
    }
}

} // verus!

use vstd::prelude::*;

use crate::models::Availability;
use crate::time::{weekday_of, weekday_for, Instant};

verus! {

/// Caller-supplied fields of one availability window.
#[derive(Clone, Copy, PartialEq, Eq, Structural, Debug)]
pub struct AvailabilityInput {
    pub teacher_id: u128,
    pub day_of_week: u8,
    pub start_time: u32,
    pub end_time: u32,
    pub is_preferred: bool,
}

/// Per-teacher recurring weekly availability windows. Submitting always
/// inserts a new row; duplicates are never merged.
pub struct AvailabilityService {
    windows: Vec<Availability>,
}

/// The windows of one teacher that recur on the weekday of `date` (a day
/// number). Windows are weekly, so nothing else of the date matters.
pub open spec fn windows_for(windows: Seq<Availability>, teacher_id: u128, date: int) -> Seq<
    Availability,
> {
    windows.filter(
        |w: Availability| w.teacher_id == teacher_id && w.day_of_week as int == weekday_of(date),
    )
}

impl View for AvailabilityService {
    type V = Seq<Availability>;

    closed spec fn view(&self) -> Seq<Availability> {
        self.windows@
    }
}

impl AvailabilityService {
    /// Identities are the store's own: each window's id is its position in
    /// the insertion order, so stored ids are pairwise distinct and every
    /// new window's id is fresh.
    #[verifier::type_invariant]
    spec fn wf(self) -> bool {
        forall|i: int| 0 <= i < self.windows@.len() ==> (#[trigger] self.windows@[i]).id == i
    }

    pub fn new() -> (s: Self)
        ensures
            s@ == Seq::<Availability>::empty(),
    {
        AvailabilityService { windows: Vec::new() }
    }

    /// Stores one new window with the given fields and a fresh identity.
    /// Duplicates are never merged: an identical window is simply inserted
    /// again.
    pub fn submit_availability(&mut self, input: AvailabilityInput) -> (r: Availability)
        ensures
            final(self)@ == old(self)@.push(r),
            r.teacher_id == input.teacher_id,
            r.day_of_week == input.day_of_week,
            r.start_time == input.start_time,
            r.end_time == input.end_time,
            r.is_preferred == input.is_preferred,
            forall|k: int| 0 <= k < old(self)@.len() ==> (#[trigger] old(self)@[k]).id != r.id,
    {
        proof {
            use_type_invariant(&*self);
        }
        let now = Instant::now();
        let w = Availability {
            id: self.windows.len() as u128,
            teacher_id: input.teacher_id,
            day_of_week: input.day_of_week,
            start_time: input.start_time,
            end_time: input.end_time,
            is_preferred: input.is_preferred,
            created_at: now,
            updated_at: now,
        };
        let mut rows: Vec<Availability> = Vec::new();
        core::mem::swap(&mut rows, &mut self.windows);
        rows.push(w);
        proof {
            assert forall|k: int| 0 <= k < rows@.len() implies (#[trigger] rows@[k]).id == k by {
                if k < old(self)@.len() {
                    assert(rows@[k] == old(self)@[k]);
                } else {
                    assert(rows@[k] == w);
                }
            }
        }
        self.windows = rows;
        w
    }

    /// The teacher's windows recurring on the weekday of `date`.
    pub fn get_availability(&self, teacher_id: u128, date: u64) -> (r: Vec<Availability>)
        ensures
            r@ == windows_for(self@, teacher_id, date as int),
    {
        let wd = weekday_for(date);
        let mut r: Vec<Availability> = Vec::new();
        let mut i: usize = 0;
        while i < self.windows.len()
            invariant
                i <= self.windows.len(),
                wd == weekday_of(date as int),
                r@ == windows_for(self.windows@.take(i as int), teacher_id, date as int),
            decreases self.windows.len() - i,
        {
            let w = self.windows[i];
            let ghost r_prev = r@;
            if w.teacher_id == teacher_id && (w.day_of_week as u64) == wd {
                r.push(w);
            }
            proof {
                reveal(Seq::filter);
                let t1 = self.windows@.take(i as int + 1);
                assert(t1.drop_last() =~= self.windows@.take(i as int));
                assert(t1.last() == w);
                assert(windows_for(t1, teacher_id, date as int) == if w.teacher_id == teacher_id
                    && w.day_of_week as int == weekday_of(date as int) {
                    r_prev.push(w)
                } else {
                    r_prev
                });
                assert(r@ == windows_for(t1, teacher_id, date as int));
            }
            i = i + 1;
        }
        proof {
            assert(self.windows@.take(self.windows@.len() as int) =~= self.windows@);
        }
        r
    }
}

} // verus!

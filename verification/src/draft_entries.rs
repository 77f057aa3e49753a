use vstd::prelude::*;

use crate::models::DraftEntry;
use crate::time::Instant;

verus! {

/// Caller-supplied fields of one draft entry.
#[derive(Clone, Copy, PartialEq, Eq, Structural, Debug)]
pub struct DraftEntryInput {
    pub draft_timetable_id: u128,
    pub course_id: u128,
    pub teacher_id: u128,
    pub room_id: u128,
    pub time_slot_id: u128,
}

/// Per-draft storage of schedule entries. Purely transactional: duplicates
/// are allowed and surface later as conflicts, never rejected here.
pub struct DraftEntryService {
    entries: Vec<DraftEntry>,
}

/// The entries of one draft, in insertion order.
pub open spec fn entries_for(entries: Seq<DraftEntry>, draft_timetable_id: u128) -> Seq<
    DraftEntry,
> {
    entries.filter(|e: DraftEntry| e.draft_timetable_id == draft_timetable_id)
}

/// The stored entry `e` carries the fields of `input` and belongs to draft `d`.
pub open spec fn entry_of_input(e: DraftEntry, d: u128, input: DraftEntryInput) -> bool {
    &&& e.draft_timetable_id == d
    &&& e.course_id == input.course_id
    &&& e.teacher_id == input.teacher_id
    &&& e.room_id == input.room_id
    &&& e.time_slot_id == input.time_slot_id
}

impl View for DraftEntryService {
    type V = Seq<DraftEntry>;

    closed spec fn view(&self) -> Seq<DraftEntry> {
        self.entries@
    }
}

impl DraftEntryService {
    /// Identities are the store's own: each row's id is its position in the
    /// insertion order, so stored ids are pairwise distinct and every new
    /// row's id is fresh.
    #[verifier::type_invariant]
    spec fn wf(self) -> bool {
        forall|i: int| 0 <= i < self.entries@.len() ==> (#[trigger] self.entries@[i]).id == i
    }

    pub fn new() -> (s: Self)
        ensures
            s@ == Seq::<DraftEntry>::empty(),
    {
        DraftEntryService { entries: Vec::new() }
    }

    /// Bulk insert: every input becomes one stored entry of the given draft,
    /// appended in input order; nothing else changes.
    pub fn add_entries_to_draft(
        &mut self,
        draft_timetable_id: u128,
        entries: Vec<DraftEntryInput>,
    ) -> (r: Vec<DraftEntry>)
        ensures
            final(self)@ == old(self)@ + r@,
            r@.len() == entries@.len(),
            forall|i: int|
                0 <= i < r@.len() ==> entry_of_input(
                    #[trigger] r@[i],
                    draft_timetable_id,
                    entries@[i],
                ),
            forall|i: int, j: int|
                0 <= i < j < r@.len() ==> (#[trigger] r@[i]).id != (#[trigger] r@[j]).id,
            forall|i: int, k: int|
                0 <= i < r@.len() && 0 <= k < old(self)@.len() ==> (#[trigger] r@[i]).id != (
                #[trigger] old(self)@[k]).id,
    {
        proof {
            use_type_invariant(&*self);
        }
        let now = Instant::now();
        let ghost prior = self.entries@;
        let mut created: Vec<DraftEntry> = Vec::new();
        let mut i: usize = 0;
        while i < entries.len()
            invariant
                i <= entries.len(),
                self.entries@ == prior + created@,
                created@.len() == i as int,
                forall|k: int|
                    0 <= k < i as int ==> entry_of_input(
                        #[trigger] created@[k],
                        draft_timetable_id,
                        entries@[k],
                    ),
                forall|k: int|
                    0 <= k < i as int ==> (#[trigger] created@[k]).id == prior.len() + k,
                forall|k: int| 0 <= k < prior.len() ==> (#[trigger] prior[k]).id == k,
            decreases entries.len() - i,
        {
            let input = entries[i];
            let e = DraftEntry {
                id: self.entries.len() as u128,
                draft_timetable_id,
                course_id: input.course_id,
                teacher_id: input.teacher_id,
                room_id: input.room_id,
                time_slot_id: input.time_slot_id,
                created_at: now,
                updated_at: now,
            };
            let mut rows: Vec<DraftEntry> = Vec::new();
            core::mem::swap(&mut rows, &mut self.entries);
            rows.push(e);
            proof {
                assert forall|k: int| 0 <= k < rows@.len() implies (#[trigger] rows@[k]).id
                    == k by {
                    if k < prior.len() {
                        assert(rows@[k] == prior[k]);
                    } else if k < prior.len() + created@.len() {
                        assert(rows@[k] == created@[k - prior.len()]);
                    } else {
                        assert(rows@[k] == e);
                    }
                }
            }
            self.entries = rows;
            created.push(e);
            proof {
                assert(self.entries@ =~= prior + created@);
            }
            i = i + 1;
        }
        proof {
            assert(forall|k: int| 0 <= k < prior.len() ==> (#[trigger] prior[k]).id == k);
        }
        created
    }

    /// All entries of the draft, in insertion order.
    pub fn get_entries_for_draft(&self, draft_timetable_id: u128) -> (r: Vec<DraftEntry>)
        ensures
            r@ == entries_for(self@, draft_timetable_id),
    {
        let mut r: Vec<DraftEntry> = Vec::new();
        let mut i: usize = 0;
        while i < self.entries.len()
            invariant
                i <= self.entries.len(),
                r@ == entries_for(self.entries@.take(i as int), draft_timetable_id),
            decreases self.entries.len() - i,
        {
            let e = self.entries[i];
            let ghost r_prev = r@;
            if e.draft_timetable_id == draft_timetable_id {
                r.push(e);
            }
            proof {
                reveal(Seq::filter);
                let t1 = self.entries@.take(i as int + 1);
                assert(t1.drop_last() =~= self.entries@.take(i as int));
                assert(t1.last() == e);
                assert(entries_for(t1, draft_timetable_id) == if e.draft_timetable_id
                    == draft_timetable_id {
                    r_prev.push(e)
                } else {
                    r_prev
                });
                assert(r@ == entries_for(t1, draft_timetable_id));
            }
            i = i + 1;
        }
        proof {
            assert(self.entries@.take(self.entries@.len() as int) =~= self.entries@);
        }
        r
    }
}

} // verus!

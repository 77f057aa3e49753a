use vstd::prelude::*;

use crate::conflicts::{conflicts_for, lemma_open_in_filtered, open_conflict_exists,
    ConflictService};
use crate::draft_timetables::{draft_index, draft_pred, DraftTimetableService};
use crate::scan::lemma_find_first_sound;
use crate::error::AppError;
use crate::models::{ConflictStatus, DraftTimetableStatus, PublishedTimetable};
use crate::time::Instant;

verus! {

/// Days a published timetable stays valid, counted from publication day.
pub const VALIDITY_DAYS: u64 = 180;

/// Later-or-equal on instants.
pub open spec fn instant_le(a: Instant, b: Instant) -> bool {
    a.day < b.day || (a.day == b.day && a.sec <= b.sec)
}

/// The publication gate and the immutable records it creates. A draft can
/// be published only while no Open conflict stands against it.
pub struct PublishedTimetableService {
    published: Vec<PublishedTimetable>,
}

impl View for PublishedTimetableService {
    type V = Seq<PublishedTimetable>;

    closed spec fn view(&self) -> Seq<PublishedTimetable> {
        self.published@
    }
}

impl PublishedTimetableService {
    /// Identities are the store's own: each record's id is its position in
    /// publication order, so stored ids are pairwise distinct and every new
    /// record's id is fresh.
    #[verifier::type_invariant]
    spec fn wf(self) -> bool {
        forall|i: int| 0 <= i < self.published@.len() ==> (#[trigger] self.published@[i]).id == i
    }

    pub fn new() -> (s: Self)
        ensures
            s@ == Seq::<PublishedTimetable>::empty(),
    {
        PublishedTimetableService { published: Vec::new() }
    }

    /// Publishes a draft: fails with NotFound when the draft is not in the
    /// workspace, with UnprocessableEntity when any conflict of the draft is
    /// still Open; otherwise records an immutable PublishedTimetable valid
    /// for `VALIDITY_DAYS` from today and moves the draft to `Published`.
    /// On failure nothing changes anywhere.
    pub fn publish_timetable(
        &mut self,
        drafts: &mut DraftTimetableService,
        conflicts: &ConflictService,
        workspace_id: u128,
        draft_timetable_id: u128,
    ) -> (r: Result<PublishedTimetable, AppError>)
        ensures
            match r {
                Ok(p) => {
                    &&& draft_index(old(drafts)@, workspace_id, draft_timetable_id) is Some
                    &&& !open_conflict_exists(conflicts@, draft_timetable_id)
                    &&& p.workspace_id == workspace_id
                    &&& p.draft_timetable_id == draft_timetable_id
                    &&& p.valid_from == p.published_at.day
                    &&& p.valid_to == p.valid_from + VALIDITY_DAYS
                    &&& p.published_at.wf()
                    &&& final(self)@ == old(self)@.push(p)
                    &&& forall|k: int|
                        0 <= k < old(self)@.len() ==> (#[trigger] old(self)@[k]).id != p.id
                    &&& {
                        let i = draft_index(
                            old(drafts)@,
                            workspace_id,
                            draft_timetable_id,
                        )->Some_0;
                        &&& final(drafts)@.len() == old(drafts)@.len()
                        &&& forall|x: int|
                            0 <= x < old(drafts)@.len() && x != i ==> final(drafts)@[x] == old(
                                drafts,
                            )@[x]
                        &&& final(drafts)@[i].status is Published
                        &&& final(drafts)@[i].id == old(drafts)@[i].id
                        &&& final(drafts)@[i].workspace_id == old(drafts)@[i].workspace_id
                        &&& final(drafts)@[i].name == old(drafts)@[i].name
                        &&& final(drafts)@[i].term == old(drafts)@[i].term
                        &&& final(drafts)@[i].year == old(drafts)@[i].year
                        &&& final(drafts)@[i].is_active == old(drafts)@[i].is_active
                        &&& final(drafts)@[i].created_at == old(drafts)@[i].created_at
                    }
                },
                Err(e) => {
                    &&& final(self)@ == old(self)@
                    &&& final(drafts)@ == old(drafts)@
                    &&& match e {
                        AppError::NotFound => draft_index(
                            old(drafts)@,
                            workspace_id,
                            draft_timetable_id,
                        ) is None,
                        AppError::UnprocessableEntity(_) => draft_index(
                            old(drafts)@,
                            workspace_id,
                            draft_timetable_id,
                        ) is Some && open_conflict_exists(conflicts@, draft_timetable_id),
                        _ => false,
                    }
                },
            },
    {
        // Step 1: the draft must exist in the workspace.
        let dft = drafts.get_draft(workspace_id, draft_timetable_id);
        if dft.is_none() {
            return Err(AppError::NotFound);
        }
        proof {
            lemma_find_first_sound(drafts@, draft_pred(workspace_id, draft_timetable_id));
        }
        // Step 2: every conflict of the draft must be off Open.
        let cs = conflicts.get_conflicts_for_draft(draft_timetable_id);
        let ghost f = conflicts_for(conflicts@, draft_timetable_id);
        let mut any_open = false;
        let mut i: usize = 0;
        while i < cs.len()
            invariant
                i <= cs.len(),
                cs@ == f,
                any_open ==> exists|j: int|
                    0 <= j < f.len() && (#[trigger] f[j]).status is Open,
                !any_open ==> forall|j: int|
                    0 <= j < i as int ==> !((#[trigger] f[j]).status is Open),
            decreases cs.len() - i,
        {
            let open = match (&cs[i]).status {
                ConflictStatus::Open => true,
                _ => false,
            };
            if open {
                any_open = true;
            }
            i = i + 1;
        }
        proof {
            lemma_open_in_filtered(conflicts@, draft_timetable_id);
            assert(any_open == open_conflict_exists(conflicts@, draft_timetable_id));
        }
        if any_open {
            return Err(
                AppError::UnprocessableEntity(
                    "Cannot publish timetable with unresolved conflicts".to_owned(),
                ),
            );
        }
        // Step 3 and 4: build and persist the published record.
        proof {
            use_type_invariant(&*self);
        }
        let now = Instant::now();
        let p = PublishedTimetable {
            id: self.published.len() as u128,
            workspace_id,
            draft_timetable_id,
            published_at: now,
            valid_from: now.day,
            valid_to: now.day + VALIDITY_DAYS,
            created_at: now,
            updated_at: now,
        };
        let mut rows: Vec<PublishedTimetable> = Vec::new();
        core::mem::swap(&mut rows, &mut self.published);
        rows.push(p);
        proof {
            assert forall|k: int| 0 <= k < rows@.len() implies (#[trigger] rows@[k]).id == k by {
                if k < old(self)@.len() {
                    assert(rows@[k] == old(self)@[k]);
                } else {
                    assert(rows@[k] == p);
                }
            }
        }
        self.published = rows;
        // Step 5: move the draft's status to Published.
        match drafts.update_draft_status(
            workspace_id,
            draft_timetable_id,
            DraftTimetableStatus::Published,
        ) {
            Ok(_) => Ok(p),
            Err(e) => {
                proof {
                    assert(false);
                }
                Err(e)
            },
        }
    }

    /// Looks a published record up by identity; the first match wins.
    pub fn get_published_timetable(&self, id: u128) -> (r: Option<PublishedTimetable>)
        ensures
            match r {
                Some(p) => exists|i: int|
                    0 <= i < self@.len() && (#[trigger] self@[i]) == p && p.id == id,
                None => forall|i: int| 0 <= i < self@.len() ==> (#[trigger] self@[i]).id != id,
            },
    {
        let mut i: usize = 0;
        while i < self.published.len()
            invariant
                i <= self.published.len(),
                forall|k: int| 0 <= k < i as int ==> (#[trigger] self.published@[k]).id != id,
            decreases self.published.len() - i,
        {
            let p = self.published[i];
            if p.id == id {
                proof {
                    assert(self@ == self.published@);
                    assert(self@[i as int] == p);
                }
                return Some(p);
            }
            i = i + 1;
        }
        None
    }

    /// The most recently published record, if any: nothing published later.
    pub fn get_latest_published_timetable(&self) -> (r: Option<PublishedTimetable>)
        ensures
            match r {
                Some(p) => {
                    &&& exists|i: int| 0 <= i < self@.len() && (#[trigger] self@[i]) == p
                    &&& forall|j: int|
                        0 <= j < self@.len() ==> instant_le(
                            (#[trigger] self@[j]).published_at,
                            p.published_at,
                        )
                },
                None => self@.len() == 0,
            },
    {
        if self.published.len() == 0 {
            return None;
        }
        let mut best = self.published[0];
        proof {
            assert(self@ == self.published@);
            assert(self@[0] == best);
        }
        let mut i: usize = 1;
        while i < self.published.len()
            invariant
                1 <= i <= self.published.len(),
                self.published@.len() > 0,
                exists|k: int| 0 <= k < self.published@.len() && (#[trigger] self.published@[k])
                    == best,
                forall|j: int|
                    0 <= j < i as int ==> instant_le(
                        (#[trigger] self.published@[j]).published_at,
                        best.published_at,
                    ),
            decreases self.published.len() - i,
        {
            let p = self.published[i];
            let later = p.published_at.day > best.published_at.day || (p.published_at.day
                == best.published_at.day && p.published_at.sec > best.published_at.sec);
            if later {
                best = p;
                proof {
                    assert(self@[i as int] == best);
                }
            }
            i = i + 1;
        }
        Some(best)
    }
}

} // verus!

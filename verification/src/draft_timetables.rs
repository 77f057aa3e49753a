use vstd::prelude::*;

use crate::error::AppError;
use crate::models::{DraftTimetable, DraftTimetableStatus};
use crate::scan::{find_first, lemma_find_first_prefix};
use crate::time::Instant;

verus! {

/// Owns the draft timetables and their lifecycle status field. The status
/// setter is raw on purpose: the publication gate, not this service, checks
/// that a draft is clear to publish.
pub struct DraftTimetableService {
    drafts: Vec<DraftTimetable>,
}

/// The lookup predicate: a draft with the given identity in the workspace.
pub open spec fn draft_pred(workspace_id: u128, id: u128) -> spec_fn(DraftTimetable) -> bool {
    |d: DraftTimetable| d.id == id && d.workspace_id == workspace_id
}

/// Index of the draft with the given identity in the workspace, if any.
pub open spec fn draft_index(drafts: Seq<DraftTimetable>, workspace_id: u128, id: u128) -> Option<
    int,
> {
    find_first(drafts, draft_pred(workspace_id, id))
}

/// The draft with the given identity in the workspace, if any.
pub open spec fn draft_by_id(drafts: Seq<DraftTimetable>, workspace_id: u128, id: u128) -> Option<
    DraftTimetable,
> {
    match draft_index(drafts, workspace_id, id) {
        None => None,
        Some(i) => Some(drafts[i]),
    }
}

impl View for DraftTimetableService {
    type V = Seq<DraftTimetable>;

    closed spec fn view(&self) -> Seq<DraftTimetable> {
        self.drafts@
    }
}

impl DraftTimetableService {
    /// Identities are the store's own: each draft's id is its position in
    /// the insertion order, so stored ids are pairwise distinct and every
    /// new draft's id is fresh. Status updates keep the id.
    #[verifier::type_invariant]
    spec fn wf(self) -> bool {
        forall|i: int| 0 <= i < self.drafts@.len() ==> (#[trigger] self.drafts@[i]).id == i
    }

    pub fn new() -> (s: Self)
        ensures
            s@ == Seq::<DraftTimetable>::empty(),
    {
        DraftTimetableService { drafts: Vec::new() }
    }

    /// Creates a draft in the initial `Draft` state, with the activity flag
    /// the caller supplies, and stores it under a fresh identity.
    pub fn create_draft(
        &mut self,
        workspace_id: u128,
        name: String,
        term: String,
        year: i32,
        is_active: bool,
    ) -> (r: DraftTimetable)
        ensures
            final(self)@ == old(self)@.push(r),
            r.workspace_id == workspace_id,
            r.name == name,
            r.term == term,
            r.year == year,
            r.status is Draft,
            r.is_active == is_active,
            r.created_at == r.updated_at,
            forall|k: int| 0 <= k < old(self)@.len() ==> (#[trigger] old(self)@[k]).id != r.id,
    {
        proof {
            use_type_invariant(&*self);
        }
        let now = Instant::now();
        let draft = DraftTimetable {
            id: self.drafts.len() as u128,
            workspace_id,
            name,
            term,
            year,
            status: DraftTimetableStatus::Draft,
            is_active,
            created_at: now,
            updated_at: now,
        };
        let r = draft.clone();
        let mut rows: Vec<DraftTimetable> = Vec::new();
        core::mem::swap(&mut rows, &mut self.drafts);
        rows.push(draft);
        proof {
            assert forall|k: int| 0 <= k < rows@.len() implies (#[trigger] rows@[k]).id == k by {
                if k < old(self)@.len() {
                    assert(rows@[k] == old(self)@[k]);
                } else {
                    assert(rows@[k] == r);
                }
            }
        }
        self.drafts = rows;
        r
    }

    /// Fetches a draft by workspace and identity; the first match wins.
    pub fn get_draft(&self, workspace_id: u128, id: u128) -> (r: Option<DraftTimetable>)
        ensures
            r == draft_by_id(self@, workspace_id, id),
    {
        let mut i: usize = 0;
        while i < self.drafts.len()
            invariant
                i <= self.drafts.len(),
                forall|k: int|
                    0 <= k < i as int ==> ((#[trigger] self.drafts@[k]).id != id
                        || self.drafts@[k].workspace_id != workspace_id),
            decreases self.drafts.len() - i,
        {
            let d = &self.drafts[i];
            if d.id == id && d.workspace_id == workspace_id {
                proof {
                    let p = draft_pred(workspace_id, id);
                    assert forall|k: int| 0 <= k < i as int implies !(#[trigger] p(
                        self.drafts@[k],
                    )) by {
                        assert(self.drafts@[k].id != id || self.drafts@[k].workspace_id
                            != workspace_id);
                    }
                    lemma_find_first_prefix(self.drafts@, p, i as int);
                }
                return Some(d.clone());
            }
            i = i + 1;
        }
        proof {
            let p = draft_pred(workspace_id, id);
            assert forall|k: int| 0 <= k < self.drafts@.len() implies !(#[trigger] p(
                self.drafts@[k],
            )) by {
                assert(self.drafts@[k].id != id || self.drafts@[k].workspace_id != workspace_id);
            }
            lemma_find_first_prefix(self.drafts@, p, self.drafts@.len() as int);
        }
        None
    }

    /// Raw status setter: overwrites the status of the addressed draft and
    /// nothing else (besides its update stamp). Fails only when the draft
    /// does not exist in the workspace.
    pub fn update_draft_status(
        &mut self,
        workspace_id: u128,
        id: u128,
        status: DraftTimetableStatus,
    ) -> (r: Result<DraftTimetable, AppError>)
        ensures
            match r {
                Ok(d) => {
                    &&& draft_index(old(self)@, workspace_id, id) matches Some(i)
                    &&& {
                        let i = draft_index(old(self)@, workspace_id, id)->Some_0;
                        let prev = old(self)@[i];
                        &&& final(self)@ == old(self)@.update(i, d)
                        &&& d.id == prev.id
                        &&& d.workspace_id == prev.workspace_id
                        &&& d.name == prev.name
                        &&& d.term == prev.term
                        &&& d.year == prev.year
                        &&& d.status == status
                        &&& d.is_active == prev.is_active
                        &&& d.created_at == prev.created_at
                    }
                },
                Err(e) => {
                    &&& e is NotFound
                    &&& draft_index(old(self)@, workspace_id, id) is None
                    &&& final(self)@ == old(self)@
                },
            },
    {
        let ghost prior = self.drafts@;
        let mut i: usize = 0;
        while i < self.drafts.len()
            invariant
                i <= self.drafts.len(),
                self.drafts@ == prior,
                old(self)@ == prior,
                forall|k: int|
                    0 <= k < i as int ==> ((#[trigger] self.drafts@[k]).id != id
                        || self.drafts@[k].workspace_id != workspace_id),
            decreases self.drafts.len() - i,
        {
            let d = &self.drafts[i];
            if d.id == id && d.workspace_id == workspace_id {
                proof {
                    let p = draft_pred(workspace_id, id);
                    assert forall|k: int| 0 <= k < i as int implies !(#[trigger] p(
                        self.drafts@[k],
                    )) by {
                        assert(self.drafts@[k].id != id || self.drafts@[k].workspace_id
                            != workspace_id);
                    }
                    lemma_find_first_prefix(self.drafts@, p, i as int);
                }
                let ghost idx = i as int;
                proof {
                    use_type_invariant(&*self);
                }
                let mut updated = d.clone();
                updated.status = status;
                updated.updated_at = Instant::now();
                let r = updated.clone();
                let mut rows: Vec<DraftTimetable> = Vec::new();
                core::mem::swap(&mut rows, &mut self.drafts);
                rows.set(i, updated);
                proof {
                    assert forall|k: int| 0 <= k < rows@.len() implies (#[trigger] rows@[k]).id
                        == k by {
                        if k != i as int {
                            assert(rows@[k] == prior[k]);
                        }
                    }
                }
                self.drafts = rows;
                proof {
                    assert(draft_index(old(self)@, workspace_id, id) == Some(idx));
                }
                return Ok(r);
            }
            i = i + 1;
        }
        proof {
            let p = draft_pred(workspace_id, id);
            assert forall|k: int| 0 <= k < self.drafts@.len() implies !(#[trigger] p(
                self.drafts@[k],
            )) by {
                assert(self.drafts@[k].id != id || self.drafts@[k].workspace_id != workspace_id);
            }
            lemma_find_first_prefix(self.drafts@, p, self.drafts@.len() as int);
        }
        Err(AppError::NotFound)
    }
}

} // verus!

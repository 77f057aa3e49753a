use vstd::prelude::*;

use crate::error::AppError;
use crate::events::{Broadcaster, DomainEvent};
use crate::models::{Substitution, SubstitutionStatus};
use crate::notifications::{NotificationKind, NotificationRecord, NotificationService};
use crate::scan::{find_first, lemma_find_first_prefix};
use crate::time::Instant;

verus! {

/// The lookup predicate: a substitution with the given identity.
pub open spec fn substitution_id_pred(id: u128) -> spec_fn(Substitution) -> bool {
    |s: Substitution| s.id == id
}

/// Index of the substitution with the given identity, if any.
pub open spec fn substitution_index(s: Seq<Substitution>, id: u128) -> Option<int> {
    find_first(s, substitution_id_pred(id))
}

/// The substitution workflow: requests start Pending and are accepted or
/// rejected exactly once; each step notifies and broadcasts an event.
pub struct SubstitutionService {
    substitutions: Vec<Substitution>,
}

impl View for SubstitutionService {
    type V = Seq<Substitution>;

    closed spec fn view(&self) -> Seq<Substitution> {
        self.substitutions@
    }
}

impl SubstitutionService {
    /// Identities are the store's own: each row's id is its position in the
    /// insertion order, so stored ids are pairwise distinct and every new
    /// request's id is fresh. Decisions keep the id, so the invariant holds.
    #[verifier::type_invariant]
    spec fn wf(self) -> bool {
        forall|i: int| 0 <= i < self.substitutions@.len() ==> (
        #[trigger] self.substitutions@[i]).id == i
    }

    pub fn new() -> (s: Self)
        ensures
            s@ == Seq::<Substitution>::empty(),
    {
        SubstitutionService { substitutions: Vec::new() }
    }

    /// Opens a Pending request for the entry, records a notification
    /// request, and broadcasts the event.
    pub fn request_substitution(
        &mut self,
        notifications: &mut NotificationService,
        broadcaster: &mut Broadcaster,
        timetable_entry_id: u128,
    ) -> (r: Substitution)
        ensures
            final(self)@ == old(self)@.push(r),
            r.timetable_entry_id == timetable_entry_id,
            r.substituting_teacher_id is None,
            r.status is Pending,
            r.created_at == r.updated_at,
            forall|k: int| 0 <= k < old(self)@.len() ==> (#[trigger] old(self)@[k]).id != r.id,
            final(notifications)@ == old(notifications)@.push(
                NotificationRecord {
                    kind: NotificationKind::SubstitutionRequested,
                    substitution_id: r.id,
                },
            ),
            final(broadcaster)@ == old(broadcaster)@.push(
                DomainEvent::SubstitutionRequested { id: r.id },
            ),
    {
        proof {
            use_type_invariant(&*self);
        }
        let now = Instant::now();
        let s = Substitution {
            id: self.substitutions.len() as u128,
            timetable_entry_id,
            substituting_teacher_id: None,
            status: SubstitutionStatus::Pending,
            created_at: now,
            updated_at: now,
        };
        let mut rows: Vec<Substitution> = Vec::new();
        core::mem::swap(&mut rows, &mut self.substitutions);
        rows.push(s);
        proof {
            assert forall|k: int| 0 <= k < rows@.len() implies (#[trigger] rows@[k]).id == k by {
                if k < old(self)@.len() {
                    assert(rows@[k] == old(self)@[k]);
                } else {
                    assert(rows@[k] == s);
                }
            }
        }
        self.substitutions = rows;
        notifications.send_substitution_request_notification(s.id);
        broadcaster.broadcast(DomainEvent::SubstitutionRequested { id: s.id });
        s
    }

    /// Accepts a Pending request for the given teacher. Fails with NotFound
    /// when the request does not exist and with BadRequest when it is no
    /// longer Pending; then nothing changes.
    pub fn accept_substitution(
        &mut self,
        notifications: &mut NotificationService,
        broadcaster: &mut Broadcaster,
        substitution_id: u128,
        teacher_id: u128,
    ) -> (r: Result<Substitution, AppError>)
        ensures
            match r {
                Ok(s) => {
                    &&& substitution_index(old(self)@, substitution_id) matches Some(i)
                    &&& {
                        let i = substitution_index(old(self)@, substitution_id)->Some_0;
                        let prev = old(self)@[i];
                        &&& prev.status is Pending
                        &&& final(self)@ == old(self)@.update(i, s)
                        &&& s.id == prev.id
                        &&& s.timetable_entry_id == prev.timetable_entry_id
                        &&& s.substituting_teacher_id == Some(teacher_id)
                        &&& s.status is Accepted
                        &&& s.created_at == prev.created_at
                        &&& final(notifications)@ == old(notifications)@.push(
                            NotificationRecord {
                                kind: NotificationKind::SubstitutionAccepted,
                                substitution_id: s.id,
                            },
                        )
                        &&& final(broadcaster)@ == old(broadcaster)@.push(
                            DomainEvent::SubstitutionAccepted { id: s.id },
                        )
                    }
                },
                Err(e) => {
                    &&& final(self)@ == old(self)@
                    &&& final(notifications)@ == old(notifications)@
                    &&& final(broadcaster)@ == old(broadcaster)@
                    &&& match e {
                        AppError::NotFound => substitution_index(old(self)@, substitution_id)
                            is None,
                        AppError::BadRequest(_) => {
                            &&& substitution_index(old(self)@, substitution_id) matches Some(i)
                            &&& !(old(self)@[substitution_index(
                                old(self)@,
                                substitution_id,
                            )->Some_0].status is Pending)
                        },
                        _ => false,
                    }
                },
            },
    {
        let ghost prior = self.substitutions@;
        let mut i: usize = 0;
        while i < self.substitutions.len()
            invariant
                i <= self.substitutions.len(),
                self.substitutions@ == prior,
                old(self)@ == prior,
                notifications@ == old(notifications)@,
                broadcaster@ == old(broadcaster)@,
                forall|k: int|
                    0 <= k < i as int ==> (#[trigger] self.substitutions@[k]).id
                        != substitution_id,
            decreases self.substitutions.len() - i,
        {
            if self.substitutions[i].id == substitution_id {
                proof {
                    let p = substitution_id_pred(substitution_id);
                    assert forall|k: int| 0 <= k < i as int implies !(#[trigger] p(
                        self.substitutions@[k],
                    )) by {
                        assert(self.substitutions@[k].id != substitution_id);
                    }
                    lemma_find_first_prefix(self.substitutions@, p, i as int);
                }
                let mut s = self.substitutions[i];
                let pending = match s.status {
                    SubstitutionStatus::Pending => true,
                    _ => false,
                };
                if !pending {
                    return Err(
                        AppError::BadRequest("Substitution request is not pending".to_owned()),
                    );
                }
                s.substituting_teacher_id = Some(teacher_id);
                s.status = SubstitutionStatus::Accepted;
                s.updated_at = Instant::now();
                proof {
                    use_type_invariant(&*self);
                }
                let mut rows: Vec<Substitution> = Vec::new();
                core::mem::swap(&mut rows, &mut self.substitutions);
                rows.set(i, s);
                proof {
                    assert forall|k: int| 0 <= k < rows@.len() implies (#[trigger] rows@[k]).id
                        == k by {
                        if k != i as int {
                            assert(rows@[k] == prior[k]);
                        }
                    }
                }
                self.substitutions = rows;
                notifications.send_substitution_accepted_notification(s.id);
                broadcaster.broadcast(DomainEvent::SubstitutionAccepted { id: s.id });
                return Ok(s);
            }
            i = i + 1;
        }
        proof {
            let p = substitution_id_pred(substitution_id);
            assert forall|k: int| 0 <= k < self.substitutions@.len() implies !(#[trigger] p(
                self.substitutions@[k],
            )) by {
                assert(self.substitutions@[k].id != substitution_id);
            }
            lemma_find_first_prefix(self.substitutions@, p, self.substitutions@.len() as int);
        }
        Err(AppError::NotFound)
    }

    /// Rejects a Pending request. Fails with NotFound when the request does
    /// not exist and with BadRequest when it is no longer Pending; then
    /// nothing changes.
    pub fn reject_substitution(
        &mut self,
        notifications: &mut NotificationService,
        broadcaster: &mut Broadcaster,
        substitution_id: u128,
    ) -> (r: Result<Substitution, AppError>)
        ensures
            match r {
                Ok(s) => {
                    &&& substitution_index(old(self)@, substitution_id) matches Some(i)
                    &&& {
                        let i = substitution_index(old(self)@, substitution_id)->Some_0;
                        let prev = old(self)@[i];
                        &&& prev.status is Pending
                        &&& final(self)@ == old(self)@.update(i, s)
                        &&& s.id == prev.id
                        &&& s.timetable_entry_id == prev.timetable_entry_id
                        &&& s.substituting_teacher_id == prev.substituting_teacher_id
                        &&& s.status is Rejected
                        &&& s.created_at == prev.created_at
                        &&& final(notifications)@ == old(notifications)@.push(
                            NotificationRecord {
                                kind: NotificationKind::SubstitutionRejected,
                                substitution_id: s.id,
                            },
                        )
                        &&& final(broadcaster)@ == old(broadcaster)@.push(
                            DomainEvent::SubstitutionRejected { id: s.id },
                        )
                    }
                },
                Err(e) => {
                    &&& final(self)@ == old(self)@
                    &&& final(notifications)@ == old(notifications)@
                    &&& final(broadcaster)@ == old(broadcaster)@
                    &&& match e {
                        AppError::NotFound => substitution_index(old(self)@, substitution_id)
                            is None,
                        AppError::BadRequest(_) => {
                            &&& substitution_index(old(self)@, substitution_id) matches Some(i)
                            &&& !(old(self)@[substitution_index(
                                old(self)@,
                                substitution_id,
                            )->Some_0].status is Pending)
                        },
                        _ => false,
                    }
                },
            },
    {
        let ghost prior = self.substitutions@;
        let mut i: usize = 0;
        while i < self.substitutions.len()
            invariant
                i <= self.substitutions.len(),
                self.substitutions@ == prior,
                old(self)@ == prior,
                notifications@ == old(notifications)@,
                broadcaster@ == old(broadcaster)@,
                forall|k: int|
                    0 <= k < i as int ==> (#[trigger] self.substitutions@[k]).id
                        != substitution_id,
            decreases self.substitutions.len() - i,
        {
            if self.substitutions[i].id == substitution_id {
                proof {
                    let p = substitution_id_pred(substitution_id);
                    assert forall|k: int| 0 <= k < i as int implies !(#[trigger] p(
                        self.substitutions@[k],
                    )) by {
                        assert(self.substitutions@[k].id != substitution_id);
                    }
                    lemma_find_first_prefix(self.substitutions@, p, i as int);
                }
                let mut s = self.substitutions[i];
                let pending = match s.status {
                    SubstitutionStatus::Pending => true,
                    _ => false,
                };
                if !pending {
                    return Err(
                        AppError::BadRequest("Substitution request is not pending".to_owned()),
                    );
                }
                s.status = SubstitutionStatus::Rejected;
                s.updated_at = Instant::now();
                proof {
                    use_type_invariant(&*self);
                }
                let mut rows: Vec<Substitution> = Vec::new();
                core::mem::swap(&mut rows, &mut self.substitutions);
                rows.set(i, s);
                proof {
                    assert forall|k: int| 0 <= k < rows@.len() implies (#[trigger] rows@[k]).id
                        == k by {
                        if k != i as int {
                            assert(rows@[k] == prior[k]);
                        }
                    }
                }
                self.substitutions = rows;
                notifications.send_substitution_rejected_notification(s.id);
                broadcaster.broadcast(DomainEvent::SubstitutionRejected { id: s.id });
                return Ok(s);
            }
            i = i + 1;
        }
        proof {
            let p = substitution_id_pred(substitution_id);
            assert forall|k: int| 0 <= k < self.substitutions@.len() implies !(#[trigger] p(
                self.substitutions@[k],
            )) by {
                assert(self.substitutions@[k].id != substitution_id);
            }
            lemma_find_first_prefix(self.substitutions@, p, self.substitutions@.len() as int);
        }
        Err(AppError::NotFound)
    }

    /// Looks a substitution up by identity; the first match wins.
    pub fn get_substitution(&self, id: u128) -> (r: Option<Substitution>)
        ensures
            r == match substitution_index(self@, id) {
                None => None::<Substitution>,
                Some(i) => Some(self@[i]),
            },
    {
        let mut i: usize = 0;
        while i < self.substitutions.len()
            invariant
                i <= self.substitutions.len(),
                forall|k: int|
                    0 <= k < i as int ==> (#[trigger] self.substitutions@[k]).id != id,
            decreases self.substitutions.len() - i,
        {
            let s = self.substitutions[i];
            if s.id == id {
                proof {
                    let p = substitution_id_pred(id);
                    assert forall|k: int| 0 <= k < i as int implies !(#[trigger] p(
                        self.substitutions@[k],
                    )) by {
                        assert(self.substitutions@[k].id != id);
                    }
                    lemma_find_first_prefix(self.substitutions@, p, i as int);
                }
                return Some(s);
            }
            i = i + 1;
        }
        proof {
            let p = substitution_id_pred(id);
            assert forall|k: int| 0 <= k < self.substitutions@.len() implies !(#[trigger] p(
                self.substitutions@[k],
            )) by {
                assert(self.substitutions@[k].id != id);
            }
            lemma_find_first_prefix(self.substitutions@, p, self.substitutions@.len() as int);
        }
        None
    }

    /// Every substitution, in insertion order.
    pub fn get_all_substitutions(&self) -> (r: Vec<Substitution>)
        ensures
            r@ == self@,
    {
        let mut r: Vec<Substitution> = Vec::new();
        let mut i: usize = 0;
        while i < self.substitutions.len()
            invariant
                i <= self.substitutions.len(),
                r@ == self.substitutions@.take(i as int),
            decreases self.substitutions.len() - i,
        {
            r.push(self.substitutions[i]);
            proof {
                assert(self.substitutions@.take(i as int + 1) =~= self.substitutions@.take(
                    i as int,
                ).push(self.substitutions@[i as int]));
            }
            i = i + 1;
        }
        proof {
            assert(self.substitutions@.take(self.substitutions@.len() as int)
                =~= self.substitutions@);
        }
        r
    }
}

} // verus!

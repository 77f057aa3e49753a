use vstd::prelude::*;

use crate::error::AppError;
use crate::events::{Broadcaster, DomainEvent};
use crate::models::TimetableEntry;
use crate::scan::{find_first, lemma_find_first_prefix};
use crate::time::Instant;

verus! {

/// The lookup predicate: an entry with the given identity.
pub open spec fn entry_id_pred(id: u128) -> spec_fn(TimetableEntry) -> bool {
    |e: TimetableEntry| e.id == id
}

/// Index of the live entry with the given identity, if any.
pub open spec fn entry_index(s: Seq<TimetableEntry>, id: u128) -> Option<int> {
    find_first(s, entry_id_pred(id))
}

/// The live timetable entries; every mutation broadcasts a domain event.
pub struct TimetableEntryService {
    entries: Vec<TimetableEntry>,
    next_id: u128,
}

impl View for TimetableEntryService {
    type V = Seq<TimetableEntry>;

    closed spec fn view(&self) -> Seq<TimetableEntry> {
        self.entries@
    }
}

impl TimetableEntryService {
    /// Identities never repeat: rows can be deleted, so ids come from a
    /// counter that only moves forward; every stored id lies below it and
    /// stored ids are pairwise distinct.
    #[verifier::type_invariant]
    spec fn wf(self) -> bool {
        &&& forall|i: int|
            0 <= i < self.entries@.len() ==> (#[trigger] self.entries@[i]).id < self.next_id
        &&& forall|i: int, j: int|
            0 <= i < j < self.entries@.len() ==> self.entries@[i].id != self.entries@[j].id
    }

    /// How many identities the store has issued so far; `u128::MAX` of
    /// them fit in its lifetime.
    pub closed spec fn issued(&self) -> nat {
        self.next_id as nat
    }

    /// No identity is left to issue.
    pub open spec fn exhausted(&self) -> bool {
        self.issued() == u128::MAX as nat
    }

    pub fn new() -> (s: Self)
        ensures
            s@ == Seq::<TimetableEntry>::empty(),
            s.issued() == 0,
    {
        TimetableEntryService { entries: Vec::new(), next_id: 0 }
    }

    /// Stores a new entry with the given fields and a fresh identity, and
    /// broadcasts its creation. It fails exactly when the 128-bit identity
    /// space is exhausted, reported as an opaque internal error with
    /// nothing changed; no event is broadcast then.
    pub fn create_timetable_entry(
        &mut self,
        broadcaster: &mut Broadcaster,
        course_id: u128,
        room_id: u128,
        time_slot_id: u128,
        teacher_id: u128,
    ) -> (r: Result<TimetableEntry, AppError>)
        ensures
            r is Ok <==> !old(self).exhausted(),
            match r {
                Ok(e) => {
                    &&& final(self).issued() == old(self).issued() + 1
                    &&& final(self)@ == old(self)@.push(e)
                    &&& e.course_id == course_id
                    &&& e.room_id == room_id
                    &&& e.time_slot_id == time_slot_id
                    &&& e.teacher_id == teacher_id
                    &&& e.created_at == e.updated_at
                    &&& forall|k: int|
                        0 <= k < old(self)@.len() ==> (#[trigger] old(self)@[k]).id != e.id
                    &&& final(broadcaster)@ == old(broadcaster)@.push(
                        DomainEvent::TimetableCreated { id: e.id },
                    )
                },
                Err(err) => {
                    &&& err is Internal
                    &&& final(self)@ == old(self)@
                    &&& final(self).issued() == old(self).issued()
                    &&& final(broadcaster)@ == old(broadcaster)@
                },
            },
    {
        proof {
            use_type_invariant(&*self);
        }
        if self.next_id == u128::MAX {
            return Err(AppError::Internal);
        }
        let now = Instant::now();
        let id = self.next_id;
        self.next_id = id + 1;
        let e = TimetableEntry {
            id,
            course_id,
            room_id,
            time_slot_id,
            teacher_id,
            created_at: now,
            updated_at: now,
        };
        let mut rows: Vec<TimetableEntry> = Vec::new();
        core::mem::swap(&mut rows, &mut self.entries);
        rows.push(e);
        proof {
            assert forall|a: int, b: int| 0 <= a < b < rows@.len() implies rows@[a].id
                != rows@[b].id by {
                if b < old(self)@.len() {
                    assert(rows@[a] == old(self)@[a] && rows@[b] == old(self)@[b]);
                } else {
                    assert(rows@[a] == old(self)@[a] && rows@[b] == e);
                }
            }
        }
        self.entries = rows;
        broadcaster.broadcast(DomainEvent::TimetableCreated { id: e.id });
        Ok(e)
    }

    /// Looks an entry up by identity; the first match wins.
    pub fn get_timetable_entry(&self, id: u128) -> (r: Option<TimetableEntry>)
        ensures
            r == match entry_index(self@, id) {
                None => None::<TimetableEntry>,
                Some(i) => Some(self@[i]),
            },
    {
        let mut i: usize = 0;
        while i < self.entries.len()
            invariant
                i <= self.entries.len(),
                forall|k: int| 0 <= k < i as int ==> (#[trigger] self.entries@[k]).id != id,
            decreases self.entries.len() - i,
        {
            let e = self.entries[i];
            if e.id == id {
                proof {
                    let p = entry_id_pred(id);
                    assert forall|k: int| 0 <= k < i as int implies !(#[trigger] p(
                        self.entries@[k],
                    )) by {
                        assert(self.entries@[k].id != id);
                    }
                    lemma_find_first_prefix(self.entries@, p, i as int);
                }
                return Some(e);
            }
            i = i + 1;
        }
        proof {
            let p = entry_id_pred(id);
            assert forall|k: int| 0 <= k < self.entries@.len() implies !(#[trigger] p(
                self.entries@[k],
            )) by {
                assert(self.entries@[k].id != id);
            }
            lemma_find_first_prefix(self.entries@, p, self.entries@.len() as int);
        }
        None
    }

    /// Every live entry, in insertion order.
    pub fn get_all_timetable_entries(&self) -> (r: Vec<TimetableEntry>)
        ensures
            r@ == self@,
    {
        let mut r: Vec<TimetableEntry> = Vec::new();
        let mut i: usize = 0;
        while i < self.entries.len()
            invariant
                i <= self.entries.len(),
                r@ == self.entries@.take(i as int),
            decreases self.entries.len() - i,
        {
            r.push(self.entries[i]);
            proof {
                assert(self.entries@.take(i as int + 1) =~= self.entries@.take(i as int).push(
                    self.entries@[i as int],
                ));
            }
            i = i + 1;
        }
        proof {
            assert(self.entries@.take(self.entries@.len() as int) =~= self.entries@);
        }
        r
    }

    /// Overwrites exactly the fields given as `Some`, stamps the entry, and
    /// broadcasts the update. Fails with NotFound when the entry is absent;
    /// then nothing changes and nothing is broadcast.
    pub fn update_timetable_entry(
        &mut self,
        broadcaster: &mut Broadcaster,
        id: u128,
        course_id: Option<u128>,
        room_id: Option<u128>,
        time_slot_id: Option<u128>,
        teacher_id: Option<u128>,
    ) -> (r: Result<TimetableEntry, AppError>)
        ensures
            final(self).issued() == old(self).issued(),
            match r {
                Ok(e) => {
                    &&& entry_index(old(self)@, id) matches Some(i)
                    &&& {
                        let i = entry_index(old(self)@, id)->Some_0;
                        let prev = old(self)@[i];
                        &&& final(self)@ == old(self)@.update(i, e)
                        &&& e.id == prev.id
                        &&& e.course_id == (match course_id {
                            Some(c) => c,
                            None => prev.course_id,
                        })
                        &&& e.room_id == (match room_id {
                            Some(c) => c,
                            None => prev.room_id,
                        })
                        &&& e.time_slot_id == (match time_slot_id {
                            Some(c) => c,
                            None => prev.time_slot_id,
                        })
                        &&& e.teacher_id == (match teacher_id {
                            Some(c) => c,
                            None => prev.teacher_id,
                        })
                        &&& e.created_at == prev.created_at
                        &&& final(broadcaster)@ == old(broadcaster)@.push(
                            DomainEvent::TimetableUpdated { id: e.id },
                        )
                    }
                },
                Err(err) => {
                    &&& err is NotFound
                    &&& entry_index(old(self)@, id) is None
                    &&& final(self)@ == old(self)@
                    &&& final(broadcaster)@ == old(broadcaster)@
                },
            },
    {
        let ghost prior = self.entries@;
        let mut i: usize = 0;
        while i < self.entries.len()
            invariant
                i <= self.entries.len(),
                self.entries@ == prior,
                old(self)@ == prior,
                self.issued() == old(self).issued(),
                broadcaster@ == old(broadcaster)@,
                forall|k: int| 0 <= k < i as int ==> (#[trigger] self.entries@[k]).id != id,
            decreases self.entries.len() - i,
        {
            if self.entries[i].id == id {
                proof {
                    use_type_invariant(&*self);
                    let p = entry_id_pred(id);
                    assert forall|k: int| 0 <= k < i as int implies !(#[trigger] p(
                        self.entries@[k],
                    )) by {
                        assert(self.entries@[k].id != id);
                    }
                    lemma_find_first_prefix(self.entries@, p, i as int);
                }
                let mut e = self.entries[i];
                if let Some(c) = course_id {
                    e.course_id = c;
                }
                if let Some(c) = room_id {
                    e.room_id = c;
                }
                if let Some(c) = time_slot_id {
                    e.time_slot_id = c;
                }
                if let Some(c) = teacher_id {
                    e.teacher_id = c;
                }
                e.updated_at = Instant::now();
                let mut rows: Vec<TimetableEntry> = Vec::new();
                core::mem::swap(&mut rows, &mut self.entries);
                rows.set(i, e);
                proof {
                    assert forall|a: int, b: int| 0 <= a < b < rows@.len() implies rows@[a].id
                        != rows@[b].id by {
                        assert(rows@[a] == if a == i as int {
                            e
                        } else {
                            prior[a]
                        });
                        assert(rows@[b] == if b == i as int {
                            e
                        } else {
                            prior[b]
                        });
                    }
                    assert forall|a: int| 0 <= a < rows@.len() implies rows@[a].id
                        < self.next_id by {
                        assert(rows@[a] == if a == i as int {
                            e
                        } else {
                            prior[a]
                        });
                    }
                }
                self.entries = rows;
                broadcaster.broadcast(DomainEvent::TimetableUpdated { id: e.id });
                return Ok(e);
            }
            i = i + 1;
        }
        proof {
            let p = entry_id_pred(id);
            assert forall|k: int| 0 <= k < self.entries@.len() implies !(#[trigger] p(
                self.entries@[k],
            )) by {
                assert(self.entries@[k].id != id);
            }
            lemma_find_first_prefix(self.entries@, p, self.entries@.len() as int);
        }
        Err(AppError::NotFound)
    }

    /// Removes the entry if it exists and broadcasts the deletion either
    /// way, as removal of an absent entry is not an error.
    pub fn delete_timetable_entry(&mut self, broadcaster: &mut Broadcaster, id: u128) -> (r:
        Result<(), AppError>)
        ensures
            r is Ok,
            final(self).issued() == old(self).issued(),
            match entry_index(old(self)@, id) {
                Some(i) => final(self)@ == old(self)@.remove(i),
                None => final(self)@ == old(self)@,
            },
            final(broadcaster)@ == old(broadcaster)@.push(DomainEvent::TimetableDeleted { id }),
    {
        let ghost prior = self.entries@;
        let mut i: usize = 0;
        while i < self.entries.len()
            invariant
                i <= self.entries.len(),
                self.entries@ == prior,
                old(self)@ == prior,
                self.issued() == old(self).issued(),
                broadcaster@ == old(broadcaster)@,
                forall|k: int| 0 <= k < i as int ==> (#[trigger] self.entries@[k]).id != id,
            decreases self.entries.len() - i,
        {
            if self.entries[i].id == id {
                proof {
                    use_type_invariant(&*self);
                    let p = entry_id_pred(id);
                    assert forall|k: int| 0 <= k < i as int implies !(#[trigger] p(
                        self.entries@[k],
                    )) by {
                        assert(self.entries@[k].id != id);
                    }
                    lemma_find_first_prefix(self.entries@, p, i as int);
                }
                let mut rows: Vec<TimetableEntry> = Vec::new();
                core::mem::swap(&mut rows, &mut self.entries);
                rows.remove(i);
                proof {
                    prior.remove_ensures(i as int);
                    assert forall|a: int, b: int| 0 <= a < b < rows@.len() implies rows@[a].id
                        != rows@[b].id by {
                        let pa = if a < i as int {
                            a
                        } else {
                            a + 1
                        };
                        let pb = if b < i as int {
                            b
                        } else {
                            b + 1
                        };
                        assert(rows@[a] == prior[pa] && rows@[b] == prior[pb]);
                        assert(prior[pa].id != prior[pb].id);
                    }
                    assert forall|a: int| 0 <= a < rows@.len() implies rows@[a].id
                        < self.next_id by {
                        let pa = if a < i as int {
                            a
                        } else {
                            a + 1
                        };
                        assert(rows@[a] == prior[pa]);
                    }
                }
                self.entries = rows;
                broadcaster.broadcast(DomainEvent::TimetableDeleted { id });
                return Ok(());
            }
            i = i + 1;
        }
        proof {
            let p = entry_id_pred(id);
            assert forall|k: int| 0 <= k < self.entries@.len() implies !(#[trigger] p(
                self.entries@[k],
            )) by {
                assert(self.entries@[k].id != id);
            }
            lemma_find_first_prefix(self.entries@, p, self.entries@.len() as int);
        }
        broadcaster.broadcast(DomainEvent::TimetableDeleted { id });
        Ok(())
    }
}

} // verus!

use vstd::prelude::*;

use crate::models::{Course, Room, TimeSlot, TimetableEntry, TimetableSnapshot, User, UserRole};

verus! {

/// The teachers among a list of users, in order.
pub open spec fn teachers_of(users: Seq<User>) -> Seq<User> {
    users.filter(|u: User| u.role is Teacher)
}

/// Bundles one consistent read of the entities into a snapshot, keeping
/// only the teachers from the user list.
pub fn get_timetable_snapshot(
    courses: Vec<Course>,
    rooms: Vec<Room>,
    time_slots: Vec<TimeSlot>,
    users: Vec<User>,
    timetable_entries: Vec<TimetableEntry>,
) -> (r: TimetableSnapshot)
    ensures
        r.courses == courses,
        r.rooms == rooms,
        r.time_slots == time_slots,
        r.timetable_entries == timetable_entries,
        r.teachers@ == teachers_of(users@),
{
    let mut teachers: Vec<User> = Vec::new();
    let mut i: usize = 0;
    while i < users.len()
        invariant
            i <= users.len(),
            teachers@ == teachers_of(users@.take(i as int)),
        decreases users.len() - i,
    {
        let u = &users[i];
        let ghost t_prev = teachers@;
        let is_teacher = match u.role {
            UserRole::Teacher => true,
            _ => false,
        };
        if is_teacher {
            teachers.push(u.clone());
        }
        proof {
            reveal(Seq::filter);
            let t1 = users@.take(i as int + 1);
            assert(t1.drop_last() =~= users@.take(i as int));
            assert(t1.last() == users@[i as int]);
            assert(teachers_of(t1) == if users@[i as int].role is Teacher {
                t_prev.push(users@[i as int])
            } else {
                t_prev
            });
            assert(teachers@ == teachers_of(t1));
        }
        i = i + 1;
    }
    proof {
        assert(users@.take(users@.len() as int) =~= users@);
    }
    TimetableSnapshot { courses, rooms, time_slots, teachers, timetable_entries }
}

} // verus!

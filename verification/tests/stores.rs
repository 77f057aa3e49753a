use timetable::availability::{AvailabilityInput, AvailabilityService};
use timetable::draft_entries::{DraftEntryInput, DraftEntryService};
use timetable::models::{Course, Room, TimeSlot, TimetableEntry, User, UserRole};
use timetable::snapshot::get_timetable_snapshot;
use timetable::text::u128_to_string;
use timetable::time::{weekday_for, Instant};
use timetable::time_slots::TimeSlotStore;

fn instant() -> Instant {
    Instant { day: 0, sec: 0 }
}

fn user(id: u128, name: &str, role: UserRole) -> User {
    User {
        id,
        username: name.to_string(),
        email: format!("{}@school.example", name),
        hashed_password: String::new(),
        role,
        created_at: instant(),
        updated_at: instant(),
    }
}

#[test]
fn bulk_insert_stores_every_entry_under_the_draft() {
    let mut entries = DraftEntryService::new();
    let created = entries.add_entries_to_draft(
        7,
        vec![
            DraftEntryInput {
                draft_timetable_id: 0,
                course_id: 11,
                teacher_id: 21,
                room_id: 31,
                time_slot_id: 41,
            },
            DraftEntryInput {
                draft_timetable_id: 0,
                course_id: 12,
                teacher_id: 22,
                room_id: 32,
                time_slot_id: 42,
            },
        ],
    );
    assert_eq!(created.len(), 2);
    assert!(created.iter().all(|e| e.draft_timetable_id == 7));
    let stored = entries.get_entries_for_draft(7);
    assert_eq!(stored.len(), 2);
    assert_eq!(stored[0].course_id, 11);
    assert_eq!(stored[1].course_id, 12);
    assert!(entries.get_entries_for_draft(8).is_empty());
}

#[test]
fn submitting_availability_always_inserts() {
    let mut availability = AvailabilityService::new();
    let w = AvailabilityInput {
        teacher_id: 21,
        day_of_week: 2,
        start_time: 8 * 3600,
        end_time: 11 * 3600,
        is_preferred: true,
    };
    let first = availability.submit_availability(w);
    let second = availability.submit_availability(w);
    assert_ne!(first.id, second.id);
    assert!(first.is_preferred);
    // Day 20459 is two days past a Sunday: a Tuesday.
    let tuesday = availability.get_availability(21, 20459);
    assert_eq!(tuesday.len(), 2);
    assert!(availability.get_availability(21, 20460).is_empty());
    assert!(availability.get_availability(99, 20459).is_empty());
}

#[test]
fn weekday_numbering_starts_at_sunday() {
    // Day 0 (1970-01-01) was a Thursday.
    assert_eq!(weekday_for(0), 4);
    assert_eq!(weekday_for(3), 0);
    assert_eq!(weekday_for(20457), 0);
    assert_eq!(weekday_for(20458), 1);
}

#[test]
fn time_slot_store_finds_by_identity() {
    let mut slots = TimeSlotStore::new();
    let s = TimeSlot {
        id: 41,
        workspace_id: 1,
        day_of_week: 2,
        start_time: 9 * 3600,
        end_time: 10 * 3600,
        created_at: instant(),
        updated_at: instant(),
    };
    slots.create(s);
    assert_eq!(slots.find_by_id(41).unwrap().day_of_week, 2);
    assert!(slots.find_by_id(42).is_none());
}

#[test]
fn snapshot_keeps_only_teachers() {
    let users = vec![
        user(1, "ada", UserRole::Admin),
        user(2, "tom", UserRole::Teacher),
        user(3, "uma", UserRole::User),
        user(4, "tia", UserRole::Teacher),
    ];
    let courses = vec![Course {
        id: 11,
        code: "M1".to_string(),
        name: "Maths".to_string(),
        description: None,
        created_at: instant(),
        updated_at: instant(),
    }];
    let rooms = vec![Room {
        id: 31,
        name: "R1".to_string(),
        capacity: 30,
        created_at: instant(),
        updated_at: instant(),
    }];
    let slots: Vec<TimeSlot> = Vec::new();
    let entries = vec![TimetableEntry {
        id: 51,
        course_id: 11,
        room_id: 31,
        time_slot_id: 41,
        teacher_id: 2,
        created_at: instant(),
        updated_at: instant(),
    }];
    let snap = get_timetable_snapshot(courses, rooms, slots, users, entries);
    assert_eq!(snap.teachers.len(), 2);
    assert_eq!(snap.teachers[0].id, 2);
    assert_eq!(snap.teachers[1].id, 4);
    assert_eq!(snap.courses.len(), 1);
    assert_eq!(snap.rooms.len(), 1);
    assert!(snap.time_slots.is_empty());
    assert_eq!(snap.timetable_entries.len(), 1);
}

#[test]
fn decimal_rendering_matches_the_standard_one() {
    assert_eq!(u128_to_string(0), "0");
    assert_eq!(u128_to_string(7), "7");
    assert_eq!(u128_to_string(10), "10");
    assert_eq!(u128_to_string(409), "409");
    assert_eq!(u128_to_string(u128::MAX), format!("{}", u128::MAX));
}

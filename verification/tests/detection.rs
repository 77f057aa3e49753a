use timetable::availability::{AvailabilityInput, AvailabilityService};
use timetable::conflicts::ConflictService;
use timetable::draft_entries::{DraftEntryInput, DraftEntryService};
use timetable::models::{ConflictStatus, TimeSlot};
use timetable::time::Instant;
use timetable::time_slots::TimeSlotStore;

fn instant() -> Instant {
    Instant { day: 0, sec: 0 }
}

fn slot(id: u128, day_of_week: u8, start_time: u32, end_time: u32) -> TimeSlot {
    TimeSlot {
        id,
        workspace_id: 1,
        day_of_week,
        start_time,
        end_time,
        created_at: instant(),
        updated_at: instant(),
    }
}

fn entry_input(course: u128, teacher: u128, room: u128, slot: u128) -> DraftEntryInput {
    DraftEntryInput {
        draft_timetable_id: 0,
        course_id: course,
        teacher_id: teacher,
        room_id: room,
        time_slot_id: slot,
    }
}

fn window(teacher: u128, day_of_week: u8, start_time: u32, end_time: u32) -> AvailabilityInput {
    AvailabilityInput { teacher_id: teacher, day_of_week, start_time, end_time, is_preferred: false }
}

#[test]
fn detect_on_empty_draft_yields_nothing() {
    let entries = DraftEntryService::new();
    let availability = AvailabilityService::new();
    let slots = TimeSlotStore::new();
    let mut conflicts = ConflictService::new();
    let found = conflicts.get_conflicts(&entries, &availability, &slots, 7);
    assert!(found.is_empty());
    assert!(conflicts.get_conflicts_for_draft(7).is_empty());
}

#[test]
fn teacher_double_booking_yields_one_conflict() {
    let mut entries = DraftEntryService::new();
    let availability = AvailabilityService::new();
    let slots = TimeSlotStore::new();
    let mut conflicts = ConflictService::new();
    // Same teacher and slot, different rooms and courses; the slot is not in
    // the store, so the availability pass reports nothing.
    entries.add_entries_to_draft(7, vec![entry_input(11, 21, 31, 41), entry_input(12, 21, 32, 41)]);
    let found = conflicts.get_conflicts(&entries, &availability, &slots, 7);
    assert_eq!(found.len(), 1);
    let c = &found[0];
    assert_eq!(c.draft_timetable_id, 7);
    assert_eq!(c.teacher_id, Some(21));
    assert_eq!(c.room_id, None);
    assert_eq!(c.time_slot_id, Some(41));
    assert!(matches!(c.status, ConflictStatus::Open));
    assert_eq!(
        c.description,
        "Teacher is double-booked for courses 11 and 12 at the same time"
    );
}

#[test]
fn shared_room_adds_a_room_conflict() {
    let mut entries = DraftEntryService::new();
    let availability = AvailabilityService::new();
    let slots = TimeSlotStore::new();
    let mut conflicts = ConflictService::new();
    entries.add_entries_to_draft(7, vec![entry_input(11, 21, 31, 41), entry_input(12, 21, 31, 41)]);
    let found = conflicts.get_conflicts(&entries, &availability, &slots, 7);
    assert_eq!(found.len(), 2);
    assert_eq!(
        found[0].description,
        "Teacher is double-booked for courses 11 and 12 at the same time"
    );
    let room = &found[1];
    assert_eq!(room.teacher_id, None);
    assert_eq!(room.room_id, Some(31));
    assert_eq!(room.time_slot_id, Some(41));
    assert_eq!(
        room.description,
        "Room is double-booked for courses 11 and 12 at the same time"
    );
}

#[test]
fn different_slots_do_not_conflict() {
    let mut entries = DraftEntryService::new();
    let availability = AvailabilityService::new();
    let slots = TimeSlotStore::new();
    let mut conflicts = ConflictService::new();
    entries.add_entries_to_draft(7, vec![entry_input(11, 21, 31, 41), entry_input(12, 21, 31, 42)]);
    let found = conflicts.get_conflicts(&entries, &availability, &slots, 7);
    assert!(found.is_empty());
}

#[test]
fn uncovered_slot_yields_availability_conflict() {
    let mut entries = DraftEntryService::new();
    let availability = AvailabilityService::new();
    let mut slots = TimeSlotStore::new();
    let mut conflicts = ConflictService::new();
    slots.create(slot(41, 2, 9 * 3600, 10 * 3600));
    entries.add_entries_to_draft(7, vec![entry_input(11, 21, 31, 41)]);
    let found = conflicts.get_conflicts(&entries, &availability, &slots, 7);
    assert_eq!(found.len(), 1);
    let c = &found[0];
    assert_eq!(c.teacher_id, Some(21));
    assert_eq!(c.room_id, None);
    assert_eq!(c.time_slot_id, Some(41));
    assert!(matches!(c.status, ConflictStatus::Open));
    assert_eq!(c.description, "Teacher is not available during time slot 41");
}

#[test]
fn covering_window_silences_the_availability_pass() {
    let mut entries = DraftEntryService::new();
    let mut availability = AvailabilityService::new();
    let mut slots = TimeSlotStore::new();
    let mut conflicts = ConflictService::new();
    slots.create(slot(41, 2, 9 * 3600, 10 * 3600));
    availability.submit_availability(window(21, 2, 8 * 3600, 11 * 3600));
    entries.add_entries_to_draft(7, vec![entry_input(11, 21, 31, 41)]);
    let found = conflicts.get_conflicts(&entries, &availability, &slots, 7);
    assert!(found.is_empty());
}

#[test]
fn partial_window_still_conflicts() {
    let mut entries = DraftEntryService::new();
    let mut availability = AvailabilityService::new();
    let mut slots = TimeSlotStore::new();
    let mut conflicts = ConflictService::new();
    slots.create(slot(41, 2, 9 * 3600, 10 * 3600));
    // Starts half an hour into the slot: not a full cover.
    availability.submit_availability(window(21, 2, 9 * 3600 + 1800, 11 * 3600));
    entries.add_entries_to_draft(7, vec![entry_input(11, 21, 31, 41)]);
    let found = conflicts.get_conflicts(&entries, &availability, &slots, 7);
    assert_eq!(found.len(), 1);
}

#[test]
fn window_on_another_weekday_does_not_count() {
    let mut entries = DraftEntryService::new();
    let mut availability = AvailabilityService::new();
    let mut slots = TimeSlotStore::new();
    let mut conflicts = ConflictService::new();
    slots.create(slot(41, 2, 9 * 3600, 10 * 3600));
    availability.submit_availability(window(21, 3, 8 * 3600, 11 * 3600));
    entries.add_entries_to_draft(7, vec![entry_input(11, 21, 31, 41)]);
    let found = conflicts.get_conflicts(&entries, &availability, &slots, 7);
    assert_eq!(found.len(), 1);
}

#[test]
fn another_teachers_window_does_not_count() {
    let mut entries = DraftEntryService::new();
    let mut availability = AvailabilityService::new();
    let mut slots = TimeSlotStore::new();
    let mut conflicts = ConflictService::new();
    slots.create(slot(41, 2, 9 * 3600, 10 * 3600));
    availability.submit_availability(window(22, 2, 8 * 3600, 11 * 3600));
    entries.add_entries_to_draft(7, vec![entry_input(11, 21, 31, 41)]);
    let found = conflicts.get_conflicts(&entries, &availability, &slots, 7);
    assert_eq!(found.len(), 1);
}

#[test]
fn day_of_week_wraps_around_the_reference_week() {
    let mut entries = DraftEntryService::new();
    let mut availability = AvailabilityService::new();
    let mut slots = TimeSlotStore::new();
    let mut conflicts = ConflictService::new();
    // Day 9 lands two days past the reference Sunday: a Tuesday window covers.
    slots.create(slot(41, 9, 9 * 3600, 10 * 3600));
    availability.submit_availability(window(21, 2, 8 * 3600, 11 * 3600));
    entries.add_entries_to_draft(7, vec![entry_input(11, 21, 31, 41)]);
    let found = conflicts.get_conflicts(&entries, &availability, &slots, 7);
    assert!(found.is_empty());
}

#[test]
fn repeated_detection_appends_and_doubles_open_conflicts() {
    let mut entries = DraftEntryService::new();
    let availability = AvailabilityService::new();
    let slots = TimeSlotStore::new();
    let mut conflicts = ConflictService::new();
    entries.add_entries_to_draft(7, vec![entry_input(11, 21, 31, 41), entry_input(12, 21, 31, 41)]);
    let first = conflicts.get_conflicts(&entries, &availability, &slots, 7);
    let second = conflicts.get_conflicts(&entries, &availability, &slots, 7);
    assert_eq!(first.len(), 2);
    assert_eq!(second.len(), 2);
    let stored = conflicts.get_conflicts_for_draft(7);
    assert_eq!(stored.len(), 4);
    assert!(stored.iter().all(|c| matches!(c.status, ConflictStatus::Open)));
    for a in 0..stored.len() {
        for b in (a + 1)..stored.len() {
            assert_ne!(stored[a].id, stored[b].id);
        }
    }
    assert_eq!(first[0].description, second[0].description);
    assert_eq!(first[1].description, second[1].description);
}

#[test]
fn detection_is_scoped_to_the_draft() {
    let mut entries = DraftEntryService::new();
    let availability = AvailabilityService::new();
    let slots = TimeSlotStore::new();
    let mut conflicts = ConflictService::new();
    entries.add_entries_to_draft(7, vec![entry_input(11, 21, 31, 41)]);
    entries.add_entries_to_draft(8, vec![entry_input(12, 21, 32, 41)]);
    // Each draft alone has one entry: no pair within either draft.
    let found = conflicts.get_conflicts(&entries, &availability, &slots, 7);
    assert!(found.is_empty());
}

#[test]
fn huge_course_ids_render_in_full() {
    let mut entries = DraftEntryService::new();
    let availability = AvailabilityService::new();
    let slots = TimeSlotStore::new();
    let mut conflicts = ConflictService::new();
    let big = u128::MAX;
    entries.add_entries_to_draft(7, vec![entry_input(big, 21, 31, 41), entry_input(0, 21, 32, 41)]);
    let found = conflicts.get_conflicts(&entries, &availability, &slots, 7);
    assert_eq!(found.len(), 1);
    assert_eq!(
        found[0].description,
        format!(
            "Teacher is double-booked for courses {} and {} at the same time",
            "340282366920938463463374607431768211455", "0"
        )
    );
}

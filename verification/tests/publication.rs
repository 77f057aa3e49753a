use timetable::availability::AvailabilityService;
use timetable::conflicts::ConflictService;
use timetable::draft_entries::{DraftEntryInput, DraftEntryService};
use timetable::draft_timetables::DraftTimetableService;
use timetable::error::AppError;
use timetable::models::{ConflictStatus, DraftTimetableStatus};
use timetable::published_timetables::PublishedTimetableService;
use timetable::time_slots::TimeSlotStore;

fn entry_input(course: u128, teacher: u128, room: u128, slot: u128) -> DraftEntryInput {
    DraftEntryInput {
        draft_timetable_id: 0,
        course_id: course,
        teacher_id: teacher,
        room_id: room,
        time_slot_id: slot,
    }
}

#[test]
fn publish_unknown_draft_is_not_found() {
    let mut drafts = DraftTimetableService::new();
    let conflicts = ConflictService::new();
    let mut published = PublishedTimetableService::new();
    let r = published.publish_timetable(&mut drafts, &conflicts, 1, 999);
    assert!(matches!(r, Err(AppError::NotFound)));
}

#[test]
fn publish_draft_of_another_workspace_is_not_found() {
    let mut drafts = DraftTimetableService::new();
    let conflicts = ConflictService::new();
    let mut published = PublishedTimetableService::new();
    let d = drafts.create_draft(1, "Plan".to_string(), "Autumn".to_string(), 2026, false);
    let r = published.publish_timetable(&mut drafts, &conflicts, 2, d.id);
    assert!(matches!(r, Err(AppError::NotFound)));
}

#[test]
fn create_draft_takes_the_activity_flag() {
    let mut drafts = DraftTimetableService::new();
    let active = drafts.create_draft(1, "Now".to_string(), "Spring".to_string(), 2027, true);
    assert!(active.is_active);
    let dormant = drafts.create_draft(1, "Later".to_string(), "Autumn".to_string(), 2027, false);
    assert!(!dormant.is_active);
    assert_ne!(active.id, dormant.id);
}

#[test]
fn create_draft_starts_in_draft_state() {
    let mut drafts = DraftTimetableService::new();
    let d = drafts.create_draft(1, "Plan".to_string(), "Autumn".to_string(), 2026, false);
    assert_eq!(d.workspace_id, 1);
    assert_eq!(d.name, "Plan");
    assert_eq!(d.term, "Autumn");
    assert_eq!(d.year, 2026);
    assert!(matches!(d.status, DraftTimetableStatus::Draft));
    assert!(!d.is_active);
    let fetched = drafts.get_draft(1, d.id).unwrap();
    assert_eq!(fetched.name, "Plan");
}

#[test]
fn publish_with_open_conflict_is_unprocessable_and_keeps_draft() {
    let mut drafts = DraftTimetableService::new();
    let mut entries = DraftEntryService::new();
    let availability = AvailabilityService::new();
    let slots = TimeSlotStore::new();
    let mut conflicts = ConflictService::new();
    let mut published = PublishedTimetableService::new();
    let d = drafts.create_draft(1, "Plan".to_string(), "Autumn".to_string(), 2026, false);
    entries.add_entries_to_draft(
        d.id,
        vec![entry_input(11, 21, 31, 41), entry_input(12, 21, 32, 41)],
    );
    let found = conflicts.get_conflicts(&entries, &availability, &slots, d.id);
    assert_eq!(found.len(), 1);
    let r = published.publish_timetable(&mut drafts, &conflicts, 1, d.id);
    assert!(matches!(r, Err(AppError::UnprocessableEntity(_))));
    let after = drafts.get_draft(1, d.id).unwrap();
    assert!(matches!(after.status, DraftTimetableStatus::Draft));
}

#[test]
fn publish_after_resolving_everything_succeeds() {
    let mut drafts = DraftTimetableService::new();
    let mut entries = DraftEntryService::new();
    let availability = AvailabilityService::new();
    let slots = TimeSlotStore::new();
    let mut conflicts = ConflictService::new();
    let mut published = PublishedTimetableService::new();
    let d = drafts.create_draft(1, "Plan".to_string(), "Autumn".to_string(), 2026, false);
    // Course A and course B share teacher T1, room R1 and slot S1.
    entries.add_entries_to_draft(
        d.id,
        vec![entry_input(11, 21, 31, 41), entry_input(12, 21, 31, 41)],
    );
    let found = conflicts.get_conflicts(&entries, &availability, &slots, d.id);
    assert_eq!(found.len(), 2);
    assert_ne!(found[0].id, found[1].id);
    assert_eq!(found[0].teacher_id, Some(21));
    assert_eq!(found[0].time_slot_id, Some(41));
    assert_eq!(found[1].room_id, Some(31));
    assert_eq!(found[1].time_slot_id, Some(41));
    for c in &found {
        let resolved = conflicts.resolve_conflict(c.id, ConflictStatus::Resolved).unwrap();
        assert!(matches!(resolved.status, ConflictStatus::Resolved));
    }
    let p = published.publish_timetable(&mut drafts, &conflicts, 1, d.id).unwrap();
    assert_eq!(p.workspace_id, 1);
    assert_eq!(p.draft_timetable_id, d.id);
    assert_eq!(p.valid_to - p.valid_from, 180);
    assert_eq!(p.valid_from, p.published_at.day);
    let after = drafts.get_draft(1, d.id).unwrap();
    assert!(matches!(after.status, DraftTimetableStatus::Published));
    let fetched = published.get_published_timetable(p.id).unwrap();
    assert_eq!(fetched.draft_timetable_id, d.id);
    let latest = published.get_latest_published_timetable().unwrap();
    assert_eq!(latest.id, p.id);
}

#[test]
fn ignored_conflicts_do_not_block_publication() {
    let mut drafts = DraftTimetableService::new();
    let mut entries = DraftEntryService::new();
    let availability = AvailabilityService::new();
    let slots = TimeSlotStore::new();
    let mut conflicts = ConflictService::new();
    let mut published = PublishedTimetableService::new();
    let d = drafts.create_draft(1, "Plan".to_string(), "Autumn".to_string(), 2026, false);
    entries.add_entries_to_draft(
        d.id,
        vec![entry_input(11, 21, 31, 41), entry_input(12, 21, 32, 41)],
    );
    let found = conflicts.get_conflicts(&entries, &availability, &slots, d.id);
    conflicts.resolve_conflict(found[0].id, ConflictStatus::Ignored).unwrap();
    let r = published.publish_timetable(&mut drafts, &conflicts, 1, d.id);
    assert!(r.is_ok());
}

#[test]
fn reopening_a_conflict_blocks_publication_again() {
    let mut drafts = DraftTimetableService::new();
    let mut entries = DraftEntryService::new();
    let availability = AvailabilityService::new();
    let slots = TimeSlotStore::new();
    let mut conflicts = ConflictService::new();
    let mut published = PublishedTimetableService::new();
    let d = drafts.create_draft(1, "Plan".to_string(), "Autumn".to_string(), 2026, false);
    entries.add_entries_to_draft(
        d.id,
        vec![entry_input(11, 21, 31, 41), entry_input(12, 21, 32, 41)],
    );
    let found = conflicts.get_conflicts(&entries, &availability, &slots, d.id);
    let c = &found[0];
    conflicts.resolve_conflict(c.id, ConflictStatus::Resolved).unwrap();
    let reopened = conflicts.resolve_conflict(c.id, ConflictStatus::Open).unwrap();
    assert!(matches!(reopened.status, ConflictStatus::Open));
    let r = published.publish_timetable(&mut drafts, &conflicts, 1, d.id);
    assert!(matches!(r, Err(AppError::UnprocessableEntity(_))));
}

#[test]
fn resolve_unknown_conflict_is_not_found() {
    let mut conflicts = ConflictService::new();
    let r = conflicts.resolve_conflict(12345, ConflictStatus::Resolved);
    assert!(matches!(r, Err(AppError::NotFound)));
}

#[test]
fn raw_status_setter_obeys_its_caller() {
    let mut drafts = DraftTimetableService::new();
    let d = drafts.create_draft(1, "Plan".to_string(), "Autumn".to_string(), 2026, false);
    let archived = drafts.update_draft_status(1, d.id, DraftTimetableStatus::Archived).unwrap();
    assert!(matches!(archived.status, DraftTimetableStatus::Archived));
    let missing = drafts.update_draft_status(1, 999, DraftTimetableStatus::Published);
    assert!(matches!(missing, Err(AppError::NotFound)));
}

#[test]
fn latest_published_timetable_tracks_later_publications() {
    let mut drafts = DraftTimetableService::new();
    let conflicts = ConflictService::new();
    let mut published = PublishedTimetableService::new();
    assert!(published.get_latest_published_timetable().is_none());
    let d1 = drafts.create_draft(1, "A".to_string(), "T".to_string(), 2026, false);
    let d2 = drafts.create_draft(1, "B".to_string(), "T".to_string(), 2026, false);
    let p1 = published.publish_timetable(&mut drafts, &conflicts, 1, d1.id).unwrap();
    let p2 = published.publish_timetable(&mut drafts, &conflicts, 1, d2.id).unwrap();
    let latest = published.get_latest_published_timetable().unwrap();
    // Both publications may share a timestamp; the latest is one of them.
    assert!(latest.id == p1.id || latest.id == p2.id);
    assert!(published.get_published_timetable(p1.id).is_some());
    assert!(published.get_published_timetable(p2.id).is_some());
}

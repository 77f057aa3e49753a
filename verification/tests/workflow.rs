use timetable::error::AppError;
use timetable::events::{Broadcaster, DomainEvent};
use timetable::models::SubstitutionStatus;
use timetable::notifications::{NotificationKind, NotificationService};
use timetable::substitutions::SubstitutionService;
use timetable::timetable_entries::TimetableEntryService;

use tokio::sync::broadcast::error::TryRecvError;

#[test]
fn request_substitution_opens_pending_and_notifies() {
    let mut broadcaster = Broadcaster::new(1024);
    let mut rx = broadcaster.subscribe();
    let mut notifications = NotificationService::new();
    let mut subs = SubstitutionService::new();
    let s = subs.request_substitution(&mut notifications, &mut broadcaster, 55);
    assert_eq!(s.timetable_entry_id, 55);
    assert_eq!(s.substituting_teacher_id, None);
    assert!(matches!(s.status, SubstitutionStatus::Pending));
    let log = notifications.requests();
    assert_eq!(log.len(), 1);
    assert!(matches!(log[0].kind, NotificationKind::SubstitutionRequested));
    assert_eq!(log[0].substitution_id, s.id);
    assert_eq!(rx.try_recv().unwrap(), DomainEvent::SubstitutionRequested { id: s.id });
}

#[test]
fn accept_substitution_records_the_teacher() {
    let mut broadcaster = Broadcaster::new(1024);
    let mut rx = broadcaster.subscribe();
    let mut notifications = NotificationService::new();
    let mut subs = SubstitutionService::new();
    let s = subs.request_substitution(&mut notifications, &mut broadcaster, 55);
    let accepted = subs
        .accept_substitution(&mut notifications, &mut broadcaster, s.id, 77)
        .unwrap();
    assert_eq!(accepted.id, s.id);
    assert_eq!(accepted.substituting_teacher_id, Some(77));
    assert!(matches!(accepted.status, SubstitutionStatus::Accepted));
    assert_eq!(rx.try_recv().unwrap(), DomainEvent::SubstitutionRequested { id: s.id });
    assert_eq!(rx.try_recv().unwrap(), DomainEvent::SubstitutionAccepted { id: s.id });
    let log = notifications.requests();
    assert_eq!(log.len(), 2);
    assert!(matches!(log[1].kind, NotificationKind::SubstitutionAccepted));
    // A second decision on the same request is refused.
    let again = subs.accept_substitution(&mut notifications, &mut broadcaster, s.id, 78);
    assert!(matches!(again, Err(AppError::BadRequest(_))));
}

#[test]
fn reject_substitution_keeps_the_teacher_unset() {
    let mut broadcaster = Broadcaster::new(1024);
    let mut notifications = NotificationService::new();
    let mut subs = SubstitutionService::new();
    let s = subs.request_substitution(&mut notifications, &mut broadcaster, 55);
    let rejected = subs
        .reject_substitution(&mut notifications, &mut broadcaster, s.id)
        .unwrap();
    assert!(matches!(rejected.status, SubstitutionStatus::Rejected));
    assert_eq!(rejected.substituting_teacher_id, None);
    let accept_after = subs.accept_substitution(&mut notifications, &mut broadcaster, s.id, 77);
    assert!(matches!(accept_after, Err(AppError::BadRequest(_))));
    let log = notifications.requests();
    assert_eq!(log.len(), 2);
    assert!(matches!(log[1].kind, NotificationKind::SubstitutionRejected));
}

#[test]
fn deciding_a_missing_substitution_is_not_found() {
    let mut broadcaster = Broadcaster::new(1024);
    let mut notifications = NotificationService::new();
    let mut subs = SubstitutionService::new();
    let r = subs.accept_substitution(&mut notifications, &mut broadcaster, 123, 77);
    assert!(matches!(r, Err(AppError::NotFound)));
    let r = subs.reject_substitution(&mut notifications, &mut broadcaster, 123);
    assert!(matches!(r, Err(AppError::NotFound)));
}

#[test]
fn substitutions_are_listed_in_order() {
    let mut broadcaster = Broadcaster::new(1024);
    let mut notifications = NotificationService::new();
    let mut subs = SubstitutionService::new();
    let a = subs.request_substitution(&mut notifications, &mut broadcaster, 1);
    let b = subs.request_substitution(&mut notifications, &mut broadcaster, 2);
    let all = subs.get_all_substitutions();
    assert_eq!(all.len(), 2);
    assert_eq!(all[0].id, a.id);
    assert_eq!(all[1].id, b.id);
    assert_eq!(subs.get_substitution(b.id).unwrap().timetable_entry_id, 2);
    assert!(subs.get_substitution(999).is_none());
}

#[test]
fn timetable_entry_lifecycle_broadcasts_each_step() {
    let mut broadcaster = Broadcaster::new(1024);
    let mut rx = broadcaster.subscribe();
    let mut entries = TimetableEntryService::new();
    let e = entries.create_timetable_entry(&mut broadcaster, 11, 31, 41, 21).unwrap();
    assert_eq!(e.course_id, 11);
    assert_eq!(e.room_id, 31);
    assert_eq!(e.time_slot_id, 41);
    assert_eq!(e.teacher_id, 21);
    let updated = entries
        .update_timetable_entry(&mut broadcaster, e.id, Some(12), None, None, Some(22))
        .unwrap();
    assert_eq!(updated.course_id, 12);
    assert_eq!(updated.room_id, 31);
    assert_eq!(updated.time_slot_id, 41);
    assert_eq!(updated.teacher_id, 22);
    assert_eq!(entries.get_timetable_entry(e.id).unwrap().course_id, 12);
    entries.delete_timetable_entry(&mut broadcaster, e.id).unwrap();
    assert!(entries.get_timetable_entry(e.id).is_none());
    assert_eq!(rx.try_recv().unwrap(), DomainEvent::TimetableCreated { id: e.id });
    assert_eq!(rx.try_recv().unwrap(), DomainEvent::TimetableUpdated { id: e.id });
    assert_eq!(rx.try_recv().unwrap(), DomainEvent::TimetableDeleted { id: e.id });
    assert!(matches!(rx.try_recv(), Err(TryRecvError::Empty)));
}

#[test]
fn updating_a_missing_entry_is_not_found() {
    let mut broadcaster = Broadcaster::new(1024);
    let mut entries = TimetableEntryService::new();
    let r = entries.update_timetable_entry(&mut broadcaster, 5, Some(1), None, None, None);
    assert!(matches!(r, Err(AppError::NotFound)));
}

#[test]
fn deleting_a_missing_entry_is_quietly_fine() {
    let mut broadcaster = Broadcaster::new(1024);
    let mut entries = TimetableEntryService::new();
    assert!(entries.delete_timetable_entry(&mut broadcaster, 5).is_ok());
}

#[test]
fn all_entries_come_back_in_insertion_order() {
    let mut broadcaster = Broadcaster::new(1024);
    let mut entries = TimetableEntryService::new();
    let a = entries.create_timetable_entry(&mut broadcaster, 1, 2, 3, 4).unwrap();
    let b = entries.create_timetable_entry(&mut broadcaster, 5, 6, 7, 8).unwrap();
    let all = entries.get_all_timetable_entries();
    assert_eq!(all.len(), 2);
    assert_eq!(all[0].id, a.id);
    assert_eq!(all[1].id, b.id);
}

#[test]
fn subscriber_only_sees_events_after_subscribing() {
    let mut broadcaster = Broadcaster::new(1024);
    broadcaster.broadcast(DomainEvent::TimetableDeleted { id: 1 });
    let mut rx = broadcaster.subscribe();
    assert!(matches!(rx.try_recv(), Err(TryRecvError::Empty)));
    broadcaster.broadcast(DomainEvent::TimetableCreated { id: 2 });
    assert_eq!(rx.try_recv().unwrap(), DomainEvent::TimetableCreated { id: 2 });
}

#[test]
fn every_subscriber_receives_every_event() {
    let mut broadcaster = Broadcaster::new(1024);
    let mut rx1 = broadcaster.subscribe();
    let mut rx2 = broadcaster.subscribe();
    broadcaster.broadcast(DomainEvent::TimetableCreated { id: 9 });
    assert_eq!(rx1.try_recv().unwrap(), DomainEvent::TimetableCreated { id: 9 });
    assert_eq!(rx2.try_recv().unwrap(), DomainEvent::TimetableCreated { id: 9 });
}

#[test]
fn notification_service_default_is_empty() {
    let notifications = NotificationService::default();
    assert!(notifications.requests().is_empty());
}

use vstd::prelude::*;

use crate::time::Instant;

verus! {

/// Resolution state of a detected conflict.
#[derive(Clone, Copy, PartialEq, Eq, Structural, Debug)]
pub enum ConflictStatus {
    Open,
    Resolved,
    Ignored,
}

/// Severity classification carried by the data model. Detection never
/// assigns one, so no mapping is invented here.
#[derive(Clone, Copy, PartialEq, Eq, Structural, Debug)]
pub enum ConflictSeverity {
    Low,
    Medium,
    High,
}

/// Lifecycle state of a draft timetable.
#[derive(Clone, Copy, PartialEq, Eq, Structural, Debug)]
pub enum DraftTimetableStatus {
    Draft,
    Published,
    Archived,
}

#[derive(Clone, Copy, PartialEq, Eq, Structural, Debug)]
pub enum UserRole {
    Admin,
    Teacher,
    User,
}

#[derive(Clone, Copy, PartialEq, Eq, Structural, Debug)]
pub enum SubstitutionStatus {
    Pending,
    Accepted,
    Rejected,
}

/// A mutable, unpublished candidate schedule scoped to a workspace, term and
/// year.
#[derive(Debug)]
pub struct DraftTimetable {
    pub id: u128,
    pub workspace_id: u128,
    pub name: String,
    pub term: String,
    pub year: i32,
    pub status: DraftTimetableStatus,
    pub is_active: bool,
    pub created_at: Instant,
    pub updated_at: Instant,
}

impl Clone for DraftTimetable {
    fn clone(&self) -> (r: Self)
        ensures
            r == *self,
    {
        DraftTimetable {
            id: self.id,
            workspace_id: self.workspace_id,
            name: self.name.clone(),
            term: self.term.clone(),
            year: self.year,
            status: self.status,
            is_active: self.is_active,
            created_at: self.created_at,
            updated_at: self.updated_at,
        }
    }
}

/// One (course, teacher, room, time slot) assignment within a draft.
#[derive(Clone, Copy, PartialEq, Eq, Structural, Debug)]
pub struct DraftEntry {
    pub id: u128,
    pub draft_timetable_id: u128,
    pub course_id: u128,
    pub teacher_id: u128,
    pub room_id: u128,
    pub time_slot_id: u128,
    pub created_at: Instant,
    pub updated_at: Instant,
}

/// A teacher's recurring weekly window of willingness to teach.
/// `day_of_week` uses 0 = Sunday .. 6 = Saturday; times are seconds within
/// the day.
#[derive(Clone, Copy, PartialEq, Eq, Structural, Debug)]
pub struct Availability {
    pub id: u128,
    pub teacher_id: u128,
    pub day_of_week: u8,
    pub start_time: u32,
    pub end_time: u32,
    pub is_preferred: bool,
    pub created_at: Instant,
    pub updated_at: Instant,
}

/// A detected scheduling violation tied to a draft. Which of the optional
/// references are populated depends on the kind of conflict.
#[derive(Debug)]
pub struct Conflict {
    pub id: u128,
    pub draft_timetable_id: u128,
    pub description: String,
    pub teacher_id: Option<u128>,
    pub room_id: Option<u128>,
    pub time_slot_id: Option<u128>,
    pub status: ConflictStatus,
    pub created_at: Instant,
    pub updated_at: Instant,
}

impl Clone for Conflict {
    fn clone(&self) -> (r: Self)
        ensures
            r == *self,
    {
        Conflict {
            id: self.id,
            draft_timetable_id: self.draft_timetable_id,
            description: self.description.clone(),
            teacher_id: self.teacher_id,
            room_id: self.room_id,
            time_slot_id: self.time_slot_id,
            status: self.status,
            created_at: self.created_at,
            updated_at: self.updated_at,
        }
    }
}

/// The immutable record of a published draft. `valid_from` and `valid_to`
/// are day numbers on the same scale as `Instant::day`.
#[derive(Clone, Copy, PartialEq, Eq, Structural, Debug)]
pub struct PublishedTimetable {
    pub id: u128,
    pub workspace_id: u128,
    pub draft_timetable_id: u128,
    pub published_at: Instant,
    pub valid_from: u64,
    pub valid_to: u64,
    pub created_at: Instant,
    pub updated_at: Instant,
}

/// A recurring weekly teaching slot. `day_of_week` uses 0 = Sunday ..
/// 6 = Saturday; times are seconds within the day.
#[derive(Clone, Copy, PartialEq, Eq, Structural, Debug)]
pub struct TimeSlot {
    pub id: u128,
    pub workspace_id: u128,
    pub day_of_week: u8,
    pub start_time: u32,
    pub end_time: u32,
    pub created_at: Instant,
    pub updated_at: Instant,
}

/// A request for another teacher to take over one timetable entry.
#[derive(Clone, Copy, PartialEq, Eq, Structural, Debug)]
pub struct Substitution {
    pub id: u128,
    pub timetable_entry_id: u128,
    pub substituting_teacher_id: Option<u128>,
    pub status: SubstitutionStatus,
    pub created_at: Instant,
    pub updated_at: Instant,
}

/// One live (course, room, slot, teacher) assignment of the published
/// timetable.
#[derive(Clone, Copy, PartialEq, Eq, Structural, Debug)]
pub struct TimetableEntry {
    pub id: u128,
    pub course_id: u128,
    pub room_id: u128,
    pub time_slot_id: u128,
    pub teacher_id: u128,
    pub created_at: Instant,
    pub updated_at: Instant,
}

#[derive(Debug)]
pub struct User {
    pub id: u128,
    pub username: String,
    pub email: String,
    pub hashed_password: String,
    pub role: UserRole,
    pub created_at: Instant,
    pub updated_at: Instant,
}

impl Clone for User {
    fn clone(&self) -> (r: Self)
        ensures
            r == *self,
    {
        User {
            id: self.id,
            username: self.username.clone(),
            email: self.email.clone(),
            hashed_password: self.hashed_password.clone(),
            role: self.role,
            created_at: self.created_at,
            updated_at: self.updated_at,
        }
    }
}

#[derive(Debug)]
pub struct Course {
    pub id: u128,
    pub code: String,
    pub name: String,
    pub description: Option<String>,
    pub created_at: Instant,
    pub updated_at: Instant,
}

impl Clone for Course {
    fn clone(&self) -> (r: Self)
        ensures
            r == *self,
    {
        Course {
            id: self.id,
            code: self.code.clone(),
            name: self.name.clone(),
            description: match &self.description {
                Some(d) => Some(d.clone()),
                None => None,
            },
            created_at: self.created_at,
            updated_at: self.updated_at,
        }
    }
}

#[derive(Debug)]
pub struct Room {
    pub id: u128,
    pub name: String,
    pub capacity: i32,
    pub created_at: Instant,
    pub updated_at: Instant,
}

impl Clone for Room {
    fn clone(&self) -> (r: Self)
        ensures
            r == *self,
    {
        Room {
            id: self.id,
            name: self.name.clone(),
            capacity: self.capacity,
            created_at: self.created_at,
            updated_at: self.updated_at,
        }
    }
}

/// Everything a timetable view needs in one read: the entities and the live
/// entries, with the teachers singled out of the user list.
#[derive(Debug)]
pub struct TimetableSnapshot {
    pub courses: Vec<Course>,
    pub rooms: Vec<Room>,
    pub time_slots: Vec<TimeSlot>,
    pub teachers: Vec<User>,
    pub timetable_entries: Vec<TimetableEntry>,
}

} // verus!

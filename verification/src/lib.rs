//! Draft timetable engine: draft schedule entries, teacher availability,
//! conflict detection, a publication gate that refuses to publish a draft
//! with unresolved conflicts, and a broadcast channel for domain events.

pub mod availability;
pub mod conflicts;
pub mod draft_entries;
pub mod draft_timetables;
pub mod error;
pub mod events;
pub mod models;
pub mod notifications;
pub mod published_timetables;
pub mod scan;
pub mod snapshot;
pub mod substitutions;
pub mod text;
pub mod time;
pub mod time_slots;
pub mod timetable_entries;

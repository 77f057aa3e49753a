use vstd::prelude::*;

verus! {

/// Seconds in a civil day.
pub const SECONDS_PER_DAY: u32 = 86400;

/// Largest day number `Instant::now` can produce: `i64::MAX` seconds from the
/// epoch, in whole days.
pub const MAX_DAY: u64 = 106751991167300;

/// A point in civil time, kept as plain values: whole days since 1970-01-01
/// (UTC) and the second within that day. Day 0, the epoch, was a Thursday.
#[derive(Clone, Copy, PartialEq, Eq, Structural, Debug)]
pub struct Instant {
    pub day: u64,
    pub sec: u32,
}

/// Weekday index of a day number: 0 = Sunday .. 6 = Saturday.
/// Day 0 (1970-01-01) was a Thursday, hence the offset of 4.
pub open spec fn weekday_of(day: int) -> int {
    (day + 4) % 7
}

/// Computes the weekday index of a day number without overflowing.
pub fn weekday_for(day: u64) -> (r: u64)
    ensures
        r == weekday_of(day as int),
        r < 7,
{
    let r = (day % 7 + 4) % 7;
    proof {
        vstd::arithmetic::div_mod::lemma_add_mod_noop(day as int, 4, 7);
    }
    r
}

/// Relies on chrono's `From<SystemTime> for DateTime<Utc>` and
/// `DateTime::timestamp`: the system clock reading as non-leap seconds
/// since 1970-01-01 00:00:00 UTC. The conversion handles readings before
/// the epoch without panicking (they come back negative); only a clock set
/// outside chrono's representable calendar range, some 262000 years either
/// way, would abort inside chrono.
#[verifier::external_body]
fn unix_seconds_now() -> (r: i64) {
    let reading = std::time::SystemTime::now();
    chrono::DateTime::<chrono::Utc>::from(reading).timestamp()
}

impl Instant {
    /// An instant whose day survives small forward arithmetic and whose
    /// second lies within one day.
    pub open spec fn wf(self) -> bool {
        self.sec < SECONDS_PER_DAY && self.day <= MAX_DAY
    }

    /// The instant a Unix timestamp denotes: its day number and second
    /// within the day. A timestamp before the epoch is clamped to the
    /// epoch.
    pub fn from_timestamp(ts: i64) -> (r: Instant)
        ensures
            r.wf(),
            ts <= 0 ==> r == (Instant { day: 0, sec: 0 }),
            ts >= 0 ==> r.day == ts as int / (SECONDS_PER_DAY as int) && r.sec == ts as int % (
            SECONDS_PER_DAY as int),
    {
        let ts_u: u64 = if ts < 0 {
            0
        } else {
            ts as u64
        };
        let day = ts_u / (SECONDS_PER_DAY as u64);
        let sec = (ts_u % (SECONDS_PER_DAY as u64)) as u32;
        proof {
            vstd::arithmetic::div_mod::lemma_div_is_ordered(
                ts_u as int,
                i64::MAX as int,
                SECONDS_PER_DAY as int,
            );
        }
        Instant { day, sec }
    }

    /// Reads the clock; a reading before the epoch is clamped to the epoch.
    pub fn now() -> (r: Instant)
        ensures
            r.wf(),
    {
        Instant::from_timestamp(unix_seconds_now())
    }
}

} // verus!

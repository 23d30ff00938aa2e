//! Instants of ledger time.

use vstd::prelude::*;

verus! {

/// Nanoseconds in one second.
pub const NANOS_PER_SECOND: u32 = 1_000_000_000;

/// Seconds in one day.
pub const SECONDS_PER_DAY: i64 = 86_400;

/// Seconds in one week.
pub const SECONDS_PER_WEEK: i64 = 604_800;

/// The first second of the calendar: midnight of January 1 of the year -262143.
pub const MIN_SECONDS: i64 = -8_334_601_228_800;

/// The last second of the calendar: the end of December 31 of the year 262142.
pub const MAX_SECONDS: i64 = 8_210_266_876_799;

/// The longest span, in seconds, by which an instant can be moved in one step.
pub const MAX_SHIFT: i64 = 9_223_372_036_854_775;

/// An instant of UTC time: whole seconds since the start of 1970 and the
/// nanoseconds that have passed within that second.
#[derive(Clone, Copy, Debug, PartialEq, Eq, Structural)]
pub struct Timestamp {
    pub seconds: i64,
    pub nanos: u32,
}

impl Timestamp {
    /// Chronological order: by seconds, then by nanoseconds.
    pub open spec fn precedes(self, other: Timestamp) -> bool {
        self.seconds < other.seconds || (self.seconds == other.seconds && self.nanos
            < other.nanos)
    }

    /// `self` is not later than `other`.
    pub open spec fn not_after(self, other: Timestamp) -> bool {
        !other.precedes(self)
    }

    /// The instant lies within the calendar and names no leap second.
    pub open spec fn representable(self) -> bool {
        MIN_SECONDS <= self.seconds <= MAX_SECONDS && self.nanos < NANOS_PER_SECOND
    }

    /// The instant `seconds` later (earlier, if negative), where the calendar has one.
    pub open spec fn shifted(self, seconds: int) -> Option<Timestamp> {
        if self.representable() && -MAX_SHIFT <= seconds <= MAX_SHIFT && MIN_SECONDS
            <= self.seconds + seconds <= MAX_SECONDS {
            Some(Timestamp { seconds: (self.seconds + seconds) as i64, nanos: self.nanos })
        } else {
            None
        }
    }

    /// Builds an instant from its seconds and nanoseconds.
    pub fn new(seconds: i64, nanos: u32) -> (moment: Timestamp)
        ensures
            moment == (Timestamp { seconds, nanos }),
    {
        Timestamp { seconds, nanos }
    }

    /// Tells whether `self` is strictly earlier than `other`.
    pub fn is_before(&self, other: &Timestamp) -> (earlier: bool)
        ensures
            earlier == self.precedes(*other),
    {
        self.seconds < other.seconds || (self.seconds == other.seconds && self.nanos
            < other.nanos)
    }

    /// Tells whether `self` is earlier than or equal to `other`.
    pub fn is_not_after(&self, other: &Timestamp) -> (not_later: bool)
        ensures
            not_later == self.not_after(*other),
    {
        !other.is_before(self)
    }

    /// Tells whether the instant lies within the calendar and names no leap second.
    pub fn is_representable(&self) -> (inside: bool)
        ensures
            inside == self.representable(),
    {
        MIN_SECONDS <= self.seconds && self.seconds <= MAX_SECONDS && self.nanos
            < NANOS_PER_SECOND
    }

    /// Moves the instant by `seconds`, or returns `None` where the result would
    /// leave the calendar.
    pub fn checked_add_seconds(&self, seconds: i64) -> (moved: Option<Timestamp>)
        ensures
            moved == self.shifted(seconds as int),
    {
        if !self.is_representable() || seconds < -MAX_SHIFT || seconds > MAX_SHIFT {
            return None;
        }
        calendar_shift(*self, seconds)
    }
}

/// Calls `chrono::DateTime::<Utc>::checked_add_signed` on the instant, with a
/// `chrono::TimeDelta` of `seconds` whole seconds.
///
/// The contract restates what chrono computes: the sum of the seconds with the
/// nanoseconds kept, and `None` exactly when that sum falls outside the years
/// -262143 to 262142 that chrono's calendar covers.
#[verifier::external_body]
fn calendar_shift(moment: Timestamp, seconds: i64) -> (moved: Option<Timestamp>)
    requires
        moment.representable(),
        -MAX_SHIFT <= seconds <= MAX_SHIFT,
    ensures
        moved == moment.shifted(seconds as int),
{
    let start = chrono::DateTime::from_timestamp(moment.seconds, moment.nanos)?;
    let end = start.checked_add_signed(chrono::TimeDelta::try_seconds(seconds)?)?;
    Some(Timestamp { seconds: end.timestamp(), nanos: end.timestamp_subsec_nanos() })
}

} // verus!

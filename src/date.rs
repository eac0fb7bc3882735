use chrono::Datelike;
use vstd::prelude::*;

verus! {

/// A calendar day, as the number of days since the start of the proleptic
/// Gregorian calendar (0001-01-01 is day 1, the day before it day 0).
#[derive(Clone, Copy, Debug, PartialEq, Eq, Structural, Hash, PartialOrd, Ord)]
pub struct Date {
    pub days: i32,
}

/// How many days before today a day must lie, strictly, to be archived.
pub const ARCHIVE_AFTER_DAYS: i32 = 7;

impl Date {
    /// The day with the given day number.
    pub fn from_days(days: i32) -> (r: Date)
        ensures
            r.days == days,
    {
        Date { days }
    }

    /// Whether `self` comes strictly before `other`.
    pub open spec fn before(self, other: Date) -> bool {
        self.days < other.days
    }

    /// Whether `self` lies strictly more than the archive window before `today`.
    pub open spec fn expired(self, today: Date) -> bool {
        self.days < today.days - ARCHIVE_AFTER_DAYS
    }

    /// Executable form of `before`.
    pub fn is_before(&self, other: &Date) -> (r: bool)
        ensures
            r == self.before(*other),
    {
        self.days < other.days
    }

    /// Executable form of `expired`; computed without overflow for every day number.
    pub fn is_expired(&self, today: &Date) -> (r: bool)
        ensures
            r == self.expired(*today),
    {
        (self.days as i64) < (today.days as i64) - (ARCHIVE_AFTER_DAYS as i64)
    }
}

/// Relies on chrono's `Local::now`, `DateTime::date_naive` and
/// `Datelike::num_days_from_ce`: the local calendar day at the time of the
/// call. It depends on the clock, so nothing is promised of the value.
#[verifier::external_body]
pub(crate) fn today() -> (r: Date) {
    Date { days: chrono::Local::now().date_naive().num_days_from_ce() }
}

} // verus!

//! The instant of an element set's epoch, and the time from it.

use crate::arith::{floor_div, floor_mod, lemma_floor_div_bounds};
use vstd::arithmetic::div_mod::lemma_fundamental_div_mod;
use crate::elements::OrbitalElementSet;
use vstd::prelude::*;

verus! {

/// The last year of the calendar.
pub const LAST_YEAR: i32 = 262_142;

/// The last instant of the calendar: the last millisecond of its last year.
pub const LAST_INSTANT: i64 = 8_210_266_876_799_999;

/// Leap days in the years 1 to `year - 1` of the Gregorian calendar.
pub open spec fn leap_days_before(year: int) -> int {
    (year - 1) / 4 - (year - 1) / 100 + (year - 1) / 400
}

/// Days from 1 January 1970 to 1 January of `year`, negative for an earlier
/// year.
pub open spec fn days_before_year(year: int) -> int {
    365 * (year - 1970) + leap_days_before(year) - 477
}

/// The instant of an epoch given as a year and a day of that year with its
/// fraction, in units of `10^-8` days: midnight of the day before the first
/// of January, plus the whole days, plus the whole seconds of the fraction.
/// In milliseconds since 1970-01-01T00:00:00Z.
pub open spec fn epoch_instant(epoch_year: int, epoch_day: int) -> int {
    (days_before_year(epoch_year) + epoch_day / 100_000_000 - 1) * 86_400_000 + (((epoch_day
        % 100_000_000) * 86_400) / 100_000_000) * 1000
}

/// Whether a year and a day of the year make an epoch: the year is one of the
/// calendar, the day lies in `[1, 367)`, and the instant is one of the
/// calendar too.
pub open spec fn epoch_exists(epoch_year: int, epoch_day: int) -> bool {
    &&& 1 <= epoch_year <= 262_142
    &&& 100_000_000 <= epoch_day < 36_700_000_000
    &&& epoch_instant(epoch_year, epoch_day) <= 8_210_266_876_799_999
}

/// A span of time, forwards or backwards: `minutes` whole minutes, rounded
/// down, and `millis` milliseconds more, fewer than a minute. Half a minute
/// backwards is one minute backwards and 30 000 milliseconds forwards.
#[derive(Clone, Copy, Debug, PartialEq, Eq, Structural)]
pub struct MinuteSpan {
    pub minutes: i64,
    pub millis: u16,
}

impl MinuteSpan {
    /// The span in milliseconds.
    pub open spec fn total_millis(self) -> int {
        self.minutes * 60_000 + self.millis
    }
}

/// The span from one instant to another measures their difference: it is
/// negative exactly where the second instant is the earlier, and nothing of
/// the difference is lost.
pub proof fn lemma_span_measures(from: int, to: int)
    ensures
        ((to - from) / 60_000) * 60_000 + (to - from) % 60_000 == to - from,
        0 <= (to - from) % 60_000 < 60_000,
        (to - from) / 60_000 < 0 <==> to < from,
        to == from ==> (to - from) / 60_000 == 0 && (to - from) % 60_000 == 0,
{
    lemma_fundamental_div_mod(to - from, 60_000);
}

/// Whole minutes from one instant to another, towards zero; negative where
/// the second is the earlier by a minute or more.
pub open spec fn whole_minutes(from: int, to: int) -> int {
    if to >= from {
        (to - from) / 60_000
    } else {
        -((from - to) / 60_000)
    }
}

/// Calls `chrono::NaiveDate::from_ymd_opt` for the first of January of the
/// year, and on the date `and_time`, `and_utc` and `timestamp`. chrono counts
/// days in the proleptic Gregorian calendar and seconds from 1970 without leap
/// seconds; the contract states that count for midnight of that day, for every
/// year from 1 to the last that chrono has.
#[verifier::external_body]
fn year_start_seconds(year: i32) -> (r: Option<i64>)
    requires
        1 <= year <= 262_142,
    ensures
        r == Some((86_400 * days_before_year(year as int)) as i64),
{
    Some(chrono::NaiveDate::from_ymd_opt(year, 1, 1)?.and_time(chrono::NaiveTime::MIN).and_utc().timestamp())
}

proof fn lemma_days_before_year_bounds(year: int)
    requires
        1 <= year <= 262_142,
    ensures
        -720_000 <= days_before_year(year) <= 96_000_000,
{
    lemma_floor_div_bounds(year - 1, 4);
    lemma_floor_div_bounds(year - 1, 100);
    lemma_floor_div_bounds(year - 1, 400);
}

/// The instant of the epoch that a year and a day of the year make, if they
/// make one.
pub fn epoch_unix_ms(epoch_year: i32, epoch_day: i64) -> (r: Option<i64>)
    ensures
        r is Some == epoch_exists(epoch_year as int, epoch_day as int),
        r matches Some(instant) ==> instant == epoch_instant(epoch_year as int, epoch_day as int),
{
    if epoch_year < 1 || epoch_year > LAST_YEAR || epoch_day < 100_000_000 || epoch_day
        >= 36_700_000_000 {
        return None;
    }
    proof {
        lemma_days_before_year_bounds(epoch_year as int);
    }
    let year_start = match year_start_seconds(epoch_year) {
        Some(seconds) => seconds,
        None => {
            return None;
        },
    };
    let whole_days = epoch_day / 100_000_000 - 1;
    let seconds = ((epoch_day % 100_000_000) * 86_400) / 100_000_000;
    let instant = (year_start + whole_days * 86_400 + seconds) * 1000;
    if instant > LAST_INSTANT {
        return None;
    }
    Some(instant)
}

/// The span from the instant `from` to the instant `to`.
pub fn span_between(from: i64, to: i64) -> (r: MinuteSpan)
    ensures
        r.minutes == (to - from) / 60_000,
        r.millis == (to - from) % 60_000,
        r.millis < 60_000,
        r.total_millis() == to - from,
        r.minutes < 0 <==> to < from,
{
    let span: i128 = to as i128 - from as i128;
    proof {
        lemma_floor_div_bounds(span as int, 60_000);
        lemma_fundamental_div_mod(span as int, 60_000);
    }
    MinuteSpan { minutes: floor_div(span, 60_000) as i64, millis: floor_mod(span, 60_000) as u16 }
}

/// Whole minutes from the instant `from` to the instant `to`, towards zero.
pub fn minutes_between(from: i64, to: i64) -> (r: i64)
    ensures
        r == whole_minutes(from as int, to as int),
{
    let span: i128 = to as i128 - from as i128;
    if span >= 0 {
        (span / 60_000) as i64
    } else {
        (-((-span) / 60_000)) as i64
    }
}

impl OrbitalElementSet {
    /// The instant of the epoch, in milliseconds since 1970-01-01T00:00:00Z.
    pub fn epoch_unix_ms(&self) -> (r: i64)
        ensures
            r == epoch_instant(self@.epoch_year, self@.epoch_day),
    {
        match epoch_unix_ms(self.epoch_year() as i32, self.epoch_day()) {
            Some(instant) => instant,
            None => 0,
        }
    }

    /// The time from the epoch to the instant `target_time`, in minutes and
    /// the milliseconds beyond them; negative for every instant before the
    /// epoch.
    pub fn minutes_since_epoch(&self, target_time: i64) -> (r: Option<MinuteSpan>)
        ensures
            r matches Some(span) && span.minutes == (target_time - epoch_instant(
                self@.epoch_year,
                self@.epoch_day,
            )) / 60_000 && span.millis == (target_time - epoch_instant(
                self@.epoch_year,
                self@.epoch_day,
            )) % 60_000,
            r matches Some(span) && span.millis < 60_000 && span.total_millis() == target_time
                - epoch_instant(self@.epoch_year, self@.epoch_day),
            r matches Some(span) && (span.minutes < 0 <==> target_time < epoch_instant(
                self@.epoch_year,
                self@.epoch_day,
            )),
    {
        proof {
            lemma_span_measures(
                epoch_instant(self@.epoch_year, self@.epoch_day),
                target_time as int,
            );
        }
        match epoch_unix_ms(self.epoch_year() as i32, self.epoch_day()) {
            Some(epoch) => Some(span_between(epoch, target_time)),
            None => None,
        }
    }

    /// Whole minutes from the epoch to the instant `target_time`, towards
    /// zero: what is left of a minute is dropped either way.
    pub fn calculate_minutes_since_epoch(&self, target_time: i64) -> (r: Option<i64>)
        ensures
            r matches Some(minutes) && minutes == whole_minutes(
                epoch_instant(self@.epoch_year, self@.epoch_day),
                target_time as int,
            ),
    {
        match epoch_unix_ms(self.epoch_year() as i32, self.epoch_day()) {
            Some(epoch) => Some(minutes_between(epoch, target_time)),
            None => None,
        }
    }
}

} // verus!

//! Time: moments to the microsecond, the local wall clock, and the spans between
//! them.

use chrono::{Datelike, Timelike};
use vstd::prelude::*;

verus! {

/// `YYYY-MM-DD hh:mm:ss`.
pub const SPACED_FORMAT: &'static str = "%Y-%m-%d %H:%M:%S";

/// `YYYY-MM-DDThh:mm:ss`.
pub const TEE_FORMAT: &'static str = "%Y-%m-%dT%H:%M:%S";

/// `YYYY-MM-DD`.
pub const DATE_FORMAT: &'static str = "%Y-%m-%d";

/// `YYYYMMDDhhmmss`.
pub const COMPACT_FORMAT: &'static str = "%Y%m%d%H%M%S";

// ---------------------------------------------------------------------------
// Seconds
// ---------------------------------------------------------------------------

/// A number of seconds to the microsecond: a span, or a moment counted from the
/// Unix epoch.
#[derive(Debug, Clone, Copy, PartialEq, Eq, Structural)]
pub struct Seconds {
    pub micros: i64,
}

/// The nearest value that an `i64` holds.
pub open spec fn clamp_i64(n: int) -> i64 {
    if n < i64::MIN {
        i64::MIN
    } else if n > i64::MAX {
        i64::MAX
    } else {
        n as i64
    }
}

/// The quotient rounded towards zero.
pub open spec fn quotient(n: int, d: int) -> int {
    if n >= 0 {
        n / d
    } else {
        -((-n) / d)
    }
}

/// The nearest value that an `i64` holds.
pub fn nearest_i64(n: i128) -> (r: i64)
    ensures
        r == clamp_i64(n as int),
{
    if n < -0x8000_0000_0000_0000 {
        i64::MIN
    } else if n > 0x7fff_ffff_ffff_ffff {
        i64::MAX
    } else {
        n as i64
    }
}

/// The quotient rounded towards zero.
pub fn divide(n: i64, d: u32) -> (r: i64)
    requires
        d > 0,
    ensures
        r == quotient(n as int, d as int),
{
    if n >= 0 {
        let q: u64 = n as u64 / d as u64;
        proof {
            assert(q <= n) by (nonlinear_arith)
                requires
                    q == n as u64 / d as u64,
                    d > 0,
                    n >= 0,
            ;
        }
        q as i64
    } else {
        let size: u64 = (-(n as i128)) as u64;
        let q: u64 = size / d as u64;
        proof {
            assert(q <= size) by (nonlinear_arith)
                requires
                    q == size / d as u64,
                    d > 0,
            ;
        }
        (-(q as i128)) as i64
    }
}

impl Seconds {
    /// `n` whole seconds, or the longest span there is.
    pub fn of(n: i64) -> (r: Seconds)
        ensures
            r.micros == clamp_i64(n * 1_000_000),
    {
        Seconds { micros: nearest_i64(n as i128 * 1_000_000) }
    }

    /// The span from `earlier` to `self`, or the longest one there is.
    pub fn since(self, earlier: Seconds) -> (r: Seconds)
        ensures
            r.micros == clamp_i64(self.micros - earlier.micros),
    {
        Seconds { micros: nearest_i64(self.micros as i128 - earlier.micros as i128) }
    }

    /// The moment `span` later, or the last one there is.
    pub fn plus(self, span: Seconds) -> (r: Seconds)
        ensures
            r.micros == clamp_i64(self.micros + span.micros),
    {
        Seconds { micros: nearest_i64(self.micros as i128 + span.micros as i128) }
    }

    /// The number of whole spans of `unit` seconds, rounded towards zero.
    pub fn whole(self, unit: u32) -> (r: i64)
        requires
            0 < unit <= 4000,
        ensures
            r == quotient(self.micros as int, unit * 1_000_000),
    {
        divide(self.micros, unit * 1_000_000)
    }
}

// ---------------------------------------------------------------------------
// The wall clock
// ---------------------------------------------------------------------------

/// A date and a time of day without a time zone: the days counted from the first
/// of January of the year 1, which is day 1, the second of the day, and the
/// nanoseconds behind it. A leap second has 1_000_000_000 of these or more.
#[derive(Debug, Clone, Copy)]
pub struct Wall {
    pub day: i32,
    pub second: u32,
    pub frac: u32,
}

/// The nanoseconds from `then` to `now`. A leap second counts where the span
/// passes over it: `then` is one and an earlier time of day, or `now` is one and
/// an earlier time of day.
pub open spec fn wall_nanos(then: Wall, now: Wall) -> int {
    let leap: int = if now.second > then.second && then.frac >= 1_000_000_000 {
        1
    } else if now.second < then.second && now.frac >= 1_000_000_000 {
        -1
    } else {
        0
    };
    ((now.day - then.day) * 86_400 + (now.second - then.second) + leap) * 1_000_000_000 + (now.frac
        - then.frac)
}

/// The whole days from `then` to `now`, rounded towards zero.
pub open spec fn wall_days(then: Wall, now: Wall) -> int {
    quotient(quotient(wall_nanos(then, now), 1_000_000_000), 86_400)
}

/// The whole minutes from `then` to `now`, rounded towards zero.
pub open spec fn wall_minutes(then: Wall, now: Wall) -> int {
    quotient(quotient(wall_nanos(then, now), 1_000_000_000), 60)
}

fn nanos_from(then: Wall, now: Wall) -> (r: i128)
    ensures
        r == wall_nanos(then, now),
        -0x8000_0000_0000_0000_0000 < r < 0x8000_0000_0000_0000_0000,
{
    let leap: i128 = if now.second > then.second && then.frac >= 1_000_000_000 {
        1
    } else if now.second < then.second && now.frac >= 1_000_000_000 {
        -1
    } else {
        0
    };
    ((now.day as i128 - then.day as i128) * 86_400 + (now.second as i128 - then.second as i128)
        + leap) * 1_000_000_000 + (now.frac as i128 - then.frac as i128)
}

/// The whole minutes from `then` to `now`, rounded towards zero.
pub fn minutes_from(then: Wall, now: Wall) -> (r: i64)
    ensures
        r == wall_minutes(then, now),
{
    let nanos: i128 = nanos_from(then, now);
    if nanos >= 0 {
        let minutes: u128 = nanos as u128 / 1_000_000_000 / 60;
        minutes as i64
    } else {
        let minutes: u128 = (-nanos) as u128 / 1_000_000_000 / 60;
        (-(minutes as i128)) as i64
    }
}

/// The whole days from `then` to `now`, rounded towards zero.
pub fn days_from(then: Wall, now: Wall) -> (r: i64)
    ensures
        r == wall_days(then, now),
        -0x2_0000_0000 <= r <= 0x2_0000_0000,
{
    let nanos: i128 = nanos_from(then, now);
    if nanos >= 0 {
        let days: u128 = nanos as u128 / 1_000_000_000 / 86_400;
        days as i64
    } else {
        let days: u128 = (-nanos) as u128 / 1_000_000_000 / 86_400;
        (-(days as i128)) as i64
    }
}

/// What `chrono::NaiveDateTime::parse_from_str` reads out of a text by a format;
/// `None` where it reports an error.
pub uninterp spec fn wall_read(text: Seq<char>, format: Seq<char>) -> Option<Wall>;

/// `chrono::NaiveDateTime::parse_from_str`, by its name `wall_read`. The date is
/// handed over as its days from the year 1, the time as its seconds from midnight
/// and the nanoseconds behind them. The seconds are those of one day.
#[verifier::external_body]
fn parse_wall(text: &str, format: &str) -> (r: Option<Wall>)
    ensures
        r == wall_read(text@, format@),
        r matches Some(w) ==> w.second < 86_400 && w.frac < 2_000_000_000,
{
    match chrono::NaiveDateTime::parse_from_str(text, format) {
        Ok(t) => Some(
            Wall {
                day: t.num_days_from_ce(),
                second: t.num_seconds_from_midnight(),
                frac: t.nanosecond(),
            },
        ),
        Err(_) => None,
    }
}

/// The wall time that `text` spells by `format`.
pub fn read_wall(text: &str, format: &str) -> (r: Option<Wall>)
    ensures
        r == wall_read(text@, format@),
{
    parse_wall(text, format)
}

/// The wall time that a text spells with a space or a `T` between date and time.
pub open spec fn local_time(text: Seq<char>) -> Option<Wall> {
    match wall_read(text, SPACED_FORMAT@) {
        Some(w) => Some(w),
        None => wall_read(text, TEE_FORMAT@),
    }
}

/// The wall time that `s` spells with a space or a `T` between date and time.
pub fn parse_local_dt(s: &str) -> (r: Option<Wall>)
    ensures
        r == local_time(s@),
{
    match read_wall(s, SPACED_FORMAT) {
        Some(w) => Some(w),
        None => read_wall(s, TEE_FORMAT),
    }
}

/// The whole days between two wall times; none where one is missing.
pub open spec fn span_days(then: Option<Wall>, now: Option<Wall>) -> int {
    match (then, now) {
        (Some(t), Some(n)) => wall_days(t, n),
        _ => 0,
    }
}

/// The whole days between two wall times; none where one is missing.
pub fn days_across(then: Option<Wall>, now: Option<Wall>) -> (r: i64)
    ensures
        r == span_days(then, now),
{
    match (then, now) {
        (Some(t), Some(n)) => days_from(t, n),
        _ => 0,
    }
}

/// The whole days from the time that `then_iso` spells to the one that `now_iso`
/// spells; none where either spells no time.
pub fn days_between(then_iso: &str, now_iso: &str) -> (r: i64)
    ensures
        r == span_days(local_time(then_iso@), local_time(now_iso@)),
{
    days_across(parse_local_dt(then_iso), parse_local_dt(now_iso))
}

// ---------------------------------------------------------------------------
// Now
// ---------------------------------------------------------------------------

/// One reading of the machine's clock.
#[derive(Debug)]
pub struct Now {
    /// The microseconds since the Unix epoch; below zero on a clock that stands before it.
    pub micros: i64,
    /// The nanoseconds behind the last whole second.
    pub nanos: u32,
    /// The local wall time.
    pub wall: Wall,
    /// The local day of the week, counted from Monday, which is day 0.
    pub weekday: u32,
    /// The local time by `SPACED_FORMAT`.
    pub spaced: String,
    /// The local time by `TEE_FORMAT`.
    pub tee: String,
    /// The local time by `COMPACT_FORMAT`.
    pub compact: String,
    /// The local time by `DATE_FORMAT`.
    pub date: String,
}

/// `std::time::SystemTime::now` as a `chrono::DateTime` in the machine's time zone, with
/// the fields and the four texts that chrono gives of that one reading. Nothing is
/// stated of them: they rest on the machine's clock and time zone. A clock that stands
/// before the Unix epoch is read like any other.
#[verifier::external_body]
pub(crate) fn local_now() -> (r: Now) {
    let t = chrono::DateTime::<chrono::Local>::from(std::time::SystemTime::now());
    let (day, second, frac) = (t.num_days_from_ce(), t.num_seconds_from_midnight(), t.nanosecond());
    Now {
        micros: t.timestamp_micros(),
        nanos: t.timestamp_subsec_nanos(),
        wall: Wall { day, second, frac },
        weekday: t.weekday().num_days_from_monday(),
        spaced: t.format(SPACED_FORMAT).to_string(),
        tee: t.format(TEE_FORMAT).to_string(),
        compact: t.format(COMPACT_FORMAT).to_string(),
        date: t.format(DATE_FORMAT).to_string(),
    }
}

impl Now {
    /// The moment; the Unix epoch on a clock that stands before it.
    pub open spec fn moment(self) -> Seconds {
        if self.micros < 0 {
            Seconds { micros: 0 }
        } else {
            Seconds { micros: self.micros }
        }
    }

    /// The moment; the Unix epoch on a clock that stands before it.
    pub fn secs(&self) -> (r: Seconds)
        ensures
            r == self.moment(),
    {
        if self.micros < 0 {
            Seconds { micros: 0 }
        } else {
            Seconds { micros: self.micros }
        }
    }

    /// The nanoseconds behind the last whole second of the moment, for a roll of the dice.
    pub open spec fn dice(self) -> u32 {
        if self.micros < 0 {
            0
        } else {
            self.nanos
        }
    }

    /// The nanoseconds behind the last whole second of the moment, for a roll of the dice.
    pub fn roll(&self) -> (r: u32)
        ensures
            r == self.dice(),
    {
        if self.micros < 0 {
            0
        } else {
            self.nanos
        }
    }
}

} // verus!

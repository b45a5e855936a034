//! Days and instants: reading them, drawing them, and keeping them within bounds.
use chrono::{DateTime, NaiveDate, Utc};
use fake::faker::chrono::en;
use fake::Fake;
use vstd::prelude::*;

use crate::draws::draw_inclusive;

verus! {

/// Farthest that a draw goes from a single bound, in days.
pub const OPEN_DAYS: i64 = 365_000;

/// A point in time: seconds since the beginning of 1970, and nanoseconds on top.
#[derive(Debug, Clone, Copy, PartialEq, Eq, Structural)]
pub struct Instant {
    pub secs: i64,
    pub nanos: u32,
}

impl Instant {
    /// The point in time in nanoseconds.
    pub open spec fn total(self) -> int {
        self.secs * 1_000_000_000 + self.nanos
    }

    /// The point lies within a quarter of a million years of 1970, outside any leap second.
    pub open spec fn ordinary(self) -> bool {
        -8_000_000_000_000 <= self.secs <= 8_000_000_000_000 && self.nanos < 1_000_000_000
    }

    fn is_ordinary(&self) -> (r: bool)
        ensures
            r == self.ordinary(),
    {
        -8_000_000_000_000 <= self.secs && self.secs <= 8_000_000_000_000 && self.nanos
            < 1_000_000_000
    }

    /// The point in time in whole microseconds.
    pub fn micros(&self) -> (r: i64)
        requires
            self.ordinary(),
        ensures
            r == self.secs * 1_000_000 + self.nanos / 1_000,
    {
        self.secs * 1_000_000 + (self.nanos / 1_000) as i64
    }
}

/// What reading a date of the form `YYYY-MM-DD` gives: its day since the beginning of 1970, or
/// what is wrong with it.
pub uninterp spec fn day_of(s: Seq<char>) -> Result<i32, Seq<char>>;

/// Calls `chrono::NaiveDate::parse_from_str` with the format `%Y-%m-%d`, and
/// `chrono::NaiveDate::to_epoch_days` on the date. Which texts it takes is not stated: the result
/// is named.
#[verifier::external_body]
pub(crate) fn parse_day(s: &str) -> (r: Result<i32, String>)
    ensures
        match r {
            Ok(d) => day_of(s@) == Ok::<i32, Seq<char>>(d),
            Err(e) => day_of(s@) == Err::<i32, Seq<char>>(e@),
        },
{
    match NaiveDate::parse_from_str(s, "%Y-%m-%d") {
        Ok(d) => Ok(d.to_epoch_days()),
        Err(e) => Err(e.to_string()),
    }
}

/// What a day since the beginning of 1970 looks like as a date; nothing where it is too far off.
pub uninterp spec fn day_text_of(day: i32) -> Option<Seq<char>>;

/// Calls `chrono::NaiveDate::from_epoch_days`, and `to_string` on the date. How a date is written
/// is not stated: the result is named.
#[verifier::external_body]
pub(crate) fn day_text(day: i32) -> (r: Option<String>)
    ensures
        match r {
            Some(s) => day_text_of(day) == Some(s@),
            None => day_text_of(day) is None,
        },
{
    NaiveDate::from_epoch_days(day).map(|d| d.to_string())
}

/// What reading a point in time of RFC 3339 gives, or what is wrong with it.
pub uninterp spec fn instant_of(s: Seq<char>) -> Result<(i64, u32), Seq<char>>;

/// Calls `chrono::DateTime::parse_from_rfc3339`, and `timestamp` and `timestamp_subsec_nanos` on
/// the result. Which texts it takes is not stated: the result is named.
#[verifier::external_body]
pub(crate) fn parse_instant(s: &str) -> (r: Result<(i64, u32), String>)
    ensures
        match r {
            Ok(t) => instant_of(s@) == Ok::<(i64, u32), Seq<char>>(t),
            Err(e) => instant_of(s@) == Err::<(i64, u32), Seq<char>>(e@),
        },
{
    match DateTime::parse_from_rfc3339(s) {
        Ok(t) => Ok((t.timestamp(), t.timestamp_subsec_nanos())),
        Err(e) => Err(e.to_string()),
    }
}

/// First and last day that a draw without bounds can give: those of the years 1 and 2999.
pub const FIRST_DAY: i64 = -719_162;

pub const LAST_DAY: i64 = 376_199;

/// Calls the faker `fake::faker::chrono::en::Date`: a random date of the years 1 to 2999, as its
/// day since the beginning of 1970.
#[verifier::external_body]
pub(crate) fn any_day() -> (r: i32)
    ensures
        FIRST_DAY <= r <= LAST_DAY,
{
    en::Date().fake::<NaiveDate>().to_epoch_days()
}

/// The character is a digit.
pub open spec fn is_digit(c: char) -> bool {
    '0' <= c <= '9'
}

/// Digits where the pattern has `#`, and the pattern's own characters elsewhere.
pub open spec fn has_pattern(text: Seq<char>, pattern: Seq<char>) -> bool {
    &&& text.len() == pattern.len()
    &&& forall|i: int|
        0 <= i < text.len() ==> if pattern[i] == '#' {
            is_digit(#[trigger] text[i])
        } else {
            text[i] == pattern[i]
        }
}

/// A date written as `YYYY-MM-DD`.
pub open spec fn is_day_text(text: Seq<char>) -> bool {
    has_pattern(text, "####-##-##"@)
}

/// A point in time as RFC 3339 text in UTC: to the second, or with three, six or nine decimals.
pub open spec fn is_instant_text(text: Seq<char>) -> bool {
    ||| has_pattern(text, "####-##-##T##:##:##+00:00"@)
    ||| has_pattern(text, "####-##-##T##:##:##.###+00:00"@)
    ||| has_pattern(text, "####-##-##T##:##:##.######+00:00"@)
    ||| has_pattern(text, "####-##-##T##:##:##.#########+00:00"@)
}

/// Calls the faker `fake::faker::chrono::en::Date`: a random date of the years 1 to 2999, written
/// as `YYYY-MM-DD`. Which date comes out is chance.
#[verifier::external_body]
pub(crate) fn any_day_text() -> (r: String)
    ensures
        is_day_text(r@),
{
    en::Date().fake::<NaiveDate>().format("%Y-%m-%d").to_string()
}

/// The point in time is a whole number of nanoseconds from 1970 that a signed number of 64 bits
/// holds.
pub open spec fn is_near(t: Instant) -> bool {
    i64::MIN <= t.total() <= i64::MAX && t.nanos < 1_000_000_000
}

/// Calls the faker `fake::faker::chrono::en::DateTime`: a random point in time, drawn as a signed
/// number of nanoseconds of 64 bits.
#[verifier::external_body]
pub(crate) fn any_instant() -> (r: Instant)
    ensures
        is_near(r),
{
    let t = en::DateTime().fake::<DateTime<Utc>>();
    Instant { secs: t.timestamp(), nanos: t.timestamp_subsec_nanos() }
}

/// `b` is `a` and a whole number of minutes, at least `low` and fewer than `high`.
pub open spec fn minutes_apart(a: Instant, b: Instant, low: int, high: int) -> bool {
    &&& b.nanos == a.nanos
    &&& (b.secs - a.secs) % 60 == 0
    &&& low * 60 <= b.secs - a.secs < high * 60
}

/// The whole minutes from `a` to `b`.
pub open spec fn whole_minutes(a: Instant, b: Instant) -> int {
    (b.total() - a.total()) / 60_000_000_000
}

/// Calls the faker `fake::faker::chrono::en::DateTime`: a random point in time, drawn as a signed
/// number of nanoseconds of 64 bits, as RFC 3339 text. Which one comes out is chance.
#[verifier::external_body]
pub(crate) fn any_instant_text() -> (r: String)
    ensures
        is_instant_text(r@),
{
    en::DateTime().fake::<DateTime<Utc>>().to_rfc3339()
}

/// Calls the faker `fake::faker::chrono::en::DateTimeBetween`: a whole number of minutes after
/// `start`, less than the whole minutes up to `end`. It panics when there is no minute between.
#[verifier::external_body]
pub(crate) fn instant_between(start: Instant, end: Instant) -> (r: Instant)
    requires
        start.ordinary(),
        end.ordinary(),
        end.total() - start.total() >= 60_000_000_000,
    ensures
        minutes_apart(start, r, 0, whole_minutes(start, end)),
{
    let a = DateTime::<Utc>::from_timestamp(start.secs, start.nanos).unwrap();
    let b = DateTime::<Utc>::from_timestamp(end.secs, end.nanos).unwrap();
    let t = en::DateTimeBetween(a, b).fake::<DateTime<Utc>>();
    Instant { secs: t.timestamp(), nanos: t.timestamp_subsec_nanos() }
}

/// Calls the faker `fake::faker::chrono::en::DateTimeAfter`: at least one minute and less than a
/// million minutes after `start`.
#[verifier::external_body]
pub(crate) fn instant_after(start: Instant) -> (r: Instant)
    requires
        start.ordinary(),
    ensures
        minutes_apart(start, r, 1, 1_000_000),
{
    let a = DateTime::<Utc>::from_timestamp(start.secs, start.nanos).unwrap();
    let t = en::DateTimeAfter(a).fake::<DateTime<Utc>>();
    Instant { secs: t.timestamp(), nanos: t.timestamp_subsec_nanos() }
}

/// Calls the faker `fake::faker::chrono::en::DateTimeBefore`: at least one minute and less than a
/// million minutes before `end`.
#[verifier::external_body]
pub(crate) fn instant_before(end: Instant) -> (r: Instant)
    requires
        end.ordinary(),
    ensures
        minutes_apart(r, end, 1, 1_000_000),
{
    let b = DateTime::<Utc>::from_timestamp(end.secs, end.nanos).unwrap();
    let t = en::DateTimeBefore(b).fake::<DateTime<Utc>>();
    Instant { secs: t.timestamp(), nanos: t.timestamp_subsec_nanos() }
}

/// The day lies at or behind the lower bound and at or before the upper one; with one bound only
/// it is not more than [`OPEN_DAYS`] away, and without any it is one of the years 1 to 2999.
pub open spec fn day_fits(day: int, after: Option<i64>, before: Option<i64>) -> bool {
    match (after, before) {
        (Some(a), Some(b)) => a <= day <= b,
        (Some(a), None) => a <= day <= a + OPEN_DAYS,
        (None, Some(b)) => b - OPEN_DAYS <= day <= b,
        (None, None) => FIRST_DAY <= day <= LAST_DAY,
    }
}

/// Draws a day within bounds.
pub fn draw_day(after: Option<i64>, before: Option<i64>) -> (r: i64)
    requires
        after matches Some(a) ==> i32::MIN <= a <= i32::MAX,
        before matches Some(b) ==> i32::MIN <= b <= i32::MAX,
        (after is Some && before is Some) ==> after->0 <= before->0,
    ensures
        day_fits(r as int, after, before),
{
    match (after, before) {
        (Some(a), Some(b)) => {
            let offset: u64 = draw_inclusive(0, (b - a) as u64);
            a + offset as i64
        },
        (Some(a), None) => {
            let offset: u64 = draw_inclusive(0, OPEN_DAYS as u64);
            a + offset as i64
        },
        (None, Some(b)) => {
            let offset: u64 = draw_inclusive(0, OPEN_DAYS as u64);
            b - offset as i64
        },
        (None, None) => any_day() as i64,
    }
}

/// The day of an optional bound: nothing where there is no bound.
pub open spec fn bound_day(s: Option<Seq<char>>) -> Result<Option<i64>, Seq<char>> {
    match s {
        None => Ok(None),
        Some(t) => match day_of(t) {
            Ok(d) => Ok(Some(d as i64)),
            Err(e) => Err(e),
        },
    }
}

/// The text of an optional bound.
pub open spec fn bound_text(s: Option<&str>) -> Option<Seq<char>> {
    match s {
        Some(t) => Some(t@),
        None => None,
    }
}

fn read_bound_day(s: Option<&str>) -> (r: Result<Option<i64>, String>)
    ensures
        match r {
            Ok(d) => bound_day(bound_text(s)) == Ok::<Option<i64>, Seq<char>>(d) && (d
                matches Some(x) ==> i32::MIN <= x <= i32::MAX),
            Err(e) => bound_day(bound_text(s)) == Err::<Option<i64>, Seq<char>>(e@),
        },
{
    match s {
        None => Ok(None),
        Some(t) => match parse_day(t) {
            Ok(d) => Ok(Some(d as i64)),
            Err(e) => Err(e),
        },
    }
}

/// Draws a day between two dates; nothing where a date cannot be read or no day lies between.
pub fn fake_date(after: Option<&str>, before: Option<&str>) -> (r: Option<i64>)
    ensures
        match (bound_day(bound_text(after)), bound_day(bound_text(before))) {
            (Ok(a), Ok(b)) => if a is Some && b is Some && a->0 > b->0 {
                r is None
            } else {
                r matches Some(d) && day_fits(d as int, a, b)
            },
            _ => r is None,
        },
{
    let a = match read_bound_day(after) {
        Ok(d) => d,
        Err(_) => {
            return None;
        },
    };
    let b = match read_bound_day(before) {
        Ok(d) => d,
        Err(_) => {
            return None;
        },
    };
    if let (Some(x), Some(y)) = (a, b) {
        if x > y {
            return None;
        }
    }
    Some(draw_day(a, b))
}

/// A day can be drawn between two dates: both can be read, and they are in order.
pub open spec fn days_between(after: Option<Seq<char>>, before: Option<Seq<char>>) -> bool {
    match (bound_day(after), bound_day(before)) {
        (Ok(a), Ok(b)) => (a is Some && b is Some) ==> a->0 <= b->0,
        _ => false,
    }
}

/// Draws the days of `n` rows between two dates, each on its own; nothing where there are rows and
/// no day can be drawn.
pub fn fake_dates(after: Option<&str>, before: Option<&str>, n: usize) -> (r: Option<Vec<i64>>)
    ensures
        r is None <==> n > 0 && !days_between(bound_text(after), bound_text(before)),
        r matches Some(v) ==> v.len() == n && forall|i: int|
            0 <= i < n ==> day_fits(
                #[trigger] v[i] as int,
                bound_day(bound_text(after))->Ok_0,
                bound_day(bound_text(before))->Ok_0,
            ),
{
    let mut r: Vec<i64> = Vec::new();
    let mut i: usize = 0;
    while i < n
        invariant
            i <= n,
            r.len() == i,
            i > 0 ==> days_between(bound_text(after), bound_text(before)),
            forall|k: int|
                0 <= k < i ==> day_fits(
                    #[trigger] r[k] as int,
                    bound_day(bound_text(after))->Ok_0,
                    bound_day(bound_text(before))->Ok_0,
                ),
        decreases n - i,
    {
        match fake_date(after, before) {
            Some(d) => r.push(d),
            None => {
                return None;
            },
        }
        i += 1;
    }
    Some(r)
}

/// The point in time lies at or behind the lower bound and before the upper one, and whole minutes
/// away; with one bound only it is at least one minute and less than a million minutes away, and
/// without any it is near.
pub open spec fn instant_fits(t: Instant, after: Option<Instant>, before: Option<Instant>) -> bool {
    &&& after matches Some(a) ==> a.total() <= t.total()
    &&& before matches Some(b) ==> t.total() < b.total()
    &&& match (after, before) {
        (Some(a), Some(b)) => minutes_apart(a, t, 0, whole_minutes(a, b)),
        (Some(a), None) => minutes_apart(a, t, 1, 1_000_000),
        (None, Some(b)) => minutes_apart(t, b, 1, 1_000_000),
        (None, None) => is_near(t),
    }
}

/// The bounds leave room for a draw.
pub open spec fn room_between(after: Option<Instant>, before: Option<Instant>) -> bool {
    &&& after matches Some(a) ==> a.ordinary()
    &&& before matches Some(b) ==> b.ordinary()
    &&& (after is Some && before is Some) ==> before->0.total() - after->0.total()
        >= 60_000_000_000
}

/// Draws a point in time within bounds.
pub fn draw_instant(after: Option<Instant>, before: Option<Instant>) -> (r: Instant)
    requires
        room_between(after, before),
    ensures
        instant_fits(r, after, before),
{
    match (after, before) {
        (Some(a), Some(b)) => instant_between(a, b),
        (Some(a), None) => instant_after(a),
        (None, Some(b)) => instant_before(b),
        (None, None) => any_instant(),
    }
}

/// The point in time of an optional bound.
pub open spec fn bound_instant(s: Option<Seq<char>>) -> Result<Option<Instant>, Seq<char>> {
    match s {
        None => Ok(None),
        Some(t) => match instant_of(t) {
            Ok((secs, nanos)) => Ok(Some(Instant { secs, nanos })),
            Err(e) => Err(e),
        },
    }
}

fn read_bound_instant(s: Option<&str>) -> (r: Result<Option<Instant>, String>)
    ensures
        match r {
            Ok(t) => bound_instant(bound_text(s)) == Ok::<Option<Instant>, Seq<char>>(t),
            Err(e) => bound_instant(bound_text(s)) == Err::<Option<Instant>, Seq<char>>(e@),
        },
{
    match s {
        None => Ok(None),
        Some(t) => match parse_instant(t) {
            Ok((secs, nanos)) => Ok(Some(Instant { secs, nanos })),
            Err(e) => Err(e),
        },
    }
}

fn has_room(after: Option<Instant>, before: Option<Instant>) -> (r: bool)
    ensures
        r == room_between(after, before),
{
    if let Some(a) = after {
        if !a.is_ordinary() {
            return false;
        }
    }
    if let Some(b) = before {
        if !b.is_ordinary() {
            return false;
        }
    }
    match (after, before) {
        (Some(a), Some(b)) => {
            let secs: i64 = b.secs - a.secs;
            secs > 60 || (secs == 60 && b.nanos >= a.nanos)
        },
        _ => true,
    }
}

/// Draws a point in time between two others; nothing where one cannot be read or there is no room
/// between them.
pub fn fake_datetime(after: Option<&str>, before: Option<&str>) -> (r: Option<Instant>)
    ensures
        match (bound_instant(bound_text(after)), bound_instant(bound_text(before))) {
            (Ok(a), Ok(b)) => if room_between(a, b) {
                r matches Some(t) && instant_fits(t, a, b)
            } else {
                r is None
            },
            _ => r is None,
        },
{
    let a = match read_bound_instant(after) {
        Ok(t) => t,
        Err(_) => {
            return None;
        },
    };
    let b = match read_bound_instant(before) {
        Ok(t) => t,
        Err(_) => {
            return None;
        },
    };
    if has_room(a, b) {
        Some(draw_instant(a, b))
    } else {
        None
    }
}

/// A point in time can be drawn between two others: both can be read, and there is room between
/// them.
pub open spec fn instants_between(after: Option<Seq<char>>, before: Option<Seq<char>>) -> bool {
    match (bound_instant(after), bound_instant(before)) {
        (Ok(a), Ok(b)) => room_between(a, b),
        _ => false,
    }
}

/// Draws the points in time of `n` rows between two others, each on its own; nothing where there
/// are rows and no point can be drawn.
pub fn fake_datetimes(after: Option<&str>, before: Option<&str>, n: usize) -> (r: Option<
    Vec<Instant>,
>)
    ensures
        r is None <==> n > 0 && !instants_between(bound_text(after), bound_text(before)),
        r matches Some(v) ==> v.len() == n && forall|i: int|
            0 <= i < n ==> instant_fits(
                #[trigger] v[i],
                bound_instant(bound_text(after))->Ok_0,
                bound_instant(bound_text(before))->Ok_0,
            ),
{
    let mut r: Vec<Instant> = Vec::new();
    let mut i: usize = 0;
    while i < n
        invariant
            i <= n,
            r.len() == i,
            i > 0 ==> instants_between(bound_text(after), bound_text(before)),
            forall|k: int|
                0 <= k < i ==> instant_fits(
                    #[trigger] r[k],
                    bound_instant(bound_text(after))->Ok_0,
                    bound_instant(bound_text(before))->Ok_0,
                ),
        decreases n - i,
    {
        match fake_datetime(after, before) {
            Some(t) => r.push(t),
            None => {
                return None;
            },
        }
        i += 1;
    }
    Some(r)
}

/// The message about a constant date that cannot be read.
pub open spec fn bad_day(s: Seq<char>, why: Seq<char>) -> Seq<char> {
    "invalid date value '"@ + s + "': "@ + why
}

/// The message about a constant point in time that cannot be read.
pub open spec fn bad_instant(s: Seq<char>, why: Seq<char>) -> Seq<char> {
    "invalid date_time value '"@ + s + "': "@ + why
}

/// The day of a constant date.
pub fn constant_day(s: &str) -> (r: Result<i32, String>)
    ensures
        match day_of(s@) {
            Ok(d) => r matches Ok(x) && x == d,
            Err(e) => r matches Err(m) && m@ == bad_day(s@, e),
        },
{
    match parse_day(s) {
        Ok(d) => Ok(d),
        Err(e) => Err(crate::message::join4("invalid date value '", s, "': ", &e)),
    }
}

/// The point in time of a constant.
pub fn constant_instant(s: &str) -> (r: Result<Instant, String>)
    ensures
        match instant_of(s@) {
            Ok((secs, nanos)) => r matches Ok(x) && x.secs == secs && x.nanos == nanos,
            Err(e) => r matches Err(m) && m@ == bad_instant(s@, e),
        },
{
    match parse_instant(s) {
        Ok((secs, nanos)) => Ok(Instant { secs, nanos }),
        Err(e) => Err(crate::message::join4("invalid date_time value '", s, "': ", &e)),
    }
}

} // verus!

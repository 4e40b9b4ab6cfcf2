use vstd::prelude::*;
use chrono::{Datelike, Timelike};
use vstd::arithmetic::div_mod::*;
use crate::calendar::{
    day_number, key_text, lemma_day_number_injective, lemma_key_round_trip, lemma_year_range, lemma_key_injective, lemma_year_step, is_leap, days_before_month,
    padded, parse_key, push_padded, valid_date, days_before_year, CalendarDate, UNIX_EPOCH_DAY,
};

verus! {

pub const SECS_PER_DAY: i64 = 86400;

/// Offset of the diary's fixed time zone (UTC+9, no daylight saving).
pub const ZONE_OFFSET_SECS: i64 = 32400;

/// Earliest instant (Unix seconds) whose day in the fixed zone has a
/// four-digit year: 0000-01-01T00:00:00+09:00.
pub const MIN_INSTANT: i64 = -62167251600;

/// Latest instant (Unix seconds) whose day in the fixed zone has a
/// four-digit year: 9999-12-31T23:59:59+09:00.
pub const MAX_INSTANT: i64 = 253402268399;

pub open spec fn in_range(t: int) -> bool {
    MIN_INSTANT <= t <= MAX_INSTANT
}

/// The day number (see `day_number`) of instant `t` on the UTC calendar.
pub open spec fn utc_day(t: int) -> int {
    t / SECS_PER_DAY as int + UNIX_EPOCH_DAY as int
}

/// The day number of instant `t` on the calendar of the fixed zone.
pub open spec fn zone_day(t: int) -> int {
    utc_day(t + ZONE_OFFSET_SECS as int)
}

/// The real day with day number `n`.
pub open spec fn civil_of_day(n: int) -> (int, int, int) {
    choose|c: (int, int, int)| valid_date(c.0, c.1, c.2) && day_number(c.0, c.1, c.2) == n
}

/// The date key of day number `n`.
pub open spec fn key_of_day(n: int) -> Seq<char> {
    let c = civil_of_day(n);
    key_text(c.0, c.1, c.2)
}

/// The date key of instant `t` in the fixed zone: the only definition of
/// "today" in the diary.
pub open spec fn today_key(t: int) -> Seq<char> {
    key_of_day(zone_day(t))
}

/// `HH:MM:SS` of the second `s` of a day.
pub open spec fn clock_text(s: int) -> Seq<char> {
    padded(s / 3600, 2) + seq![':'] + padded((s % 3600) / 60, 2) + seq![':'] + padded(s % 60, 2)
}

/// The stored timestamp of instant `t`: `YYYY-MM-DDTHH:MM:SSZ`, in UTC.
pub open spec fn timestamp_text(t: int) -> Seq<char> {
    key_of_day(utc_day(t)) + seq!['T'] + clock_text(t % SECS_PER_DAY as int) + seq!['Z']
}

/// Relies on chrono's `DateTime::from_timestamp` (Unix seconds to a UTC date
/// and time, proleptic Gregorian) and its `Datelike` / `Timelike` accessors.
/// It returns `None` only outside chrono's range of years (about ±262000).
#[verifier::external_body]
fn utc_fields(secs: i64) -> (r: Option<(i32, u32, u32, u32, u32, u32)>)
    ensures
        r matches Some(f) ==> {
            &&& valid_date(f.0 as int, f.1 as int, f.2 as int)
            &&& day_number(f.0 as int, f.1 as int, f.2 as int) == utc_day(secs as int)
            &&& f.3 < 24 && f.4 < 60 && f.5 < 60
            &&& f.3 * 3600 + f.4 * 60 + f.5 == secs as int % SECS_PER_DAY as int
        },
        -62167219200 <= secs <= 253402300799 ==> r is Some,
{
    match chrono::DateTime::from_timestamp(secs, 0) {
        Some(t) => Some((t.year(), t.month(), t.day(), t.hour(), t.minute(), t.second())),
        None => None,
    }
}

/// The fields of a real day and time of day, as chrono gives them.
pub struct CivilTime {
    pub date: CalendarDate,
    pub hour: u32,
    pub minute: u32,
    pub second: u32,
}

/// The UTC date and time of `secs`, for an instant whose UTC year has four digits.
pub(crate) fn civil_utc(secs: i64) -> (r: CivilTime)
    requires
        -62167219200 <= secs <= 253402300799,
    ensures
        r.date.valid(),
        0 <= r.date.year <= 9999,
        r.date.number() == utc_day(secs as int),
        (r.date.year as int, r.date.month as int, r.date.day as int) == civil_of_day(
            utc_day(secs as int),
        ),
        r.hour < 24 && r.minute < 60 && r.second < 60,
        r.hour * 3600 + r.minute * 60 + r.second == secs as int % SECS_PER_DAY as int,
{
    let f = utc_fields(secs).unwrap();
    let date = CalendarDate { year: f.0, month: f.1, day: f.2 };
    proof {
        let n = utc_day(secs as int);
        assert(0 <= n < days_before_year(10000));
        lemma_year_range(f.0 as int, f.1 as int, f.2 as int, 0, 10000);
        lemma_civil_of_day(f.0 as int, f.1 as int, f.2 as int);
    }
    CivilTime { date, hour: f.3, minute: f.4, second: f.5 }
}

/// `civil_of_day` picks the one real day with the given number.
pub proof fn lemma_civil_of_day(y: int, m: int, d: int)
    requires
        valid_date(y, m, d),
    ensures
        civil_of_day(day_number(y, m, d)) == (y, m, d),
{
    let n = day_number(y, m, d);
    let w = (y, m, d);
    assert(valid_date(w.0, w.1, w.2) && day_number(w.0, w.1, w.2) == n);
    let c = civil_of_day(n);
    lemma_day_number_injective(c.0, c.1, c.2, y, m, d);
}

/// Today's date key in the fixed zone at instant `now` (Unix seconds).
pub fn today_jst(now: i64) -> (r: String)
    requires
        in_range(now as int),
    ensures
        r@ == today_key(now as int),
        parse_key(r@) is Some,
{
    let c = civil_utc(now + ZONE_OFFSET_SECS);
    proof {
        lemma_key_round_trip(c.date.year as int, c.date.month as int, c.date.day as int);
    }
    c.date.to_string()
}

/// Whether `date` is today's key in the fixed zone at instant `now`.
pub fn is_today(date: &str, now: i64) -> (r: bool)
    requires
        in_range(now as int),
    ensures
        r == (date@ == today_key(now as int)),
{
    let today = today_jst(now);
    crate::text::str_eq(date, today.as_str())
}

/// The stored form of instant `now`: `YYYY-MM-DDTHH:MM:SSZ`.
pub fn now_iso8601(now: i64) -> (r: String)
    requires
        -62167219200 <= now <= 253402300799,
    ensures
        r@ == timestamp_text(now as int),
{
    let c = civil_utc(now);
    let mut r = c.date.to_string();
    crate::text::push_char(&mut r, 'T');
    push_clock(&mut r, c.hour, c.minute, c.second);
    crate::text::push_char(&mut r, 'Z');
    proof {
        lemma_clock_fields(c.hour as int, c.minute as int, c.second as int);
    }
    assert(r@ =~= timestamp_text(now as int));
    r
}

proof fn lemma_clock_fields(h: int, m: int, s: int)
    requires
        0 <= h < 24 && 0 <= m < 60 && 0 <= s < 60,
    ensures
        ({
            let t = h * 3600 + m * 60 + s;
            t / 3600 == h && (t % 3600) / 60 == m && t % 60 == s
        }),
{
    let t = h * 3600 + m * 60 + s;
    lemma_fundamental_div_mod_converse(t, 3600, h, m * 60 + s);
    lemma_fundamental_div_mod_converse(m * 60 + s, 60, m, s);
    lemma_fundamental_div_mod_converse(t, 60, h * 60 + m, s);
}

/// Appends `HH:MM:SS`.
pub(crate) fn push_clock(out: &mut String, h: u32, m: u32, s: u32)
    requires
        h < 24 && m < 60 && s < 60,
    ensures
        final(out)@ == old(out)@ + clock_text(h * 3600 + m * 60 + s),
{
    push_padded(out, h, 2);
    crate::text::push_char(out, ':');
    push_padded(out, m, 2);
    crate::text::push_char(out, ':');
    push_padded(out, s, 2);
    proof {
        lemma_clock_fields(h as int, m as int, s as int);
    }
    assert(final(out)@ =~= old(out)@ + clock_text(h * 3600 + m * 60 + s));
}

proof fn lemma_year_of_day(n: int, y: int) -> (yy: int)
    requires
        0 <= y < 10000,
        days_before_year(y) <= n < days_before_year(10000),
    ensures
        y <= yy < 10000,
        days_before_year(yy) <= n < days_before_year(yy + 1),
    decreases 10000 - y,
{
    if n < days_before_year(y + 1) {
        y
    } else {
        lemma_year_of_day(n, y + 1)
    }
}

/// Every day number of a four-digit year belongs to a real day.
pub proof fn lemma_day_exists(n: int)
    requires
        0 <= n < days_before_year(10000),
    ensures
        ({
            let c = civil_of_day(n);
            valid_date(c.0, c.1, c.2) && day_number(c.0, c.1, c.2) == n && 0 <= c.0 < 10000
        }),
{
    let y = lemma_year_of_day(n, 0);
    lemma_year_step(y);
    let r = n - days_before_year(y);
    let leap: int = if is_leap(y) { 1 } else { 0 };
    let m: int = if r < 31 { 1 } else if r < 59 + leap { 2 } else if r < 90 + leap { 3 } else if r
        < 120 + leap { 4 } else if r < 151 + leap { 5 } else if r < 181 + leap { 6 } else if r < 212
        + leap { 7 } else if r < 243 + leap { 8 } else if r < 273 + leap { 9 } else if r < 304
        + leap { 10 } else if r < 334 + leap { 11 } else { 12 };
    let d = r - days_before_month(y, m) + 1;
    assert(valid_date(y, m, d) && day_number(y, m, d) == n);
    lemma_civil_of_day(y, m, d);
}

/// Instants agree on today's key exactly when they fall on the same day of
/// the fixed zone; the machine's own time zone takes no part.
pub proof fn lemma_today_key_same_day(t1: int, t2: int)
    requires
        in_range(t1),
        in_range(t2),
    ensures
        today_key(t1) == today_key(t2) <==> zone_day(t1) == zone_day(t2),
{
    let n1 = zone_day(t1);
    let n2 = zone_day(t2);
    lemma_zone_day_bounds(t1);
    lemma_zone_day_bounds(t2);
    lemma_day_exists(n1);
    lemma_day_exists(n2);
    let c1 = civil_of_day(n1);
    let c2 = civil_of_day(n2);
    if today_key(t1) == today_key(t2) {
        lemma_key_injective(c1.0, c1.1, c1.2, c2.0, c2.1, c2.2);
    }
}

pub proof fn lemma_zone_day_bounds(t: int)
    requires
        in_range(t),
    ensures
        0 <= zone_day(t) < days_before_year(10000),
{
    let u = t + ZONE_OFFSET_SECS as int;
    lemma_fundamental_div_mod(u, 86400);
    lemma_mod_bound(u, 86400);
}

/// Today's key changes at the midnight of the fixed zone and at no other
/// second: from `t` to `t + 1` it changes if and only if `t + 1` is a
/// midnight there, and then a key that was today is no longer today.
pub proof fn lemma_today_changes_at_midnight(t: int, key: Seq<char>)
    requires
        in_range(t),
        in_range(t + 1),
    ensures
        (today_key(t) != today_key(t + 1)) <==> (t + 1 + ZONE_OFFSET_SECS as int) % SECS_PER_DAY as int
            == 0,
        (key == today_key(t)) != (key == today_key(t + 1)) ==> (t + 1 + ZONE_OFFSET_SECS as int)
            % SECS_PER_DAY as int == 0,
{
    let u = t + ZONE_OFFSET_SECS as int;
    lemma_fundamental_div_mod(u, 86400);
    lemma_mod_bound(u, 86400);
    lemma_fundamental_div_mod(u + 1, 86400);
    lemma_mod_bound(u + 1, 86400);
    if (u + 1) % 86400 == 0 {
        lemma_fundamental_div_mod_converse(u, 86400, (u + 1) / 86400 - 1, 86399);
    } else {
        lemma_fundamental_div_mod_converse(u + 1, 86400, u / 86400, u % 86400 + 1);
    }
    lemma_today_key_same_day(t, t + 1);
}

} // verus!

use vstd::prelude::*;
use crate::calendar::{
    calculate_weekday, day_number, digit_at, digit_char, digit_value, is_digit, padded, parse_date,
    parse_key, push_padded, two_digits, valid_date, weekday, CalendarDate, UNIX_EPOCH_DAY,
};
use crate::clock::{
    civil_of_day, clock_text, in_range, lemma_day_exists, push_clock, timestamp_text, utc_day,
    zone_day, SECS_PER_DAY, ZONE_OFFSET_SECS,
};
use vstd::arithmetic::div_mod::*;

verus! {

/// Length of the run of decimal digits that starts at `i`.
pub open spec fn digit_run(s: Seq<char>, i: int) -> int
    decreases s.len() - i,
{
    if i < 0 || i >= s.len() || !is_digit(s[i]) {
        0
    } else {
        1 + digit_run(s, i + 1)
    }
}

/// Offset from UTC in seconds that a zone designator names: none (the
/// diary's own zone), `Z`, or `+HH:MM` / `-HH:MM`.
pub open spec fn zone_offset(z: Seq<char>) -> Option<int> {
    if z.len() == 0 {
        Some(ZONE_OFFSET_SECS as int)
    } else if z.len() == 1 && z[0] == 'Z' {
        Some(0)
    } else if z.len() == 6 && (z[0] == '+' || z[0] == '-') && is_digit(z[1]) && is_digit(z[2])
        && z[3] == ':' && is_digit(z[4]) && is_digit(z[5]) && two_digits(z, 1) < 24 && two_digits(
        z,
        4,
    ) < 60 {
        let v = two_digits(z, 1) * 3600 + two_digits(z, 4) * 60;
        Some(if z[0] == '+' { v } else { -v })
    } else {
        None
    }
}

/// `s[10..19]` is `THH:MM:SS` with a real time of day.
pub open spec fn time_shape(s: Seq<char>) -> bool {
    &&& s.len() >= 19
    &&& s[10] == 'T' && s[13] == ':' && s[16] == ':'
    &&& is_digit(s[11]) && is_digit(s[12]) && is_digit(s[14])
    &&& is_digit(s[15]) && is_digit(s[17]) && is_digit(s[18])
    &&& two_digits(s, 11) < 24 && two_digits(s, 14) < 60 && two_digits(s, 17) < 60
}

/// What follows the seconds and an optional fraction `.ddd`.
pub open spec fn zone_part(s: Seq<char>) -> Seq<char> {
    let f = if s.len() > 19 && s[19] == '.' && digit_run(s, 20) > 0 {
        1 + digit_run(s, 20)
    } else {
        0
    };
    s.subrange(19 + f, s.len() as int)
}

/// The instant (Unix seconds) that a stored timestamp names: a date key
/// alone (midnight in the diary's zone), or a key, `THH:MM:SS`, an optional
/// fraction (ignored) and a zone designator (none meaning the diary's zone).
pub open spec fn parse_timestamp(s: Seq<char>) -> Option<int> {
    if s.len() < 10 {
        None
    } else {
        match parse_key(s.take(10)) {
            None => None,
            Some(c) => {
                let day0 = (day_number(c.0, c.1, c.2) - UNIX_EPOCH_DAY as int) * SECS_PER_DAY as int;
                if s.len() == 10 {
                    Some(day0 - ZONE_OFFSET_SECS as int)
                } else if time_shape(s) {
                    match zone_offset(zone_part(s)) {
                        Some(off) => Some(
                            day0 + two_digits(s, 11) * 3600 + two_digits(s, 14) * 60 + two_digits(
                                s,
                                17,
                            ) - off,
                        ),
                        None => None,
                    }
                } else {
                    None
                }
            },
        }
    }
}

pub open spec fn weekday_abbr(w: int) -> Seq<char> {
    if w == 0 {
        "Sun"@
    } else if w == 1 {
        "Mon"@
    } else if w == 2 {
        "Tue"@
    } else if w == 3 {
        "Wed"@
    } else if w == 4 {
        "Thu"@
    } else if w == 5 {
        "Fri"@
    } else {
        "Sat"@
    }
}

pub open spec fn month_abbr(m: int) -> Seq<char> {
    if m == 1 {
        "Jan"@
    } else if m == 2 {
        "Feb"@
    } else if m == 3 {
        "Mar"@
    } else if m == 4 {
        "Apr"@
    } else if m == 5 {
        "May"@
    } else if m == 6 {
        "Jun"@
    } else if m == 7 {
        "Jul"@
    } else if m == 8 {
        "Aug"@
    } else if m == 9 {
        "Sep"@
    } else if m == 10 {
        "Oct"@
    } else if m == 11 {
        "Nov"@
    } else {
        "Dec"@
    }
}

/// `n` in decimal, without leading zeros.
pub open spec fn decimal(n: nat) -> Seq<char>
    decreases n,
{
    if n < 10 {
        seq![digit_char(n as int)]
    } else {
        decimal(n / 10).push(digit_char((n % 10) as int))
    }
}

/// Instant `t` as a feed date in the diary's zone:
/// `Www, DD Mon YYYY HH:MM:SS +0900`.
pub open spec fn feed_date_text(t: int) -> Seq<char> {
    let c = civil_of_day(zone_day(t));
    weekday_abbr(weekday(c.0, c.1, c.2)) + ", "@ + padded(c.2, 2) + " "@ + month_abbr(c.1) + " "@
        + decimal(c.0 as nat) + " "@ + clock_text((t + ZONE_OFFSET_SECS as int) % SECS_PER_DAY as int)
        + " +0900"@
}

/// What the feed shows for a stored timestamp: its date in the diary's zone,
/// or the text unchanged when it cannot be read.
pub open spec fn feed_date(s: Seq<char>) -> Seq<char> {
    match parse_timestamp(s) {
        Some(t) => if in_range(t) {
            feed_date_text(t)
        } else {
            s
        },
        None => s,
    }
}

fn weekday_abbr_str(w: u32) -> (r: &'static str)
    requires
        w < 7,
    ensures
        r@ == weekday_abbr(w as int),
{
    match w {
        0 => "Sun",
        1 => "Mon",
        2 => "Tue",
        3 => "Wed",
        4 => "Thu",
        5 => "Fri",
        _ => "Sat",
    }
}

fn month_abbr_str(m: u32) -> (r: &'static str)
    requires
        1 <= m <= 12,
    ensures
        r@ == month_abbr(m as int),
{
    match m {
        1 => "Jan",
        2 => "Feb",
        3 => "Mar",
        4 => "Apr",
        5 => "May",
        6 => "Jun",
        7 => "Jul",
        8 => "Aug",
        9 => "Sep",
        10 => "Oct",
        11 => "Nov",
        _ => "Dec",
    }
}

pub(crate) fn push_decimal(out: &mut String, n: u32)
    ensures
        final(out)@ == old(out)@ + decimal(n as nat),
    decreases n,
{
    if n >= 10 {
        push_decimal(out, n / 10);
    }
    crate::text::push_char(out, crate::calendar::digit_char_exec(n % 10));
    assert(final(out)@ =~= old(out)@ + decimal(n as nat));
}

fn two_digits_at(cs: &Vec<char>, i: usize) -> (r: Option<u32>)
    requires
        i + 1 < cs@.len(),
    ensures
        r is Some <==> is_digit(cs@[i as int]) && is_digit(cs@[i + 1]),
        r matches Some(v) ==> v as int == two_digits(cs@, i as int) && v < 100,
{
    let n = cs.len();
    assert(i + 1 < n);
    match digit_at(cs, i) {
        Some(a) => match digit_at(cs, i + 1) {
            Some(b) => Some(a * 10 + b),
            None => None,
        },
        None => None,
    }
}

fn zone_offset_at(cs: &Vec<char>, p: usize) -> (r: Option<i64>)
    requires
        p <= cs@.len(),
    ensures
        r is Some <==> zone_offset(cs@.subrange(p as int, cs@.len() as int)) is Some,
        r matches Some(o) ==> zone_offset(cs@.subrange(p as int, cs@.len() as int)) == Some(
            o as int,
        ),
{
    let ghost z = cs@.subrange(p as int, cs@.len() as int);
    let n = cs.len();
    if n - p == 0 {
        return Some(ZONE_OFFSET_SECS);
    }
    if n - p == 1 {
        return if cs[p] == 'Z' {
            Some(0)
        } else {
            None
        };
    }
    if n - p != 6 {
        return None;
    }
    let sign = cs[p];
    if (sign != '+' && sign != '-') || cs[p + 3] != ':' {
        return None;
    }
    assert(z[1] == cs@[p + 1] && z[2] == cs@[p + 2] && z[4] == cs@[p + 4] && z[5] == cs@[p + 5]);
    let hh = match two_digits_at(cs, p + 1) {
        Some(v) => v,
        None => {
            return None;
        },
    };
    let mm = match two_digits_at(cs, p + 4) {
        Some(v) => v,
        None => {
            return None;
        },
    };
    assert(two_digits(z, 1) == hh && two_digits(z, 4) == mm);
    if hh >= 24 || mm >= 60 {
        return None;
    }
    let v = (hh * 3600 + mm * 60) as i64;
    if sign == '+' {
        Some(v)
    } else {
        Some(-v)
    }
}

/// The instant that a stored timestamp names (see `parse_timestamp`).
pub fn timestamp_instant(s: &str) -> (r: Option<i64>)
    ensures
        r is Some <==> parse_timestamp(s@) is Some,
        r matches Some(t) ==> parse_timestamp(s@) == Some(t as int),
{
    let cs = crate::text::chars_of(s);
    let n = cs.len();
    if n < 10 {
        return None;
    }
    let key = s.substring_char(0, 10);
    assert(key@ == s@.take(10));
    let date = match parse_date(key) {
        Some(d) => d,
        None => {
            return None;
        },
    };
    let day0: i64 = (crate::calendar::day_number_exec(date) - UNIX_EPOCH_DAY) * SECS_PER_DAY;
    if n == 10 {
        return Some(day0 - ZONE_OFFSET_SECS);
    }
    if n < 19 || cs[10] != 'T' || cs[13] != ':' || cs[16] != ':' {
        return None;
    }
    let h = match two_digits_at(&cs, 11) {
        Some(v) => v,
        None => {
            return None;
        },
    };
    let mi = match two_digits_at(&cs, 14) {
        Some(v) => v,
        None => {
            return None;
        },
    };
    let sec = match two_digits_at(&cs, 17) {
        Some(v) => v,
        None => {
            return None;
        },
    };
    if h >= 24 || mi >= 60 || sec >= 60 {
        return None;
    }
    assert(time_shape(s@));
    let mut p: usize = 19;
    if n > 19 && cs[19] == '.' {
        let mut q: usize = 20;
        while q < n && '0' <= cs[q] && cs[q] <= '9'
            invariant
                cs@ == s@,
                n == cs@.len(),
                20 <= q <= n,
                digit_run(s@, 20) == (q - 20) + digit_run(s@, q as int),
            decreases n - q,
        {
            q = q + 1;
        }
        assert(digit_run(s@, q as int) == 0);
        if q > 20 {
            p = q;
        }
    }
    assert(cs@.subrange(p as int, n as int) == zone_part(s@));
    let off = match zone_offset_at(&cs, p) {
        Some(o) => o,
        None => {
            return None;
        },
    };
    Some(day0 + (h as i64) * 3600 + (mi as i64) * 60 + (sec as i64) - off)
}

/// Instant `t` as a feed date in the diary's zone.
fn format_feed_date(t: i64) -> (r: String)
    requires
        in_range(t as int),
    ensures
        r@ == feed_date_text(t as int),
{
    let c = crate::clock::civil_utc(t + ZONE_OFFSET_SECS);
    let w = calculate_weekday(c.date.year, c.date.month, c.date.day);
    let mut r = String::new();
    r.append(weekday_abbr_str(w));
    r.append(", ");
    push_padded(&mut r, c.date.day, 2);
    r.append(" ");
    r.append(month_abbr_str(c.date.month));
    r.append(" ");
    push_decimal(&mut r, c.date.year as u32);
    r.append(" ");
    push_clock(&mut r, c.hour, c.minute, c.second);
    r.append(" +0900");
    assert(r@ =~= feed_date_text(t as int));
    r
}

/// A stored timestamp as a feed date, `Www, DD Mon YYYY HH:MM:SS +0900`, in
/// the diary's zone whatever zone the timestamp was written in; text that
/// cannot be read comes back unchanged.
pub fn datetime_to_rfc2822(datetime: &str) -> (r: String)
    ensures
        r@ == feed_date(datetime@),
{
    match timestamp_instant(datetime) {
        Some(t) => {
            if crate::clock::MIN_INSTANT <= t && t <= crate::clock::MAX_INSTANT {
                format_feed_date(t)
            } else {
                String::from_str(datetime)
            }
        },
        None => String::from_str(datetime),
    }
}

/// Stored timestamps name the instant they were written at: the feed shows
/// `now_iso8601(t)` as instant `t` in the diary's zone.
pub proof fn lemma_stored_timestamp_in_feed(t: int)
    requires
        in_range(t),
        -62167219200 <= t,
    ensures
        parse_timestamp(timestamp_text(t)) == Some(t),
        feed_date(timestamp_text(t)) == feed_date_text(t),
{
    let n = utc_day(t);
    lemma_fundamental_div_mod(t, 86400);
    lemma_mod_bound(t, 86400);
    lemma_day_exists(n);
    let c = civil_of_day(n);
    let sec = t % 86400;
    let h = sec / 3600;
    let m = (sec % 3600) / 60;
    let x = sec % 60;
    lemma_fundamental_div_mod(sec, 3600);
    lemma_mod_bound(sec, 3600);
    lemma_fundamental_div_mod(sec % 3600, 60);
    lemma_mod_bound(sec % 3600, 60);
    assert(sec % 60 == (sec % 3600) % 60) by {
        lemma_mod_mod(sec, 60, 60);
    }
    lemma_mod_bound(sec, 60);
    assert(h < 24) by {
        lemma_div_by_multiple_is_strongly_ordered(sec, 86400, 24, 3600);
    }
    crate::calendar::lemma_key_round_trip(c.0, c.1, c.2);
    crate::calendar::lemma_four_digits_back(c.0);
    crate::calendar::lemma_two_digits_back(c.1);
    crate::calendar::lemma_two_digits_back(c.2);
    crate::calendar::lemma_two_digits_back(h);
    crate::calendar::lemma_two_digits_back(m);
    crate::calendar::lemma_two_digits_back(x);
    let k = crate::calendar::key_text(c.0, c.1, c.2);
    let s = timestamp_text(t);
    assert(s.len() == 20);
    assert(s.take(10) =~= k);
    assert(s.subrange(11, 13) =~= padded(h, 2));
    assert(s.subrange(14, 16) =~= padded(m, 2));
    assert(s.subrange(17, 19) =~= padded(x, 2));
    assert(two_digits(s, 11) == two_digits(padded(h, 2), 0));
    assert(two_digits(s, 14) == two_digits(padded(m, 2), 0));
    assert(two_digits(s, 17) == two_digits(padded(x, 2), 0));
    assert(time_shape(s));
    assert(zone_part(s) =~= seq!['Z']);
    assert(h * 3600 + m * 60 + x == sec);
}

} // verus!

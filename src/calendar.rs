use vstd::prelude::*;
use vstd::arithmetic::div_mod::*;

verus! {

/// Gregorian leap-year rule.
pub open spec fn is_leap(y: int) -> bool {
    (y % 4 == 0 && y % 100 != 0) || y % 400 == 0
}

pub open spec fn days_in_month(y: int, m: int) -> int {
    if m == 2 {
        if is_leap(y) { 29 } else { 28 }
    } else if m == 4 || m == 6 || m == 9 || m == 11 {
        30
    } else {
        31
    }
}

/// A day of the proleptic Gregorian calendar.
pub open spec fn valid_date(y: int, m: int, d: int) -> bool {
    1 <= m <= 12 && 1 <= d <= days_in_month(y, m)
}

/// Number of leap years in `[0, y)`.
pub open spec fn leap_years_before(y: int) -> int {
    (y + 3) / 4 - (y + 99) / 100 + (y + 399) / 400
}

/// Days from 0000-01-01 to the first day of year `y`.
pub open spec fn days_before_year(y: int) -> int {
    365 * y + leap_years_before(y)
}

/// Days of year `y` before the first day of month `m`.
pub open spec fn days_before_month(y: int, m: int) -> int {
    let common: int = if m == 1 { 0 } else if m == 2 { 31 } else if m == 3 { 59 } else if m == 4 {
        90
    } else if m == 5 { 120 } else if m == 6 { 151 } else if m == 7 { 181 } else if m == 8 {
        212
    } else if m == 9 { 243 } else if m == 10 { 273 } else if m == 11 { 304 } else { 334 };
    if m > 2 && is_leap(y) { common + 1 } else { common }
}

/// Days from 0000-01-01 to the given day.
pub open spec fn day_number(y: int, m: int, d: int) -> int {
    days_before_year(y) + days_before_month(y, m) + d - 1
}

/// Day number of 1970-01-01, the Unix epoch.
pub const UNIX_EPOCH_DAY: i64 = 719528;

/// Day of the week, Sunday = 0; 0000-01-01 was a Saturday.
pub open spec fn weekday(y: int, m: int, d: int) -> int {
    (day_number(y, m, d) + 6) % 7
}

proof fn lemma_leap_step(y: int)
    ensures
        leap_years_before(y + 1) == leap_years_before(y) + if is_leap(y) { 1int } else { 0int },
{
    lemma_fundamental_div_mod(y, 4);
    lemma_fundamental_div_mod(y, 100);
    lemma_fundamental_div_mod(y, 400);
    lemma_fundamental_div_mod(y + 3, 4);
    lemma_fundamental_div_mod(y + 99, 100);
    lemma_fundamental_div_mod(y + 399, 400);
    lemma_fundamental_div_mod(y + 4, 4);
    lemma_fundamental_div_mod(y + 100, 100);
    lemma_fundamental_div_mod(y + 400, 400);
    assert((y + 4) / 4 == (y + 3) / 4 + if y % 4 == 0 { 1int } else { 0int }) by {
        lemma_div_mod_converse_mod_bound(y, 4);
    }
    assert((y + 100) / 100 == (y + 99) / 100 + if y % 100 == 0 { 1int } else { 0int }) by {
        lemma_div_mod_converse_mod_bound(y, 100);
    }
    assert((y + 400) / 400 == (y + 399) / 400 + if y % 400 == 0 { 1int } else { 0int }) by {
        lemma_div_mod_converse_mod_bound(y, 400);
    }
    assert(y % 400 == 0 ==> y % 100 == 0) by {
        lemma_mod_mod(y, 100, 4);
    }
    assert(y % 100 == 0 ==> y % 4 == 0) by {
        lemma_mod_mod(y, 4, 25);
    }
}

proof fn lemma_div_mod_converse_mod_bound(y: int, k: int)
    requires
        k > 0,
    ensures
        (y + k) / k == (y + k - 1) / k + if y % k == 0 { 1int } else { 0int },
{
    lemma_fundamental_div_mod(y, k);
    lemma_mod_bound(y, k);
    let q = y / k;
    let r = y % k;
    assert(y + k == (q + 1) * k + r) by (nonlinear_arith)
        requires
            y == k * q + r,
    ;
    lemma_fundamental_div_mod_converse(y + k, k, q + 1, r);
    if r == 0 {
        assert(y + k - 1 == q * k + (k - 1)) by (nonlinear_arith)
            requires
                y == k * q + r,
                r == 0,
        ;
        lemma_fundamental_div_mod_converse(y + k - 1, k, q, k - 1);
    } else {
        assert(y + k - 1 == (q + 1) * k + (r - 1)) by (nonlinear_arith)
            requires
                y == k * q + r,
        ;
        lemma_fundamental_div_mod_converse(y + k - 1, k, q + 1, r - 1);
    }
}

pub proof fn lemma_year_step(y: int)
    ensures
        days_before_year(y + 1) == days_before_year(y) + 365 + if is_leap(y) { 1int } else { 0int },
{
    lemma_leap_step(y);
}

pub proof fn lemma_years_increase(a: int, b: int)
    requires
        a < b,
    ensures
        days_before_year(a + 1) <= days_before_year(b),
    decreases b - a,
{
    lemma_year_step(a);
    if a + 1 < b {
        lemma_years_increase(a + 1, b);
        lemma_year_step(a + 1);
    }
}

proof fn lemma_months_increase(y: int, a: int, b: int)
    requires
        1 <= a < b <= 12,
    ensures
        days_before_month(y, a) + days_in_month(y, a) <= days_before_month(y, b),
{
}

/// A valid day lies inside its year.
pub proof fn lemma_day_within_year(y: int, m: int, d: int)
    requires
        valid_date(y, m, d),
    ensures
        days_before_year(y) <= day_number(y, m, d) < days_before_year(y + 1),
{
    lemma_year_step(y);
}

/// Distinct valid days have distinct day numbers.
pub proof fn lemma_day_number_injective(y1: int, m1: int, d1: int, y2: int, m2: int, d2: int)
    requires
        valid_date(y1, m1, d1),
        valid_date(y2, m2, d2),
        day_number(y1, m1, d1) == day_number(y2, m2, d2),
    ensures
        y1 == y2 && m1 == m2 && d1 == d2,
{
    lemma_day_within_year(y1, m1, d1);
    lemma_day_within_year(y2, m2, d2);
    if y1 < y2 {
        lemma_years_increase(y1, y2);
    } else if y2 < y1 {
        lemma_years_increase(y2, y1);
    } else if m1 < m2 {
        lemma_months_increase(y1, m1, m2);
    } else if m2 < m1 {
        lemma_months_increase(y1, m2, m1);
    }
}

/// A valid day whose number falls in years `[lo, hi)` has its year there.
pub proof fn lemma_year_range(y: int, m: int, d: int, lo: int, hi: int)
    requires
        valid_date(y, m, d),
        lo < hi,
        days_before_year(lo) <= day_number(y, m, d) < days_before_year(hi),
    ensures
        lo <= y < hi,
{
    lemma_day_within_year(y, m, d);
    if y < lo {
        lemma_years_increase(y, lo);
    }
    if y >= hi {
        if hi < y {
            lemma_years_increase(hi, y);
        }
        lemma_year_step(hi);
    }
}

pub open spec fn is_digit(c: char) -> bool {
    '0' <= c <= '9'
}

pub open spec fn digit_value(c: char) -> int {
    c as int - '0' as int
}

/// The value of the two decimal digits at `i` and `i + 1`.
pub open spec fn two_digits(s: Seq<char>, i: int) -> int {
    10 * digit_value(s[i]) + digit_value(s[i + 1])
}

/// The value of the four decimal digits starting at `i`.
pub open spec fn four_digits(s: Seq<char>, i: int) -> int {
    100 * two_digits(s, i) + two_digits(s, i + 2)
}

/// `s` has the shape `YYYY-MM-DD`, each `Y`, `M` and `D` an ASCII digit.
pub open spec fn key_shape(s: Seq<char>) -> bool {
    &&& s.len() == 10
    &&& s[4] == '-'
    &&& s[7] == '-'
    &&& forall|i: int| 0 <= i < 10 && i != 4 && i != 7 ==> is_digit(#[trigger] s[i])
}

/// The day that a date key names, if it is a well-formed key of a real day.
pub open spec fn parse_key(s: Seq<char>) -> Option<(int, int, int)> {
    if key_shape(s) && valid_date(four_digits(s, 0), two_digits(s, 5), two_digits(s, 8)) {
        Some((four_digits(s, 0), two_digits(s, 5), two_digits(s, 8)))
    } else {
        None
    }
}

pub open spec fn digit_char(n: int) -> char {
    ('0' as int + n) as char
}

/// `n` written with exactly `w` decimal digits, zero-padded on the left.
pub open spec fn padded(n: int, w: nat) -> Seq<char>
    decreases w,
{
    if w == 0 {
        Seq::empty()
    } else {
        padded(n / 10, (w - 1) as nat).push(digit_char(n % 10))
    }
}

/// The canonical key `YYYY-MM-DD` of a day.
pub open spec fn key_text(y: int, m: int, d: int) -> Seq<char> {
    padded(y, 4) + seq!['-'] + padded(m, 2) + seq!['-'] + padded(d, 2)
}

/// A day of the calendar: year, month (1 to 12) and day of the month.
#[derive(Clone, Copy, Debug, PartialEq, Eq, Structural)]
pub struct CalendarDate {
    pub year: i32,
    pub month: u32,
    pub day: u32,
}

impl CalendarDate {
    pub open spec fn valid(&self) -> bool {
        valid_date(self.year as int, self.month as int, self.day as int)
    }

    pub open spec fn number(&self) -> int {
        day_number(self.year as int, self.month as int, self.day as int)
    }
}

pub(crate) fn digit_at(cs: &Vec<char>, i: usize) -> (r: Option<u32>)
    requires
        i < cs@.len(),
    ensures
        r == (if is_digit(cs@[i as int]) { Some(digit_value(cs@[i as int]) as u32) } else { None }),
{
    let c = cs[i];
    if '0' <= c && c <= '9' {
        Some((c as u32) - ('0' as u32))
    } else {
        None
    }
}

/// Reads a date key `YYYY-MM-DD` and accepts it only if it names a real day
/// of the Gregorian calendar.
pub fn parse_date(date: &str) -> (r: Option<CalendarDate>)
    ensures
        r is Some <==> parse_key(date@) is Some,
        r matches Some(cd) ==> parse_key(date@) == Some(
            (cd.year as int, cd.month as int, cd.day as int),
        ) && cd.valid() && 0 <= cd.year <= 9999,
{
    let cs = crate::text::chars_of(date);
    if cs.len() != 10 || cs[4] != '-' || cs[7] != '-' {
        return None;
    }
    let mut v: Vec<u32> = Vec::new();
    let mut i: usize = 0;
    while i < 10
        invariant
            cs@ == date@,
            cs@.len() == 10,
            i <= 10,
            v@.len() == i,
            forall|j: int| 0 <= j < i ==> (j == 4 || j == 7 || is_digit(#[trigger] cs@[j])),
            forall|j: int|
                0 <= j < i && j != 4 && j != 7 ==> #[trigger] v@[j] == digit_value(cs@[j]),
        decreases 10 - i,
    {
        if i == 4 || i == 7 {
            v.push(0);
        } else {
            match digit_at(&cs, i) {
                Some(x) => v.push(x),
                None => {
                    return None;
                },
            }
        }
        i = i + 1;
    }
    assert(v@[0] < 10 && v@[1] < 10 && v@[2] < 10 && v@[3] < 10) by {
        assert(is_digit(cs@[0]) && is_digit(cs@[1]) && is_digit(cs@[2]) && is_digit(cs@[3]));
    }
    assert(v@[5] < 10 && v@[6] < 10 && v@[8] < 10 && v@[9] < 10) by {
        assert(is_digit(cs@[5]) && is_digit(cs@[6]) && is_digit(cs@[8]) && is_digit(cs@[9]));
    }
    let year = (v[0] * 1000 + v[1] * 100 + v[2] * 10 + v[3]) as i32;
    let month = v[5] * 10 + v[6];
    let day = v[8] * 10 + v[9];
    assert(key_shape(date@));
    if is_valid_ymd(year, month, day) {
        Some(CalendarDate { year, month, day })
    } else {
        None
    }
}

/// The day number of a real day with a four-digit year.
pub(crate) fn day_number_exec(d: CalendarDate) -> (r: i64)
    requires
        d.valid(),
        0 <= d.year <= 9999,
    ensures
        r == d.number(),
{
    let y = d.year as i64;
    let leap = (y % 4 == 0 && y % 100 != 0) || y % 400 == 0;
    let common: i64 = match d.month {
        1 => 0,
        2 => 31,
        3 => 59,
        4 => 90,
        5 => 120,
        6 => 151,
        7 => 181,
        8 => 212,
        9 => 243,
        10 => 273,
        11 => 304,
        _ => 334,
    };
    let before_month = if d.month > 2 && leap { common + 1 } else { common };
    365 * y + (y + 3) / 4 - (y + 99) / 100 + (y + 399) / 400 + before_month + d.day as i64 - 1
}

/// Whether the year, month and day name a real day.
pub fn is_valid_ymd(year: i32, month: u32, day: u32) -> (r: bool)
    ensures
        r == valid_date(year as int, month as int, day as int),
{
    if month < 1 || month > 12 || day < 1 {
        return false;
    }
    let leap = (year % 4 == 0 && year % 100 != 0) || year % 400 == 0;
    let dim: u32 = if month == 2 {
        if leap { 29 } else { 28 }
    } else if month == 4 || month == 6 || month == 9 || month == 11 {
        30
    } else {
        31
    };
    day <= dim
}

/// Whether `date` is a well-formed key `YYYY-MM-DD` of a real day.
pub fn is_valid_date(date: &str) -> (r: bool)
    ensures
        r == (parse_key(date@) is Some),
{
    parse_date(date).is_some()
}

/// `Y + Y/4 - Y/100 + Y/400`, the year term of Zeller's congruence.
pub open spec fn year_term(y: int) -> int {
    y + y / 4 - y / 100 + y / 400
}

/// Days from 0000-01-01 to the first day of month `m` counted from March,
/// so that January and February are months 13 and 14 of the year before.
pub open spec fn march_month_offset(m: int) -> int {
    if m == 13 {
        365
    } else if m == 14 {
        396
    } else {
        days_before_month(1, m)
    }
}

proof fn lemma_shifted_year_count(y: int)
    ensures
        leap_years_before(y + 1) == y / 4 - y / 100 + y / 400 + 1,
{
    lemma_div_plus_one(y, 4);
    lemma_div_plus_one(y, 100);
    lemma_div_plus_one(y, 400);
    assert((y + 1) + 3 == 4 + y);
    assert((y + 1) + 99 == 100 + y);
    assert((y + 1) + 399 == 400 + y);
}

proof fn lemma_year_term_cycle(y: int)
    ensures
        year_term(y + 400) == year_term(y) + 497,
{
    assert((y + 400) / 4 == y / 4 + 100) by {
        lemma_fundamental_div_mod(y, 4);
        lemma_mod_bound(y, 4);
        lemma_fundamental_div_mod_converse(y + 400, 4, y / 4 + 100, y % 4);
    }
    assert((y + 400) / 100 == y / 100 + 4) by {
        lemma_fundamental_div_mod(y, 100);
        lemma_mod_bound(y, 100);
        lemma_fundamental_div_mod_converse(y + 400, 100, y / 100 + 4, y % 100);
    }
    lemma_div_plus_one(y, 400);
}

/// The day number in March-based form: year `yy` counts from March.
proof fn lemma_day_number_march(year: int, month: int, day: int)
    requires
        valid_date(year, month, day),
    ensures
        ({
            let yy = if month <= 2 { year - 1 } else { year };
            let mm = if month <= 2 { month + 12 } else { month };
            day_number(year, month, day) == 364 * yy + year_term(yy) + march_month_offset(mm) + day
        }),
{
    if month <= 2 {
        lemma_shifted_year_count(year - 1);
    } else {
        lemma_shifted_year_count(year);
        lemma_leap_step(year);
    }
}

proof fn lemma_zeller_year(y: int)
    requires
        y >= 0,
    ensures
        ({
            let q = y / 100;
            let r = y % 100;
            r + r / 4 + q / 4 + 5 * q == year_term(y) - 119 * q
        }),
{
    let q = y / 100;
    let r = y % 100;
    lemma_fundamental_div_mod(y, 100);
    lemma_mod_bound(y, 100);
    lemma_fundamental_div_mod(r, 4);
    lemma_mod_bound(r, 4);
    lemma_fundamental_div_mod(q, 4);
    lemma_mod_bound(q, 4);
    assert(y / 4 == 25 * q + r / 4) by {
        lemma_fundamental_div_mod_converse(y, 4, 25 * q + r / 4, r % 4);
    }
    assert(y / 400 == q / 4) by {
        lemma_fundamental_div_mod_converse(y, 400, q / 4, 100 * (q % 4) + r);
    }
}

/// The sum whose remainder by 7 is Zeller's day of the week (Saturday = 0),
/// with the year shifted by a whole 400-year cycle.
pub open spec fn zeller_sum(year: int, month: int, day: int) -> int {
    let y = if month <= 2 { year - 1 + 400 } else { year + 400 };
    let m = if month <= 2 { month + 12 } else { month };
    let q = y / 100;
    let r = y % 100;
    day + (13 * (m + 1)) / 5 + r + r / 4 + q / 4 + 5 * q
}

proof fn lemma_month_gap(m: int)
    requires
        3 <= m <= 14,
    ensures
        march_month_offset(m) - (13 * (m + 1)) / 5 == 7 * (4 * m - 5),
{
    if m == 3 {
        assert((13 * 4) / 5 == 10);
    } else if m == 4 {
        assert((13 * 5) / 5 == 13);
    } else if m == 5 {
        assert((13 * 6) / 5 == 15);
    } else if m == 6 {
        assert((13 * 7) / 5 == 18);
    } else if m == 7 {
        assert((13 * 8) / 5 == 20);
    } else if m == 8 {
        assert((13 * 9) / 5 == 23);
    } else if m == 9 {
        assert((13 * 10) / 5 == 26);
    } else if m == 10 {
        assert((13 * 11) / 5 == 28);
    } else if m == 11 {
        assert((13 * 12) / 5 == 31);
    } else if m == 12 {
        assert((13 * 13) / 5 == 33);
    } else if m == 13 {
        assert((13 * 14) / 5 == 36);
    } else {
        assert((13 * 15) / 5 == 39);
    }
}

/// Zeller's congruence agrees with the day count of the calendar.
pub proof fn lemma_zeller(year: int, month: int, day: int)
    requires
        valid_date(year, month, day),
        0 <= year,
    ensures
        (zeller_sum(year, month, day) % 7 + 6) % 7 == weekday(year, month, day),
{
    let y = if month <= 2 { year - 1 + 400 } else { year + 400 };
    let m = if month <= 2 { month + 12 } else { month };
    let q = y / 100;
    let yy = y - 400;
    let sum = zeller_sum(year, month, day);
    let dn = day_number(year, month, day);
    lemma_day_number_march(year, month, day);
    lemma_zeller_year(y);
    lemma_year_term_cycle(yy);
    lemma_month_gap(m);
    assert(dn == sum + 7 * (52 * yy + 17 * q + 4 * m - 5 - 71));
    lemma_mod_multiples_vanish(52 * yy + 17 * q + 4 * m - 5 - 71, sum + 6, 7);
    assert(dn + 6 == 7 * (52 * yy + 17 * q + 4 * m - 5 - 71) + (sum + 6));
    lemma_add_mod_noop(sum, 6, 7);
    lemma_mod_bound(6, 7);
    lemma_small_mod(6, 7);
}

/// Day of the week of a real day, Sunday = 0, by Zeller's congruence.
pub fn calculate_weekday(year: i32, month: u32, day: u32) -> (r: u32)
    requires
        valid_date(year as int, month as int, day as int),
        0 <= year <= 9999,
    ensures
        r as int == weekday(year as int, month as int, day as int),
{
    // Shifted by a whole 400-year cycle, which keeps every term non-negative.
    let y: i64 = if month <= 2 { year as i64 - 1 + 400 } else { year as i64 + 400 };
    let m: i64 = if month <= 2 { month as i64 + 12 } else { month as i64 };
    let q = y / 100;
    let rr = y % 100;
    let sum = day as i64 + (13 * (m + 1)) / 5 + rr + rr / 4 + q / 4 + 5 * q;
    proof {
        lemma_zeller(year as int, month as int, day as int);
    }
    ((sum % 7 + 6) % 7) as u32
}

pub(crate) fn digit_char_exec(k: u32) -> (c: char)
    requires
        k < 10,
    ensures
        c == digit_char(k as int),
{
    match k {
        0 => '0',
        1 => '1',
        2 => '2',
        3 => '3',
        4 => '4',
        5 => '5',
        6 => '6',
        7 => '7',
        8 => '8',
        _ => '9',
    }
}

/// Appends `n` written with exactly `w` digits.
pub(crate) fn push_padded(out: &mut String, n: u32, w: usize)
    ensures
        final(out)@ == old(out)@ + padded(n as int, w as nat),
    decreases w,
{
    if w == 0 {
        assert(final(out)@ =~= old(out)@ + padded(n as int, w as nat));
        return;
    }
    push_padded(out, n / 10, w - 1);
    crate::text::push_char(out, digit_char_exec(n % 10));
    assert(final(out)@ =~= old(out)@ + padded(n as int, w as nat));
}

pub proof fn lemma_two_digits_back(n: int)
    requires
        0 <= n < 100,
    ensures
        padded(n, 2).len() == 2,
        is_digit(padded(n, 2)[0]) && is_digit(padded(n, 2)[1]),
        two_digits(padded(n, 2), 0) == n,
{
    reveal_with_fuel(padded, 3);
    lemma_fundamental_div_mod(n, 10);
    lemma_mod_bound(n, 10);
    lemma_fundamental_div_mod(n / 10, 10);
    lemma_mod_bound(n / 10, 10);
    lemma_small_mod((n / 10) as nat, 10);
}

pub proof fn lemma_four_digits_back(n: int)
    requires
        0 <= n < 10000,
    ensures
        padded(n, 4) == padded(n / 100, 2) + padded(n % 100, 2),
        padded(n, 4).len() == 4,
        four_digits(padded(n, 4), 0) == n,
        forall|i: int| 0 <= i < 4 ==> is_digit(#[trigger] padded(n, 4)[i]),
{
    lemma_fundamental_div_mod(n, 100);
    lemma_mod_bound(n, 100);
    lemma_fundamental_div_mod(n, 10);
    lemma_fundamental_div_mod(n / 10, 10);
    lemma_fundamental_div_mod(n % 100, 10);
    assert(n / 10 / 10 == n / 100) by {
        lemma_div_denominator(n, 10, 10);
    }
    assert((n / 10) % 10 == (n % 100) / 10) by {
        lemma_mod_breakdown(n, 10, 10);
        lemma_fundamental_div_mod(n % 100, 10);
    }
    assert(n % 10 == (n % 100) % 10) by {
        lemma_mod_mod(n, 10, 10);
    }
    reveal_with_fuel(padded, 5);
    assert(padded(n, 4) =~= padded(n / 100, 2) + padded(n % 100, 2));
    assert(n / 100 < 100) by {
        lemma_div_by_multiple_is_strongly_ordered(n, 10000, 100, 100);
    }
    lemma_two_digits_back(n / 100);
    lemma_two_digits_back(n % 100);
}

/// A key written from a real day reads back as that day.
pub proof fn lemma_key_round_trip(y: int, m: int, d: int)
    requires
        valid_date(y, m, d),
        0 <= y <= 9999,
    ensures
        key_shape(key_text(y, m, d)),
        parse_key(key_text(y, m, d)) == Some((y, m, d)),
{
    let k = key_text(y, m, d);
    lemma_four_digits_back(y);
    lemma_two_digits_back(m);
    lemma_two_digits_back(d);
    assert(k.subrange(0, 4) =~= padded(y, 4));
    assert(k.subrange(5, 7) =~= padded(m, 2));
    assert(k.subrange(8, 10) =~= padded(d, 2));
    assert(four_digits(k, 0) == four_digits(padded(y, 4), 0));
    assert(two_digits(k, 5) == two_digits(padded(m, 2), 0));
    assert(two_digits(k, 8) == two_digits(padded(d, 2), 0));
    assert forall|i: int| 0 <= i < 10 && i != 4 && i != 7 implies is_digit(#[trigger] k[i]) by {
        if i < 4 {
            assert(k[i] == padded(y, 4)[i]);
        } else if i < 7 {
            assert(k[i] == padded(m, 2)[i - 5]);
        } else {
            assert(k[i] == padded(d, 2)[i - 8]);
        }
    }
}

/// Distinct real days have distinct keys.
pub proof fn lemma_key_injective(y1: int, m1: int, d1: int, y2: int, m2: int, d2: int)
    requires
        valid_date(y1, m1, d1),
        valid_date(y2, m2, d2),
        0 <= y1 <= 9999,
        0 <= y2 <= 9999,
        key_text(y1, m1, d1) == key_text(y2, m2, d2),
    ensures
        y1 == y2 && m1 == m2 && d1 == d2,
{
    lemma_key_round_trip(y1, m1, d1);
    lemma_key_round_trip(y2, m2, d2);
}

impl CalendarDate {
    /// The key `YYYY-MM-DD` of this day.
    pub fn to_string(&self) -> (r: String)
        requires
            0 <= self.year <= 9999,
            1 <= self.month <= 12,
            1 <= self.day <= 31,
        ensures
            r@ == key_text(self.year as int, self.month as int, self.day as int),
    {
        let mut r = String::new();
        push_padded(&mut r, self.year as u32, 4);
        crate::text::push_char(&mut r, '-');
        push_padded(&mut r, self.month, 2);
        crate::text::push_char(&mut r, '-');
        push_padded(&mut r, self.day, 2);
        assert(r@ =~= key_text(self.year as int, self.month as int, self.day as int));
        r
    }
}

proof fn lemma_two_digits_canonical(s: Seq<char>, i: int)
    requires
        0 <= i,
        i + 1 < s.len(),
        is_digit(s[i]),
        is_digit(s[i + 1]),
    ensures
        padded(two_digits(s, i), 2) == s.subrange(i, i + 2),
        0 <= two_digits(s, i) < 100,
{
    let a = digit_value(s[i]);
    let b = digit_value(s[i + 1]);
    let n = two_digits(s, i);
    lemma_fundamental_div_mod_converse(n, 10, a, b);
    lemma_small_mod(a as nat, 10);
    assert(a / 10 == 0) by {
        lemma_fundamental_div_mod_converse(a, 10, 0, a);
    }
    reveal_with_fuel(padded, 3);
    assert(digit_char(a) == s[i]);
    assert(digit_char(b) == s[i + 1]);
    assert(padded(n, 2) =~= s.subrange(i, i + 2));
}

/// A well-formed key is the text written from its own year, month and day.
pub proof fn lemma_key_canonical(s: Seq<char>)
    requires
        key_shape(s),
    ensures
        s == key_text(four_digits(s, 0), two_digits(s, 5), two_digits(s, 8)),
{
    assert(is_digit(s[0]) && is_digit(s[1]) && is_digit(s[2]) && is_digit(s[3]));
    assert(is_digit(s[5]) && is_digit(s[6]) && is_digit(s[8]) && is_digit(s[9]));
    lemma_two_digits_canonical(s, 0);
    lemma_two_digits_canonical(s, 2);
    lemma_two_digits_canonical(s, 5);
    lemma_two_digits_canonical(s, 8);
    let n = four_digits(s, 0);
    lemma_fundamental_div_mod_converse(n, 100, two_digits(s, 0), two_digits(s, 2));
    lemma_four_digits_back(n);
    assert(padded(n, 4) =~= s.subrange(0, 4));
    assert(s =~= key_text(four_digits(s, 0), two_digits(s, 5), two_digits(s, 8)));
}

/// Two keys that name the same day are the same text.
pub proof fn lemma_same_day_same_key(a: Seq<char>, b: Seq<char>)
    requires
        parse_key(a) matches Some(x) && parse_key(b) matches Some(y) && day_number(x.0, x.1, x.2)
            == day_number(y.0, y.1, y.2),
    ensures
        a == b,
{
    let x = parse_key(a)->Some_0;
    let y = parse_key(b)->Some_0;
    lemma_day_number_injective(x.0, x.1, x.2, y.0, y.1, y.2);
    lemma_key_canonical(a);
    lemma_key_canonical(b);
}

/// A well-formed key names a day of a four-digit year.
pub proof fn lemma_key_year_range(s: Seq<char>)
    requires
        parse_key(s) is Some,
    ensures
        0 <= parse_key(s)->Some_0.0 <= 9999,
{
    assert(is_digit(s[0]) && is_digit(s[1]) && is_digit(s[2]) && is_digit(s[3]));
}

} // verus!

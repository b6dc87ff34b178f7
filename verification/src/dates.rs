//! A naive (offset-free) calendar model: times of day, proleptic Gregorian
//! dates, combined date-times, and signed time spans.
//!
//! Bookings arrive with plain local dates and `HH:MM` times, so the model
//! keeps a date as its year, month and day and a time as hour, minute and
//! second. A date-time's place on the time line is its number of seconds
//! since the start of year 0 ([`DateTime::epoch_seconds`]); spans between
//! date-times are differences of that number.

use vstd::prelude::*;

verus! {

/// Largest year the calendar supports. Rolling an end date past it is
/// reported by the parser as an overflow rather than clamped.
pub const MAX_YEAR: i32 = 9999;

/// A time of day, to second resolution.
#[derive(Clone, Copy, Debug, PartialEq, Eq, Structural)]
pub struct Time {
    pub hour: u8,
    pub minute: u8,
    pub second: u8,
}

impl Time {
    /// The fields form a real time of day.
    pub open spec fn wf(self) -> bool {
        self.hour < 24 && self.minute < 60 && self.second < 60
    }

    /// Seconds since midnight.
    pub open spec fn seconds_of_day(self) -> int {
        self.hour * 3600 + self.minute * 60 + self.second
    }

    /// Builds a time of day, or `None` if a field is out of range.
    pub fn new(hour: u8, minute: u8, second: u8) -> (r: Option<Time>)
        ensures
            r == (if hour < 24 && minute < 60 && second < 60 {
                Some(Time { hour, minute, second })
            } else {
                None::<Time>
            }),
            r is Some ==> r.unwrap().wf(),
    {
        if hour < 24 && minute < 60 && second < 60 {
            Some(Time { hour, minute, second })
        } else {
            None
        }
    }
}

/// Whether year `y` is a leap year of the proleptic Gregorian calendar.
pub open spec fn spec_is_leap_year(y: int) -> bool {
    (y % 4 == 0 && y % 100 != 0) || y % 400 == 0
}

/// Number of days of month `m` in year `y`.
pub open spec fn spec_days_in_month(y: int, m: int) -> int {
    if m == 2 {
        if spec_is_leap_year(y) {
            29
        } else {
            28
        }
    } else if m == 4 || m == 6 || m == 9 || m == 11 {
        30
    } else {
        31
    }
}

/// A calendar date of the proleptic Gregorian calendar, year 0 through
/// [`MAX_YEAR`].
#[derive(Clone, Copy, Debug, PartialEq, Eq, Structural)]
pub struct Date {
    pub year: i32,
    pub month: u8,
    pub day: u8,
}

/// Number of leap years in the range `[0, y)`.
pub open spec fn spec_leap_years_before(y: int) -> int {
    if y <= 0 {
        0
    } else {
        1 + (y - 1) / 4 - (y - 1) / 100 + (y - 1) / 400
    }
}

/// Days in the months of year `y` that precede month `m`.
pub open spec fn spec_days_before_month(y: int, m: int) -> int {
    let plain: int = if m == 1 {
        0
    } else if m == 2 {
        31
    } else if m == 3 {
        59
    } else if m == 4 {
        90
    } else if m == 5 {
        120
    } else if m == 6 {
        151
    } else if m == 7 {
        181
    } else if m == 8 {
        212
    } else if m == 9 {
        243
    } else if m == 10 {
        273
    } else if m == 11 {
        304
    } else {
        334
    };
    if m >= 3 && spec_is_leap_year(y) {
        plain + 1
    } else {
        plain
    }
}

impl Date {
    /// The fields form a real date within the supported years.
    pub open spec fn wf(self) -> bool {
        &&& 0 <= self.year <= MAX_YEAR
        &&& 1 <= self.month <= 12
        &&& 1 <= self.day <= spec_days_in_month(self.year as int, self.month as int)
    }

    /// Days from the first day of year 0 (day 0) to this date.
    pub open spec fn day_number(self) -> int {
        365 * self.year + spec_leap_years_before(self.year as int)
            + spec_days_before_month(self.year as int, self.month as int) + self.day - 1
    }

    /// Strict calendar order: earlier year, or same year and earlier month,
    /// or same month and earlier day.
    pub open spec fn spec_lt(self, other: Date) -> bool {
        ||| self.year < other.year
        ||| (self.year == other.year && self.month < other.month)
        ||| (self.year == other.year && self.month == other.month && self.day < other.day)
    }

    /// Builds the date `y`-`m`-`d`, or `None` if no such date exists in the
    /// supported years. Mirrors the year/month/day order of the upstream
    /// date values.
    pub fn from_ymd(year: i32, month: u32, day: u32) -> (r: Option<Date>)
        ensures
            r == spec_date_from_ymd(year as int, month as int, day as int),
            r is Some ==> r.unwrap().wf(),
    {
        if 0 <= year && year <= MAX_YEAR && 1 <= month && month <= 12 {
            let dim = days_in_month(year, month as u8);
            if 1 <= day && day <= dim as u32 {
                Some(Date { year, month: month as u8, day: day as u8 })
            } else {
                None
            }
        } else {
            None
        }
    }

    /// Whether `self` lies strictly before `other` in calendar order.
    pub fn lt(&self, other: &Date) -> (r: bool)
        ensures
            r == self.spec_lt(*other),
    {
        self.year < other.year || (self.year == other.year && self.month < other.month) || (
        self.year == other.year && self.month == other.month && self.day < other.day)
    }

    /// The date exactly twelve months later: the same month of the next
    /// year, with the day clamped to that month's length. `None` when the
    /// next year lies beyond [`MAX_YEAR`].
    pub fn checked_add_12_months(&self) -> (r: Option<Date>)
        requires
            self.wf(),
        ensures
            r == spec_add_12_months(*self),
            r is Some ==> r.unwrap().wf(),
    {
        if self.year >= MAX_YEAR {
            None
        } else {
            let year = self.year + 1;
            let dim = days_in_month(year, self.month);
            let day = if self.day <= dim {
                self.day
            } else {
                dim
            };
            Some(Date { year, month: self.month, day })
        }
    }

    /// Days from the first day of year 0 to this date, computed.
    pub fn day_number_exec(&self) -> (r: i64)
        requires
            self.wf(),
        ensures
            r == self.day_number(),
            0 <= r < 4_000_000,
    {
        let y = self.year as i64;
        let leaps: i64 = if y == 0 {
            0
        } else {
            1 + ((y - 1) / 4) - ((y - 1) / 100) + ((y - 1) / 400)
        };
        let before_month: i64 = days_before_month(self.year, self.month);
        365 * y + leaps + before_month + (self.day as i64) - 1
    }
}

/// The date `y`-`m`-`d` when the fields form a real supported date.
pub open spec fn spec_date_from_ymd(y: int, m: int, d: int) -> Option<Date> {
    if 0 <= y <= MAX_YEAR && 1 <= m <= 12 && 1 <= d <= spec_days_in_month(y, m) {
        Some(Date { year: y as i32, month: m as u8, day: d as u8 })
    } else {
        None
    }
}

/// The date twelve months after `d`, day clamped to the target month's
/// length; `None` past [`MAX_YEAR`].
pub open spec fn spec_add_12_months(d: Date) -> Option<Date> {
    if d.year + 1 > MAX_YEAR {
        None
    } else {
        let dim = spec_days_in_month(d.year + 1, d.month as int);
        Some(
            Date {
                year: (d.year + 1) as i32,
                month: d.month,
                day: if d.day <= dim {
                    d.day
                } else {
                    dim as u8
                },
            },
        )
    }
}

/// Whether year `y` is a leap year, computed.
pub fn is_leap_year(y: i32) -> (r: bool)
    requires
        y >= 0,
    ensures
        r == spec_is_leap_year(y as int),
{
    (y % 4 == 0 && y % 100 != 0) || y % 400 == 0
}

/// Number of days of month `m` in year `y`, computed.
pub fn days_in_month(y: i32, m: u8) -> (r: u8)
    requires
        y >= 0,
        1 <= m <= 12,
    ensures
        r == spec_days_in_month(y as int, m as int),
{
    if m == 2 {
        if is_leap_year(y) {
            29
        } else {
            28
        }
    } else if m == 4 || m == 6 || m == 9 || m == 11 {
        30
    } else {
        31
    }
}

/// A calendar date combined with a time of day, with no offset attached.
#[derive(Clone, Copy, Debug, PartialEq, Eq, Structural)]
pub struct DateTime {
    pub date: Date,
    pub time: Time,
}

impl DateTime {
    /// Both halves are well formed.
    pub open spec fn wf(self) -> bool {
        self.date.wf() && self.time.wf()
    }

    /// Seconds from the start of year 0 to this date-time: its place on the
    /// naive time line, and what differences of date-times are measured in.
    pub open spec fn epoch_seconds(self) -> int {
        self.date.day_number() * 86400 + self.time.seconds_of_day()
    }

    /// Combines a date and a time of day.
    pub fn new(date: Date, time: Time) -> (r: DateTime)
        ensures
            r == (DateTime { date, time }),
    {
        DateTime { date, time }
    }

    /// The signed span from `earlier` to `self`; negative when `self` lies
    /// before `earlier`.
    pub fn signed_duration_since(&self, earlier: &DateTime) -> (r: Duration)
        requires
            self.wf(),
            earlier.wf(),
        ensures
            r.seconds == self.epoch_seconds() - earlier.epoch_seconds(),
    {
        let self_secs: i64 = self.date.day_number_exec() * 86400 + (self.time.hour as i64) * 3600
            + (self.time.minute as i64) * 60 + (self.time.second as i64);
        let earlier_secs: i64 = earlier.date.day_number_exec() * 86400 + (
        earlier.time.hour as i64) * 3600 + (earlier.time.minute as i64) * 60 + (
        earlier.time.second as i64);
        Duration { seconds: self_secs - earlier_secs }
    }
}

/// A signed time span, in seconds.
#[derive(Clone, Copy, Debug, PartialEq, Eq, Structural)]
pub struct Duration {
    pub seconds: i64,
}

/// Division truncated toward zero, for a positive divisor: how a span in
/// seconds is cut down to whole hours.
pub open spec fn trunc_div(a: int, b: int) -> int {
    if a >= 0 {
        a / b
    } else {
        -((-a) / b)
    }
}

/// Dividing by `k` steps the quotient up by one exactly at multiples of
/// `k`.
proof fn lemma_div_step(n: int, k: int)
    requires
        n >= 1,
        k >= 1,
    ensures
        n / k - (n - 1) / k == (if n % k == 0 {
            1int
        } else {
            0int
        }),
{
    let q = n / k;
    let r = n % k;
    vstd::arithmetic::div_mod::lemma_fundamental_div_mod(n, k);
    assert(n == k * q + r);
    if r == 0 {
        assert(n - 1 == (q - 1) * k + (k - 1)) by (nonlinear_arith)
            requires
                n == k * q + r,
                r == 0,
        ;
        vstd::arithmetic::div_mod::lemma_fundamental_div_mod_converse(n - 1, k, q - 1, k - 1);
    } else {
        assert(n - 1 == q * k + (r - 1)) by (nonlinear_arith)
            requires
                n == k * q + r,
        ;
        vstd::arithmetic::div_mod::lemma_fundamental_div_mod_converse(n - 1, k, q, r - 1);
    }
}

/// A multiple of 100 is a multiple of 4, and a multiple of 400 is one of
/// both.
proof fn lemma_century_divisibility(y: int)
    requires
        y >= 0,
    ensures
        y % 100 == 0 ==> y % 4 == 0,
        y % 400 == 0 ==> y % 100 == 0 && y % 4 == 0,
{
    if y % 100 == 0 {
        vstd::arithmetic::div_mod::lemma_fundamental_div_mod(y, 100);
        assert(y == (25 * (y / 100)) * 4 + 0) by (nonlinear_arith)
            requires
                y == 100 * (y / 100),
        ;
        vstd::arithmetic::div_mod::lemma_fundamental_div_mod_converse(y, 4, 25 * (y / 100), 0);
    }
    if y % 400 == 0 {
        vstd::arithmetic::div_mod::lemma_fundamental_div_mod(y, 400);
        assert(y == (4 * (y / 400)) * 100 + 0 && y == (100 * (y / 400)) * 4 + 0)
            by (nonlinear_arith)
            requires
                y == 400 * (y / 400),
        ;
        vstd::arithmetic::div_mod::lemma_fundamental_div_mod_converse(y, 100, 4 * (y / 400), 0);
        vstd::arithmetic::div_mod::lemma_fundamental_div_mod_converse(y, 4, 100 * (y / 400), 0);
    }
}

/// Stepping to the next year adds one to the leap-year count exactly when
/// the year stepped over is a leap year.
proof fn lemma_leap_years_step(y: int)
    requires
        y >= 0,
    ensures
        spec_leap_years_before(y + 1) - spec_leap_years_before(y) == (if spec_is_leap_year(y) {
            1int
        } else {
            0int
        }),
{
    if y >= 1 {
        lemma_div_step(y, 4);
        lemma_div_step(y, 100);
        lemma_div_step(y, 400);
        lemma_century_divisibility(y);
    }
}

/// The day of the calendar that follows `d`: the next day of the month,
/// the first of the next month, or New Year's Day.
pub open spec fn spec_next_day(d: Date) -> Date {
    if d.day < spec_days_in_month(d.year as int, d.month as int) {
        Date { year: d.year, month: d.month, day: (d.day + 1) as u8 }
    } else if d.month < 12 {
        Date { year: d.year, month: (d.month + 1) as u8, day: 1 }
    } else {
        Date { year: (d.year + 1) as i32, month: 1, day: 1 }
    }
}

/// The day number counts calendar days one by one: every date's successor
/// — across month and year boundaries too — has a day number exactly one
/// higher. This is what makes a difference of day numbers the number of
/// days between two dates.
pub proof fn lemma_day_number_counts_days(d: Date)
    requires
        d.wf(),
        !(d.year == MAX_YEAR && d.month == 12 && d.day == 31),
    ensures
        spec_next_day(d).wf(),
        spec_next_day(d).day_number() == d.day_number() + 1,
{
    if d.day >= spec_days_in_month(d.year as int, d.month as int) && d.month >= 12 {
        lemma_leap_years_step(d.year as int);
    }
}

/// Each month begins where the previous one ends.
proof fn lemma_days_before_month_step(y: int, m: int)
    requires
        1 <= m <= 11,
    ensures
        spec_days_before_month(y, m + 1) == spec_days_before_month(y, m) + spec_days_in_month(
            y,
            m,
        ),
{
}

/// A later month of the same year begins at or after the end of an earlier
/// one.
proof fn lemma_days_before_month_mono(y: int, m1: int, m2: int)
    requires
        1 <= m1 < m2 <= 12,
    ensures
        spec_days_before_month(y, m1) + spec_days_in_month(y, m1) <= spec_days_before_month(
            y,
            m2,
        ),
    decreases m2 - m1,
{
    lemma_days_before_month_step(y, m1);
    if m1 + 1 < m2 {
        lemma_days_before_month_mono(y, m1 + 1, m2);
    }
}

/// A date's day number lies within its year: at or after the year's first
/// day, and before the next year's first day.
proof fn lemma_day_number_within_year(d: Date)
    requires
        d.wf(),
    ensures
        365 * d.year + spec_leap_years_before(d.year as int) <= d.day_number(),
        d.day_number() < 365 * (d.year + 1) + spec_leap_years_before(d.year + 1),
{
    lemma_leap_years_step(d.year as int);
    if d.month < 12 {
        lemma_days_before_month_mono(d.year as int, d.month as int, 12);
    }
}

/// Years never lose days: a later year's first day has the larger day
/// number.
proof fn lemma_days_before_year_mono(y1: int, y2: int)
    requires
        0 <= y1 <= y2,
    ensures
        365 * y1 + spec_leap_years_before(y1) <= 365 * y2 + spec_leap_years_before(y2),
    decreases y2 - y1,
{
    if y1 < y2 {
        lemma_days_before_year_mono(y1, y2 - 1);
        lemma_leap_years_step(y2 - 1);
    }
}

/// Calendar order agrees with the time line: one date lies strictly before
/// another exactly when its day number is smaller.
pub proof fn lemma_calendar_order_matches_day_numbers(a: Date, b: Date)
    requires
        a.wf(),
        b.wf(),
    ensures
        a.spec_lt(b) <==> a.day_number() < b.day_number(),
{
    lemma_day_number_lt_forward(a, b);
    lemma_day_number_lt_forward(b, a);
}

/// The forward half of the order correspondence: an earlier date has a
/// smaller day number.
proof fn lemma_day_number_lt_forward(a: Date, b: Date)
    requires
        a.wf(),
        b.wf(),
    ensures
        a.spec_lt(b) ==> a.day_number() < b.day_number(),
{
    if a.spec_lt(b) {
        if a.year < b.year {
            lemma_day_number_within_year(a);
            lemma_day_number_within_year(b);
            lemma_days_before_year_mono(a.year + 1, b.year as int);
        } else if a.month < b.month {
            lemma_days_before_month_mono(a.year as int, a.month as int, b.month as int);
        }
    }
}

/// Truncating division keeps the dividend's sign at the divisor's
/// granularity: the quotient is negative exactly when the dividend reaches
/// `-b`, positive exactly when it reaches `b`, and zero on the open
/// interval between.
pub proof fn lemma_trunc_div_sign(a: int, b: int)
    requires
        b > 0,
    ensures
        trunc_div(a, b) < 0 <==> a <= -b,
        trunc_div(a, b) > 0 <==> a >= b,
        trunc_div(a, b) == 0 <==> -b < a < b,
{
    let m = if a >= 0 {
        a
    } else {
        -a
    };
    vstd::arithmetic::div_mod::lemma_div_pos_is_pos(m, b);
    if m < b {
        vstd::arithmetic::div_mod::lemma_basic_div(m, b);
    } else {
        vstd::arithmetic::div_mod::lemma_div_is_ordered(b, m, b);
        vstd::arithmetic::div_mod::lemma_div_by_self(b);
    }
}

impl Duration {
    /// The span of `h` whole hours.
    pub fn hours(h: i64) -> (r: Duration)
        requires
            i64::MIN <= h * 3600 <= i64::MAX,
        ensures
            r.seconds == h * 3600,
    {
        Duration { seconds: h * 3600 }
    }

    /// The span in whole hours, truncated toward zero.
    pub fn num_hours(&self) -> (r: i64)
        ensures
            r == trunc_div(self.seconds as int, 3600),
    {
        if self.seconds >= 0 {
            self.seconds / 3600
        } else {
            let mag: i64 = ((-(self.seconds as i128)) / 3600) as i64;
            -mag
        }
    }
}

/// Days in the months of year `y` before month `m`, computed.
fn days_before_month(y: i32, m: u8) -> (r: i64)
    requires
        y >= 0,
        1 <= m <= 12,
    ensures
        r == spec_days_before_month(y as int, m as int),
{
    let plain: i64 = if m == 1 {
        0
    } else if m == 2 {
        31
    } else if m == 3 {
        59
    } else if m == 4 {
        90
    } else if m == 5 {
        120
    } else if m == 6 {
        151
    } else if m == 7 {
        181
    } else if m == 8 {
        212
    } else if m == 9 {
        243
    } else if m == 10 {
        273
    } else if m == 11 {
        304
    } else {
        334
    };
    if m >= 3 && is_leap_year(y) {
        plain + 1
    } else {
        plain
    }
}

} // verus!

//! Calendar dates of the proleptic Gregorian calendar, as plain
//! year/month/day values, with the day arithmetic, weekday and ISO-week
//! computations delegated to `chrono`.

use vstd::prelude::*;

use chrono::Datelike;

use crate::text::{chars_of, decimal, pad2, push_all};

verus! {

/// Smallest year `chrono::NaiveDate` represents.
pub const MIN_YEAR: i32 = -262143;

/// Largest year `chrono::NaiveDate` represents.
pub const MAX_YEAR: i32 = 262142;

pub open spec fn is_leap(y: int) -> bool {
    (y % 4 == 0 && y % 100 != 0) || y % 400 == 0
}

pub open spec fn days_in_month(y: int, m: int) -> int {
    if m == 2 {
        if is_leap(y) {
            29
        } else {
            28
        }
    } else if m == 4 || m == 6 || m == 9 || m == 11 {
        30
    } else {
        31
    }
}

pub open spec fn valid_ymd(y: int, m: int, d: int) -> bool {
    &&& MIN_YEAR <= y <= MAX_YEAR
    &&& 1 <= m <= 12
    &&& 1 <= d <= days_in_month(y, m)
}

/// Days in the years before `y`, counted from 0001-01-01.
pub open spec fn days_before_year(y: int) -> int {
    let p = y - 1;
    365 * p + p / 4 - p / 100 + p / 400
}

/// Days in the months of year `y` before month `m`.
pub open spec fn days_before_month(y: int, m: int) -> int
    decreases m,
{
    if m <= 1 {
        0
    } else {
        days_before_month(y, m - 1) + days_in_month(y, m - 1)
    }
}

/// The day number of `(y, m, d)`: 0001-01-01 is day 0.
pub open spec fn day_number(y: int, m: int, d: int) -> int {
    days_before_year(y) + days_before_month(y, m) + d - 1
}

/// Days since Monday (0 = Monday … 6 = Sunday); 0001-01-01 was a Monday.
pub open spec fn weekday_of_day(n: int) -> int {
    n % 7
}

/// A calendar date.
#[derive(Debug, Clone, Copy, PartialEq, Eq, Hash)]
pub struct Date {
    pub year: i32,
    pub month: u32,
    pub day: u32,
}

impl Date {
    /// A real calendar date inside `chrono`'s range.
    pub open spec fn wf(self) -> bool {
        valid_ymd(self.year as int, self.month as int, self.day as int)
    }

    pub open spec fn num(self) -> int {
        day_number(self.year as int, self.month as int, self.day as int)
    }

    pub open spec fn weekday_spec(self) -> int {
        weekday_of_day(self.num())
    }

    /// Lexicographic `(year, month, day)` order.
    pub open spec fn le(self, other: Date) -> bool {
        ||| self.year < other.year
        ||| (self.year == other.year && self.month < other.month)
        ||| (self.year == other.year && self.month == other.month && self.day <= other.day)
    }

    pub open spec fn lt(self, other: Date) -> bool {
        self.le(other) && self != other
    }

    /// `NaiveDate::from_ymd_opt`: the date, when it exists.
    pub fn from_ymd(year: i32, month: u32, day: u32) -> (r: Option<Date>)
        ensures
            r is Some <==> valid_ymd(year as int, month as int, day as int),
            r matches Some(d) ==> d.year == year && d.month == month && d.day == day,
    {
        if year < MIN_YEAR || year > MAX_YEAR || month < 1 || month > 12 || day < 1 {
            return None;
        }
        if day > last_day_of_month(year, month) {
            return None;
        }
        Some(Date { year, month, day })
    }

    pub fn is_before(&self, other: &Date) -> (b: bool)
        ensures
            b == self.lt(*other),
    {
        self.year < other.year || (self.year == other.year && self.month < other.month) || (
        self.year == other.year && self.month == other.month && self.day < other.day)
    }

    pub fn is_on_or_before(&self, other: &Date) -> (b: bool)
        ensures
            b == self.le(*other),
    {
        self.year < other.year || (self.year == other.year && self.month < other.month) || (
        self.year == other.year && self.month == other.month && self.day <= other.day)
    }

    pub open spec fn first_of_month_spec(self) -> Date {
        Date { year: self.year, month: self.month, day: 1 }
    }

    pub open spec fn last_of_month_spec(self) -> Date {
        Date {
            year: self.year,
            month: self.month,
            day: days_in_month(self.year as int, self.month as int) as u32,
        }
    }

    /// The first day of this date's month.
    pub fn first_of_month(&self) -> (r: Date)
        requires
            self.wf(),
        ensures
            r.wf(),
            r == (Date { year: self.year, month: self.month, day: 1 }),
    {
        Date { year: self.year, month: self.month, day: 1 }
    }

    /// The last day of this date's month.
    pub fn last_of_month(&self) -> (r: Date)
        requires
            self.wf(),
        ensures
            r.wf(),
            r == (Date {
                year: self.year,
                month: self.month,
                day: days_in_month(self.year as int, self.month as int) as u32,
            }),
    {
        Date { year: self.year, month: self.month, day: last_day_of_month(self.year, self.month) }
    }
}

/// Last calendar day of `(year, month)`.
pub fn last_day_of_month(year: i32, month: u32) -> (r: u32)
    requires
        1 <= month <= 12,
    ensures
        r == days_in_month(year as int, month as int),
{
    if month == 2 {
        if (year % 4 == 0 && year % 100 != 0) || year % 400 == 0 {
            29
        } else {
            28
        }
    } else if month == 4 || month == 6 || month == 9 || month == 11 {
        30
    } else {
        31
    }
}

/// The year as `%Y` writes it: four digits, zero-padded, for years 0
/// through 9999; otherwise signed, zero-padded to four digits.
pub open spec fn year_text(y: int) -> Seq<char> {
    if 0 <= y <= 9999 {
        pad4(y as nat)
    } else if y > 9999 {
        seq!['+'] + decimal(y as nat)
    } else {
        seq!['-'] + pad4((-y) as nat)
    }
}

/// The `%Y-%m-%d` text of a date.
pub open spec fn ymd_text(d: Date) -> Seq<char> {
    year_text(d.year as int) + seq!['-'] + pad2(d.month as nat) + seq!['-'] + pad2(d.day as nat)
}

/// Four digits, zero-padded.
pub open spec fn pad4(n: nat) -> Seq<char> {
    if n < 10 {
        seq!['0', '0', '0'] + decimal(n)
    } else if n < 100 {
        seq!['0', '0'] + decimal(n)
    } else if n < 1000 {
        seq!['0'] + decimal(n)
    } else {
        decimal(n)
    }
}

/// `NaiveDate::format("%Y-%m-%d")`: zero-padded month and day, and the
/// year as `%Y` writes it (signed outside 0 through 9999).
#[verifier::external_body]
pub(crate) fn format_ymd(d: &Date) -> (s: String)
    requires
        d.wf(),
    ensures
        s@ == ymd_text(*d),
{
    chrono::NaiveDate::from_ymd_opt(d.year, d.month, d.day).unwrap().format("%Y-%m-%d").to_string()
}

pub fn format_ymd_chars(d: &Date) -> (v: Vec<char>)
    requires
        d.wf(),
    ensures
        v@ == ymd_text(*d),
{
    let s = format_ymd(d);
    chars_of(s.as_str())
}

/// Whether `s` is exactly `YYYY-MM-DD` (four, two and two ASCII digits)
/// naming a real date, and that date.
pub open spec fn canonical_ymd(s: Seq<char>) -> Option<Date> {
    if s.len() == 10 && s[4] == '-' && s[7] == '-' && crate::text::all_digits(s.take(4))
        && crate::text::all_digits(s.subrange(5, 7)) && crate::text::all_digits(s.skip(8)) {
        let y = crate::text::digits_value(s.take(4)) as int;
        let m = crate::text::digits_value(s.subrange(5, 7)) as int;
        let d = crate::text::digits_value(s.skip(8)) as int;
        if valid_ymd(y, m, d) {
            Some(Date { year: y as i32, month: m as u32, day: d as u32 })
        } else {
            None
        }
    } else {
        None
    }
}

/// What `NaiveDate::parse_from_str(s, "%Y-%m-%d")` yields for `s`.
pub uninterp spec fn chrono_parse_ymd(s: Seq<char>) -> Option<Date>;

/// `NaiveDate::parse_from_str(s, "%Y-%m-%d").ok()`. Any date it returns is
/// a real date, and the canonical zero-padded `YYYY-MM-DD` text of a real
/// date parses to that date; chrono's leniency beyond that form (a sign,
/// more or fewer digits) is left to the named result.
#[verifier::external_body]
pub(crate) fn parse_ymd(s: &str) -> (r: Option<Date>)
    ensures
        r == chrono_parse_ymd(s@),
        r matches Some(d) ==> d.wf(),
        canonical_ymd(s@) matches Some(d) ==> r == Some(d),
{
    chrono::NaiveDate::parse_from_str(s, "%Y-%m-%d").ok().map(
        |d| Date { year: d.year(), month: d.month(), day: d.day() },
    )
}

/// The date numbered `n`, when it lies inside `chrono`'s range.
pub open spec fn in_range(n: int) -> bool {
    day_number(MIN_YEAR as int, 1, 1) <= n <= day_number(MAX_YEAR as int, 12, 31)
}

/// `NaiveDate::checked_add_signed(TimeDelta::days(n))`: the date `n` days
/// after `d` (before, for negative `n`), or `None` outside chrono's range.
#[verifier::external_body]
pub(crate) fn add_days(d: &Date, n: i64) -> (r: Option<Date>)
    requires
        d.wf(),
        -1_000_000_000 <= n <= 1_000_000_000,
    ensures
        r is Some <==> in_range(d.num() + n),
        r matches Some(e) ==> e.wf() && e.num() == d.num() + n,
{
    chrono::NaiveDate::from_ymd_opt(d.year, d.month, d.day).unwrap().checked_add_signed(
        chrono::TimeDelta::days(n),
    ).map(|e| Date { year: e.year(), month: e.month(), day: e.day() })
}

/// `Datelike::weekday().num_days_from_monday()`: 0 for Monday through 6
/// for Sunday.
#[verifier::external_body]
pub(crate) fn weekday(d: &Date) -> (r: u32)
    requires
        d.wf(),
    ensures
        r == d.weekday_spec(),
{
    chrono::NaiveDate::from_ymd_opt(d.year, d.month, d.day).unwrap().weekday().num_days_from_monday()
}

/// `(a - b).num_days()`: signed day distance from `b` to `a`.
#[verifier::external_body]
pub(crate) fn days_between(a: &Date, b: &Date) -> (r: i64)
    requires
        a.wf(),
        b.wf(),
    ensures
        r == a.num() - b.num(),
{
    (chrono::NaiveDate::from_ymd_opt(a.year, a.month, a.day).unwrap()
        - chrono::NaiveDate::from_ymd_opt(b.year, b.month, b.day).unwrap()).num_days()
}

/// The ISO week `(year, week)` containing the day numbered `n`: the week's
/// Thursday `t` lies in ISO year `y`, and `week` counts weeks from the first
/// Thursday of `y`.
pub open spec fn iso_week_of(n: int, y: int, week: int) -> bool {
    let t = n - weekday_of_day(n) + 3;
    &&& days_before_year(y) <= t < days_before_year(y + 1)
    &&& week == (t - days_before_year(y)) / 7 + 1
}

/// `Datelike::iso_week()`: the ISO week-numbering year and week number.
#[verifier::external_body]
pub(crate) fn iso_week(d: &Date) -> (r: (i32, u32))
    requires
        d.wf(),
    ensures
        iso_week_of(d.num(), r.0 as int, r.1 as int),
{
    let w = chrono::NaiveDate::from_ymd_opt(d.year, d.month, d.day).unwrap().iso_week();
    (w.year(), w.week())
}

/// The Monday of ISO week `week` of `year`, when the calendar has one (no
/// two Mondays share an ISO week).
pub open spec fn iso_monday(year: i32, week: u32) -> Option<Date> {
    if exists|d: Date| d.wf() && d.weekday_spec() == 0 && iso_week_of(d.num(), year as int, week as int) {
        Some(
            choose|d: Date|
                d.wf() && d.weekday_spec() == 0 && iso_week_of(d.num(), year as int, week as int),
        )
    } else {
        None
    }
}

/// `NaiveDate::from_isoywd_opt(year, week, Weekday::Mon)`: the Monday of
/// ISO week `week` of `year`, when that week exists. The extreme years
/// `i32::MIN` and `i32::MAX` are left out: chrono steps to the year before
/// or after without checking, which overflows there.
#[verifier::external_body]
pub(crate) fn monday_of_iso_week_number(year: i32, week: u32) -> (r: Option<Date>)
    requires
        i32::MIN < year < i32::MAX,
    ensures
        r == iso_monday(year, week),
        r matches Some(d) ==> d.wf() && d.weekday_spec() == 0 && iso_week_of(
            d.num(),
            year as int,
            week as int,
        ),
        r is None ==> forall|d: Date|
            d.wf() && d.weekday_spec() == 0 ==> !iso_week_of(d.num(), year as int, week as int),
{
    chrono::NaiveDate::from_isoywd_opt(year, week, chrono::Weekday::Mon).map(
        |e| Date { year: e.year(), month: e.month(), day: e.day() },
    )
}

/// English weekday name, Monday first.
pub open spec fn weekday_name(w: int) -> Seq<char> {
    if w == 0 {
        "Monday"@
    } else if w == 1 {
        "Tuesday"@
    } else if w == 2 {
        "Wednesday"@
    } else if w == 3 {
        "Thursday"@
    } else if w == 4 {
        "Friday"@
    } else if w == 5 {
        "Saturday"@
    } else {
        "Sunday"@
    }
}

/// English month name.
pub open spec fn month_name(m: int) -> Seq<char> {
    if m == 1 {
        "January"@
    } else if m == 2 {
        "February"@
    } else if m == 3 {
        "March"@
    } else if m == 4 {
        "April"@
    } else if m == 5 {
        "May"@
    } else if m == 6 {
        "June"@
    } else if m == 7 {
        "July"@
    } else if m == 8 {
        "August"@
    } else if m == 9 {
        "September"@
    } else if m == 10 {
        "October"@
    } else if m == 11 {
        "November"@
    } else {
        "December"@
    }
}

/// `NaiveDate::format("%A")`: the full English weekday name.
#[verifier::external_body]
pub(crate) fn format_weekday_name(d: &Date) -> (s: String)
    requires
        d.wf(),
    ensures
        s@ == weekday_name(d.weekday_spec()),
{
    chrono::NaiveDate::from_ymd_opt(d.year, d.month, d.day).unwrap().format("%A").to_string()
}

/// `NaiveDate::format("%B")`: the full English month name.
#[verifier::external_body]
pub(crate) fn format_month_name(d: &Date) -> (s: String)
    requires
        d.wf(),
    ensures
        s@ == month_name(d.month as int),
{
    chrono::NaiveDate::from_ymd_opt(d.year, d.month, d.day).unwrap().format("%B").to_string()
}

/// `%A, %-d %B %Y`, e.g. `Monday, 5 January 2026`.
pub open spec fn long_heading(d: Date) -> Seq<char> {
    weekday_name(d.weekday_spec()) + ", "@ + decimal(d.day as nat) + " "@ + month_name(
        d.month as int,
    ) + " "@ + year_text(d.year as int)
}

/// The daily-note heading `%A, %-d %B %Y`.
pub fn format_long_heading(d: &Date) -> (v: Vec<char>)
    requires
        d.wf(),
    ensures
        v@ == long_heading(*d),
{
    let mut v = chars_of(format_weekday_name(d).as_str());
    push_all(&mut v, &chars_of(", "));
    push_all(&mut v, &crate::text::decimal_u64(d.day as u64));
    push_all(&mut v, &chars_of(" "));
    push_all(&mut v, &chars_of(format_month_name(d).as_str()));
    push_all(&mut v, &chars_of(" "));
    let ymd = format_ymd_chars(d);
    proof {
        crate::text::lemma_pad2_len(d.month as nat);
        crate::text::lemma_pad2_len(d.day as nat);
        assert(ymd@.len() >= 6);
    }
    let year = crate::text::slice_of(&ymd, 0, ymd.len() - 6);
    proof {
        assert(ymd@.subrange(0, ymd@.len() - 6) =~= year_text(d.year as int));
    }
    push_all(&mut v, &year);
    v
}

pub proof fn lemma_decimal_len(n: nat)
    ensures
        decimal(n).len() >= 1,
        n < 10 ==> decimal(n).len() == 1,
        10 <= n < 100 ==> decimal(n).len() == 2,
        100 <= n < 1000 ==> decimal(n).len() == 3,
        1000 <= n < 10000 ==> decimal(n).len() == 4,
    decreases n,
{
    if n >= 10 {
        lemma_decimal_len(n / 10);
    }
}

pub proof fn lemma_pad4_len(n: nat)
    requires
        n <= 9999,
    ensures
        pad4(n).len() == 4,
{
    lemma_decimal_len(n);
}

/// A time of day to the minute.
#[derive(Debug, Clone, Copy, PartialEq, Eq, Hash)]
pub struct Time {
    pub hour: u32,
    pub minute: u32,
}

/// `HH:MM` exactly, two ASCII digits each side, naming a real time.
pub open spec fn canonical_hm(s: Seq<char>) -> Option<Time> {
    if s.len() == 5 && s[2] == ':' && crate::text::all_digits(s.take(2))
        && crate::text::all_digits(s.skip(3)) {
        let h = crate::text::digits_value(s.take(2));
        let m = crate::text::digits_value(s.skip(3));
        if h < 24 && m < 60 {
            Some(Time { hour: h as u32, minute: m as u32 })
        } else {
            None
        }
    } else {
        None
    }
}

/// What `NaiveTime::parse_from_str(s, fmt)` yields, as the seconds past
/// midnight and the nanosecond within the second.
pub uninterp spec fn chrono_time_of_day(s: Seq<char>, fmt: Seq<char>) -> Option<(u32, u32)>;

/// The 24-hour `HH:MM` format.
pub open spec fn hm_format() -> Seq<char> {
    seq!['%', 'H', ':', '%', 'M']
}

/// `NaiveTime::parse_from_str(s, fmt).ok()`, read back through
/// `Timelike::num_seconds_from_midnight` and `Timelike::nanosecond`: the
/// seconds are those of a day, the nanoseconds reach past a billion only
/// for a leap second, and the canonical `HH:MM` text of a time parses in
/// the `%H:%M` format to that time, to the second. What else chrono
/// accepts, in that format or another, is left to the named result.
#[verifier::external_body]
pub(crate) fn time_of_day(s: &str, fmt: &str) -> (r: Option<(u32, u32)>)
    ensures
        r == chrono_time_of_day(s@, fmt@),
        r matches Some(t) ==> t.0 < 86400 && t.1 < 2_000_000_000,
        fmt@ == hm_format() && canonical_hm(s@) is Some ==> r == Some(
            (
                (canonical_hm(s@)->0.hour * 3600 + canonical_hm(s@)->0.minute * 60) as u32,
                0u32,
            ),
        ),
{
    chrono::NaiveTime::parse_from_str(s, fmt).ok().map(
        |t| (chrono::Timelike::num_seconds_from_midnight(&t), chrono::Timelike::nanosecond(&t)),
    )
}

/// The time of day `s` names in the `%H:%M` format, to the minute.
pub open spec fn parsed_hm(s: Seq<char>) -> Option<Time> {
    match chrono_time_of_day(s, hm_format()) {
        Some(t) => Some(Time { hour: (t.0 / 3600) as u32, minute: (t.0 % 3600 / 60) as u32 }),
        None => None,
    }
}

/// Parse a clock time in the `%H:%M` format: any time it returns is a real
/// time of day, and the canonical `HH:MM` text of a time parses to that
/// time.
pub fn parse_hm(s: &str) -> (r: Option<Time>)
    ensures
        r == parsed_hm(s@),
        r matches Some(t) ==> t.hour < 24 && t.minute < 60,
        canonical_hm(s@) matches Some(t) ==> r == Some(t),
{
    let fmt = crate::text::string_of(&vec!['%', 'H', ':', '%', 'M']);
    assert(fmt@ =~= hm_format());
    match time_of_day(s, fmt.as_str()) {
        Some((secs, _)) => {
            proof {
                if let Some(t) = canonical_hm(s@) {
                    let h = t.hour as int;
                    let m = t.minute as int;
                    assert((h * 3600 + m * 60) / 3600 == h && (h * 3600 + m * 60) % 3600 / 60 == m)
                        by (nonlinear_arith)
                        requires
                            0 <= h < 24,
                            0 <= m < 60,
                    ;
                }
            }
            Some(Time { hour: secs / 3600, minute: secs % 3600 / 60 })
        },
        None => None,
    }
}

} // verus!

//! Periodic recurrence patterns used by stewardship periodic commitments.
//!
//! The wire format is the phrase on a
//! `- Title — <recurrence> — next: YYYY-MM-DD` line: `daily`, `weekly`,
//! `monthly`, `every N months`, `yearly`. [`Recurrence::parse`] reads it,
//! [`Recurrence::to_text`] writes it. Month and year steps clamp the day to
//! the target month's length.

use vstd::prelude::*;

use crate::date::{add_days, days_in_month, in_range, last_day_of_month, Date, MAX_YEAR, MIN_YEAR};
use crate::text::{
    all_ascii, ascii_lower_seq, ascii_lower_vec, chars_of, decimal, decimal_u64, ends_with,
    ends_with_exec, eq_exec, parse_u32, parse_u32_exec, push_all, slice_of, starts_with,
    starts_with_exec, string_of, trim, trim_of,
};

verus! {

/// A periodic recurrence pattern.
#[derive(Debug, Clone, Copy, PartialEq, Eq)]
pub enum Recurrence {
    Daily,
    Weekly,
    Monthly,
    /// `every N months` for N >= 2; `every 1 months` parses as `Monthly`.
    EveryNMonths(u32),
    Yearly,
}

/// Error returned when a string does not parse as a [`Recurrence`].
#[derive(Debug, Clone, PartialEq, Eq)]
pub enum ParseRecurrenceError {
    Unknown(String),
    InvalidMonths(String),
}

/// The `every N months` shape of a lowered, trimmed phrase.
pub open spec fn every_n_months(t: Seq<char>) -> Option<Recurrence> {
    if starts_with(t, "every "@) && ends_with(t.skip(6), " months"@) {
        let inner = t.subrange(6, t.len() - 7);
        match parse_u32(inner) {
            Some(n) => if n == 0 {
                None
            } else if n == 1 {
                Some(Recurrence::Monthly)
            } else {
                Some(Recurrence::EveryNMonths(n))
            },
            None => None,
        }
    } else {
        None
    }
}

/// The recurrence a phrase names: trimmed and ASCII-lowered, then one of
/// the fixed words or `every N months`.
pub open spec fn parse_spec(s: Seq<char>) -> Option<Recurrence> {
    let t = ascii_lower_seq(trim(s));
    if t == "daily"@ {
        Some(Recurrence::Daily)
    } else if t == "weekly"@ {
        Some(Recurrence::Weekly)
    } else if t == "monthly"@ {
        Some(Recurrence::Monthly)
    } else if t == "yearly"@ {
        Some(Recurrence::Yearly)
    } else {
        every_n_months(t)
    }
}

/// `date` moved by `k` months, the day clamped to the target month.
pub open spec fn add_months_spec(date: Date, k: int) -> Date {
    let total = date.year * 12 + (date.month - 1) + k;
    let y = total / 12;
    let m = total % 12 + 1;
    let dim = days_in_month(y, m);
    Date {
        year: y as i32,
        month: m as u32,
        day: (if date.day <= dim {
            date.day as int
        } else {
            dim
        }) as u32,
    }
}

/// Whether moving `date` by `k` months stays inside the representable years.
pub open spec fn months_in_range(date: Date, k: int) -> bool {
    MIN_YEAR <= (date.year * 12 + (date.month - 1) + k) / 12 <= MAX_YEAR
}

impl Recurrence {
    /// The phrase written for the recurrence.
    pub open spec fn text(self) -> Seq<char> {
        match self {
            Recurrence::Daily => "daily"@,
            Recurrence::Weekly => "weekly"@,
            Recurrence::Monthly => "monthly"@,
            Recurrence::EveryNMonths(n) => "every "@ + decimal(n as nat) + " months"@,
            Recurrence::Yearly => "yearly"@,
        }
    }

    /// The canonical forms: every variant except `every N months` with
    /// N below 2.
    pub open spec fn canonical(self) -> bool {
        match self {
            Recurrence::EveryNMonths(n) => n >= 2,
            _ => true,
        }
    }

    /// Months advanced per step (zero for the day-based patterns).
    pub open spec fn months(self) -> int {
        match self {
            Recurrence::Monthly => 1,
            Recurrence::EveryNMonths(n) => n as int,
            Recurrence::Yearly => 12,
            _ => 0,
        }
    }

    /// Days advanced per step for the day-based patterns.
    pub open spec fn days(self) -> int {
        match self {
            Recurrence::Daily => 1,
            Recurrence::Weekly => 7,
            _ => 0,
        }
    }

    /// Whether the next occurrence after `from` is representable.
    pub open spec fn step_ok(self, from: Date) -> bool {
        match self {
            Recurrence::Daily | Recurrence::Weekly => in_range(from.num() + self.days()),
            _ => months_in_range(from, self.months()),
        }
    }

    /// Parse a recurrence phrase (`FromStr` for `Recurrence`).
    pub fn parse(s: &str) -> (r: Result<Recurrence, ParseRecurrenceError>)
        ensures
            match parse_spec(s@) {
                Some(rec) => r == Ok::<Recurrence, ParseRecurrenceError>(rec),
                None => r matches Err(ParseRecurrenceError::Unknown(m)) && m@ == s@,
            },
    {
        let v = chars_of(s);
        let t = ascii_lower_vec(&trim_of(&v));
        if eq_exec(&t, &chars_of("daily")) {
            return Ok(Recurrence::Daily);
        }
        if eq_exec(&t, &chars_of("weekly")) {
            return Ok(Recurrence::Weekly);
        }
        if eq_exec(&t, &chars_of("monthly")) {
            return Ok(Recurrence::Monthly);
        }
        if eq_exec(&t, &chars_of("yearly")) {
            return Ok(Recurrence::Yearly);
        }
        match parse_every_n_months(&t) {
            Some(r) => Ok(r),
            None => Err(ParseRecurrenceError::Unknown(s.to_owned())),
        }
    }

    /// The phrase for the recurrence (`Display` for `Recurrence`).
    pub fn to_text(&self) -> (s: String)
        ensures
            s@ == self.text(),
    {
        match self {
            Recurrence::Daily => "daily".to_owned(),
            Recurrence::Weekly => "weekly".to_owned(),
            Recurrence::Monthly => "monthly".to_owned(),
            Recurrence::EveryNMonths(n) => {
                let mut v = chars_of("every ");
                push_all(&mut v, &decimal_u64(*n as u64));
                push_all(&mut v, &chars_of(" months"));
                string_of(&v)
            },
            Recurrence::Yearly => "yearly".to_owned(),
        }
    }

    /// The next occurrence strictly after `from`: one day or one week on,
    /// or the same day `months()` months on, clamped to the month's end.
    pub fn next_after(self, from: Date) -> (r: Date)
        requires
            from.wf(),
            self.step_ok(from),
        ensures
            r.wf(),
            self.days() > 0 ==> r.num() == from.num() + self.days(),
            self.months() > 0 ==> r == add_months_spec(from, self.months()),
    {
        match self {
            Recurrence::Daily => add_days(&from, 1).unwrap(),
            Recurrence::Weekly => add_days(&from, 7).unwrap(),
            Recurrence::Monthly => add_months(from, 1),
            Recurrence::EveryNMonths(n) => add_months(from, n),
            Recurrence::Yearly => add_months(from, 12),
        }
    }
}

/// Recognise `every N months` in a lowered, trimmed phrase.
fn parse_every_n_months(t: &Vec<char>) -> (r: Option<Recurrence>)
    ensures
        r == every_n_months(t@),
{
    let prefix = chars_of("every ");
    let suffix = chars_of(" months");
    proof {
        reveal_strlit("every ");
        reveal_strlit(" months");
    }
    if !starts_with_exec(t, &prefix) {
        return None;
    }
    let rest = slice_of(t, 6, t.len());
    assert(rest@ == t@.skip(6));
    if !ends_with_exec(&rest, &suffix) {
        return None;
    }
    let inner = slice_of(t, 6, t.len() - 7);
    match parse_u32_exec(&inner) {
        Some(n) => {
            if n == 0 {
                None
            } else if n == 1 {
                Some(Recurrence::Monthly)
            } else {
                Some(Recurrence::EveryNMonths(n))
            }
        },
        None => None,
    }
}

/// Add `months` months to `date`, clamping the day to the resulting
/// month's length.
pub fn add_months(date: Date, months: u32) -> (r: Date)
    requires
        date.wf(),
        months_in_range(date, months as int),
    ensures
        r.wf(),
        r == add_months_spec(date, months as int),
{
    // Shift by a whole number of 400-year blocks' worth of months so the
    // division below works on a non-negative total.
    let offset: i64 = 12 * 300000;
    let total: i64 = (date.year as i64) * 12 + (date.month as i64 - 1) + (months as i64);
    let shifted: i64 = total + offset;
    assert(shifted >= 0);
    let new_year = (shifted / 12 - 300000) as i32;
    let new_month = (shifted % 12 + 1) as u32;
    proof {
        assert(shifted / 12 - 300000 == total / 12) by (nonlinear_arith)
            requires
                shifted == total + 12 * 300000,
                shifted >= 0,
        ;
        assert(shifted % 12 == total % 12) by (nonlinear_arith)
            requires
                shifted == total + 12 * 300000,
                shifted >= 0,
        ;
    }
    let last_day = last_day_of_month(new_year, new_month);
    let day = if date.day <= last_day {
        date.day
    } else {
        last_day
    };
    Date { year: new_year, month: new_month, day }
}

/// Whatever a phrase parses to is canonical: `every 1 months` reads as
/// monthly and `every 0 months` reads as nothing, so the phrase of the
/// result parses back to the same recurrence.
pub proof fn lemma_parse_canonical(s: Seq<char>)
    ensures
        parse_spec(s) matches Some(r) ==> r.canonical() && parse_spec(r.text()) == Some(r),
{
    if let Some(r) = parse_spec(s) {
        lemma_text_parse_roundtrip(r);
    }
}

/// Every canonical recurrence's phrase parses back to it.
pub proof fn lemma_text_parse_roundtrip(r: Recurrence)
    requires
        r.canonical(),
    ensures
        parse_spec(r.text()) == Some(r),
{
    reveal_strlit("daily");
    reveal_strlit("weekly");
    reveal_strlit("monthly");
    reveal_strlit("yearly");
    reveal_strlit("every ");
    reveal_strlit(" months");
    let t = r.text();
    lemma_lowercase_text(r);
    lemma_trim_text(r);
    match r {
        Recurrence::EveryNMonths(n) => {
            let d = decimal(n as nat);
            crate::text::lemma_decimal_digits(n as nat);
            assert(t == "every "@ + d + " months"@);
            assert(t.take(6) =~= "every "@);
            assert(t.skip(6) =~= d + " months"@);
            assert(t.skip(6).skip(t.skip(6).len() - 7) =~= " months"@);
            assert(t.subrange(6, t.len() - 7) =~= d);
            assert(t.len() > 13);
            assert(t != "daily"@);
            assert(t != "weekly"@);
            assert(t != "monthly"@);
            assert(t != "yearly"@);
        },
        Recurrence::Daily => {},
        Recurrence::Weekly => {
            assert("weekly"@ != "daily"@);
        },
        Recurrence::Monthly => {
            assert("monthly"@ != "daily"@);
            assert("monthly"@ != "weekly"@);
        },
        Recurrence::Yearly => {
            assert("yearly"@ != "daily"@);
            assert("yearly"@ != "weekly"@);
            assert("yearly"@ != "monthly"@);
        },
    }
}

proof fn lemma_lowercase_text(r: Recurrence)
    ensures
        ascii_lower_seq(r.text()) == r.text(),
{
    reveal_strlit("daily");
    reveal_strlit("weekly");
    reveal_strlit("monthly");
    reveal_strlit("yearly");
    reveal_strlit("every ");
    reveal_strlit(" months");
    let t = r.text();
    match r {
        Recurrence::EveryNMonths(n) => {
            crate::text::lemma_decimal_digits(n as nat);
        },
        _ => {},
    }
    assert(ascii_lower_seq(t) =~= t);
}

proof fn lemma_trim_text(r: Recurrence)
    ensures
        trim(r.text()) == r.text(),
{
    reveal_strlit("daily");
    reveal_strlit("weekly");
    reveal_strlit("monthly");
    reveal_strlit("yearly");
    reveal_strlit("every ");
    reveal_strlit(" months");
    let t = r.text();
    match r {
        Recurrence::EveryNMonths(n) => {
            crate::text::lemma_decimal_digits(n as nat);
        },
        _ => {},
    }
    assert(!crate::text::is_ws(t[0]));
    assert(!crate::text::is_ws(t[t.len() - 1]));
    crate::text::lemma_trim_no_ws_ends(t);
}

/// The next occurrence is strictly after the date it is computed from:
/// every cycle is a positive step, a day cycle moving the day number
/// forward and a month cycle moving the date later in the calendar order
/// (for any cycle of at least one month).
pub proof fn lemma_next_after_is_later(r: Recurrence, from: Date)
    requires
        from.wf(),
        r.step_ok(from),
        !(r matches Recurrence::EveryNMonths(n) && n == 0),
    ensures
        r.days() > 0 || r.months() > 0,
        r.months() > 0 ==> from.lt(add_months_spec(from, r.months())),
{
    if r.months() > 0 {
        let k = r.months();
        let t1 = from.year * 12 + (from.month - 1);
        let t2 = t1 + k;
        let y1 = from.year as int;
        let r1 = from.month - 1;
        let y2 = t2 / 12;
        let r2 = t2 % 12;
        assert(y2 > y1 || (y2 == y1 && r2 > r1)) by (nonlinear_arith)
            requires
                t1 == y1 * 12 + r1,
                0 <= r1 < 12,
                t2 == t1 + k,
                k >= 1,
                y2 == t2 / 12,
                r2 == t2 % 12,
        ;
        let n = add_months_spec(from, k);
        assert(n.year == y2);
        assert(n.month == r2 + 1);
    }
}

} // verus!

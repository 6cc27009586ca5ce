//! Day numbers order dates: a valid date is earlier than another exactly
//! when its day number is smaller, so each day number names one date.

use vstd::prelude::*;

use crate::date::{
    days_before_month, days_before_year, days_in_month, is_leap, iso_week_of, weekday_of_day, Date,
};

verus! {

/// The days of year `y`.
spec fn year_len(y: int) -> int {
    if is_leap(y) {
        366
    } else {
        365
    }
}

proof fn lemma_year_step(y: int)
    ensures
        days_before_year(y + 1) == days_before_year(y) + year_len(y),
{
    let p = y - 1;
    assert(y / 4 - p / 4 == if y % 4 == 0 { 1int } else { 0int });
    assert(y / 100 - p / 100 == if y % 100 == 0 { 1int } else { 0int });
    assert(y / 400 - p / 400 == if y % 400 == 0 { 1int } else { 0int });
}

proof fn lemma_year_mono(a: int, b: int)
    requires
        a < b,
    ensures
        days_before_year(a) + year_len(a) <= days_before_year(b),
    decreases b - a,
{
    lemma_year_step(a);
    if a + 1 < b {
        lemma_year_mono(a + 1, b);
    }
}

proof fn lemma_month_mono(y: int, m1: int, m2: int)
    requires
        1 <= m1 < m2 <= 13,
    ensures
        days_before_month(y, m1) + days_in_month(y, m1) <= days_before_month(y, m2),
    decreases m2 - m1,
{
    if m1 + 1 < m2 {
        lemma_month_mono(y, m1 + 1, m2);
    }
}

proof fn lemma_months_fill_year(y: int)
    ensures
        days_before_month(y, 13) == year_len(y),
{
    reveal_with_fuel(days_before_month, 13);
}

/// A valid date's day number lies inside its year.
proof fn lemma_num_in_year(d: Date)
    requires
        d.wf(),
    ensures
        days_before_year(d.year as int) <= d.num() < days_before_year(d.year as int) + year_len(
            d.year as int,
        ),
{
    let y = d.year as int;
    let m = d.month as int;
    lemma_months_fill_year(y);
    lemma_month_mono(y, m, 13);
    lemma_month_nonneg(y, m);
}

proof fn lemma_month_nonneg(y: int, m: int)
    ensures
        days_before_month(y, m) >= 0,
    decreases m,
{
    if m > 1 {
        lemma_month_nonneg(y, m - 1);
    }
}

/// Of two valid dates, one is earlier exactly when its day number is
/// smaller, and they are the same date exactly when their day numbers
/// agree.
pub proof fn lemma_num_orders_dates(a: Date, b: Date)
    requires
        a.wf(),
        b.wf(),
    ensures
        a.lt(b) <==> a.num() < b.num(),
        a == b <==> a.num() == b.num(),
{
    lemma_num_in_year(a);
    lemma_num_in_year(b);
    let (ya, yb) = (a.year as int, b.year as int);
    if ya < yb {
        lemma_year_mono(ya, yb);
    } else if yb < ya {
        lemma_year_mono(yb, ya);
    } else {
        let (ma, mb) = (a.month as int, b.month as int);
        if ma < mb {
            lemma_month_mono(ya, ma, mb);
        } else if mb < ma {
            lemma_month_mono(ya, mb, ma);
        }
    }
}

proof fn lemma_same_slot(na: int, nb: int, base: int)
    requires
        na % 7 == 0,
        nb % 7 == 0,
        (na + 3 - base) / 7 == (nb + 3 - base) / 7,
    ensures
        na == nb,
{
    let q = (na + 3 - base) / 7;
    let r1 = (na + 3 - base) % 7;
    let r2 = (nb + 3 - base) % 7;
    assert(na + 3 - base == 7 * q + r1 && 0 <= r1 < 7);
    assert(nb + 3 - base == 7 * q + r2 && 0 <= r2 < 7);
    let a = na / 7;
    let b = nb / 7;
    assert(na == 7 * a && nb == 7 * b);
    assert(7 * (a - b) == r1 - r2) by (nonlinear_arith)
        requires
            na == 7 * a,
            nb == 7 * b,
            na + 3 - base == 7 * q + r1,
            nb + 3 - base == 7 * q + r2,
    ;
    assert(a == b) by (nonlinear_arith)
        requires
            7 * (a - b) == r1 - r2,
            0 <= r1 < 7,
            0 <= r2 < 7,
    ;
}

/// No two Mondays share an ISO week: the Monday of a week is unique.
pub proof fn lemma_iso_monday_unique(a: Date, b: Date, year: int, week: int)
    requires
        a.wf(),
        b.wf(),
        a.weekday_spec() == 0,
        b.weekday_spec() == 0,
        iso_week_of(a.num(), year, week),
        iso_week_of(b.num(), year, week),
    ensures
        a == b,
{
    let (na, nb) = (a.num(), b.num());
    assert(weekday_of_day(na) == 0 && weekday_of_day(nb) == 0);
    lemma_same_slot(na, nb, days_before_year(year));
    lemma_num_orders_dates(a, b);
}

} // verus!

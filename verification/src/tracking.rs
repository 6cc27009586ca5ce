//! Tracking notes: one occurrence of an activity under an expanded
//! stewardship, filed at
//! `stewardships/<slug>/tracking/<YYYY-MM-DD>-<activity>.md`. This module
//! holds the draft of an entry, the checks on it (including the window of
//! plausible dates), where the note goes, the variables its template is
//! rendered with, and the daily-log line that records it.

use vstd::prelude::*;

use crate::date::{
    format_month_name, format_ymd_chars, month_name, valid_ymd, ymd_text, Date, MAX_YEAR,
};
use crate::error::DomainError;
use crate::frontmatter_edit::JsonValue;
use crate::portfolios::{bracketed, wikilink_target};
use crate::slug::{slugify, slugify_spec};
use crate::stewardships::StewardshipVariant;
use crate::templating::{title_case_spec, title_case as capitalised};
use crate::text::{
    chars_of, contains_exec, decimal, decimal_i64, decimal_int, decimal_u64, join, join_exec,
    push_all, split_char, split_char_exec, string_of, strip_suffix_exec, trim, trim_end,
    trim_end_of, trim_of,
};

verus! {

/// How many years back an entry may be dated.
pub const BACKFILL_YEARS: i32 = 50;

/// How many years ahead an entry may be dated.
pub const LOOKAHEAD_YEARS: i32 = 1;

/// The inputs for one tracking entry.
#[derive(Debug)]
pub struct TrackingEntryDraft {
    /// Slug of the expanded stewardship the entry files under.
    pub stewardship: String,
    /// The activity, which also selects the template variant.
    pub activity: String,
    /// Bare slug of a routine doc; the wikilink is built around it.
    pub routine: Option<String>,
    /// Body of the entry's notes section.
    pub content: String,
    /// Values for the template's prompted variables.
    pub prompted: Vec<(String, String)>,
    /// The day the tracked thing happened; `None` means the day of the write.
    pub date: Option<Date>,
    /// Structured metrics merged into the entry's frontmatter, as a JSON
    /// object's entries in key order.
    pub metrics: Option<Vec<(String, JsonValue)>>,
}

impl TrackingEntryDraft {
    /// A draft with only the two required parts set.
    pub fn new(stewardship: String, activity: String) -> (r: Self)
        ensures
            r.stewardship == stewardship,
            r.activity == activity,
            r.routine is None,
            r.content@ == Seq::<char>::empty(),
            r.prompted@.len() == 0,
            r.date is None,
            r.metrics is None,
    {
        TrackingEntryDraft {
            stewardship,
            activity,
            routine: None,
            content: String::new(),
            prompted: Vec::new(),
            date: None,
            metrics: None,
        }
    }

    /// Set the notes body.
    pub fn with_content(self, content: String) -> (r: Self)
        ensures
            r == (TrackingEntryDraft { content, ..self }),
    {
        TrackingEntryDraft { content, ..self }
    }

    /// Set the routine wikilink target (a bare slug).
    pub fn with_routine(self, routine: String) -> (r: Self)
        ensures
            r == (TrackingEntryDraft { routine: Some(routine), ..self }),
    {
        TrackingEntryDraft { routine: Some(routine), ..self }
    }

    /// Supply prompted-variable values for the resolved template.
    pub fn with_prompted(self, prompted: Vec<(String, String)>) -> (r: Self)
        ensures
            r == (TrackingEntryDraft { prompted, ..self }),
    {
        TrackingEntryDraft { prompted, ..self }
    }

    /// Date the entry at `date` rather than the day of the write.
    pub fn on(self, date: Date) -> (r: Self)
        ensures
            r == (TrackingEntryDraft { date: Some(date), ..self }),
    {
        TrackingEntryDraft { date: Some(date), ..self }
    }

    /// Merge `metrics` into the entry's frontmatter.
    pub fn with_metrics(self, metrics: Vec<(String, JsonValue)>) -> (r: Self)
        ensures
            r == (TrackingEntryDraft { metrics: Some(metrics), ..self }),
    {
        TrackingEntryDraft { metrics: Some(metrics), ..self }
    }
}

/// `NaiveDate::MAX`.
pub open spec fn last_date() -> Date {
    Date { year: MAX_YEAR, month: 12, day: 31 }
}

/// The day a window is measured from: today, or the 28th for a 29
/// February, which has no counterpart in most years.
pub open spec fn window_anchor(today: Date) -> Date {
    if today.month == 2 && today.day == 29 {
        Date { year: today.year, month: 2, day: 28 }
    } else {
        today
    }
}

/// The anchor moved by `years` (`with_year`), or `NaiveDate::MAX` when
/// that year is out of range.
pub open spec fn shifted(today: Date, years: int) -> Date {
    let a = window_anchor(today);
    if valid_ymd(a.year + years, a.month as int, a.day as int) {
        Date { year: (a.year + years) as i32, month: a.month, day: a.day }
    } else {
        last_date()
    }
}

fn shift(today: &Date, years: i32) -> (r: Date)
    requires
        today.wf(),
        -100 <= years <= 100,
    ensures
        r == shifted(*today, years as int),
{
    let anchor = if today.month == 2 && today.day == 29 {
        Date { year: today.year, month: 2, day: 28 }
    } else {
        *today
    };
    match Date::from_ymd(anchor.year + years, anchor.month, anchor.day) {
        Some(d) => d,
        None => Date { year: MAX_YEAR, month: 12, day: 31 },
    }
}

/// Refuse an entry dated more than fifty years back or a year ahead of
/// today (measured from the same day of the year).
pub fn check_plausible_date(date: &Date, today: &Date) -> (r: Result<(), DomainError>)
    requires
        date.wf(),
        today.wf(),
    ensures
        ({
            let earliest = shifted(*today, -50);
            let latest = shifted(*today, 1);
            if date.lt(earliest) || latest.lt(*date) {
                r matches Err(DomainError::ImplausibleDate { date: d, earliest: e, latest: l })
                    && d == *date && e == earliest && l == latest
            } else {
                r is Ok
            }
        }),
{
    let earliest = shift(today, 0 - BACKFILL_YEARS);
    let latest = shift(today, LOOKAHEAD_YEARS);
    if date.is_before(&earliest) || latest.is_before(date) {
        return Err(DomainError::ImplausibleDate { date: *date, earliest, latest });
    }
    Ok(())
}

/// A draft that passed its checks: the activity's slug, the trimmed
/// routine (absent when blank), and the day the entry describes.
pub struct CheckedTrackingEntry {
    pub activity_slug: String,
    pub routine: Option<String>,
    pub date: Date,
}

/// Check a draft written on `today`: the activity must not be blank, a
/// non-blank routine must be a bare slug, and an explicit date must fall
/// in the plausible window.
pub fn check_tracking_draft(today: &Date, draft: &TrackingEntryDraft) -> (r: Result<
    CheckedTrackingEntry,
    DomainError,
>)
    requires
        today.wf(),
        draft.date matches Some(d) ==> d.wf(),
    ensures
        ({
            let a = trim(draft.activity@);
            let routine = match draft.routine {
                Some(x) => if trim(x@).len() > 0 {
                    Some(trim(x@))
                } else {
                    None
                },
                None => None,
            };
            let date = match draft.date {
                Some(d) => d,
                None => *today,
            };
            if a.len() == 0 {
                r matches Err(DomainError::EmptyField { field: f }) && f@ == "activity"@
            } else if routine matches Some(x) && bracketed(x) {
                r matches Err(DomainError::MalformedWikilink { value: v }) && Some(v@) == routine
            } else if draft.date is Some && (date.lt(shifted(*today, -50)) || shifted(*today, 1).lt(
                date,
            )) {
                r matches Err(DomainError::ImplausibleDate { date: d, earliest: e, latest: l })
                    && d == date && e == shifted(*today, -50) && l == shifted(*today, 1)
            } else {
                r matches Ok(c) && c.activity_slug@ == slugify_spec(a) && c.date == date && match
                    c.routine {
                    Some(x) => routine == Some(x@),
                    None => routine is None,
                }
            }
        }),
{
    let a = trim_of(&chars_of(draft.activity.as_str()));
    if a.len() == 0 {
        return Err(DomainError::EmptyField { field: "activity" });
    }
    let activity_slug = slugify(string_of(&a).as_str());
    let routine = match &draft.routine {
        Some(x) => {
            let t = trim_of(&chars_of(x.as_str()));
            if t.len() > 0 {
                Some(t)
            } else {
                None
            }
        },
        None => None,
    };
    if let Some(t) = &routine {
        if contains_exec(t, &chars_of("[[")) || contains_exec(t, &chars_of("]]")) {
            return Err(DomainError::MalformedWikilink { value: string_of(t) });
        }
    }
    let date = match draft.date {
        Some(d) => d,
        None => *today,
    };
    if draft.date.is_some() {
        match check_plausible_date(&date, today) {
            Ok(()) => {},
            Err(e) => {
                return Err(e);
            },
        }
    }
    let routine = match routine {
        Some(t) => Some(string_of(&t)),
        None => None,
    };
    Ok(CheckedTrackingEntry { activity_slug, routine, date })
}

/// `stewardships/<stewardship>/tracking/<YYYY-MM-DD>-<activity>.md`.
pub open spec fn tracking_path(stewardship: Seq<char>, date: Date, activity_slug: Seq<char>) -> Seq<
    char,
> {
    "stewardships/"@ + stewardship + "/tracking/"@ + ymd_text(date) + "-"@ + activity_slug
        + ".md"@
}

/// Where a tracking entry goes; only an expanded stewardship has a
/// tracking folder.
pub fn tracking_entry_path(
    stewardship: &str,
    variant: StewardshipVariant,
    date: &Date,
    activity_slug: &str,
) -> (r: Result<String, DomainError>)
    requires
        date.wf(),
    ensures
        variant == StewardshipVariant::Flat ==> (r matches Err(
            DomainError::TrackingOnFlatStewardship(s),
        ) && s@ == stewardship@),
        variant == StewardshipVariant::Expanded ==> (r matches Ok(p) && p@ == tracking_path(
            stewardship@,
            *date,
            activity_slug@,
        )),
{
    if let StewardshipVariant::Flat = variant {
        return Err(DomainError::TrackingOnFlatStewardship(stewardship.to_owned()));
    }
    let mut v = chars_of("stewardships/");
    push_all(&mut v, &chars_of(stewardship));
    push_all(&mut v, &chars_of("/tracking/"));
    push_all(&mut v, &format_ymd_chars(date));
    push_all(&mut v, &chars_of("-"));
    push_all(&mut v, &chars_of(activity_slug));
    push_all(&mut v, &chars_of(".md"));
    Ok(string_of(&v))
}

/// The daily-log line of a filed entry; a backdated one names the day it
/// describes.
pub open spec fn tracking_log_entry(path: Seq<char>, activity: Seq<char>, date: Date, today: Date) -> Seq<
    char,
> {
    if date == today {
        "Tracked "@ + activity + ": [["@ + wikilink_target(path) + "]]"@
    } else {
        "Tracked "@ + activity + " for "@ + ymd_text(date) + ": [["@ + wikilink_target(path)
            + "]]"@
    }
}

pub fn format_tracking_log_entry(path: &str, activity: &str, date: &Date, today: &Date) -> (r:
    String)
    requires
        date.wf(),
    ensures
        r@ == tracking_log_entry(path@, activity@, *date, *today),
{
    let p = chars_of(path);
    let link = match strip_suffix_exec(&p, &chars_of(".md")) {
        Some(t) => t,
        None => p,
    };
    let mut v = chars_of("Tracked ");
    push_all(&mut v, &chars_of(activity));
    if date.year == today.year && date.month == today.month && date.day == today.day {
        push_all(&mut v, &chars_of(": [["));
    } else {
        push_all(&mut v, &chars_of(" for "));
        push_all(&mut v, &format_ymd_chars(date));
        push_all(&mut v, &chars_of(": [["));
    }
    push_all(&mut v, &link);
    push_all(&mut v, &chars_of("]]"));
    string_of(&v)
}

/// Each `-`-separated word with its first character upper-cased, joined by
/// spaces.
pub open spec fn title_words(s: Seq<char>) -> Seq<char> {
    join(split_char(s, '-').map_values(|w: Seq<char>| title_case_spec(w)), " "@)
}

/// Title case for the H1 of an activity: `morning-run` becomes
/// `Morning Run`.
pub fn title_case(s: &str) -> (r: String)
    ensures
        r@ == title_words(s@),
{
    let words = split_char_exec(&chars_of(s), '-');
    let ghost w = split_char(s@, '-');
    let mut out: Vec<Vec<char>> = Vec::new();
    let mut i: usize = 0;
    while i < words.len()
        invariant
            i <= words@.len(),
            words@.len() == w.len(),
            forall|k: int| 0 <= k < words@.len() ==> #[trigger] words@[k]@ == w[k],
            out@.len() == i,
            forall|k: int| 0 <= k < i ==> #[trigger] out@[k]@ == title_case_spec(w[k]),
        decreases words@.len() - i,
    {
        let t = capitalised(string_of(&words[i]).as_str());
        out.push(chars_of(t.as_str()));
        i = i + 1;
    }
    assert(out@.map_values(|v: Vec<char>| v@) =~= w.map_values(|x: Seq<char>| title_case_spec(x)));
    string_of(&join_exec(&out, &chars_of(" ")))
}

/// `<day> <Month> <year>`, e.g. `7 March 2026`.
pub open spec fn long_date(d: Date) -> Seq<char> {
    decimal(d.day as nat) + " "@ + month_name(d.month as int) + " "@ + decimal_int(d.year as int)
}

pub fn format_long_date(d: &Date) -> (r: String)
    requires
        d.wf(),
    ensures
        r@ == long_date(*d),
{
    let mut v = decimal_u64(d.day as u64);
    push_all(&mut v, &chars_of(" "));
    push_all(&mut v, &chars_of(format_month_name(d).as_str()));
    push_all(&mut v, &chars_of(" "));
    push_all(&mut v, &decimal_i64(d.year as i64));
    string_of(&v)
}

/// The `routine:` value of an entry: a quoted wikilink to the routine doc
/// of the stewardship, or `null`.
pub open spec fn routine_field(stewardship: Seq<char>, routine: Option<Seq<char>>) -> Seq<char> {
    match routine {
        Some(slug) => "\"[[stewardships/"@ + stewardship + "/routines/"@ + slug + "]]\""@,
        None => "null"@,
    }
}

/// The variables a tracking template is rendered with, as `(name, value)`
/// pairs.
pub open spec fn tracking_vars(
    stewardship: Seq<char>,
    activity_slug: Seq<char>,
    date: Date,
    routine: Option<Seq<char>>,
    content: Seq<char>,
) -> Seq<(Seq<char>, Seq<char>)> {
    seq![
        ("stewardship"@, stewardship),
        ("activity"@, activity_slug),
        ("activity_title"@, title_words(activity_slug)),
        ("date"@, ymd_text(date)),
        ("date_long"@, long_date(date)),
        ("content"@, trim_end(content)),
        ("routine"@, routine_field(stewardship, routine)),
    ]
}

pub open spec fn pair_seq_views(v: Seq<(String, String)>) -> Seq<(Seq<char>, Seq<char>)> {
    v.map_values(|p: (String, String)| (p.0@, p.1@))
}

/// The contextual variables of a tracking template.
pub fn tracking_variables(
    stewardship: &str,
    activity_slug: &str,
    date: &Date,
    routine: Option<&str>,
    content: &str,
) -> (r: Vec<(String, String)>)
    requires
        date.wf(),
    ensures
        pair_seq_views(r@) == tracking_vars(
            stewardship@,
            activity_slug@,
            *date,
            match routine {
                Some(x) => Some(x@),
                None => None,
            },
            content@,
        ),
{
    let routine_yaml = match routine {
        Some(slug) => {
            let mut v = chars_of("\"[[stewardships/");
            push_all(&mut v, &chars_of(stewardship));
            push_all(&mut v, &chars_of("/routines/"));
            push_all(&mut v, &chars_of(slug));
            push_all(&mut v, &chars_of("]]\""));
            string_of(&v)
        },
        None => "null".to_owned(),
    };
    let mut r: Vec<(String, String)> = Vec::new();
    r.push(("stewardship".to_owned(), stewardship.to_owned()));
    r.push(("activity".to_owned(), activity_slug.to_owned()));
    r.push(("activity_title".to_owned(), title_case(activity_slug)));
    r.push(("date".to_owned(), string_of(&format_ymd_chars(date))));
    r.push(("date_long".to_owned(), format_long_date(date)));
    r.push(("content".to_owned(), string_of(&trim_end_of(&chars_of(content)))));
    r.push(("routine".to_owned(), routine_yaml));
    assert(pair_seq_views(r@) =~= tracking_vars(
        stewardship@,
        activity_slug@,
        *date,
        match routine {
            Some(x) => Some(x@),
            None => None,
        },
        content@,
    ));
    r
}

/// A day is always inside its own window: an entry dated the day it is
/// written is never refused as implausible (for a day at least fifty years
/// after the start of the calendar's range, where the lower bound exists).
pub proof fn lemma_today_is_plausible(today: Date)
    requires
        today.wf(),
        today.year >= crate::date::MIN_YEAR + 50,
    ensures
        !today.lt(shifted(today, -50)),
        !shifted(today, 1).lt(today),
{
    let a = window_anchor(today);
    assert(valid_ymd(a.year - 50, a.month as int, a.day as int));
}

} // verus!

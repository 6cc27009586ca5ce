//! Read-side queries over notes already read from the store: the days of
//! a week, the date a daily note is for, completed actions in a window,
//! the log lines that mention a project, and a stewardship's tracking
//! entries.

use vstd::prelude::*;

use crate::context::{
    body_excerpt, entry_views, excerpt_from, log_entries, mentions, mentions_project,
    parse_log_lines, LogEntry,
};
use crate::date::{add_days, chrono_parse_ymd, parse_ymd, Date, Time};
use crate::frontmatter::{ActionFrontmatter, ActionStatus, ProjectStatus, TrackingFrontmatter};
use crate::portfolios::{path_lt, path_lt_exec};
use crate::stewardships::{file_name, file_name_of, file_stem, file_stem_of, first_h1};
use crate::text::{chars_of, eq_exec, lines, seq_lt, seq_lt_exec, string_of};

verus! {

/// The date a daily note is for: its file stem read as `YYYY-MM-DD`.
pub open spec fn daily_date(path: Seq<char>) -> Option<Date> {
    chrono_parse_ymd(file_stem(file_name(path)))
}

pub fn daily_note_date(path: &str) -> (r: Option<Date>)
    ensures
        r == daily_date(path@),
{
    parse_ymd(string_of(&file_stem_of(&file_name_of(&chars_of(path)))).as_str())
}

/// The file stem of a note path.
pub open spec fn path_stem(path: Seq<char>) -> Seq<char> {
    file_stem(file_name(path))
}

/// The days from `monday` on, one per day, `n` of them, as far as they
/// stay in range.
pub fn days_from(monday: &Date, n: u32) -> (r: Vec<Date>)
    requires
        monday.wf(),
        n <= 1_000_000_000,
    ensures
        r@.len() <= n,
        forall|k: int| 0 <= k < r@.len() ==> (#[trigger] r@[k]).wf() && r@[k].num() == monday.num()
            + k,
        r@.len() == n || !crate::date::in_range(monday.num() + r@.len()),
{
    let mut out: Vec<Date> = Vec::new();
    let mut k: u32 = 0;
    while k < n
        invariant
            k <= n,
            n <= 1_000_000_000,
            monday.wf(),
            out@.len() == k,
            forall|j: int| 0 <= j < out@.len() ==> (#[trigger] out@[j]).wf() && out@[j].num()
                == monday.num() + j,
        decreases n - k,
    {
        match add_days(monday, k as i64) {
            Some(d) => out.push(d),
            None => {
                return out;
            },
        }
        k = k + 1;
    }
    out
}

/// The seven days, Monday to Sunday, of the ISO week holding `week_of`
/// (fewer at the edge of the calendar's range).
pub fn week_days(week_of: &Date) -> (r: Vec<Date>)
    requires
        week_of.wf(),
    ensures
        r@.len() <= 7,
        forall|k: int| 0 <= k < r@.len() ==> (#[trigger] r@[k]).wf() && r@[k].weekday_spec()
            == k && r@[k].num() == week_of.num() - week_of.weekday_spec() + k,
        r@.len() == 7 || !crate::date::in_range(week_of.num() - week_of.weekday_spec() + r@.len()),
{
    match crate::context::monday_of_iso_week(week_of) {
        Some(m) => {
            let days = days_from(&m, 7);
            proof {
                let dn = week_of.num();
                let mn = m.num();
                assert(mn == dn - dn % 7);
                assert(mn % 7 == 0) by (nonlinear_arith)
                    requires
                        mn == dn - dn % 7,
                ;
                assert forall|k: int| 0 <= k < days@.len() implies (#[trigger] days@[k]).wf()
                    && days@[k].weekday_spec() == k && days@[k].num() == week_of.num()
                    - week_of.weekday_spec() + k by {
                    assert(days@[k].num() == mn + k);
                    assert((mn + k) % 7 == k) by (nonlinear_arith)
                        requires
                            mn % 7 == 0,
                            0 <= k < 7,
                    ;
                }
            }
            days
        },
        None => Vec::new(),
    }
}

/// An action note as read from the store.
pub struct ActionNote {
    pub path: String,
    pub frontmatter: ActionFrontmatter,
    pub body: String,
}

/// One completed action in a window.
#[derive(Debug, Clone, PartialEq, Eq)]
pub struct CompletedActionEntry {
    pub slug: String,
    pub project: String,
    /// The body's H1, else the slug.
    pub title: String,
    pub completed: Date,
    pub path: String,
}

pub struct CompletedView {
    pub slug: Seq<char>,
    pub project: Seq<char>,
    pub title: Seq<char>,
    pub completed: Date,
    pub path: Seq<char>,
}

pub open spec fn completed_view(e: CompletedActionEntry) -> CompletedView {
    CompletedView {
        slug: e.slug@,
        project: e.project@,
        title: e.title@,
        completed: e.completed,
        path: e.path@,
    }
}

pub open spec fn completed_views(v: Seq<CompletedActionEntry>) -> Seq<CompletedView> {
    v.map_values(|e: CompletedActionEntry| completed_view(e))
}

/// The entry of an action note completed inside `[from, to]`, if it is one.
pub open spec fn completed_entry(n: ActionNote, from: Date, to: Date) -> Option<CompletedView> {
    if n.frontmatter.status == ActionStatus::Completed && (n.frontmatter.completed matches Some(c)
        && !c.lt(from) && !to.lt(c)) {
        let slug = path_stem(n.path@);
        Some(
            CompletedView {
                slug,
                project: n.frontmatter.project@,
                title: match first_h1(lines(n.body@)) {
                    Some(t) => t,
                    None => slug,
                },
                completed: n.frontmatter.completed->0,
                path: n.path@,
            },
        )
    } else {
        None
    }
}

/// Oldest first, then by slug.
pub open spec fn completed_before(a: CompletedView, b: CompletedView) -> bool {
    a.completed.lt(b.completed) || (a.completed == b.completed && seq_lt(a.slug, b.slug))
}

pub open spec fn insert_completed(s: Seq<CompletedView>, e: CompletedView) -> Seq<CompletedView>
    decreases s.len(),
{
    if s.len() == 0 {
        seq![e]
    } else if completed_before(e, s.last()) {
        insert_completed(s.drop_last(), e).push(s.last())
    } else {
        s.push(e)
    }
}

/// The completed actions of `notes` in the window, stably sorted.
pub open spec fn completed_in_window(notes: Seq<ActionNote>, from: Date, to: Date) -> Seq<
    CompletedView,
>
    decreases notes.len(),
{
    if notes.len() == 0 {
        Seq::empty()
    } else {
        let rest = completed_in_window(notes.drop_last(), from, to);
        match completed_entry(notes.last(), from, to) {
            Some(e) => insert_completed(rest, e),
            None => rest,
        }
    }
}

fn same_day(a: &Date, b: &Date) -> (r: bool)
    ensures
        r == (*a == *b),
{
    a.year == b.year && a.month == b.month && a.day == b.day
}

fn insert_completed_exec(v: &mut Vec<CompletedActionEntry>, e: CompletedActionEntry)
    ensures
        completed_views(final(v)@) == insert_completed(
            completed_views(old(v)@),
            completed_view(e),
        ),
{
    let ghost s = completed_views(v@);
    let ghost ev = completed_view(e);
    let mut p = v.len();
    assert(s.take(p as int) =~= s);
    assert(s.skip(p as int) =~= Seq::<CompletedView>::empty());
    loop
        invariant
            p <= v@.len(),
            s == completed_views(v@),
            ev == completed_view(e),
            insert_completed(s, ev) == insert_completed(s.take(p as int), ev) + s.skip(p as int),
        ensures
            p <= v@.len(),
            insert_completed(s, ev) == insert_completed(s.take(p as int), ev) + s.skip(p as int),
            p == 0 || !completed_before(ev, s[p - 1]),
        decreases p,
    {
        if p == 0 {
            break;
        }
        let q = p - 1;
        assert(s[q as int] == completed_view(v@[q as int]));
        let before = e.completed.is_before(&v[q].completed) || (same_day(
            &e.completed,
            &v[q].completed,
        ) && seq_lt_exec(&chars_of(e.slug.as_str()), &chars_of(v[q].slug.as_str())));
        if !before {
            break;
        }
        let ghost t = s.take(p as int);
        assert(t.last() == s[q as int]);
        assert(t.drop_last() =~= s.take(q as int));
        assert(insert_completed(s.take(q as int), ev).push(s[q as int]) + s.skip(p as int)
            =~= insert_completed(s.take(q as int), ev) + s.skip(q as int));
        p = q;
    }
    proof {
        let t = s.take(p as int);
        if p > 0 {
            assert(t.last() == s[p - 1]);
        }
        assert(insert_completed(t, ev) =~= t.push(ev));
    }
    v.insert(p, e);
    assert(completed_views(v@) =~= s.take(p as int).push(ev) + s.skip(p as int));
}

/// Action notes completed inside `[from, to]`, oldest first, then by slug.
pub fn completed_actions_between(notes: &Vec<ActionNote>, from: &Date, to: &Date) -> (r: Vec<
    CompletedActionEntry,
>)
    ensures
        completed_views(r@) == completed_in_window(notes@, *from, *to),
{
    let mut out: Vec<CompletedActionEntry> = Vec::new();
    let mut i: usize = 0;
    while i < notes.len()
        invariant
            i <= notes@.len(),
            completed_views(out@) == completed_in_window(notes@.take(i as int), *from, *to),
        decreases notes@.len() - i,
    {
        let n = &notes[i];
        assert(notes@.take(i + 1).drop_last() =~= notes@.take(i as int));
        assert(notes@.take(i + 1).last() == *n);
        let completed = match n.frontmatter.status {
            ActionStatus::Completed => n.frontmatter.completed,
            _ => None,
        };
        if let Some(c) = completed {
            if !c.is_before(from) && !to.is_before(&c) {
                let slug = string_of(&file_stem_of(&file_name_of(&chars_of(n.path.as_str()))));
                let title = match crate::context::extract_h1_opt(n.body.as_str()) {
                    Some(t) => t,
                    None => string_of(&chars_of(slug.as_str())),
                };
                let e = CompletedActionEntry {
                    slug,
                    project: string_of(&chars_of(n.frontmatter.project.as_str())),
                    title,
                    completed: c,
                    path: string_of(&chars_of(n.path.as_str())),
                };
                assert(completed_entry(*n, *from, *to) == Some(completed_view(e)));
                insert_completed_exec(&mut out, e);
            }
        }
        i = i + 1;
    }
    assert(notes@.take(notes@.len() as int) =~= notes@);
    out
}

/// The `## Logs` section of a daily note, with the date it is for.
pub struct DailyLogs {
    pub date: Date,
    pub section: String,
}

/// A log line of a daily note, with its day and time.
#[derive(Debug, Clone, PartialEq, Eq)]
pub struct DailyLogLine {
    pub date: Date,
    pub time: Time,
    pub text: String,
}

pub open spec fn log_line_views(v: Seq<DailyLogLine>) -> Seq<(Date, Time, Seq<char>)> {
    v.map_values(|l: DailyLogLine| (l.date, l.time, l.text@))
}

pub open spec fn time_lt(a: Time, b: Time) -> bool {
    a.hour < b.hour || (a.hour == b.hour && a.minute < b.minute)
}

/// Oldest first: by day, then time.
pub open spec fn line_before(a: (Date, Time, Seq<char>), b: (Date, Time, Seq<char>)) -> bool {
    a.0.lt(b.0) || (a.0 == b.0 && time_lt(a.1, b.1))
}

pub open spec fn insert_line(s: Seq<(Date, Time, Seq<char>)>, e: (Date, Time, Seq<char>)) -> Seq<
    (Date, Time, Seq<char>),
>
    decreases s.len(),
{
    if s.len() == 0 {
        seq![e]
    } else if line_before(e, s.last()) {
        insert_line(s.drop_last(), e).push(s.last())
    } else {
        s.push(e)
    }
}

/// Insert each entry of `es`, in order, that mentions `slug`.
pub open spec fn insert_mentions(
    s: Seq<(Date, Time, Seq<char>)>,
    date: Date,
    es: Seq<(Time, Seq<char>)>,
    slug: Seq<char>,
) -> Seq<(Date, Time, Seq<char>)>
    decreases es.len(),
{
    if es.len() == 0 {
        s
    } else {
        let rest = insert_mentions(s, date, es.drop_last(), slug);
        let e = es.last();
        if mentions(e.1, slug) {
            insert_line(rest, (date, e.0, e.1))
        } else {
            rest
        }
    }
}

/// The log lines of the days from `since` on that mention the project,
/// stably sorted by day and time.
pub open spec fn mentions_since(days: Seq<DailyLogs>, slug: Seq<char>, since: Date) -> Seq<
    (Date, Time, Seq<char>),
>
    decreases days.len(),
{
    if days.len() == 0 {
        Seq::empty()
    } else {
        let rest = mentions_since(days.drop_last(), slug, since);
        let d = days.last();
        if d.date.lt(since) {
            rest
        } else {
            insert_mentions(rest, d.date, log_entries(lines(d.section@)), slug)
        }
    }
}

fn insert_line_exec(v: &mut Vec<DailyLogLine>, e: DailyLogLine)
    ensures
        log_line_views(final(v)@) == insert_line(log_line_views(old(v)@), (e.date, e.time, e.text@)),
{
    let ghost s = log_line_views(v@);
    let ghost ev = (e.date, e.time, e.text@);
    let mut p = v.len();
    assert(s.take(p as int) =~= s);
    assert(s.skip(p as int) =~= Seq::<(Date, Time, Seq<char>)>::empty());
    loop
        invariant
            p <= v@.len(),
            s == log_line_views(v@),
            ev == (e.date, e.time, e.text@),
            insert_line(s, ev) == insert_line(s.take(p as int), ev) + s.skip(p as int),
        ensures
            p <= v@.len(),
            insert_line(s, ev) == insert_line(s.take(p as int), ev) + s.skip(p as int),
            p == 0 || !line_before(ev, s[p - 1]),
        decreases p,
    {
        if p == 0 {
            break;
        }
        let q = p - 1;
        assert(s[q as int] == (v@[q as int].date, v@[q as int].time, v@[q as int].text@));
        let o = &v[q];
        let before = e.date.is_before(&o.date) || (same_day(&e.date, &o.date) && (e.time.hour
            < o.time.hour || (e.time.hour == o.time.hour && e.time.minute < o.time.minute)));
        if !before {
            break;
        }
        let ghost t = s.take(p as int);
        assert(t.last() == s[q as int]);
        assert(t.drop_last() =~= s.take(q as int));
        assert(insert_line(s.take(q as int), ev).push(s[q as int]) + s.skip(p as int)
            =~= insert_line(s.take(q as int), ev) + s.skip(q as int));
        p = q;
    }
    proof {
        let t = s.take(p as int);
        if p > 0 {
            assert(t.last() == s[p - 1]);
        }
        assert(insert_line(t, ev) =~= t.push(ev));
    }
    v.insert(p, e);
    assert(log_line_views(v@) =~= s.take(p as int).push(ev) + s.skip(p as int));
}

/// The log lines that wikilink the project `slug`, across the daily notes
/// from `since` on, oldest first.
pub fn daily_log_mentions(days: &Vec<DailyLogs>, slug: &str, since: &Date) -> (r: Vec<
    DailyLogLine,
>)
    ensures
        log_line_views(r@) == mentions_since(days@, slug@, *since),
{
    let mut out: Vec<DailyLogLine> = Vec::new();
    let mut i: usize = 0;
    while i < days.len()
        invariant
            i <= days@.len(),
            log_line_views(out@) == mentions_since(days@.take(i as int), slug@, *since),
        decreases days@.len() - i,
    {
        let d = &days[i];
        assert(days@.take(i + 1).drop_last() =~= days@.take(i as int));
        assert(days@.take(i + 1).last() == *d);
        if !d.date.is_before(since) {
            let entries = parse_log_lines(d.section.as_str());
            let ghost ev = entry_views(entries@);
            let ghost base = log_line_views(out@);
            let mut k: usize = 0;
            while k < entries.len()
                invariant
                    k <= entries@.len(),
                    ev == entry_views(entries@),
                    log_line_views(out@) == insert_mentions(base, d.date, ev.take(k as int), slug@),
                decreases entries@.len() - k,
            {
                assert(ev.take(k + 1).drop_last() =~= ev.take(k as int));
                assert(ev.take(k + 1).last() == (entries@[k as int].time, entries@[k as int].text@));
                if mentions_project(entries[k].text.as_str(), slug) {
                    let line = DailyLogLine {
                        date: d.date,
                        time: entries[k].time,
                        text: string_of(&chars_of(entries[k].text.as_str())),
                    };
                    insert_line_exec(&mut out, line);
                }
                k = k + 1;
            }
            assert(ev.take(ev.len() as int) =~= ev);
        }
        i = i + 1;
    }
    assert(days@.take(days@.len() as int) =~= days@);
    out
}

/// A tracking note as read from the store.
pub struct TrackingNote {
    pub path: String,
    pub frontmatter: TrackingFrontmatter,
    pub body: String,
}

/// One tracking entry of a listing.
#[derive(Debug, Clone, PartialEq, Eq)]
pub struct TrackingEntry {
    pub path: String,
    pub stewardship: String,
    pub activity: String,
    pub date: Date,
    pub duration_min: Option<u32>,
    pub routine: Option<String>,
    pub body_excerpt: String,
}

pub struct TrackingView {
    pub path: Seq<char>,
    pub stewardship: Seq<char>,
    pub activity: Seq<char>,
    pub date: Date,
    pub duration_min: Option<u32>,
    pub routine: Option<Seq<char>>,
    pub body_excerpt: Seq<char>,
}

pub open spec fn opt_seq(o: Option<String>) -> Option<Seq<char>> {
    match o {
        Some(s) => Some(s@),
        None => None,
    }
}

pub open spec fn tracking_view(e: TrackingEntry) -> TrackingView {
    TrackingView {
        path: e.path@,
        stewardship: e.stewardship@,
        activity: e.activity@,
        date: e.date,
        duration_min: e.duration_min,
        routine: opt_seq(e.routine),
        body_excerpt: e.body_excerpt@,
    }
}

pub open spec fn tracking_views(v: Seq<TrackingEntry>) -> Seq<TrackingView> {
    v.map_values(|e: TrackingEntry| tracking_view(e))
}

/// The entry of a tracking note, if it belongs to `stewardship`, matches
/// `activity` (when one is given) and falls inside `[from, to]`.
pub open spec fn tracking_entry_of(
    n: TrackingNote,
    stewardship: Seq<char>,
    activity: Option<Seq<char>>,
    from: Date,
    to: Date,
) -> Option<TrackingView> {
    let f = n.frontmatter;
    if f.stewardship@ == stewardship && (activity matches Some(a) ==> f.activity@ == a)
        && !f.date.lt(from) && !to.lt(f.date) {
        Some(
            TrackingView {
                path: n.path@,
                stewardship: f.stewardship@,
                activity: f.activity@,
                date: f.date,
                duration_min: f.duration_min,
                routine: opt_seq(f.routine),
                body_excerpt: excerpt_from(lines(n.body@), false),
            },
        )
    } else {
        None
    }
}

/// Most recent first, then by activity, then by path.
pub open spec fn tracking_before(a: TrackingView, b: TrackingView) -> bool {
    b.date.lt(a.date) || (a.date == b.date && (seq_lt(a.activity, b.activity) || (a.activity
        == b.activity && path_lt(a.path, b.path))))
}

pub open spec fn insert_tracking(s: Seq<TrackingView>, e: TrackingView) -> Seq<TrackingView>
    decreases s.len(),
{
    if s.len() == 0 {
        seq![e]
    } else if tracking_before(e, s.last()) {
        insert_tracking(s.drop_last(), e).push(s.last())
    } else {
        s.push(e)
    }
}

pub open spec fn tracking_listing(
    notes: Seq<TrackingNote>,
    stewardship: Seq<char>,
    activity: Option<Seq<char>>,
    from: Date,
    to: Date,
) -> Seq<TrackingView>
    decreases notes.len(),
{
    if notes.len() == 0 {
        Seq::empty()
    } else {
        let rest = tracking_listing(notes.drop_last(), stewardship, activity, from, to);
        match tracking_entry_of(notes.last(), stewardship, activity, from, to) {
            Some(e) => insert_tracking(rest, e),
            None => rest,
        }
    }
}

fn insert_tracking_exec(v: &mut Vec<TrackingEntry>, e: TrackingEntry)
    ensures
        tracking_views(final(v)@) == insert_tracking(tracking_views(old(v)@), tracking_view(e)),
{
    let ghost s = tracking_views(v@);
    let ghost ev = tracking_view(e);
    let mut p = v.len();
    assert(s.take(p as int) =~= s);
    assert(s.skip(p as int) =~= Seq::<TrackingView>::empty());
    loop
        invariant
            p <= v@.len(),
            s == tracking_views(v@),
            ev == tracking_view(e),
            insert_tracking(s, ev) == insert_tracking(s.take(p as int), ev) + s.skip(p as int),
        ensures
            p <= v@.len(),
            insert_tracking(s, ev) == insert_tracking(s.take(p as int), ev) + s.skip(p as int),
            p == 0 || !tracking_before(ev, s[p - 1]),
        decreases p,
    {
        if p == 0 {
            break;
        }
        let q = p - 1;
        assert(s[q as int] == tracking_view(v@[q as int]));
        let o = &v[q];
        let ea = chars_of(e.activity.as_str());
        let oa = chars_of(o.activity.as_str());
        let before = o.date.is_before(&e.date) || (same_day(&e.date, &o.date) && (seq_lt_exec(
            &ea,
            &oa,
        ) || (eq_exec(&ea, &oa) && path_lt_exec(
            &chars_of(e.path.as_str()),
            &chars_of(o.path.as_str()),
        ))));
        if !before {
            break;
        }
        let ghost t = s.take(p as int);
        assert(t.last() == s[q as int]);
        assert(t.drop_last() =~= s.take(q as int));
        assert(insert_tracking(s.take(q as int), ev).push(s[q as int]) + s.skip(p as int)
            =~= insert_tracking(s.take(q as int), ev) + s.skip(q as int));
        p = q;
    }
    proof {
        let t = s.take(p as int);
        if p > 0 {
            assert(t.last() == s[p - 1]);
        }
        assert(insert_tracking(t, ev) =~= t.push(ev));
    }
    v.insert(p, e);
    assert(tracking_views(v@) =~= s.take(p as int).push(ev) + s.skip(p as int));
}

fn copy_opt(o: &Option<String>) -> (r: Option<String>)
    ensures
        opt_seq(r) == opt_seq(*o),
{
    match o {
        Some(s) => Some(string_of(&chars_of(s.as_str()))),
        None => None,
    }
}

/// The tracking notes of `stewardship` (of `activity`, when given) dated
/// inside `[from, to]`: most recent first, then by activity and path.
pub fn list_tracking(
    notes: &Vec<TrackingNote>,
    stewardship: &str,
    activity: Option<&str>,
    from: &Date,
    to: &Date,
) -> (r: Vec<TrackingEntry>)
    ensures
        tracking_views(r@) == tracking_listing(
            notes@,
            stewardship@,
            match activity {
                Some(a) => Some(a@),
                None => None,
            },
            *from,
            *to,
        ),
{
    let ghost act = match activity {
        Some(a) => Some(a@),
        None => None::<Seq<char>>,
    };
    let st = chars_of(stewardship);
    let mut out: Vec<TrackingEntry> = Vec::new();
    let mut i: usize = 0;
    while i < notes.len()
        invariant
            i <= notes@.len(),
            st@ == stewardship@,
            act == match activity {
                Some(a) => Some(a@),
                None => None::<Seq<char>>,
            },
            tracking_views(out@) == tracking_listing(
                notes@.take(i as int),
                stewardship@,
                act,
                *from,
                *to,
            ),
        decreases notes@.len() - i,
    {
        let n = &notes[i];
        assert(notes@.take(i + 1).drop_last() =~= notes@.take(i as int));
        assert(notes@.take(i + 1).last() == *n);
        let f = &n.frontmatter;
        let activity_ok = match activity {
            Some(a) => eq_exec(&chars_of(f.activity.as_str()), &chars_of(a)),
            None => true,
        };
        if eq_exec(&chars_of(f.stewardship.as_str()), &st) && activity_ok && !f.date.is_before(from)
            && !to.is_before(&f.date) {
            let e = TrackingEntry {
                path: string_of(&chars_of(n.path.as_str())),
                stewardship: string_of(&chars_of(f.stewardship.as_str())),
                activity: string_of(&chars_of(f.activity.as_str())),
                date: f.date,
                duration_min: f.duration_min,
                routine: copy_opt(&f.routine),
                body_excerpt: body_excerpt(n.body.as_str()),
            };
            assert(tracking_entry_of(*n, stewardship@, act, *from, *to) == Some(tracking_view(e)));
            insert_tracking_exec(&mut out, e);
        } else {
            assert(tracking_entry_of(*n, stewardship@, act, *from, *to) is None);
        }
        i = i + 1;
    }
    assert(notes@.take(notes@.len() as int) =~= notes@);
    out
}


/// A project map as the staleness scan sees it: its path, its status, when
/// it was last modified (nanoseconds since the Unix epoch) and the whole
/// days since then, counted in the local calendar.
pub struct ProjectMapEntry {
    pub path: String,
    pub status: ProjectStatus,
    pub mtime_ns: u64,
    pub days_since: i64,
}

/// An active project whose map was last modified at or before the cutoff
/// instant.
pub open spec fn is_stuck(e: ProjectMapEntry, cutoff_ns: u64) -> bool {
    e.status == ProjectStatus::Active && e.mtime_ns <= cutoff_ns
}

/// `e` placed after every row whose slug does not sort after its own.
pub open spec fn insert_stuck(s: Seq<(Seq<char>, i64)>, e: (Seq<char>, i64)) -> Seq<
    (Seq<char>, i64),
>
    decreases s.len(),
{
    if s.len() == 0 {
        seq![e]
    } else if seq_lt(e.0, s.last().0) {
        insert_stuck(s.drop_last(), e).push(s.last())
    } else {
        s.push(e)
    }
}

/// The stuck projects among `entries` as (slug, days) rows, stably sorted
/// by slug.
pub open spec fn stuck_rows(entries: Seq<ProjectMapEntry>, cutoff_ns: u64) -> Seq<
    (Seq<char>, i64),
>
    decreases entries.len(),
{
    if entries.len() == 0 {
        Seq::empty()
    } else {
        let prev = stuck_rows(entries.drop_last(), cutoff_ns);
        let e = entries.last();
        if is_stuck(e, cutoff_ns) {
            insert_stuck(prev, (path_stem(e.path@), e.days_since))
        } else {
            prev
        }
    }
}

pub open spec fn row_views(v: Seq<(String, i64)>) -> Seq<(Seq<char>, i64)> {
    v.map_values(|r: (String, i64)| (r.0@, r.1))
}

fn insert_stuck_row(v: &mut Vec<(String, i64)>, e: (String, i64))
    ensures
        row_views(final(v)@) == insert_stuck(row_views(old(v)@), (e.0@, e.1)),
{
    let ghost s = row_views(v@);
    let ghost ev = (e.0@, e.1);
    let ek = chars_of(e.0.as_str());
    let mut p = v.len();
    assert(s.take(p as int) =~= s);
    assert(s.skip(p as int) =~= Seq::<(Seq<char>, i64)>::empty());
    loop
        invariant
            p <= v@.len(),
            s == row_views(v@),
            ev == (e.0@, e.1),
            ek@ == e.0@,
            insert_stuck(s, ev) == insert_stuck(s.take(p as int), ev) + s.skip(p as int),
        ensures
            p <= v@.len(),
            insert_stuck(s, ev) == insert_stuck(s.take(p as int), ev) + s.skip(p as int),
            p == 0 || !seq_lt(ev.0, s[p - 1].0),
        decreases p,
    {
        if p == 0 {
            break;
        }
        let q = p - 1;
        assert(s[q as int] == (v@[q as int].0@, v@[q as int].1));
        if !seq_lt_exec(&ek, &chars_of(v[q].0.as_str())) {
            break;
        }
        let ghost t = s.take(p as int);
        assert(t.last() == s[q as int]);
        assert(t.drop_last() =~= s.take(q as int));
        assert(insert_stuck(s.take(q as int), ev).push(s[q as int]) + s.skip(p as int)
            =~= insert_stuck(s.take(q as int), ev) + s.skip(q as int));
        p = q;
    }
    proof {
        let t = s.take(p as int);
        if p > 0 {
            assert(t.last() == s[p - 1]);
        }
        assert(insert_stuck(t, ev) =~= t.push(ev));
    }
    v.insert(p, e);
    assert(row_views(v@) =~= s.take(p as int).push(ev) + s.skip(p as int));
}

/// The active projects whose map has sat untouched since the cutoff
/// instant (the last instant of the cutoff day in the local zone), each
/// with the days since its last change, sorted by slug.
pub fn stuck_project_days(entries: &Vec<ProjectMapEntry>, cutoff_ns: u64) -> (r: Vec<(String, i64)>)
    ensures
        row_views(r@) == stuck_rows(entries@, cutoff_ns),
{
    let mut out: Vec<(String, i64)> = Vec::new();
    let mut i: usize = 0;
    while i < entries.len()
        invariant
            i <= entries@.len(),
            row_views(out@) == stuck_rows(entries@.take(i as int), cutoff_ns),
        decreases entries@.len() - i,
    {
        let e = &entries[i];
        assert(entries@.take(i + 1).drop_last() =~= entries@.take(i as int));
        assert(entries@.take(i + 1).last() == *e);
        let active = match e.status {
            ProjectStatus::Active => true,
            _ => false,
        };
        if active && e.mtime_ns <= cutoff_ns {
            let slug = string_of(&file_stem_of(&file_name_of(&chars_of(e.path.as_str()))));
            insert_stuck_row(&mut out, (slug, e.days_since));
        }
        i = i + 1;
    }
    assert(entries@.take(entries@.len() as int) =~= entries@);
    out
}

/// Rows in slug order: no row's slug sorts before an earlier one's.
pub open spec fn rows_in_order(s: Seq<(Seq<char>, i64)>) -> bool {
    forall|i: int, j: int| 0 <= i < j < s.len() ==> !seq_lt(#[trigger] s[j].0, #[trigger] s[i].0)
}

proof fn lemma_insert_stuck_sorted(s: Seq<(Seq<char>, i64)>, e: (Seq<char>, i64))
    requires
        rows_in_order(s),
    ensures
        rows_in_order(insert_stuck(s, e)),
        insert_stuck(s, e).to_multiset() == s.to_multiset().insert(e),
    decreases s.len(),
{
    broadcast use vstd::seq_lib::group_to_multiset_ensures;

    if s.len() == 0 {
        assert(seq![e] =~= Seq::<(Seq<char>, i64)>::empty().push(e));
    } else if seq_lt(e.0, s.last().0) {
        let t = s.drop_last();
        lemma_insert_stuck_sorted(t, e);
        let u = insert_stuck(t, e);
        let r = u.push(s.last());
        assert forall|i: int, j: int| 0 <= i < j < r.len() implies !seq_lt(
            #[trigger] r[j].0,
            #[trigger] r[i].0,
        ) by {
            if j == r.len() - 1 {
                if u[i] == e {
                    crate::text::lemma_seq_lt_asym(e.0, s.last().0);
                } else {
                    assert(u.to_multiset().count(u[i]) > 0);
                    assert(t.to_multiset().count(u[i]) > 0);
                    assert(t.contains(u[i]));
                    let k = choose|k: int| 0 <= k < t.len() && t[k] == u[i];
                    assert(s[k] == t[k]);
                }
            } else {
                assert(u[j] == r[j] && u[i] == r[i]);
            }
        }
        assert(s =~= t.push(s.last()));
    } else {
        let r = s.push(e);
        assert forall|i: int, j: int| 0 <= i < j < r.len() implies !seq_lt(
            #[trigger] r[j].0,
            #[trigger] r[i].0,
        ) by {
            if j == s.len() {
                crate::text::lemma_seq_lt_split(e.0, s.last().0, s[i].0);
                if i < s.len() - 1 {
                    assert(!seq_lt(s[s.len() - 1].0, s[i].0));
                }
            } else {
                assert(s[j] == r[j] && s[i] == r[i]);
            }
        }
    }
}

/// The staleness listing holds one row per stuck project (active, and
/// untouched since the cutoff) and no other, sorted by slug.
pub proof fn lemma_stuck_listing_sorted(entries: Seq<ProjectMapEntry>, cutoff_ns: u64)
    ensures
        rows_in_order(stuck_rows(entries, cutoff_ns)),
        stuck_rows(entries, cutoff_ns).to_multiset() == entries.filter(
            |e: ProjectMapEntry| is_stuck(e, cutoff_ns),
        ).map_values(|e: ProjectMapEntry| (path_stem(e.path@), e.days_since)).to_multiset(),
    decreases entries.len(),
{
    broadcast use vstd::seq_lib::group_to_multiset_ensures;

    reveal(Seq::filter);
    if entries.len() > 0 {
        let rest = entries.drop_last();
        lemma_stuck_listing_sorted(rest, cutoff_ns);
        let e = entries.last();
        let f = |x: ProjectMapEntry| (path_stem(x.path@), x.days_since);
        let pr = |x: ProjectMapEntry| is_stuck(x, cutoff_ns);
        if is_stuck(e, cutoff_ns) {
            lemma_insert_stuck_sorted(stuck_rows(rest, cutoff_ns), f(e));
            assert(entries.filter(pr) == rest.filter(pr).push(e));
            assert(entries.filter(pr).map_values(f) =~= rest.filter(pr).map_values(f).push(f(e)));
        } else {
            assert(entries.filter(pr) == rest.filter(pr));
        }
    }
}

} // verus!

//! Reading the daily logs back: log lines with their times, the state
//! changes `update_project_state` recorded, the action currently in
//! focus, project mentions, and short excerpts of note bodies.

use vstd::prelude::*;

use crate::date::{add_days, parse_hm, parsed_hm, weekday, Date, Time};
use crate::projects::actions::{LOG_ACTION_DONE_PREFIX, LOG_STARTED_PREFIX};
use crate::stewardships::first_h1;
use crate::text::{
    chars_of, contains, contains_exec, eq_exec, find, find_exec, lemma_find_from, lines,
    lines_exec, occurs_at, push_all, slice_of, string_of, strip_prefix, strip_prefix_exec,
    strip_suffix, strip_suffix_exec, trim, trim_end, trim_end_of, trim_of, trim_start,
    trim_start_of, views,
};

verus! {

/// `str::split_once`: the text before and after the first occurrence of
/// `pat`.
pub open spec fn split_once(s: Seq<char>, pat: Seq<char>) -> Option<(Seq<char>, Seq<char>)> {
    match find(s, pat) {
        Some(i) => Some((s.take(i), s.skip(i + pat.len()))),
        None => None,
    }
}

pub fn split_once_exec(s: &Vec<char>, pat: &Vec<char>) -> (r: Option<(Vec<char>, Vec<char>)>)
    ensures
        match split_once(s@, pat@) {
            Some((a, b)) => r matches Some((x, y)) && x@ == a && y@ == b,
            None => r is None,
        },
{
    match find_exec(s, pat) {
        Some(i) => {
            proof {
                lemma_find_from(s@, pat@, 0);
                assert(occurs_at(s@, pat@, i as int));
            }
            let n = s.len();
            assert(i + pat@.len() <= n);
            let a = slice_of(s, 0, i);
            let b = slice_of(s, i + pat.len(), s.len());
            assert(a@ == s@.take(i as int));
            assert(b@ == s@.skip(i + pat@.len()));
            Some((a, b))
        },
        None => None,
    }
}

/// A log entry's opening line `- **HH:MM**: text`: its time and text.
pub open spec fn log_entry_line(t: Seq<char>) -> Option<(Time, Seq<char>)> {
    match strip_prefix(t, "- **"@) {
        Some(rest) => match split_once(rest, "**: "@) {
            Some((hhmm, after)) => match parsed_hm(hhmm) {
                Some(tm) => Some((tm, after)),
                None => None,
            },
            None => None,
        },
        None => None,
    }
}

/// The log entries of a list of lines: each `- **HH:MM**: text` line opens
/// one, and an indented line continues the last one, joined by `; `.
pub open spec fn log_entries(ls: Seq<Seq<char>>) -> Seq<(Time, Seq<char>)>
    decreases ls.len(),
{
    if ls.len() == 0 {
        Seq::empty()
    } else {
        let prev = log_entries(ls.drop_last());
        let t = trim_end(ls.last());
        if strip_prefix(t, "- **"@) is Some {
            match log_entry_line(t) {
                Some(e) => prev.push(e),
                None => prev,
            }
        } else if t.len() > 0 && t[0] == ' ' && prev.len() > 0 {
            let last = prev.last();
            prev.drop_last().push((last.0, last.1 + "; "@ + trim_start(t)))
        } else {
            prev
        }
    }
}

/// A parsed log entry.
pub struct LogEntry {
    pub time: Time,
    pub text: String,
}

pub open spec fn entry_views(v: Seq<LogEntry>) -> Seq<(Time, Seq<char>)> {
    v.map_values(|e: LogEntry| (e.time, e.text@))
}

/// Parse a `## Logs` section into its entries, continuation lines folded
/// into the entry they continue; other lines are skipped.
pub fn parse_log_lines(section: &str) -> (r: Vec<LogEntry>)
    ensures
        entry_views(r@) == log_entries(lines(section@)),
{
    let ls = lines_exec(&chars_of(section));
    let ghost lv = views(ls@);
    assert(lv =~= lines(section@));
    let mut out: Vec<LogEntry> = Vec::new();
    let mut i: usize = 0;
    while i < ls.len()
        invariant
            i <= ls@.len(),
            lv == views(ls@),
            entry_views(out@) == log_entries(lv.take(i as int)),
        decreases ls@.len() - i,
    {
        assert(lv.take(i + 1).drop_last() =~= lv.take(i as int));
        assert(lv.take(i + 1).last() == ls@[i as int]@);
        let ghost prev = entry_views(out@);
        let t = trim_end_of(&ls[i]);
        match strip_prefix_exec(&t, &chars_of("- **")) {
            Some(rest) => {
                if let Some((hhmm, after)) = split_once_exec(&rest, &chars_of("**: ")) {
                    if let Some(tm) = parse_hm(string_of(&hhmm).as_str()) {
                        let e = LogEntry { time: tm, text: string_of(&after) };
                        out.push(e);
                        assert(entry_views(out@) =~= prev.push((tm, after@)));
                    }
                }
            },
            None => {
                if t.len() > 0 && t[0] == ' ' && out.len() > 0 {
                    let last = out.pop().unwrap();
                    let mut text = chars_of(last.text.as_str());
                    push_all(&mut text, &chars_of("; "));
                    push_all(&mut text, &trim_start_of(&t));
                    let ghost newt = text@;
                    out.push(LogEntry { time: last.time, text: string_of(&text) });
                    assert(entry_views(out@) =~= prev.drop_last().push((prev.last().0, newt)));
                }
            },
        }
        i = i + 1;
    }
    assert(lv.take(lv.len() as int) =~= lv);
    out
}

/// The slug of a `- **HH:MM**: state on [[<slug>]]` line.
pub open spec fn state_header(line: Seq<char>) -> Option<Seq<char>> {
    match strip_prefix(line, "- **"@) {
        Some(rest) => match split_once(rest, "**: "@) {
            Some((_t, body)) => match strip_prefix(body, "state on [["@) {
                Some(s) => strip_suffix(s, "]]"@),
                None => None,
            },
            None => None,
        },
        None => None,
    }
}

/// The value of an indented `<key> value` line at index `j`, if there is
/// one.
pub open spec fn keyed_line(ls: Seq<Seq<char>>, j: int, key: Seq<char>) -> Option<Seq<char>> {
    if 0 <= j < ls.len() {
        match strip_prefix(trim_start(ls[j]), key) {
            Some(v) => Some(trim(v)),
            None => None,
        }
    } else {
        None
    }
}

/// The state changes recorded from line `i` on: a `state on [[slug]]`
/// entry followed by `was:` and `now:` lines.
pub open spec fn state_changes_from(ls: Seq<Seq<char>>, i: int) -> Seq<
    (Seq<char>, Seq<char>, Seq<char>),
>
    decreases ls.len() - i,
{
    if i < 0 || i >= ls.len() {
        Seq::empty()
    } else {
        match state_header(trim_end(ls[i])) {
            Some(slug) => match (keyed_line(ls, i + 1, "was:"@), keyed_line(ls, i + 2, "now:"@)) {
                (Some(w), Some(n)) => seq![(slug, w, n)] + state_changes_from(ls, i + 3),
                _ => state_changes_from(ls, i + 1),
            },
            None => state_changes_from(ls, i + 1),
        }
    }
}

/// One recorded state change: project slug, old and new state.
pub struct StateChange {
    pub project: String,
    pub old_state: String,
    pub new_state: String,
}

pub open spec fn change_views(v: Seq<StateChange>) -> Seq<(Seq<char>, Seq<char>, Seq<char>)> {
    v.map_values(|c: StateChange| (c.project@, c.old_state@, c.new_state@))
}

fn keyed_line_exec(ls: &Vec<Vec<char>>, j: usize, key: &str) -> (r: Option<Vec<char>>)
    ensures
        match keyed_line(views(ls@), j as int, key@) {
            Some(v) => r matches Some(x) && x@ == v,
            None => r is None,
        },
{
    if j < ls.len() {
        assert(views(ls@)[j as int] == ls@[j as int]@);
        match strip_prefix_exec(&trim_start_of(&ls[j]), &chars_of(key)) {
            Some(v) => Some(trim_of(&v)),
            None => None,
        }
    } else {
        None
    }
}

/// Recognise the state changes `update_project_state` logged in a
/// `## Logs` section.
pub fn parse_state_changes(section: &str) -> (r: Vec<StateChange>)
    ensures
        change_views(r@) == state_changes_from(lines(section@), 0),
{
    let ls = lines_exec(&chars_of(section));
    let ghost lv = views(ls@);
    assert(lv =~= lines(section@));
    let mut out: Vec<StateChange> = Vec::new();
    let mut i: usize = 0;
    while i < ls.len()
        invariant
            lv == views(ls@),
            change_views(out@) + state_changes_from(lv, i as int) == state_changes_from(lv, 0),
        decreases ls@.len() - i,
    {
        assert(lv[i as int] == ls@[i as int]@);
        let line = trim_end_of(&ls[i]);
        let mut header: Option<Vec<char>> = None;
        if let Some(rest) = strip_prefix_exec(&line, &chars_of("- **")) {
            if let Some((_t, body)) = split_once_exec(&rest, &chars_of("**: ")) {
                if let Some(s) = strip_prefix_exec(&body, &chars_of("state on [[")) {
                    header = strip_suffix_exec(&s, &chars_of("]]"));
                }
            }
        }
        assert(match state_header(trim_end(lv[i as int])) {
            Some(sl) => header matches Some(h) && h@ == sl,
            None => header is None,
        });
        if let Some(slug) = header {
            let j1 = i + 1;
            let j2 = if j1 < ls.len() {
                j1 + 1
            } else {
                ls.len()
            };
            let was = keyed_line_exec(&ls, j1, "was:");
            let now = keyed_line_exec(&ls, j2, "now:");
            assert(keyed_line(lv, i + 2, "now:"@) == keyed_line(lv, j2 as int, "now:"@));
            if let (Some(w), Some(n)) = (was, now) {
                let ghost prev = change_views(out@);
                let c = StateChange {
                    project: string_of(&slug),
                    old_state: string_of(&w),
                    new_state: string_of(&n),
                };
                let ghost cv = (slug@, w@, n@);
                out.push(c);
                assert(change_views(out@) =~= prev.push(cv));
                assert(prev.push(cv) + state_changes_from(lv, i + 3) =~= prev + (seq![cv]
                    + state_changes_from(lv, i + 3)));
                i = j2 + 1;
                continue;
            }
        }
        i = i + 1;
    }
    assert(state_changes_from(lv, i as int) =~= Seq::<(Seq<char>, Seq<char>, Seq<char>)>::empty());
    out
}

/// `<prefix>[[project]] — action`: the project and the action, both
/// non-empty.
pub open spec fn focus_marker(text: Seq<char>, prefix: Seq<char>) -> Option<(Seq<char>, Seq<char>)> {
    match strip_prefix(text, prefix) {
        Some(r1) => match strip_prefix(r1, "[["@) {
            Some(r2) => match split_once(r2, "]]"@) {
                Some((project, r3)) => match strip_prefix(trim_start(r3), "\u{2014}"@) {
                    Some(a) => if project.len() == 0 || trim(a).len() == 0 {
                        None
                    } else {
                        Some((project, trim(a)))
                    },
                    None => None,
                },
                None => None,
            },
            None => None,
        },
        None => None,
    }
}

fn focus_marker_exec(text: &Vec<char>, prefix: &str) -> (r: Option<(Vec<char>, Vec<char>)>)
    ensures
        match focus_marker(text@, prefix@) {
            Some((p, a)) => r matches Some((x, y)) && x@ == p && y@ == a,
            None => r is None,
        },
{
    let r1 = match strip_prefix_exec(text, &chars_of(prefix)) {
        Some(r) => r,
        None => {
            return None;
        },
    };
    let r2 = match strip_prefix_exec(&r1, &chars_of("[[")) {
        Some(r) => r,
        None => {
            return None;
        },
    };
    let (project, r3) = match split_once_exec(&r2, &chars_of("]]")) {
        Some(p) => p,
        None => {
            return None;
        },
    };
    let a = match strip_prefix_exec(&trim_start_of(&r3), &chars_of("\u{2014}")) {
        Some(a) => trim_of(&a),
        None => {
            return None;
        },
    };
    if project.len() == 0 || a.len() == 0 {
        None
    } else {
        Some((project, a))
    }
}

/// Split `<prefix>[[project]] — action` into its project and action.
pub fn parse_focus_marker(text: &str, prefix: &str) -> (r: Option<(String, String)>)
    ensures
        match focus_marker(text@, prefix@) {
            Some((p, a)) => r matches Some((x, y)) && x@ == p && y@ == a,
            None => r is None,
        },
{
    match focus_marker_exec(&chars_of(text), prefix) {
        Some((p, a)) => Some((string_of(&p), string_of(&a))),
        None => None,
    }
}

/// The actions started and not finished after the entries of a log, in
/// start order: a start opens one, a completion closes every open one of
/// the same project and text.
pub open spec fn open_focus(es: Seq<(Time, Seq<char>)>) -> Seq<(Seq<char>, Seq<char>, Time)>
    decreases es.len(),
{
    if es.len() == 0 {
        Seq::empty()
    } else {
        let open = open_focus(es.drop_last());
        let e = es.last();
        match focus_marker(e.1, LOG_STARTED_PREFIX@) {
            Some((p, a)) => open.push((p, a, e.0)),
            None => match focus_marker(e.1, LOG_ACTION_DONE_PREFIX@) {
                Some((p, a)) => open.filter(not_matching(p, a)),
                None => open,
            },
        }
    }
}

/// Open starts that a completion of `(p, a)` leaves open.
pub open spec fn not_matching(p: Seq<char>, a: Seq<char>) -> spec_fn(
    (Seq<char>, Seq<char>, Time),
) -> bool {
    |f: (Seq<char>, Seq<char>, Time)| !(f.0 == p && f.1 == a)
}

/// An action started and not yet finished.
#[derive(Debug, Clone, PartialEq, Eq)]
pub struct CurrentFocus {
    pub project: String,
    pub action: String,
    pub started: Time,
}

pub open spec fn focus_views(v: Seq<CurrentFocus>) -> Seq<(Seq<char>, Seq<char>, Time)> {
    v.map_values(|f: CurrentFocus| (f.project@, f.action@, f.started))
}

/// The action in focus after a day's `## Logs` section: the most recent
/// start with no matching completion.
pub fn current_focus_in(section: &str) -> (r: Option<CurrentFocus>)
    ensures
        ({
            let open = open_focus(log_entries(lines(section@)));
            if open.len() == 0 {
                r is None
            } else {
                r matches Some(f) && (f.project@, f.action@, f.started) == open.last()
            }
        }),
{
    let entries = parse_log_lines(section);
    let ghost ev = entry_views(entries@);
    let mut open: Vec<CurrentFocus> = Vec::new();
    let mut i: usize = 0;
    while i < entries.len()
        invariant
            i <= entries@.len(),
            ev == entry_views(entries@),
            focus_views(open@) == open_focus(ev.take(i as int)),
        decreases entries@.len() - i,
    {
        assert(ev.take(i + 1).drop_last() =~= ev.take(i as int));
        assert(ev.take(i + 1).last() == (entries@[i as int].time, entries@[i as int].text@));
        let e = &entries[i];
        let text = chars_of(e.text.as_str());
        let ghost prev = focus_views(open@);
        if let Some((p, a)) = focus_marker_exec(&text, LOG_STARTED_PREFIX) {
            let ghost fv = (p@, a@, e.time);
            open.push(CurrentFocus { project: string_of(&p), action: string_of(&a), started: e.time });
            assert(focus_views(open@) =~= prev.push(fv));
        } else if let Some((p, a)) = focus_marker_exec(&text, LOG_ACTION_DONE_PREFIX) {
            let ghost pred = not_matching(p@, a@);
            let mut kept: Vec<CurrentFocus> = Vec::new();
            let mut k: usize = 0;
            while k < open.len()
                invariant
                    k <= open@.len(),
                    prev == focus_views(open@),
                    pred == not_matching(p@, a@),
                    focus_views(kept@) == prev.take(k as int).filter(pred),
                decreases open@.len() - k,
            {
                let f = &open[k];
                assert(prev[k as int] == (f.project@, f.action@, f.started));
                proof {
                    assert(prev.take(k + 1) =~= prev.take(k as int).push(prev[k as int]));
                    prev.take(k as int).lemma_filter_push(prev[k as int], pred);
                }
                let same = eq_exec(&chars_of(f.project.as_str()), &p) && eq_exec(
                    &chars_of(f.action.as_str()),
                    &a,
                );
                if !same {
                    let ghost old_k = focus_views(kept@);
                    let copy = CurrentFocus {
                        project: string_of(&chars_of(f.project.as_str())),
                        action: string_of(&chars_of(f.action.as_str())),
                        started: f.started,
                    };
                    kept.push(copy);
                    assert(focus_views(kept@) =~= old_k.push(prev[k as int]));
                }
                k = k + 1;
            }
            assert(prev.take(prev.len() as int) =~= prev);
            open = kept;
        }
        i = i + 1;
    }
    assert(ev.take(ev.len() as int) =~= ev);
    if open.len() == 0 {
        None
    } else {
        let n = open.len();
        let f = &open[n - 1];
        Some(
            CurrentFocus {
                project: string_of(&chars_of(f.project.as_str())),
                action: string_of(&chars_of(f.action.as_str())),
                started: f.started,
            },
        )
    }
}

/// Whether `text` wikilinks the project, bare or folder-qualified.
pub open spec fn mentions(text: Seq<char>, slug: Seq<char>) -> bool {
    contains(text, "[["@ + slug + "]]"@) || contains(text, "[[projects/"@ + slug + "]]"@)
}

pub fn mentions_project(text: &str, slug: &str) -> (b: bool)
    ensures
        b == mentions(text@, slug@),
{
    let t = chars_of(text);
    let mut bare = chars_of("[[");
    push_all(&mut bare, &chars_of(slug));
    push_all(&mut bare, &chars_of("]]"));
    let mut qualified = chars_of("[[projects/");
    push_all(&mut qualified, &chars_of(slug));
    push_all(&mut qualified, &chars_of("]]"));
    contains_exec(&t, &bare) || contains_exec(&t, &qualified)
}

/// The text of the first `# ` heading of a body, if it has one.
pub fn extract_h1_opt(body: &str) -> (r: Option<String>)
    ensures
        match first_h1(lines(body@)) {
            Some(t) => r matches Some(s) && s@ == t,
            None => r is None,
        },
{
    let ls = lines_exec(&chars_of(body));
    let ghost lv = views(ls@);
    assert(lv =~= lines(body@));
    assert(lv.skip(0) =~= lv);
    let mut i: usize = 0;
    while i < ls.len()
        invariant
            i <= ls@.len(),
            lv == views(ls@),
            lv == lines(body@),
            first_h1(lv) == first_h1(lv.skip(i as int)),
        decreases ls@.len() - i,
    {
        let ghost rest = lv.skip(i as int);
        assert(rest[0] == ls@[i as int]@);
        assert(rest.drop_first() == lv.skip(i + 1));
        if let Some(r) = strip_prefix_exec(&trim_start_of(&ls[i]), &chars_of("# ")) {
            return Some(string_of(&trim_of(&r)));
        }
        i = i + 1;
    }
    None
}

/// Longest excerpt, in characters, before it is cut.
pub const EXCERPT_MAX_CHARS: usize = 200;

/// The first non-blank line of a body after its first H1 is skipped,
/// trimmed; cut to 200 characters with an ellipsis when longer.
pub open spec fn excerpt_from(ls: Seq<Seq<char>>, found_h1: bool) -> Seq<char>
    decreases ls.len(),
{
    if ls.len() == 0 {
        Seq::empty()
    } else {
        let t = trim(ls[0]);
        if t.len() == 0 {
            excerpt_from(ls.drop_first(), found_h1)
        } else if !found_h1 && crate::text::starts_with(t, "# "@) {
            excerpt_from(ls.drop_first(), true)
        } else if t.len() > EXCERPT_MAX_CHARS {
            t.take(EXCERPT_MAX_CHARS as int) + "\u{2026}"@
        } else {
            t
        }
    }
}

/// A short excerpt of a body for listings.
pub fn body_excerpt(body: &str) -> (r: String)
    ensures
        r@ == excerpt_from(lines(body@), false),
{
    let ls = lines_exec(&chars_of(body));
    let ghost lv = views(ls@);
    assert(lv =~= lines(body@));
    assert(lv.skip(0) =~= lv);
    let mut found_h1 = false;
    let mut i: usize = 0;
    while i < ls.len()
        invariant
            i <= ls@.len(),
            lv == views(ls@),
            lv == lines(body@),
            excerpt_from(lv, false) == excerpt_from(lv.skip(i as int), found_h1),
        decreases ls@.len() - i,
    {
        let ghost rest = lv.skip(i as int);
        assert(rest[0] == ls@[i as int]@);
        assert(rest.drop_first() == lv.skip(i + 1));
        let t = trim_of(&ls[i]);
        if t.len() == 0 {
            i = i + 1;
            continue;
        }
        if !found_h1 && crate::text::starts_with_exec(&t, &chars_of("# ")) {
            found_h1 = true;
            i = i + 1;
            continue;
        }
        assert(t@ == trim(rest[0]));
        if t.len() > EXCERPT_MAX_CHARS {
            let mut out = slice_of(&t, 0, EXCERPT_MAX_CHARS);
            assert(out@ == t@.take(EXCERPT_MAX_CHARS as int));
            push_all(&mut out, &chars_of("\u{2026}"));
            return string_of(&out);
        }
        return string_of(&t);
    }
    string_of(&Vec::new())
}

/// The Monday of the ISO week containing `date`.
pub fn monday_of_iso_week(date: &Date) -> (r: Option<Date>)
    requires
        date.wf(),
    ensures
        crate::date::in_range(date.num() - date.weekday_spec()) ==> (r matches Some(m) && m.wf()
            && m.num() == date.num() - date.weekday_spec()),
        !crate::date::in_range(date.num() - date.weekday_spec()) ==> r is None,
{
    let w = weekday(date);
    add_days(date, -(w as i64))
}

/// Identifies one derived tracking series.
#[derive(Debug, Clone, PartialEq, Eq)]
pub struct SeriesKey {
    pub activity: String,
    pub group: Option<String>,
    pub metric: String,
}

impl SeriesKey {
    /// `<activity> · [<group> · ]<metric>`.
    pub fn display_name(&self) -> (r: String)
        ensures
            r@ == match self.group {
                Some(g) => self.activity@ + " \u{b7} "@ + g@ + " \u{b7} "@ + self.metric@,
                None => self.activity@ + " \u{b7} "@ + self.metric@,
            },
    {
        let mut v = chars_of(self.activity.as_str());
        push_all(&mut v, &chars_of(" \u{b7} "));
        match &self.group {
            Some(g) => {
                push_all(&mut v, &chars_of(g.as_str()));
                push_all(&mut v, &chars_of(" \u{b7} "));
            },
            None => {},
        }
        push_all(&mut v, &chars_of(self.metric.as_str()));
        string_of(&v)
    }
}

} // verus!

//! Journal notes: the writable sections of daily, weekly and monthly
//! notes, the daily-log line, and the values their scaffolds are filled
//! with.

use vstd::prelude::*;

use crate::date::{
    add_days, day_number, days_before_month, days_before_year, days_in_month, format_long_heading,
    format_month_name, format_weekday_name, format_ymd_chars, iso_week, iso_week_of,
    last_day_of_month, month_name, weekday, weekday_name, weekday_of_day, year_text, ymd_text, Date,
};
use crate::text::{
    ascii_lower, ascii_lower_vec, chars_of, decimal, decimal_i64, decimal_u64, eq_exec, join,
    join_exec, lines, lines_exec, pad2, pad2_exec, push_all, string_of, strip_prefix,
    strip_prefix_exec, strip_suffix, strip_suffix_exec, trim, trim_of, views,
};

verus! {

/// Heading of the daily note's log section.
pub const DAILY_LOGS_SECTION: &'static str = "Logs";

/// The writable, non-history sections of a daily note.
#[derive(Debug, Clone, Copy, PartialEq, Eq)]
pub enum DailySection {
    Standup,
    Intention,
    Agenda,
    Meeting,
}

impl DailySection {
    pub open spec fn heading_spec(self) -> Seq<char> {
        match self {
            DailySection::Standup => "Standup"@,
            DailySection::Intention => "Intention"@,
            DailySection::Agenda => "Agenda"@,
            DailySection::Meeting => "Meeting"@,
        }
    }

    /// The level-2 heading text of the section.
    pub fn heading(self) -> (r: &'static str)
        ensures
            r@ == self.heading_spec(),
    {
        match self {
            DailySection::Standup => "Standup",
            DailySection::Intention => "Intention",
            DailySection::Agenda => "Agenda",
            DailySection::Meeting => "Meeting",
        }
    }

    pub open spec fn parse_spec(key: Seq<char>) -> Option<DailySection> {
        if key == "standup"@ {
            Some(DailySection::Standup)
        } else if key == "intention"@ {
            Some(DailySection::Intention)
        } else if key == "agenda"@ {
            Some(DailySection::Agenda)
        } else if key == "meeting"@ {
            Some(DailySection::Meeting)
        } else {
            None
        }
    }

    /// Case-insensitive parse; the error names the accepted sections.
    pub fn parse(s: &str) -> (r: Result<DailySection, String>)
        ensures
            ({
                let key = crate::text::ascii_lower_seq(trim(s@));
                match Self::parse_spec(key) {
                    Some(d) => r == Ok::<DailySection, String>(d),
                    None => r matches Err(m) && m@ == "unknown daily section '"@ + key
                        + "' (expected one of: standup, intention, agenda, meeting)"@,
                }
            }),
    {
        let key = ascii_lower_vec(&trim_of(&chars_of(s)));
        if eq_exec(&key, &chars_of("standup")) {
            Ok(DailySection::Standup)
        } else if eq_exec(&key, &chars_of("intention")) {
            Ok(DailySection::Intention)
        } else if eq_exec(&key, &chars_of("agenda")) {
            Ok(DailySection::Agenda)
        } else if eq_exec(&key, &chars_of("meeting")) {
            Ok(DailySection::Meeting)
        } else {
            let mut m = chars_of("unknown daily section '");
            push_all(&mut m, &key);
            push_all(&mut m, &chars_of("' (expected one of: standup, intention, agenda, meeting)"));
            Err(string_of(&m))
        }
    }
}

impl core::str::FromStr for DailySection {
    type Err = String;

    fn from_str(s: &str) -> (r: Result<Self, Self::Err>)
        ensures
            ({
                let key = crate::text::ascii_lower_seq(trim(s@));
                match Self::parse_spec(key) {
                    Some(d) => r == Ok::<Self, String>(d),
                    None => r matches Err(m) && m@ == "unknown daily section '"@ + key
                        + "' (expected one of: standup, intention, agenda, meeting)"@,
                }
            }),
    {
        DailySection::parse(s)
    }
}

/// A section name reduced for matching: trimmed, ASCII-lowercased, `-`
/// and `_` read as spaces, apostrophes dropped.
pub open spec fn section_key(s: Seq<char>) -> Seq<char>
    decreases s.len(),
{
    section_key_of(crate::text::ascii_lower_seq(trim(s)))
}

pub open spec fn section_key_of(s: Seq<char>) -> Seq<char>
    decreases s.len(),
{
    if s.len() == 0 {
        Seq::empty()
    } else {
        let c = s.last();
        let rest = section_key_of(s.drop_last());
        if c == '\'' {
            rest
        } else if c == '-' || c == '_' {
            rest.push(' ')
        } else {
            rest.push(c)
        }
    }
}

fn section_key_exec(s: &str) -> (r: Vec<char>)
    ensures
        r@ == section_key(s@),
{
    let low = ascii_lower_vec(&trim_of(&chars_of(s)));
    let mut out: Vec<char> = Vec::new();
    let mut i: usize = 0;
    while i < low.len()
        invariant
            i <= low@.len(),
            out@ == section_key_of(low@.take(i as int)),
        decreases low@.len() - i,
    {
        assert(low@.take(i + 1).drop_last() =~= low@.take(i as int));
        let c = low[i];
        if c == '\'' {
        } else if c == '-' || c == '_' {
            out.push(' ');
        } else {
            out.push(c);
        }
        i = i + 1;
    }
    assert(low@.take(low@.len() as int) =~= low@);
    out
}

/// The sections of a weekly review note.
#[derive(Debug, Clone, Copy, PartialEq, Eq)]
pub enum WeeklySection {
    Wins,
    Challenges,
    OneImprovement,
    ThisWeeksGoal,
}

impl WeeklySection {
    pub open spec fn heading_spec(self) -> Seq<char> {
        match self {
            WeeklySection::Wins => "Wins"@,
            WeeklySection::Challenges => "Challenges"@,
            WeeklySection::OneImprovement => "One Improvement"@,
            WeeklySection::ThisWeeksGoal => "This Week's Goal"@,
        }
    }

    /// The level-2 heading text of the section.
    pub fn heading(self) -> (r: &'static str)
        ensures
            r@ == self.heading_spec(),
    {
        match self {
            WeeklySection::Wins => "Wins",
            WeeklySection::Challenges => "Challenges",
            WeeklySection::OneImprovement => "One Improvement",
            WeeklySection::ThisWeeksGoal => "This Week's Goal",
        }
    }

    pub open spec fn parse_spec(key: Seq<char>) -> Option<WeeklySection> {
        if key == "wins"@ {
            Some(WeeklySection::Wins)
        } else if key == "challenges"@ {
            Some(WeeklySection::Challenges)
        } else if key == "one improvement"@ {
            Some(WeeklySection::OneImprovement)
        } else if key == "this weeks goal"@ || key == "next weeks focus"@ {
            Some(WeeklySection::ThisWeeksGoal)
        } else {
            None
        }
    }

    /// Parse a section name, case, `-`/`_` and apostrophes aside; the
    /// former name "next week's focus" still names the goal section.
    pub fn parse(s: &str) -> (r: Result<WeeklySection, String>)
        ensures
            ({
                let key = section_key(s@);
                match Self::parse_spec(key) {
                    Some(w) => r == Ok::<WeeklySection, String>(w),
                    None => r matches Err(m) && m@ == "unknown weekly section '"@ + key
                        + "' (expected one of: wins, challenges, one improvement, this week's goal)"@,
                }
            }),
    {
        let key = section_key_exec(s);
        if eq_exec(&key, &chars_of("wins")) {
            Ok(WeeklySection::Wins)
        } else if eq_exec(&key, &chars_of("challenges")) {
            Ok(WeeklySection::Challenges)
        } else if eq_exec(&key, &chars_of("one improvement")) {
            Ok(WeeklySection::OneImprovement)
        } else if eq_exec(&key, &chars_of("this weeks goal")) || eq_exec(
            &key,
            &chars_of("next weeks focus"),
        ) {
            Ok(WeeklySection::ThisWeeksGoal)
        } else {
            let mut m = chars_of("unknown weekly section '");
            push_all(&mut m, &key);
            push_all(
                &mut m,
                &chars_of("' (expected one of: wins, challenges, one improvement, this week's goal)"),
            );
            Err(string_of(&m))
        }
    }
}

impl core::str::FromStr for WeeklySection {
    type Err = String;

    fn from_str(s: &str) -> (r: Result<Self, Self::Err>)
        ensures
            ({
                let key = section_key(s@);
                match Self::parse_spec(key) {
                    Some(d) => r == Ok::<Self, String>(d),
                    None => r matches Err(m) && m@ == "unknown weekly section '"@ + key
                        + "' (expected one of: wins, challenges, one improvement, this week's goal)"@,
                }
            }),
    {
        WeeklySection::parse(s)
    }
}

/// The sections of a monthly review note.
#[derive(Debug, Clone, Copy, PartialEq, Eq)]
pub enum MonthlySection {
    Wins,
    Themes,
    NextMonthsFocus,
}

impl MonthlySection {
    pub open spec fn heading_spec(self) -> Seq<char> {
        match self {
            MonthlySection::Wins => "Wins"@,
            MonthlySection::Themes => "Themes"@,
            MonthlySection::NextMonthsFocus => "Next Month's Focus"@,
        }
    }

    /// The level-2 heading text of the section.
    pub fn heading(self) -> (r: &'static str)
        ensures
            r@ == self.heading_spec(),
    {
        match self {
            MonthlySection::Wins => "Wins",
            MonthlySection::Themes => "Themes",
            MonthlySection::NextMonthsFocus => "Next Month's Focus",
        }
    }

    pub open spec fn parse_spec(key: Seq<char>) -> Option<MonthlySection> {
        if key == "wins"@ {
            Some(MonthlySection::Wins)
        } else if key == "themes"@ {
            Some(MonthlySection::Themes)
        } else if key == "next months focus"@ {
            Some(MonthlySection::NextMonthsFocus)
        } else {
            None
        }
    }

    /// Parse a section name, case, `-`/`_` and apostrophes aside.
    pub fn parse(s: &str) -> (r: Result<MonthlySection, String>)
        ensures
            ({
                let key = section_key(s@);
                match Self::parse_spec(key) {
                    Some(w) => r == Ok::<MonthlySection, String>(w),
                    None => r matches Err(m) && m@ == "unknown monthly section '"@ + key
                        + "' (expected one of: wins, themes, next month's focus)"@,
                }
            }),
    {
        let key = section_key_exec(s);
        if eq_exec(&key, &chars_of("wins")) {
            Ok(MonthlySection::Wins)
        } else if eq_exec(&key, &chars_of("themes")) {
            Ok(MonthlySection::Themes)
        } else if eq_exec(&key, &chars_of("next months focus")) {
            Ok(MonthlySection::NextMonthsFocus)
        } else {
            let mut m = chars_of("unknown monthly section '");
            push_all(&mut m, &key);
            push_all(&mut m, &chars_of("' (expected one of: wins, themes, next month's focus)"));
            Err(string_of(&m))
        }
    }
}

impl core::str::FromStr for MonthlySection {
    type Err = String;

    fn from_str(s: &str) -> (r: Result<Self, Self::Err>)
        ensures
            ({
                let key = section_key(s@);
                match Self::parse_spec(key) {
                    Some(d) => r == Ok::<Self, String>(d),
                    None => r matches Err(m) && m@ == "unknown monthly section '"@ + key
                        + "' (expected one of: wins, themes, next month's focus)"@,
                }
            }),
    {
        MonthlySection::parse(s)
    }
}

/// A section body: the trimmed content and one newline, or nothing for
/// blank content.
pub open spec fn section_body(content: Seq<char>) -> Seq<char> {
    if trim(content).len() == 0 {
        Seq::empty()
    } else {
        trim(content) + "\n"@
    }
}

/// Render a section body so it sits cleanly under its heading.
pub fn format_section_body(content: &str) -> (r: String)
    ensures
        r@ == section_body(content@),
{
    let t = trim_of(&chars_of(content));
    if t.len() == 0 {
        string_of(&Vec::new())
    } else {
        let mut v = t;
        push_all(&mut v, &chars_of("\n"));
        string_of(&v)
    }
}

/// `- **HH:MM**: <entry>` and a newline.
pub fn format_log_line(hour: u32, minute: u32, entry: &str) -> (r: String)
    ensures
        r@ == "- **"@ + pad2(hour as nat) + ":"@ + pad2(minute as nat) + "**: "@ + entry@ + "\n"@,
{
    let mut v = chars_of("- **");
    push_all(&mut v, &pad2_exec(hour as u64));
    push_all(&mut v, &chars_of(":"));
    push_all(&mut v, &pad2_exec(minute as u64));
    push_all(&mut v, &chars_of("**: "));
    push_all(&mut v, &chars_of(entry));
    push_all(&mut v, &chars_of("\n"));
    string_of(&v)
}

/// The ISO week label `YYYY-Www` from an ISO year and week.
pub open spec fn week_label(year: int, week: nat) -> Seq<char> {
    crate::text::decimal_int(year) + "-W"@ + pad2(week)
}

/// The ISO week label `YYYY-Www` of the week containing `date`.
pub fn iso_week_label(date: &Date) -> (r: String)
    requires
        date.wf(),
    ensures
        exists|y: int, w: int| iso_week_of(date.num(), y, w) && w >= 0 && r@ == week_label(y, w as nat),
{
    let (y, w) = iso_week(date);
    let mut v = decimal_i64(y as i64);
    push_all(&mut v, &chars_of("-W"));
    push_all(&mut v, &pad2_exec(w as u64));
    assert(iso_week_of(date.num(), y as int, w as int));
    string_of(&v)
}

/// The heading of the last `## ` line of a template, trimmed; `Logs`
/// when it has none.
pub open spec fn last_h2(ls: Seq<Seq<char>>) -> Option<Seq<char>>
    decreases ls.len(),
{
    if ls.len() == 0 {
        None
    } else {
        match strip_prefix(ls.last(), "## "@) {
            Some(rest) => Some(trim(rest)),
            None => last_h2(ls.drop_last()),
        }
    }
}

/// The section the daily note keeps at its end: the last level-2 heading
/// of the daily template, `Logs` by default.
pub fn daily_anchor_section(template: &str) -> (r: String)
    ensures
        r@ == match last_h2(lines(template@)) {
            Some(h) => h,
            None => DAILY_LOGS_SECTION@,
        },
{
    let ls = lines_exec(&chars_of(template));
    let ghost lv = views(ls@);
    assert(lv =~= lines(template@));
    let mut i = ls.len();
    assert(lv.take(i as int) =~= lv);
    while i > 0
        invariant
            i <= ls@.len(),
            lv == views(ls@),
            lv == lines(template@),
            last_h2(lv) == last_h2(lv.take(i as int)),
        decreases i,
    {
        let ghost t = lv.take(i as int);
        assert(t.last() == ls@[i - 1]@);
        assert(t.drop_last() =~= lv.take(i - 1));
        if let Some(rest) = strip_prefix_exec(&ls[i - 1], &chars_of("## ")) {
            return string_of(&trim_of(&rest));
        }
        i = i - 1;
    }
    string_of(&chars_of(DAILY_LOGS_SECTION))
}

/// Whether day `k` of month `m` of year `y` is a Monday.
pub open spec fn is_monday(y: int, m: int, k: int) -> bool {
    weekday_of_day(day_number(y, m, k)) == 0
}

/// Every Monday of `date`'s month, in order.
pub fn mondays_in_month(date: &Date) -> (r: Vec<Date>)
    requires
        date.wf(),
    ensures
        forall|i: int|
            0 <= i < r@.len() ==> {
                let d = #[trigger] r@[i];
                d.wf() && d.year == date.year && d.month == date.month && is_monday(
                    d.year as int,
                    d.month as int,
                    d.day as int,
                )
            },
        forall|i: int, j: int| 0 <= i < j < r@.len() ==> r@[i].day < r@[j].day,
        forall|k: int|
            1 <= k <= days_in_month(date.year as int, date.month as int) && is_monday(
                date.year as int,
                date.month as int,
                k,
            ) ==> exists|i: int| 0 <= i < r@.len() && (#[trigger] r@[i]).day == k,
{
    let first = date.first_of_month();
    let w = weekday(&first);
    let dim = last_day_of_month(date.year, date.month);
    let ghost y = date.year as int;
    let ghost m = date.month as int;
    let ghost base = days_before_year(y) + days_before_month(y, m);
    assert(first.num() == base);
    assert(w == base % 7);
    let start: u32 = if w == 0 {
        1
    } else {
        8 - w
    };
    assert(1 <= start <= 7);
    assert((base + start - 1) % 7 == 0) by (nonlinear_arith)
        requires
            w == base % 7,
            start == (if w == 0 {
                1
            } else {
                8 - w
            }),
            0 <= w < 7,
    ;
    let mut out: Vec<Date> = Vec::new();
    let mut day: u32 = start;
    while day <= dim
        invariant
            1 <= start <= 7,
            dim == days_in_month(y, m),
            28 <= dim <= 31,
            date.wf(),
            y == date.year,
            m == date.month,
            base == days_before_year(y) + days_before_month(y, m),
            (base + start - 1) % 7 == 0,
            day as int == start + 7 * out@.len(),
            day <= dim + 7,
            forall|i: int| 0 <= i < out@.len() ==> (#[trigger] out@[i]).day == start + 7 * i,
            forall|i: int|
                0 <= i < out@.len() ==> {
                    let d = #[trigger] out@[i];
                    d.wf() && d.year == date.year && d.month == date.month && is_monday(
                        d.year as int,
                        d.month as int,
                        d.day as int,
                    )
                },
        decreases dim + 7 - day,
    {
        let d = Date { year: date.year, month: date.month, day };
        assert(is_monday(y, m, day as int)) by {
            let j = out@.len() as int;
            assert(day_number(y, m, day as int) == base + start - 1 + 7 * j);
            assert((base + start - 1 + 7 * j) % 7 == 0) by (nonlinear_arith)
                requires
                    (base + start - 1) % 7 == 0,
                    j >= 0,
            ;
        }
        out.push(d);
        day = day + 7;
    }
    proof {
        assert forall|i: int, j: int| 0 <= i < j < out@.len() implies out@[i].day < out@[j].day by {
            assert(out@[i].day == start + 7 * i);
            assert(out@[j].day == start + 7 * j);
        }
        assert forall|k: int| 1 <= k <= dim && is_monday(y, m, k) implies exists|i: int|
            0 <= i < out@.len() && (#[trigger] out@[i]).day == k by {
            assert(day_number(y, m, k) == base + k - 1);
            assert((base + k - 1) % 7 == 0);
            let q = (k - start) / 7;
            assert(k - start == 7 * q) by (nonlinear_arith)
                requires
                    (base + k - 1) % 7 == 0,
                    (base + start - 1) % 7 == 0,
                    1 <= start <= 7,
                    1 <= k,
                    q == (k - start) / 7,
            ;
            assert(q >= 0) by (nonlinear_arith)
                requires
                    k - start == 7 * q,
                    1 <= start <= 7,
                    1 <= k,
            ;
            assert(q < out@.len()) by (nonlinear_arith)
                requires
                    k - start == 7 * q,
                    k <= dim,
                    day as int == start + 7 * out@.len(),
                    day > dim,
            ;
            assert(out@[q].day == k);
        }
    }
    out
}

/// The `## Weeks` block of a monthly note: one wikilink bullet per weekly
/// note path (its `.md` dropped), joined by newlines.
pub open spec fn weeks_block(paths: Seq<Seq<char>>) -> Seq<char> {
    join(
        paths.map_values(
            |p: Seq<char>|
                "- [["@ + (match strip_suffix(p, ".md"@) {
                    Some(t) => t,
                    None => p,
                }) + "]]"@,
        ),
        "\n"@,
    )
}

/// Build the `## Weeks` block from the weekly-note paths of the month's
/// Mondays.
pub fn weeks_link_block(weekly_paths: &Vec<String>) -> (r: String)
    ensures
        r@ == weeks_block(crate::text::string_views(weekly_paths@)),
{
    let ghost pv = crate::text::string_views(weekly_paths@);
    let ghost bullets = pv.map_values(
        |p: Seq<char>|
            "- [["@ + (match strip_suffix(p, ".md"@) {
                Some(t) => t,
                None => p,
            }) + "]]"@,
    );
    let mut parts: Vec<Vec<char>> = Vec::new();
    let mut i: usize = 0;
    while i < weekly_paths.len()
        invariant
            i <= weekly_paths@.len(),
            pv == crate::text::string_views(weekly_paths@),
            bullets == pv.map_values(
                |p: Seq<char>|
                    "- [["@ + (match strip_suffix(p, ".md"@) {
                        Some(t) => t,
                        None => p,
                    }) + "]]"@,
            ),
            views(parts@) == bullets.take(i as int),
        decreases weekly_paths@.len() - i,
    {
        let p = chars_of(weekly_paths[i].as_str());
        assert(p@ == pv[i as int]);
        let target = match strip_suffix_exec(&p, &chars_of(".md")) {
            Some(t) => t,
            None => p,
        };
        let mut b = chars_of("- [[");
        push_all(&mut b, &target);
        push_all(&mut b, &chars_of("]]"));
        assert(b@ == bullets[i as int]);
        let ghost old_parts = views(parts@);
        parts.push(b);
        assert(views(parts@) =~= old_parts.push(bullets[i as int]));
        assert(views(parts@) =~= bullets.take(i + 1));
        i = i + 1;
    }
    assert(bullets.take(bullets.len() as int) =~= bullets);
    string_of(&join_exec(&parts, &chars_of("\n")))
}

/// The values a daily note's scaffold is filled with.
pub struct DailyScaffold {
    /// `YYYY-MM-DD`.
    pub date: String,
    /// `Weekday, D Month YYYY`.
    pub heading: String,
    /// The English weekday name.
    pub weekday: String,
    /// The ISO week label `YYYY-Www`.
    pub week: String,
}

/// Fill the daily scaffold for `date`.
pub fn daily_scaffold(date: &Date) -> (r: DailyScaffold)
    requires
        date.wf(),
    ensures
        r.date@ == ymd_text(*date),
        r.heading@ == crate::date::long_heading(*date),
        r.weekday@ == weekday_name(date.weekday_spec()),
        exists|y: int, w: int| iso_week_of(date.num(), y, w) && w >= 0 && r.week@ == week_label(
            y,
            w as nat,
        ),
{
    DailyScaffold {
        date: string_of(&format_ymd_chars(date)),
        heading: string_of(&format_long_heading(date)),
        weekday: format_weekday_name(date),
        week: iso_week_label(date),
    }
}

/// The values a weekly note's scaffold is filled with.
pub struct WeeklyScaffold {
    /// The ISO week label `YYYY-Www`.
    pub week: String,
    /// The bare ISO week number.
    pub week_num: String,
    /// The ISO year.
    pub year: String,
    /// The week's Monday, `YYYY-MM-DD`.
    pub date_start: String,
    /// The week's Sunday, `YYYY-MM-DD`.
    pub date_end: String,
}

/// Fill the weekly scaffold for the ISO week containing `date`.
pub fn weekly_scaffold(date: &Date) -> (r: Option<WeeklyScaffold>)
    requires
        date.wf(),
    ensures
        r is None <==> !(crate::date::in_range(date.num() - date.weekday_spec())
            && crate::date::in_range(date.num() - date.weekday_spec() + 6)),
        r matches Some(s) ==> exists|y: int, w: int, mon: Date, sun: Date|
            iso_week_of(date.num(), y, w) && w >= 0 && mon.wf() && sun.wf() && mon.num()
                == date.num() - date.weekday_spec() && sun.num() == mon.num() + 6 && s.week@
                == week_label(y, w as nat) && s.week_num@ == decimal(w as nat) && s.year@
                == crate::text::decimal_int(y) && s.date_start@ == ymd_text(mon) && s.date_end@
                == ymd_text(sun),
{
    let (y, w) = iso_week(date);
    let wd = weekday(date);
    let monday = match add_days(date, -(wd as i64)) {
        Some(m) => m,
        None => {
            return None;
        },
    };
    let sunday = match add_days(&monday, 6) {
        Some(s) => s,
        None => {
            return None;
        },
    };
    let mut week = decimal_i64(y as i64);
    push_all(&mut week, &chars_of("-W"));
    push_all(&mut week, &pad2_exec(w as u64));
    let s = WeeklyScaffold {
        week: string_of(&week),
        week_num: string_of(&decimal_u64(w as u64)),
        year: string_of(&decimal_i64(y as i64)),
        date_start: string_of(&format_ymd_chars(&monday)),
        date_end: string_of(&format_ymd_chars(&sunday)),
    };
    assert(iso_week_of(date.num(), y as int, w as int));
    Some(s)
}

/// The values a monthly note's scaffold is filled with (the `## Weeks`
/// block aside).
pub struct MonthlyScaffold {
    /// `YYYY-MM`.
    pub month: String,
    /// The English month name.
    pub month_name: String,
    pub year: String,
    /// The first of the month, `YYYY-MM-DD`.
    pub date_start: String,
    /// The last of the month, `YYYY-MM-DD`.
    pub date_end: String,
}

/// Fill the monthly scaffold for the month containing `date`.
pub fn monthly_scaffold(date: &Date) -> (r: MonthlyScaffold)
    requires
        date.wf(),
    ensures
        r.month@ == year_text(date.year as int) + "-"@ + pad2(date.month as nat),
        r.month_name@ == month_name(date.month as int),
        r.year@ == crate::text::decimal_int(date.year as int),
        r.date_start@ == ymd_text(date.first_of_month_spec()),
        r.date_end@ == ymd_text(date.last_of_month_spec()),
{
    let first = date.first_of_month();
    let last = date.last_of_month();
    let ymd = format_ymd_chars(&first);
    proof {
        crate::text::lemma_pad2_len(1);
        crate::text::lemma_pad2_len(first.month as nat);
    }
    let month = crate::text::slice_of(&ymd, 0, ymd.len() - 3);
    assert(month@ =~= year_text(date.year as int) + "-"@ + pad2(date.month as nat)) by {
        reveal_strlit("-");
    }
    MonthlyScaffold {
        month: string_of(&month),
        month_name: format_month_name(&first),
        year: string_of(&decimal_i64(date.year as i64)),
        date_start: string_of(&ymd),
        date_end: string_of(&format_ymd_chars(&last)),
    }
}

} // verus!

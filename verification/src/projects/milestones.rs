//! The `## Milestones` checklist of a project map: bullets
//! `- [ ] <title> — target: <date>` (or `hard:`), their completion in
//! place and their removal with any indented continuation lines.

use vstd::prelude::*;

use crate::date::{format_ymd_chars, ymd_text, Date};
use crate::error::DomainError;
use crate::projects::actions::append_bullet_exec;
use crate::projects::state::{flatten_for_log, flatten_spec};
use crate::projects::{indices_of_true, int_indices, pick_of, section_lines, Pick};
use crate::text::{
    chars_of, contains, contains_exec, eq_exec, indices_where, is_whitespace, is_ws, join,
    join_exec, lowercase_vec, push_all, replace_line, rfind, rfind_exec, slice_of, split_char,
    split_ws, split_ws_exec, string_of, string_views, strip_prefix, strip_prefix_exec, trim,
    trim_end, trim_end_of, trim_of, trim_start, trim_start_of, unicode_lowercase, views,
};

verus! {

/// Date marker of a milestone gated by a condition rather than a date.
pub const UNDATED_TARGET: &'static str = "TBD";

/// The milestone line a new project is seeded with.
pub const TEMPLATE_PLACEHOLDER: &'static str = "- [ ] First milestone \u{2014} target: TBD";

/// Key of the indented line carrying a reason under a log entry.
pub const LOG_REASON_KEY: &'static str = "reason: ";

/// `text` cut before the last occurrence of the first separator (em dash
/// or hyphen, `hard:` or `target:`) that occurs in it, trailing
/// whitespace dropped.
pub open spec fn strip_target_suffix(text: Seq<char>) -> Seq<char> {
    match rfind(text, " \u{2014} hard:"@) {
        Some(i) => trim_end(text.take(i)),
        None => match rfind(text, " \u{2014} target:"@) {
            Some(i) => trim_end(text.take(i)),
            None => match rfind(text, " - hard:"@) {
                Some(i) => trim_end(text.take(i)),
                None => match rfind(text, " - target:"@) {
                    Some(i) => trim_end(text.take(i)),
                    None => text,
                },
            },
        },
    }
}

/// The title of an open milestone bullet.
pub open spec fn open_milestone_title(line: Seq<char>) -> Option<Seq<char>> {
    match strip_prefix(trim_start(line), "- [ ] "@) {
        Some(rest) => Some(strip_target_suffix(trim(rest))),
        None => None,
    }
}

pub open spec fn title_or_empty(line: Seq<char>) -> Seq<char> {
    match open_milestone_title(line) {
        Some(t) => t,
        None => Seq::empty(),
    }
}

/// Line `i` is an open milestone whose title holds the query, case
/// aside.
pub open spec fn milestone_match(lines: Seq<Seq<char>>, query: Seq<char>) -> spec_fn(int) -> bool {
    |i: int|
        (open_milestone_title(lines[i]) matches Some(t) && contains(
            unicode_lowercase(t),
            unicode_lowercase(trim(query)),
        ))
}

pub open spec fn pick_milestone(lines: Seq<Seq<char>>, query: Seq<char>) -> Pick {
    pick_of(indices_where(lines.len() as int, milestone_match(lines, query)))
}

/// The outcome of resolving `query` among `lines`, as the resolver
/// reports it.
pub open spec fn resolved_milestone(
    lines: Seq<Seq<char>>,
    slug: Seq<char>,
    query: Seq<char>,
    r: Result<(usize, String), DomainError>,
) -> bool {
    match pick_milestone(lines, query) {
        Pick::One(i) => (r matches Ok((k, t)) && k == i && t@ == title_or_empty(lines[i])),
        Pick::NoMatch => (r matches Err(DomainError::MilestoneNotFound { slug: s, query: q }) && s@
            == slug && q@ == query),
        Pick::Several(ix) => (r matches Err(
            DomainError::AmbiguousMilestone { slug: s, query: q, candidates: c },
        ) && s@ == slug && q@ == query && string_views(c@) == ix.map_values(
            |k: int| title_or_empty(lines[k]),
        )),
    }
}

fn cut_at_last(text: &Vec<char>, sep: &str) -> (r: Option<Vec<char>>)
    ensures
        match rfind(text@, sep@) {
            Some(i) => r matches Some(v) && v@ == trim_end(text@.take(i)),
            None => r is None,
        },
{
    match rfind_exec(text, &chars_of(sep)) {
        Some(i) => {
            proof {
                crate::text::lemma_rfind_upto(text@, sep@, text@.len() - sep@.len());
            }
            let head = slice_of(text, 0, i);
            assert(head@ == text@.take(i as int));
            Some(trim_end_of(&head))
        },
        None => None,
    }
}

fn strip_target_suffix_exec(text: &Vec<char>) -> (r: Vec<char>)
    ensures
        r@ == strip_target_suffix(text@),
{
    if let Some(v) = cut_at_last(text, " \u{2014} hard:") {
        return v;
    }
    if let Some(v) = cut_at_last(text, " \u{2014} target:") {
        return v;
    }
    if let Some(v) = cut_at_last(text, " - hard:") {
        return v;
    }
    if let Some(v) = cut_at_last(text, " - target:") {
        return v;
    }
    text.clone()
}

fn open_milestone_title_exec(line: &Vec<char>) -> (r: Option<Vec<char>>)
    ensures
        match open_milestone_title(line@) {
            Some(t) => r matches Some(v) && v@ == t,
            None => r is None,
        },
{
    let t = trim_start_of(line);
    match strip_prefix_exec(&t, &chars_of("- [ ] ")) {
        Some(rest) => Some(strip_target_suffix_exec(&trim_of(&rest))),
        None => None,
    }
}

/// Strip the ` — target: …` / ` — hard: …` suffix (em dash or hyphen)
/// from a milestone text.
pub fn strip_milestone_target_suffix(text: &str) -> (r: String)
    ensures
        r@ == strip_target_suffix(text@),
{
    string_of(&strip_target_suffix_exec(&chars_of(text)))
}

/// The title of an open milestone bullet (`- [ ] <title> — <keyword>:
/// <value>`); `None` for closed bullets, blanks and other content.
pub fn parse_open_milestone_title(line: &str) -> (r: Option<String>)
    ensures
        match open_milestone_title(line@) {
            Some(t) => r matches Some(s) && s@ == t,
            None => r is None,
        },
{
    match open_milestone_title_exec(&chars_of(line)) {
        Some(v) => Some(string_of(&v)),
        None => None,
    }
}

fn resolve_open_milestone_lines(lines: &Vec<Vec<char>>, slug: &str, query: &str) -> (r: Result<
    (usize, String),
    DomainError,
>)
    ensures
        resolved_milestone(views(lines@), slug@, query@, r),
        r matches Ok((k, _)) ==> k < lines@.len(),
{
    let ghost ls = views(lines@);
    let needle = lowercase_vec(&trim_of(&chars_of(query)));
    let mut flags: Vec<bool> = Vec::new();
    let mut i: usize = 0;
    while i < lines.len()
        invariant
            i <= lines@.len(),
            ls == views(lines@),
            flags@.len() == i,
            needle@ == unicode_lowercase(trim(query@)),
            forall|j: int| 0 <= j < i ==> flags@[j] == milestone_match(ls, query@)(j),
        decreases lines@.len() - i,
    {
        assert(ls[i as int] == lines@[i as int]@);
        match open_milestone_title_exec(&lines[i]) {
            Some(t) => {
                flags.push(contains_exec(&lowercase_vec(&t), &needle));
            },
            None => {
                flags.push(false);
            },
        }
        i = i + 1;
    }
    let ix = indices_of_true(&flags, Ghost(milestone_match(ls, query@)));
    assert(int_indices(ix@).len() == ix@.len());
    if ix.len() == 0 {
        return Err(
            DomainError::MilestoneNotFound { slug: slug.to_owned(), query: query.to_owned() },
        );
    }
    if ix.len() > 1 {
        let mut candidates: Vec<String> = Vec::new();
        let mut k: usize = 0;
        while k < ix.len()
            invariant
                k <= ix@.len(),
                ls == views(lines@),
                forall|m: int| 0 <= m < ix@.len() ==> ix@[m] < lines@.len(),
                string_views(candidates@) == int_indices(ix@).take(k as int).map_values(
                    |j: int| title_or_empty(ls[j]),
                ),
            decreases ix@.len() - k,
        {
            let idx = ix[k];
            assert(ls[idx as int] == lines@[idx as int]@);
            let text = match open_milestone_title_exec(&lines[idx]) {
                Some(t) => string_of(&t),
                None => string_of(&Vec::new()),
            };
            assert(text@ == title_or_empty(ls[idx as int]));
            assert(int_indices(ix@)[k as int] == idx as int);
            let ghost old_c = string_views(candidates@);
            candidates.push(text);
            assert(string_views(candidates@) =~= old_c.push(text@));
            assert(string_views(candidates@) =~= int_indices(ix@).take(k + 1).map_values(
                |j: int| title_or_empty(ls[j]),
            ));
            k = k + 1;
        }
        assert(int_indices(ix@).take(ix@.len() as int) == int_indices(ix@));
        return Err(
            DomainError::AmbiguousMilestone {
                slug: slug.to_owned(),
                query: query.to_owned(),
                candidates,
            },
        );
    }
    let idx = ix[0];
    assert(int_indices(ix@)[0] == idx as int);
    assert(ls[idx as int] == lines@[idx as int]@);
    let title = match open_milestone_title_exec(&lines[idx]) {
        Some(t) => string_of(&t),
        None => string_of(&Vec::new()),
    };
    Ok((idx, title))
}

/// Resolve a case-insensitive substring query to exactly one open
/// milestone among `lines`, giving its index and title.
pub fn resolve_open_milestone(lines: &Vec<String>, slug: &str, query: &str) -> (r: Result<
    (usize, String),
    DomainError,
>)
    ensures
        resolved_milestone(string_views(lines@), slug@, query@, r),
{
    let mut cl: Vec<Vec<char>> = Vec::new();
    let mut i: usize = 0;
    while i < lines.len()
        invariant
            i <= lines@.len(),
            views(cl@) == string_views(lines@).take(i as int),
        decreases lines@.len() - i,
    {
        let c = chars_of(lines[i].as_str());
        assert(c@ == lines@[i as int]@);
        let ghost old_cl = views(cl@);
        cl.push(c);
        assert(views(cl@) =~= old_cl.push(c@));
        assert(views(cl@) =~= string_views(lines@).take(i + 1));
        i = i + 1;
    }
    assert(string_views(lines@).take(lines@.len() as int) == string_views(lines@));
    resolve_open_milestone_lines(&cl, slug, query)
}

/// The date text of a milestone: the ISO date, or the undated marker.
pub open spec fn milestone_date_text(target: Option<Date>) -> Seq<char> {
    match target {
        Some(d) => ymd_text(d),
        None => "TBD"@,
    }
}

pub open spec fn milestone_keyword(is_hard: bool) -> Seq<char> {
    if is_hard {
        "hard"@
    } else {
        "target"@
    }
}

/// `- [ ] <title> — <keyword>: <date>`.
pub open spec fn milestone_bullet(title: Seq<char>, keyword: Seq<char>, date: Seq<char>) -> Seq<
    char,
> {
    "- [ ] "@ + title + " \u{2014} "@ + keyword + ": "@ + date
}

/// The section after adding a milestone: the placeholder seeded by the
/// project template, alone in the section, is replaced; otherwise the
/// bullet is appended.
pub open spec fn add_milestone_section(section: Seq<char>, bullet: Seq<char>) -> Seq<char> {
    let existing = trim_end(section);
    if existing.len() == 0 || trim(existing) == TEMPLATE_PLACEHOLDER@ {
        bullet + "\n\n"@
    } else {
        existing + "\n"@ + bullet + "\n\n"@
    }
}

pub open spec fn milestone_added_entry(
    slug: Seq<char>,
    title: Seq<char>,
    keyword: Seq<char>,
    date: Seq<char>,
) -> Seq<char> {
    "milestone added to [["@ + slug + "]] \u{2014} "@ + title + " ("@ + keyword + ": "@ + date
        + ")"@
}

/// A rewritten section and the daily-log line recording the change.
pub struct SectionEdit {
    pub section: String,
    pub log_entry: String,
}

/// The `## Milestones` section and log line after `add_milestone`. A hard
/// milestone without a date is refused.
pub fn add_milestone_to_section(
    section: &str,
    slug: &str,
    title: &str,
    target_date: Option<Date>,
    is_hard: bool,
) -> (r: Result<SectionEdit, DomainError>)
    requires
        target_date matches Some(d) ==> d.wf(),
    ensures
        is_hard && target_date is None ==> (r matches Err(
            DomainError::HardMilestoneRequiresDate { slug: s, title: t },
        ) && s@ == slug@ && t@ == trim(title@)),
        !(is_hard && target_date is None) ==> ({
            let t = trim(title@);
            let kw = milestone_keyword(is_hard);
            let date = milestone_date_text(target_date);
            r matches Ok(edit) && edit.section@ == add_milestone_section(
                section@,
                milestone_bullet(t, kw, date),
            ) && edit.log_entry@ == milestone_added_entry(slug@, t, kw, date)
        }),
{
    let t = trim_of(&chars_of(title));
    if is_hard && target_date.is_none() {
        return Err(
            DomainError::HardMilestoneRequiresDate { slug: slug.to_owned(), title: string_of(&t) },
        );
    }
    let date = match target_date {
        Some(d) => format_ymd_chars(&d),
        None => chars_of(UNDATED_TARGET),
    };
    let kw = if is_hard {
        chars_of("hard")
    } else {
        chars_of("target")
    };
    let mut bullet = chars_of("- [ ] ");
    push_all(&mut bullet, &t);
    push_all(&mut bullet, &chars_of(" \u{2014} "));
    push_all(&mut bullet, &kw);
    push_all(&mut bullet, &chars_of(": "));
    push_all(&mut bullet, &date);
    let s = chars_of(section);
    let existing = trim_end_of(&s);
    let new_section = if existing.len() == 0 || eq_exec(
        &trim_of(&existing),
        &chars_of(TEMPLATE_PLACEHOLDER),
    ) {
        let mut r = bullet.clone();
        push_all(&mut r, &chars_of("\n\n"));
        r
    } else {
        append_bullet_exec(&s, &bullet)
    };
    let mut log = chars_of("milestone added to [[");
    push_all(&mut log, &chars_of(slug));
    push_all(&mut log, &chars_of("]] \u{2014} "));
    push_all(&mut log, &t);
    push_all(&mut log, &chars_of(" ("));
    push_all(&mut log, &kw);
    push_all(&mut log, &chars_of(": "));
    push_all(&mut log, &date);
    push_all(&mut log, &chars_of(")"));
    Ok(SectionEdit { section: string_of(&new_section), log_entry: string_of(&log) })
}

/// The section after `complete_milestone`: the milestone's line becomes
/// `- [x] <title> — <completion date>`, every other line kept.
pub fn complete_milestone_in_section(section: &str, slug: &str, query: &str, today: Date) -> (r:
    Result<SectionEdit, DomainError>)
    requires
        today.wf(),
    ensures
        ({
            let lines = split_char(section@, '\n');
            match pick_milestone(lines, query@) {
                Pick::One(i) => {
                    let title = title_or_empty(lines[i]);
                    r matches Ok(edit) && edit.section@ == join(
                        lines.update(i, "- [x] "@ + title + " \u{2014} "@ + ymd_text(today)),
                        "\n"@,
                    ) && edit.log_entry@ == "milestone done on [["@ + slug@ + "]] \u{2014} "@
                        + title
                },
                _ => r matches Err(e) && resolved_milestone(lines, slug@, query@, Err(e)),
            }
        }),
{
    let s = chars_of(section);
    let lines = section_lines(&s);
    match resolve_open_milestone_lines(&lines, slug, query) {
        Ok((i, title)) => {
            let tc = chars_of(title.as_str());
            let mut line = chars_of("- [x] ");
            push_all(&mut line, &tc);
            push_all(&mut line, &chars_of(" \u{2014} "));
            push_all(&mut line, &format_ymd_chars(&today));
            let replaced = replace_line(&lines, i, line);
            let joined = join_exec(&replaced, &chars_of("\n"));
            let mut log = chars_of("milestone done on [[");
            push_all(&mut log, &chars_of(slug));
            push_all(&mut log, &chars_of("]] \u{2014} "));
            push_all(&mut log, &tc);
            Ok(SectionEdit { section: string_of(&joined), log_entry: string_of(&log) })
        },
        Err(e) => Err(e),
    }
}

/// A line continuing the bullet above it: not blank, and indented.
pub open spec fn is_continuation(line: Seq<char>) -> bool {
    trim(line).len() > 0 && line.len() > 0 && is_ws(line[0])
}

/// End (exclusive) of the run of continuation lines starting at `j`.
pub open spec fn continuation_end(lines: Seq<Seq<char>>, j: int) -> int
    decreases lines.len() - j,
{
    if j < 0 || j >= lines.len() || !is_continuation(lines[j]) {
        j
    } else {
        continuation_end(lines, j + 1)
    }
}

pub proof fn lemma_continuation_end(lines: Seq<Seq<char>>, j: int)
    requires
        0 <= j <= lines.len(),
    ensures
        j <= continuation_end(lines, j) <= lines.len(),
    decreases lines.len() - j,
{
    if j < lines.len() && is_continuation(lines[j]) {
        lemma_continuation_end(lines, j + 1);
    }
}

pub open spec fn milestone_dropped_entry(
    slug: Seq<char>,
    title: Seq<char>,
    reason: Option<Seq<char>>,
) -> Seq<char> {
    let base = "milestone dropped on [["@ + slug + "]] \u{2014} "@ + title;
    match reason {
        Some(r) => if flatten_spec(r).len() > 0 {
            base + "\n  "@ + LOG_REASON_KEY@ + flatten_spec(r)
        } else {
            base
        },
        None => base,
    }
}

/// `milestone dropped on [[<slug>]] — <title>`, with the flattened reason
/// on an indented line below when one is given and not blank.
pub fn format_milestone_dropped_log_entry(slug: &str, title: &str, reason: Option<&str>) -> (r:
    String)
    ensures
        r@ == milestone_dropped_entry(
            slug@,
            title@,
            match reason {
                Some(x) => Some(x@),
                None => None,
            },
        ),
{
    let mut v = chars_of("milestone dropped on [[");
    push_all(&mut v, &chars_of(slug));
    push_all(&mut v, &chars_of("]] \u{2014} "));
    push_all(&mut v, &chars_of(title));
    match reason {
        Some(x) => {
            let f = chars_of(flatten_for_log(x).as_str());
            if f.len() > 0 {
                push_all(&mut v, &chars_of("\n  "));
                push_all(&mut v, &chars_of(LOG_REASON_KEY));
                push_all(&mut v, &f);
            }
        },
        None => {},
    }
    string_of(&v)
}

/// The section after `drop_milestone`: the milestone's line is removed
/// together with the indented lines continuing it.
pub fn drop_milestone_in_section(section: &str, slug: &str, query: &str, reason: Option<&str>) -> (r:
    Result<SectionEdit, DomainError>)
    ensures
        ({
            let lines = split_char(section@, '\n');
            match pick_milestone(lines, query@) {
                Pick::One(i) => {
                    let end = continuation_end(lines, i + 1);
                    r matches Ok(edit) && edit.section@ == join(
                        lines.take(i) + lines.skip(end),
                        "\n"@,
                    ) && edit.log_entry@ == milestone_dropped_entry(
                        slug@,
                        title_or_empty(lines[i]),
                        match reason {
                            Some(x) => Some(x@),
                            None => None,
                        },
                    )
                },
                _ => r matches Err(e) && resolved_milestone(lines, slug@, query@, Err(e)),
            }
        }),
{
    let s = chars_of(section);
    let lines = section_lines(&s);
    let ghost ls = views(lines@);
    match resolve_open_milestone_lines(&lines, slug, query) {
        Ok((i, title)) => {
            let mut end = i + 1;
            proof {
                lemma_continuation_end(ls, i + 1);
            }
            while end < lines.len()
                invariant
                    i + 1 <= end <= lines@.len(),
                    ls == views(lines@),
                    continuation_end(ls, i + 1) == continuation_end(ls, end as int),
                ensures
                    continuation_end(ls, i + 1) == end,
                decreases lines@.len() - end,
            {
                let line = &lines[end];
                assert(ls[end as int] == line@);
                let t = trim_of(line);
                proof {
                    crate::text::lemma_trim_ends(line@);
                }
                if t.len() == 0 || !is_whitespace(line[0]) {
                    break;
                }
                end = end + 1;
            }
            let mut kept: Vec<Vec<char>> = Vec::new();
            let mut k: usize = 0;
            while k < lines.len()
                invariant
                    k <= lines@.len(),
                    i < end <= lines@.len(),
                    ls == views(lines@),
                    views(kept@) == (if k <= i {
                        ls.take(k as int)
                    } else if k <= end {
                        ls.take(i as int)
                    } else {
                        ls.take(i as int) + ls.subrange(end as int, k as int)
                    }),
                decreases lines@.len() - k,
            {
                let ghost old_kept = views(kept@);
                if k < i || k >= end {
                    kept.push(lines[k].clone());
                    assert(views(kept@) =~= old_kept.push(ls[k as int]));
                }
                proof {
                    if k < i {
                        assert(ls.take(k + 1) =~= ls.take(k as int).push(ls[k as int]));
                    } else if k >= end {
                        assert(ls.take(i as int) + ls.subrange(end as int, k + 1) =~= (ls.take(
                            i as int,
                        ) + ls.subrange(end as int, k as int)).push(ls[k as int]));
                    }
                }
                k = k + 1;
            }
            assert(ls.subrange(end as int, ls.len() as int) =~= ls.skip(end as int));
            assert(views(kept@) =~= ls.take(i as int) + ls.skip(end as int));
            let joined = join_exec(&kept, &chars_of("\n"));
            let log = format_milestone_dropped_log_entry(slug, title.as_str(), reason);
            Ok(SectionEdit { section: string_of(&joined), log_entry: log })
        },
        Err(e) => Err(e),
    }
}


/// The query matches case-insensitively: two queries that lower-case (and
/// trim) to the same text resolve to the same milestone, or fail alike.
pub proof fn lemma_milestone_query_case(lines: Seq<Seq<char>>, q1: Seq<char>, q2: Seq<char>)
    requires
        unicode_lowercase(trim(q1)) == unicode_lowercase(trim(q2)),
    ensures
        pick_milestone(lines, q1) == pick_milestone(lines, q2),
{
    assert(milestone_match(lines, q1) =~= milestone_match(lines, q2));
}

/// A query whose lower case occurs in the lower-cased title of exactly one
/// open milestone resolves to that milestone; one that occurs in none
/// finds nothing.
pub proof fn lemma_milestone_query_resolves(lines: Seq<Seq<char>>, q: Seq<char>, i: int)
    ensures
        (0 <= i < lines.len() && (open_milestone_title(lines[i]) matches Some(t) && contains(
            unicode_lowercase(t),
            unicode_lowercase(trim(q)),
        )) && forall|j: int|
            0 <= j < lines.len() && j != i ==> !(open_milestone_title(#[trigger] lines[j]) matches Some(
                u,
            ) && contains(unicode_lowercase(u), unicode_lowercase(trim(q))))) ==> pick_milestone(
            lines,
            q,
        ) == Pick::One(i),
        (forall|j: int|
            0 <= j < lines.len() ==> !(open_milestone_title(#[trigger] lines[j]) matches Some(u)
                && contains(unicode_lowercase(u), unicode_lowercase(trim(q))))) ==> pick_milestone(
            lines,
            q,
        ) == Pick::NoMatch,
{
    let n = lines.len() as int;
    let p = milestone_match(lines, q);
    let ix = indices_where(n, p);
    crate::text::lemma_indices_where(n, p);
    if 0 <= i < n && p(i) && forall|j: int| 0 <= j < n && j != i ==> !#[trigger] p(j) {
        assert(ix.contains(i));
        assert forall|k: int| 0 <= k < ix.len() implies ix[k] == i by {
            assert(p(ix[k]));
        }
        if ix.len() > 1 {
            assert(ix[0] < ix[1]);
        }
        assert(ix.len() == 1);
    }
    if forall|j: int| 0 <= j < n ==> !#[trigger] p(j) {
        if ix.len() > 0 {
            assert(p(ix[0]));
        }
    }
}

} // verus!

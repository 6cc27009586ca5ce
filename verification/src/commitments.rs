//! Dated commitments: the `## Periodic Commitments` line grammar, the
//! note-title fallback, origin links, and the aggregation of every dated
//! commitment of the vault into one date-sorted view.

use vstd::prelude::*;

use crate::date::{add_days, chrono_parse_ymd, format_ymd_chars, parse_ymd, ymd_text, Date};
use crate::error::DomainError;
use crate::projects::{
    frontmatter_close, has_field_from, rewrite_field_in_frontmatter, rewrite_lines_from,
};
use crate::frontmatter::{ActionFrontmatter, ActionStatus, CommitmentFrontmatter, CommitmentStatus};
use crate::slug::{slugify, slugify_spec};
use crate::text::{
    chars_of, eq_exec, find_char_from, find_char_from_exec, lemma_find_char_from, lines,
    lines_exec, push_all, slice_of, split_ws, split_ws_exec, string_of, strip_prefix,
    strip_prefix_exec, trim, trim_of, trim_start, trim_start_of, views,
};

verus! {

/// Days before today from which overdue commitments are still shown.
pub const OVERDUE_LOOKBACK_DAYS: i64 = 30;

/// The pieces of `rest` around its first two em-dashes.
pub open spec fn em_dash_parts(rest: Seq<char>) -> Option<(Seq<char>, Seq<char>, Seq<char>)> {
    match find_char_from(rest, '\u{2014}', 0) {
        Some(i) => match find_char_from(rest, '\u{2014}', i + 1) {
            Some(j) => Some((rest.take(i), rest.subrange(i + 1, j), rest.skip(j + 1))),
            None => None,
        },
        None => None,
    }
}

/// The first whitespace-separated word of `s`, or `s` itself when it has
/// none.
pub open spec fn first_word(s: Seq<char>) -> Seq<char> {
    if split_ws(s).len() > 0 {
        split_ws(s)[0]
    } else {
        s
    }
}

/// A periodic commitment line `- Title — <recurrence> — next: YYYY-MM-DD`
/// (an annotation after the date is tolerated): its title and next date.
pub open spec fn periodic_line(line: Seq<char>) -> Option<(Seq<char>, Date)> {
    match strip_prefix(trim_start(line), "- "@) {
        Some(rest) => match em_dash_parts(rest) {
            Some((p0, _p1, p2)) => {
                let title = trim(p0);
                if title.len() == 0 {
                    None
                } else {
                    match strip_prefix(trim(p2), "next:"@) {
                        Some(after) => match chrono_parse_ymd(first_word(trim(after))) {
                            Some(d) => Some((title, d)),
                            None => None,
                        },
                        None => None,
                    }
                }
            },
            None => None,
        },
        None => None,
    }
}

/// Parse one line of a `## Periodic Commitments` section into its title
/// and next date; `None` for anything off the canonical shape.
pub fn parse_periodic_line(line: &str) -> (r: Option<(String, Date)>)
    ensures
        match periodic_line(line@) {
            Some((t, d)) => r matches Some((s, e)) && s@ == t && e == d,
            None => r is None,
        },
        r matches Some((_, d)) ==> d.wf(),
{
    let t = trim_start_of(&chars_of(line));
    let rest = match strip_prefix_exec(&t, &chars_of("- ")) {
        Some(rest) => rest,
        None => {
            return None;
        },
    };
    let i = match find_char_from_exec(&rest, '\u{2014}', 0) {
        Some(i) => i,
        None => {
            return None;
        },
    };
    proof {
        lemma_find_char_from(rest@, '\u{2014}', 0);
    }
    let n = rest.len();
    assert(i < n);
    let j = match find_char_from_exec(&rest, '\u{2014}', i + 1) {
        Some(j) => j,
        None => {
            return None;
        },
    };
    proof {
        lemma_find_char_from(rest@, '\u{2014}', i + 1);
    }
    assert(j < n);
    let p0 = slice_of(&rest, 0, i);
    let p2 = slice_of(&rest, j + 1, rest.len());
    assert(p0@ == rest@.take(i as int));
    assert(p2@ == rest@.skip(j + 1));
    let title = trim_of(&p0);
    if title.len() == 0 {
        return None;
    }
    let after = match strip_prefix_exec(&trim_of(&p2), &chars_of("next:")) {
        Some(a) => trim_of(&a),
        None => {
            return None;
        },
    };
    let words = split_ws_exec(&after);
    let date_text = if words.len() > 0 {
        words[0].clone()
    } else {
        after
    };
    let date_s = string_of(&date_text);
    match parse_ymd(date_s.as_str()) {
        Some(d) => Some((string_of(&title), d)),
        None => None,
    }
}

/// The first `# ` heading of a list of lines, trimmed.
pub open spec fn first_heading(ls: Seq<Seq<char>>) -> Option<Seq<char>>
    decreases ls.len(),
{
    if ls.len() == 0 {
        None
    } else {
        match strip_prefix(ls[0], "# "@) {
            Some(rest) => Some(trim(rest)),
            None => first_heading(ls.drop_first()),
        }
    }
}

/// The title a note's body gives it, or `slug` when it has no `# `
/// heading.
pub open spec fn body_title(content: Seq<char>, slug: Seq<char>) -> Seq<char> {
    match first_heading(lines(content)) {
        Some(t) => t,
        None => slug,
    }
}

/// The text of the first `# ` heading of a note, falling back to its
/// slug.
pub fn body_title_or_slug(content: &str, slug: &str) -> (r: String)
    ensures
        r@ == body_title(content@, slug@),
{
    let ls = lines_exec(&chars_of(content));
    let ghost lv = views(ls@);
    assert(lv =~= lines(content@));
    assert(lv.skip(0) =~= lv);
    let mut i: usize = 0;
    while i < ls.len()
        invariant
            i <= ls@.len(),
            lv == views(ls@),
            lv == lines(content@),
            first_heading(lv) == first_heading(lv.skip(i as int)),
        decreases ls@.len() - i,
    {
        let ghost rest = lv.skip(i as int);
        assert(rest[0] == ls@[i as int]@);
        assert(rest.drop_first() == lv.skip(i + 1));
        if let Some(r) = strip_prefix_exec(&ls[i], &chars_of("# ")) {
            return string_of(&trim_of(&r));
        }
        i = i + 1;
    }
    slug.to_owned()
}

/// An origin link reduced to a bare slug: blank input, and input with no
/// alphanumerics at all, give no link.
pub open spec fn slug_link_spec(link: Option<Seq<char>>) -> Option<Seq<char>> {
    match link {
        Some(l) => if trim(l).len() == 0 || slugify_spec(trim(l)) == "untitled"@ {
            None
        } else {
            Some(slugify_spec(trim(l)))
        },
        None => None,
    }
}

/// Canonicalise an optional origin link to a bare slug.
pub fn slug_link(link: Option<&str>) -> (r: Option<String>)
    ensures
        match slug_link_spec(
            match link {
                Some(l) => Some(l@),
                None => None,
            },
        ) {
            Some(s) => r matches Some(v) && v@ == s,
            None => r is None,
        },
{
    match link {
        None => None,
        Some(l) => {
            let tv = trim_of(&chars_of(l));
            if tv.len() == 0 {
                return None;
            }
            let t = string_of(&tv);
            let s = slugify(t.as_str());
            if eq_exec(&chars_of(s.as_str()), &chars_of("untitled")) {
                None
            } else {
                Some(s)
            }
        },
    }
}

/// An optional slug as a YAML scalar: quoted when present, `null` when
/// absent.
pub fn yaml_opt_slug(slug: Option<&str>) -> (r: String)
    ensures
        match slug {
            Some(s) => r@ == "\""@ + s@ + "\""@,
            None => r@ == "null"@,
        },
{
    match slug {
        Some(s) => {
            let mut v = chars_of("\"");
            push_all(&mut v, &chars_of(s));
            push_all(&mut v, &chars_of("\""));
            string_of(&v)
        },
        None => string_of(&chars_of("null")),
    }
}

/// `commitment created [[<slug>]] — <title> (due YYYY-MM-DD)`.
pub fn format_commitment_created_log_entry(slug: &str, title: &str, due: &Date) -> (r: String)
    requires
        due.wf(),
    ensures
        r@ == "commitment created [["@ + slug@ + "]] \u{2014} "@ + title@ + " (due "@ + ymd_text(
            *due,
        ) + ")"@,
{
    let mut v = chars_of("commitment created [[");
    push_all(&mut v, &chars_of(slug));
    push_all(&mut v, &chars_of("]] \u{2014} "));
    push_all(&mut v, &chars_of(title));
    push_all(&mut v, &chars_of(" (due "));
    push_all(&mut v, &format_ymd_chars(due));
    push_all(&mut v, &chars_of(")"));
    string_of(&v)
}

/// `commitment completed [[<slug>]] — <title>`.
pub fn format_commitment_completed_log_entry(slug: &str, title: &str) -> (r: String)
    ensures
        r@ == "commitment completed [["@ + slug@ + "]] \u{2014} "@ + title@,
{
    let mut v = chars_of("commitment completed [[");
    push_all(&mut v, &chars_of(slug));
    push_all(&mut v, &chars_of("]] \u{2014} "));
    push_all(&mut v, &chars_of(title));
    string_of(&v)
}

/// Origin of an aggregated commitment, with the owning slug.
#[derive(Debug, Clone, PartialEq, Eq)]
pub enum CommitmentSource {
    /// A hard milestone of the named project.
    ProjectMilestone(String),
    /// A periodic commitment of the named stewardship.
    Stewardship(String),
    /// A standalone commitment note.
    StandaloneCommitment,
    /// An action note with its own due date; the parent project's slug.
    ActionNote(String),
}

/// One dated commitment of the aggregated view.
#[derive(Debug, Clone, PartialEq, Eq)]
pub struct CommitmentEntry {
    pub date: Date,
    pub title: String,
    pub source: CommitmentSource,
    /// Whether `date` is strictly before the query's today.
    pub is_overdue: bool,
}

/// A commitment source as plain text.
pub enum SourceView {
    ProjectMilestone(Seq<char>),
    Stewardship(Seq<char>),
    StandaloneCommitment,
    ActionNote(Seq<char>),
}

/// A commitment entry as plain values.
pub struct EntryView {
    pub date: Date,
    pub title: Seq<char>,
    pub source: SourceView,
    pub is_overdue: bool,
}

impl View for CommitmentSource {
    type V = SourceView;

    open spec fn view(&self) -> SourceView {
        match self {
            CommitmentSource::ProjectMilestone(s) => SourceView::ProjectMilestone(s@),
            CommitmentSource::Stewardship(s) => SourceView::Stewardship(s@),
            CommitmentSource::StandaloneCommitment => SourceView::StandaloneCommitment,
            CommitmentSource::ActionNote(s) => SourceView::ActionNote(s@),
        }
    }
}

impl View for CommitmentEntry {
    type V = EntryView;

    open spec fn view(&self) -> EntryView {
        EntryView {
            date: self.date,
            title: self.title@,
            source: self.source@,
            is_overdue: self.is_overdue,
        }
    }
}

pub open spec fn entry_views(v: Seq<CommitmentEntry>) -> Seq<EntryView> {
    v.map_values(|e: CommitmentEntry| e@)
}

/// `e` inserted into `s` after every entry dated on or before it.
pub open spec fn insert_by_date(s: Seq<EntryView>, e: EntryView) -> Seq<EntryView>
    decreases s.len(),
{
    if s.len() == 0 {
        seq![e]
    } else if e.date.lt(s.last().date) {
        insert_by_date(s.drop_last(), e).push(s.last())
    } else {
        s.push(e)
    }
}

/// The stable sort of `s` by date.
pub open spec fn sort_by_date(s: Seq<EntryView>) -> Seq<EntryView>
    decreases s.len(),
{
    if s.len() == 0 {
        Seq::empty()
    } else {
        insert_by_date(sort_by_date(s.drop_last()), s.last())
    }
}

pub open spec fn sorted_by_date(s: Seq<EntryView>) -> bool {
    forall|i: int, j: int| 0 <= i < j < s.len() ==> s[i].date.le(s[j].date)
}

#[verifier::spinoff_prover]
proof fn lemma_insert_by_date(s: Seq<EntryView>, e: EntryView)
    requires
        sorted_by_date(s),
    ensures
        sorted_by_date(insert_by_date(s, e)),
        insert_by_date(s, e).len() == s.len() + 1,
        insert_by_date(s, e).to_multiset() == s.to_multiset().insert(e),
    decreases s.len(),
{
    broadcast use vstd::seq_lib::group_to_multiset_ensures;

    if s.len() == 0 {
        assert(seq![e] =~= Seq::<EntryView>::empty().push(e));
    } else if e.date.lt(s.last().date) {
        let t = s.drop_last();
        assert(sorted_by_date(t));
        lemma_insert_by_date(t, e);
        let u = insert_by_date(t, e);
        let r = u.push(s.last());
        assert forall|i: int, j: int| 0 <= i < j < r.len() implies r[i].date.le(r[j].date) by {
            if j == r.len() - 1 {
                if u[i] == e {
                } else {
                    assert(u.to_multiset().count(u[i]) > 0);
                    assert(t.to_multiset().count(u[i]) > 0);
                    assert(t.contains(u[i]));
                    let k = choose|k: int| 0 <= k < t.len() && t[k] == u[i];
                    assert(s[k] == t[k]);
                }
            }
        }
        assert(s =~= t.push(s.last()));
    } else {
        assert forall|i: int, j: int| 0 <= i < j < s.len() + 1 implies s.push(e)[i].date.le(
            s.push(e)[j].date,
        ) by {
            if j == s.len() {
                assert(s[i].date.le(s.last().date));
            }
        }
    }
}

/// The aggregated view is sorted by date and holds exactly the collected
/// entries.
pub proof fn lemma_sort_by_date(s: Seq<EntryView>)
    ensures
        sorted_by_date(sort_by_date(s)),
        sort_by_date(s).to_multiset() == s.to_multiset(),
    decreases s.len(),
{
    broadcast use vstd::seq_lib::group_to_multiset_ensures;

    if s.len() > 0 {
        lemma_sort_by_date(s.drop_last());
        lemma_insert_by_date(sort_by_date(s.drop_last()), s.last());
        assert(s =~= s.drop_last().push(s.last()));
    }
}

fn insert_entry(v: &mut Vec<CommitmentEntry>, e: CommitmentEntry)
    ensures
        entry_views(final(v)@) == insert_by_date(entry_views(old(v)@), e@),
{
    let ghost s = entry_views(v@);
    let mut p = v.len();
    assert(s.take(p as int) =~= s);
    assert(s.skip(p as int) =~= Seq::<EntryView>::empty());
    while p > 0 && e.date.is_before(&v[p - 1].date)
        invariant
            p <= v@.len(),
            s == entry_views(v@),
            insert_by_date(s, e@) == insert_by_date(s.take(p as int), e@) + s.skip(p as int),
        decreases p,
    {
        let ghost t = s.take(p as int);
        assert(t.last() == s[p - 1]);
        assert(t.drop_last() =~= s.take(p - 1));
        assert(s.skip(p - 1) =~= seq![s[p - 1]] + s.skip(p as int));
        assert(insert_by_date(t, e@) == insert_by_date(s.take(p - 1), e@).push(s[p - 1]));
        assert(insert_by_date(s.take(p - 1), e@).push(s[p - 1]) + s.skip(p as int)
            =~= insert_by_date(s.take(p - 1), e@) + s.skip(p - 1));
        p = p - 1;
    }
    proof {
        let t = s.take(p as int);
        if p > 0 {
            assert(t.last() == s[p - 1]);
        }
        assert(insert_by_date(t, e@) =~= t.push(e@));
    }
    let ghost ev = e@;
    v.insert(p, e);
    assert(entry_views(v@) =~= s.take(p as int).push(ev) + s.skip(p as int));
}

/// A row of the milestone index, as the index reports it.
pub struct MilestoneRow {
    pub project_slug: String,
    pub name: String,
    pub date: Option<String>,
    pub is_hard: bool,
    pub completed: bool,
}

/// The `## Periodic Commitments` section of a stewardship dashboard.
pub struct StewardshipSection {
    pub slug: String,
    pub section: String,
}

/// A standalone commitment note: its slug, raw text and frontmatter.
pub struct CommitmentNote {
    pub slug: String,
    pub raw: String,
    pub frontmatter: CommitmentFrontmatter,
}

/// An action note: its slug, raw text and frontmatter.
pub struct ActionNote {
    pub slug: String,
    pub raw: String,
    pub frontmatter: ActionFrontmatter,
}

pub open spec fn in_window(d: Date, from: Date, to: Date) -> bool {
    !d.lt(from) && !to.lt(d)
}

pub open spec fn milestone_entry(row: MilestoneRow, today: Date, from: Date, to: Date) -> Option<
    EntryView,
> {
    if !row.is_hard || row.completed {
        None
    } else {
        match row.date {
            Some(ds) => match chrono_parse_ymd(ds@) {
                Some(d) => if !in_window(d, from, to) {
                    None
                } else {
                    Some(
                    EntryView {
                        date: d,
                        title: row.name@,
                        source: SourceView::ProjectMilestone(row.project_slug@),
                        is_overdue: d.lt(today),
                    },
                )
                },
                None => None,
            },
            None => None,
        }
    }
}

pub open spec fn periodic_entry(slug: Seq<char>, line: Seq<char>, today: Date, from: Date, to: Date) -> Option<
    EntryView,
> {
    match periodic_line(line) {
        Some((title, d)) => if in_window(d, from, to) {
            Some(
                EntryView {
                    date: d,
                    title,
                    source: SourceView::Stewardship(slug),
                    is_overdue: d.lt(today),
                },
            )
        } else {
            None
        },
        None => None,
    }
}

pub open spec fn standalone_entry(note: CommitmentNote, today: Date, from: Date, to: Date) -> Option<
    EntryView,
> {
    let fm = note.frontmatter;
    if fm.status != CommitmentStatus::Active || !in_window(fm.due, from, to) {
        None
    } else {
        Some(
            EntryView {
                date: fm.due,
                title: body_title(note.raw@, note.slug@),
                source: SourceView::StandaloneCommitment,
                is_overdue: fm.due.lt(today),
            },
        )
    }
}

pub open spec fn action_entry(note: ActionNote, today: Date, from: Date, to: Date) -> Option<
    EntryView,
> {
    let fm = note.frontmatter;
    match fm.due {
        Some(due) => if fm.status != ActionStatus::Active || fm.milestone is Some || !in_window(
            due,
            from,
            to,
        ) {
            None
        } else {
            Some(
                EntryView {
                    date: due,
                    title: body_title(note.raw@, note.slug@),
                    source: SourceView::ActionNote(fm.project@),
                    is_overdue: due.lt(today),
                },
            )
        },
        None => None,
    }
}

/// The defined results of `f` over `s`, in order.
pub open spec fn collect_some<A>(s: Seq<A>, f: spec_fn(A) -> Option<EntryView>) -> Seq<EntryView>
    decreases s.len(),
{
    if s.len() == 0 {
        Seq::empty()
    } else {
        match f(s.last()) {
            Some(e) => collect_some(s.drop_last(), f).push(e),
            None => collect_some(s.drop_last(), f),
        }
    }
}

/// The periodic commitments of every stewardship, in order.
pub open spec fn stewardship_entries(
    s: Seq<StewardshipSection>,
    today: Date,
    from: Date,
    to: Date,
) -> Seq<EntryView>
    decreases s.len(),
{
    if s.len() == 0 {
        Seq::empty()
    } else {
        let last = s.last();
        stewardship_entries(s.drop_last(), today, from, to) + collect_some(
            lines(last.section@),
            |line: Seq<char>| periodic_entry(last.slug@, line, today, from, to),
        )
    }
}

/// Every dated commitment in source order: hard open milestones, then
/// periodic stewardship commitments, standalone commitments and action
/// notes due inside `[from, to]`.
pub open spec fn collected_commitments(
    today: Date,
    from: Date,
    to: Date,
    milestones: Seq<MilestoneRow>,
    stewardships: Seq<StewardshipSection>,
    commitments: Seq<CommitmentNote>,
    actions: Seq<ActionNote>,
) -> Seq<EntryView> {
    collect_some(milestones, |r: MilestoneRow| milestone_entry(r, today, from, to)) + stewardship_entries(
        stewardships,
        today,
        from,
        to,
    ) + collect_some(commitments, |n: CommitmentNote| standalone_entry(n, today, from, to))
        + collect_some(actions, |n: ActionNote| action_entry(n, today, from, to))
}

proof fn lemma_sort_push(s: Seq<EntryView>, e: EntryView)
    ensures
        sort_by_date(s.push(e)) == insert_by_date(sort_by_date(s), e),
{
    assert(s.push(e).drop_last() =~= s);
}

fn push_sorted(
    out: &mut Vec<CommitmentEntry>,
    e: CommitmentEntry,
    Ghost(acc): Ghost<Seq<EntryView>>,
) -> (new_acc: Ghost<Seq<EntryView>>)
    requires
        entry_views(old(out)@) == sort_by_date(acc),
    ensures
        new_acc@ == acc.push(e@),
        entry_views(final(out)@) == sort_by_date(new_acc@),
{
    let ghost ev = e@;
    insert_entry(out, e);
    proof {
        lemma_sort_push(acc, ev);
    }
    Ghost(acc.push(ev))
}

/// Collect the dated commitments inside `[from, to]` and sort them by
/// date, entries of the same date keeping their source order.
pub fn collect_commitments(
    today: Date,
    from: Date,
    to: Date,
    milestones: &Vec<MilestoneRow>,
    stewardships: &Vec<StewardshipSection>,
    commitments: &Vec<CommitmentNote>,
    actions: &Vec<ActionNote>,
) -> (r: Vec<CommitmentEntry>)
    ensures
        entry_views(r@) == sort_by_date(
            collected_commitments(
                today,
                from,
                to,
                milestones@,
                stewardships@,
                commitments@,
                actions@,
            ),
        ),
{
    let mut out: Vec<CommitmentEntry> = Vec::new();
    let ghost mut acc: Seq<EntryView> = Seq::empty();
    let ghost mf = |r: MilestoneRow| milestone_entry(r, today, from, to);
    let mut i: usize = 0;
    while i < milestones.len()
        invariant
            i <= milestones@.len(),
            mf == (|r: MilestoneRow| milestone_entry(r, today, from, to)),
            acc == collect_some(milestones@.take(i as int), mf),
            entry_views(out@) == sort_by_date(acc),
        decreases milestones@.len() - i,
    {
        let row = &milestones[i];
        let ghost pre = milestones@.take(i as int);
        assert(milestones@.take(i + 1).drop_last() =~= pre);
        assert(milestones@.take(i + 1).last() == *row);
        if row.is_hard && !row.completed {
            if let Some(ds) = &row.date {
                if let Some(d) = parse_ymd(ds.as_str()) {
                    if !d.is_before(&from) && !to.is_before(&d) {
                        let e = CommitmentEntry {
                            date: d,
                            title: string_of(&chars_of(row.name.as_str())),
                            source: CommitmentSource::ProjectMilestone(
                                string_of(&chars_of(row.project_slug.as_str())),
                            ),
                            is_overdue: d.is_before(&today),
                        };
                        let Ghost(a) = push_sorted(&mut out, e, Ghost(acc));
                        proof {
                            acc = a;
                        }
                    }
                }
            }
        }
        i = i + 1;
    }
    assert(milestones@.take(milestones@.len() as int) =~= milestones@);
    let ghost base1 = acc;
    let mut s: usize = 0;
    while s < stewardships.len()
        invariant
            s <= stewardships@.len(),
            acc == base1 + stewardship_entries(stewardships@.take(s as int), today, from, to),
            entry_views(out@) == sort_by_date(acc),
        decreases stewardships@.len() - s,
    {
        let st = &stewardships[s];
        let ghost pre = stewardships@.take(s as int);
        assert(stewardships@.take(s + 1).drop_last() =~= pre);
        assert(stewardships@.take(s + 1).last() == *st);
        let ls = lines_exec(&chars_of(st.section.as_str()));
        let ghost lv = views(ls@);
        assert(lv =~= lines(st.section@));
        let ghost pf = |line: Seq<char>| periodic_entry(st.slug@, line, today, from, to);
        let ghost base2 = acc;
        let mut k: usize = 0;
        while k < ls.len()
            invariant
                k <= ls@.len(),
                lv == views(ls@),
                pf == (|line: Seq<char>| periodic_entry(st.slug@, line, today, from, to)),
                acc == base2 + collect_some(lv.take(k as int), pf),
                entry_views(out@) == sort_by_date(acc),
            decreases ls@.len() - k,
        {
            assert(lv.take(k + 1).drop_last() =~= lv.take(k as int));
            assert(lv.take(k + 1).last() == ls@[k as int]@);
            let line = string_of(&ls[k]);
            if let Some((title, d)) = parse_periodic_line(line.as_str()) {
                if !d.is_before(&from) && !to.is_before(&d) {
                    let e = CommitmentEntry {
                        date: d,
                        title,
                        source: CommitmentSource::Stewardship(
                            string_of(&chars_of(st.slug.as_str())),
                        ),
                        is_overdue: d.is_before(&today),
                    };
                    let ghost old_acc = acc;
                    let Ghost(a) = push_sorted(&mut out, e, Ghost(acc));
                    proof {
                        acc = a;
                        assert(acc == base2 + collect_some(lv.take(k + 1), pf));
                    }
                }
            }
            k = k + 1;
        }
        assert(lv.take(lv.len() as int) =~= lv);
        proof {
            assert(stewardship_entries(stewardships@.take(s + 1), today, from, to)
                == stewardship_entries(pre, today, from, to) + collect_some(lv, pf));
        }
        s = s + 1;
    }
    assert(stewardships@.take(stewardships@.len() as int) =~= stewardships@);
    let ghost base3 = acc;
    let ghost cf = |n: CommitmentNote| standalone_entry(n, today, from, to);
    let mut c: usize = 0;
    while c < commitments.len()
        invariant
            c <= commitments@.len(),
            cf == (|n: CommitmentNote| standalone_entry(n, today, from, to)),
            acc == base3 + collect_some(commitments@.take(c as int), cf),
            entry_views(out@) == sort_by_date(acc),
        decreases commitments@.len() - c,
    {
        let note = &commitments[c];
        assert(commitments@.take(c + 1).drop_last() =~= commitments@.take(c as int));
        assert(commitments@.take(c + 1).last() == *note);
        let fm = &note.frontmatter;
        let active = match fm.status {
            CommitmentStatus::Active => true,
            _ => false,
        };
        if active && !fm.due.is_before(&from) && !to.is_before(&fm.due) {
            let e = CommitmentEntry {
                date: fm.due,
                title: body_title_or_slug(note.raw.as_str(), note.slug.as_str()),
                source: CommitmentSource::StandaloneCommitment,
                is_overdue: fm.due.is_before(&today),
            };
            let Ghost(a) = push_sorted(&mut out, e, Ghost(acc));
            proof {
                acc = a;
            }
        }
        c = c + 1;
    }
    assert(commitments@.take(commitments@.len() as int) =~= commitments@);
    let ghost base4 = acc;
    let ghost af = |n: ActionNote| action_entry(n, today, from, to);
    let mut a_i: usize = 0;
    while a_i < actions.len()
        invariant
            a_i <= actions@.len(),
            af == (|n: ActionNote| action_entry(n, today, from, to)),
            acc == base4 + collect_some(actions@.take(a_i as int), af),
            entry_views(out@) == sort_by_date(acc),
        decreases actions@.len() - a_i,
    {
        let note = &actions[a_i];
        assert(actions@.take(a_i + 1).drop_last() =~= actions@.take(a_i as int));
        assert(actions@.take(a_i + 1).last() == *note);
        let fm = &note.frontmatter;
        let active = match fm.status {
            ActionStatus::Active => true,
            _ => false,
        };
        if let Some(due) = fm.due {
            if active && fm.milestone.is_none() && !due.is_before(&from) && !to.is_before(&due) {
                let e = CommitmentEntry {
                    date: due,
                    title: body_title_or_slug(note.raw.as_str(), note.slug.as_str()),
                    source: CommitmentSource::ActionNote(
                        string_of(&chars_of(fm.project.as_str())),
                    ),
                    is_overdue: due.is_before(&today),
                };
                let Ghost(a) = push_sorted(&mut out, e, Ghost(acc));
                proof {
                    acc = a;
                }
            }
        }
        a_i = a_i + 1;
    }
    assert(actions@.take(actions@.len() as int) =~= actions@);
    out
}

/// The window of the commitments view: from the overdue look-back before
/// `today` to `lookahead_days` after it.
pub fn commitment_window(today: Date, lookahead_days: i64) -> (r: (Date, Date))
    requires
        today.wf(),
        -1_000_000_000 <= lookahead_days <= 1_000_000_000,
        crate::date::in_range(today.num() - OVERDUE_LOOKBACK_DAYS),
        crate::date::in_range(today.num() + lookahead_days),
    ensures
        r.0.wf() && r.0.num() == today.num() - OVERDUE_LOOKBACK_DAYS,
        r.1.wf() && r.1.num() == today.num() + lookahead_days,
{
    let from = match add_days(&today, -OVERDUE_LOOKBACK_DAYS) {
        Some(d) => d,
        None => today,
    };
    let to = match add_days(&today, lookahead_days) {
        Some(d) => d,
        None => today,
    };
    (from, to)
}


/// Why rewriting a frontmatter field fails.
pub enum RewriteFault {
    /// The note has no frontmatter block.
    NoFrontmatter,
    /// The block does not assign the field.
    MissingField,
}

/// What rewriting field `f` of the note `raw` to `v` gives, as
/// `rewrite_field_in_frontmatter` does it.
pub open spec fn field_rewrite(raw: Seq<char>, f: Seq<char>, v: Seq<char>) -> Result<
    Seq<char>,
    RewriteFault,
> {
    match frontmatter_close(raw) {
        None => Err(RewriteFault::NoFrontmatter),
        Some(k) => if has_field_from(raw.subrange(4, k + 1), 0, f) {
            Ok(raw.take(4) + rewrite_lines_from(raw.subrange(4, k + 1), 0, f, v) + raw.skip(k + 1))
        } else {
            Err(RewriteFault::MissingField)
        },
    }
}

/// The error that reports a failed rewrite of field `f`.
pub open spec fn rewrite_reports(e: DomainError, fault: RewriteFault, f: Seq<char>) -> bool {
    match fault {
        RewriteFault::NoFrontmatter => e matches DomainError::MissingSection(s) && s@
            == "frontmatter"@,
        RewriteFault::MissingField => e matches DomainError::MissingFrontmatterField(x) && x@ == f,
    }
}

/// What completing a commitment writes: the note with its lifecycle
/// fields set, and the line for the day's log.
#[derive(Debug)]
pub struct CommitmentCompletion {
    pub content: String,
    pub log_entry: String,
}

/// Complete the commitment `slug`, whose note is `raw` and whose status
/// its frontmatter gives, on the day `on`. A commitment that is not active
/// is refused. Otherwise `status` becomes `completed` and `completed`
/// becomes the day, every other line kept, and the log line names the
/// commitment by its body title.
pub fn plan_commitment_completion(raw: &str, slug: &str, status: CommitmentStatus, on: Date) -> (r:
    Result<CommitmentCompletion, DomainError>)
    requires
        on.wf(),
    ensures
        status is Completed ==> (r matches Err(DomainError::CommitmentNotActive(s)) && s@
            == slug@),
        status is Active ==> match field_rewrite(raw@, "status"@, "completed"@) {
            Err(f) => r matches Err(e) && rewrite_reports(e, f, "status"@),
            Ok(a) => match field_rewrite(a, "completed"@, ymd_text(on)) {
                Err(f) => r matches Err(e) && rewrite_reports(e, f, "completed"@),
                Ok(c) => r matches Ok(p) && p.content@ == c && p.log_entry@
                    == "commitment completed [["@ + slug@ + "]] \u{2014} "@ + body_title(c, slug@),
            },
        },
{
    match status {
        CommitmentStatus::Completed => {
            return Err(DomainError::CommitmentNotActive(slug.to_owned()));
        },
        CommitmentStatus::Active => {},
    }
    let after_status = match rewrite_field_in_frontmatter(raw, "status", CommitmentStatus::Completed.as_str()) {
        Ok(t) => t,
        Err(e) => {
            return Err(e);
        },
    };
    let day = string_of(&format_ymd_chars(&on));
    let content = match rewrite_field_in_frontmatter(after_status.as_str(), "completed", day.as_str()) {
        Ok(t) => t,
        Err(e) => {
            return Err(e);
        },
    };
    let title = body_title_or_slug(content.as_str(), slug);
    let log_entry = format_commitment_completed_log_entry(slug, title.as_str());
    Ok(CommitmentCompletion { content, log_entry })
}


/// An entry dated inside `[from, to]` whose overdue flag says whether it
/// falls before `today`.
pub open spec fn entry_placed(e: EntryView, today: Date, from: Date, to: Date) -> bool {
    in_window(e.date, from, to) && e.is_overdue == e.date.lt(today)
}

proof fn lemma_collect_placed<A>(
    s: Seq<A>,
    f: spec_fn(A) -> Option<EntryView>,
    today: Date,
    from: Date,
    to: Date,
)
    requires
        forall|x: A| #[trigger] f(x) matches Some(e) ==> entry_placed(e, today, from, to),
    ensures
        forall|k: int|
            0 <= k < collect_some(s, f).len() ==> entry_placed(
                #[trigger] collect_some(s, f)[k],
                today,
                from,
                to,
            ),
    decreases s.len(),
{
    if s.len() > 0 {
        lemma_collect_placed(s.drop_last(), f, today, from, to);
        let a = collect_some(s.drop_last(), f);
        match f(s.last()) {
            Some(e) => {
                assert(entry_placed(e, today, from, to));
                assert forall|k: int| 0 <= k < a.push(e).len() implies entry_placed(
                    #[trigger] a.push(e)[k],
                    today,
                    from,
                    to,
                ) by {
                    if k < a.len() {
                        assert(a.push(e)[k] == a[k]);
                    }
                }
            },
            None => {},
        }
    }
}

proof fn lemma_stewardships_placed(s: Seq<StewardshipSection>, today: Date, from: Date, to: Date)
    ensures
        forall|k: int|
            0 <= k < stewardship_entries(s, today, from, to).len() ==> entry_placed(
                #[trigger] stewardship_entries(s, today, from, to)[k],
                today,
                from,
                to,
            ),
    decreases s.len(),
{
    if s.len() > 0 {
        let last = s.last();
        let a = stewardship_entries(s.drop_last(), today, from, to);
        let f = |line: Seq<char>| periodic_entry(last.slug@, line, today, from, to);
        let b = collect_some(lines(last.section@), f);
        lemma_stewardships_placed(s.drop_last(), today, from, to);
        lemma_collect_placed(lines(last.section@), f, today, from, to);
        assert forall|k: int| 0 <= k < (a + b).len() implies entry_placed(
            #[trigger] (a + b)[k],
            today,
            from,
            to,
        ) by {
            if k < a.len() {
                assert((a + b)[k] == a[k]);
            } else {
                assert((a + b)[k] == b[k - a.len()]);
            }
        }
    }
}

/// The aggregated commitments are sorted by date, every one of them is
/// dated inside `[from, to]`, and each is overdue exactly when it falls
/// before `today`.
pub proof fn lemma_commitments_placed(
    today: Date,
    from: Date,
    to: Date,
    milestones: Seq<MilestoneRow>,
    stewardships: Seq<StewardshipSection>,
    commitments: Seq<CommitmentNote>,
    actions: Seq<ActionNote>,
)
    ensures
        ({
            let r = sort_by_date(
                collected_commitments(today, from, to, milestones, stewardships, commitments, actions),
            );
            &&& sorted_by_date(r)
            &&& forall|k: int| 0 <= k < r.len() ==> entry_placed(#[trigger] r[k], today, from, to)
        }),
{
    broadcast use vstd::seq_lib::group_to_multiset_ensures;

    let f1 = |r: MilestoneRow| milestone_entry(r, today, from, to);
    let f3 = |n: CommitmentNote| standalone_entry(n, today, from, to);
    let f4 = |n: ActionNote| action_entry(n, today, from, to);
    lemma_collect_placed(milestones, f1, today, from, to);
    lemma_stewardships_placed(stewardships, today, from, to);
    lemma_collect_placed(commitments, f3, today, from, to);
    lemma_collect_placed(actions, f4, today, from, to);
    let a = collect_some(milestones, f1);
    let b = stewardship_entries(stewardships, today, from, to);
    let c = collect_some(commitments, f3);
    let d = collect_some(actions, f4);
    let all = collected_commitments(today, from, to, milestones, stewardships, commitments, actions);
    assert(all == a + b + c + d);
    assert forall|k: int| 0 <= k < all.len() implies entry_placed(#[trigger] all[k], today, from, to) by {
        if k < a.len() {
            assert(all[k] == a[k]);
        } else if k < a.len() + b.len() {
            assert(all[k] == b[k - a.len()]);
        } else if k < a.len() + b.len() + c.len() {
            assert(all[k] == c[k - a.len() - b.len()]);
        } else {
            assert(all[k] == d[k - a.len() - b.len() - c.len()]);
        }
    }
    lemma_sort_by_date(all);
    let r = sort_by_date(all);
    assert forall|k: int| 0 <= k < r.len() implies entry_placed(#[trigger] r[k], today, from, to) by {
        assert(r.to_multiset().count(r[k]) > 0);
        assert(all.to_multiset().count(r[k]) > 0);
        assert(all.contains(r[k]));
        let j = choose|j: int| 0 <= j < all.len() && all[j] == r[k];
        assert(entry_placed(all[j], today, from, to));
    }
}


proof fn lemma_collect_all<A>(s: Seq<A>, f: spec_fn(A) -> Option<EntryView>, p: spec_fn(EntryView) -> bool)
    requires
        forall|x: A| #[trigger] f(x) matches Some(e) ==> p(e),
    ensures
        forall|k: int| 0 <= k < collect_some(s, f).len() ==> p(#[trigger] collect_some(s, f)[k]),
    decreases s.len(),
{
    if s.len() > 0 {
        lemma_collect_all(s.drop_last(), f, p);
        let a = collect_some(s.drop_last(), f);
        match f(s.last()) {
            Some(e) => {
                assert forall|k: int| 0 <= k < a.push(e).len() implies p(#[trigger] a.push(e)[k]) by {
                    if k < a.len() {
                        assert(a.push(e)[k] == a[k]);
                    }
                }
            },
            None => {},
        }
    }
}

/// Some item of `s` gives `e`.
spec fn given_by<A>(s: Seq<A>, f: spec_fn(A) -> Option<EntryView>, e: EntryView) -> bool {
    exists|j: int| 0 <= j < s.len() && f(#[trigger] s[j]) == Some(e)
}

/// Every collected entry comes from some item of the source.
proof fn lemma_collect_from<A>(s: Seq<A>, f: spec_fn(A) -> Option<EntryView>)
    ensures
        forall|k: int|
            0 <= k < collect_some(s, f).len() ==> given_by(s, f, #[trigger] collect_some(s, f)[k]),
    decreases s.len(),
{
    if s.len() > 0 {
        let t = s.drop_last();
        lemma_collect_from(t, f);
        let a = collect_some(t, f);
        let c = collect_some(s, f);
        assert forall|k: int| 0 <= k < c.len() implies given_by(s, f, #[trigger] c[k]) by {
            if k < a.len() {
                assert(c[k] == a[k]);
                let j = choose|j: int| 0 <= j < t.len() && f(#[trigger] t[j]) == Some(a[k]);
                assert(s[j] == t[j]);
            } else {
                let j = s.len() - 1;
                assert(s[j] == s.last());
            }
        }
    }
}

proof fn lemma_stewardships_source(s: Seq<StewardshipSection>, today: Date, from: Date, to: Date)
    ensures
        forall|k: int|
            0 <= k < stewardship_entries(s, today, from, to).len() ==> (
            #[trigger] stewardship_entries(s, today, from, to)[k]).source is Stewardship,
    decreases s.len(),
{
    if s.len() > 0 {
        let last = s.last();
        let a = stewardship_entries(s.drop_last(), today, from, to);
        let f = |line: Seq<char>| periodic_entry(last.slug@, line, today, from, to);
        let b = collect_some(lines(last.section@), f);
        lemma_stewardships_source(s.drop_last(), today, from, to);
        lemma_collect_all(lines(last.section@), f, |e: EntryView| e.source is Stewardship);
        assert forall|k: int| 0 <= k < (a + b).len() implies (#[trigger] (a + b)[k]).source is Stewardship by {
            if k < a.len() {
                assert((a + b)[k] == a[k]);
            } else {
                assert((a + b)[k] == b[k - a.len()]);
            }
        }
    }
}

/// Only open hard milestones are commitments: every aggregated entry that
/// names a project milestone comes from a milestone row that is hard and
/// not completed, with that row's project, name and date.
pub proof fn lemma_milestone_entries_open(
    today: Date,
    from: Date,
    to: Date,
    milestones: Seq<MilestoneRow>,
    stewardships: Seq<StewardshipSection>,
    commitments: Seq<CommitmentNote>,
    actions: Seq<ActionNote>,
)
    ensures
        ({
            let r = sort_by_date(
                collected_commitments(today, from, to, milestones, stewardships, commitments, actions),
            );
            forall|k: int|
                0 <= k < r.len() && (#[trigger] r[k]).source is ProjectMilestone ==> exists|j: int|
                    0 <= j < milestones.len() && milestones[j].is_hard && !milestones[j].completed
                        && r[k].source == SourceView::ProjectMilestone(milestones[j].project_slug@)
                        && r[k].title == milestones[j].name@ && (milestones[j].date matches Some(ds)
                        && chrono_parse_ymd(ds@) == Some(r[k].date))
        }),
{
    broadcast use vstd::seq_lib::group_to_multiset_ensures;

    let f1 = |r: MilestoneRow| milestone_entry(r, today, from, to);
    let f3 = |n: CommitmentNote| standalone_entry(n, today, from, to);
    let f4 = |n: ActionNote| action_entry(n, today, from, to);
    let a = collect_some(milestones, f1);
    let b = stewardship_entries(stewardships, today, from, to);
    let c = collect_some(commitments, f3);
    let d = collect_some(actions, f4);
    lemma_collect_from(milestones, f1);
    lemma_stewardships_source(stewardships, today, from, to);
    lemma_collect_all(commitments, f3, |e: EntryView| e.source is StandaloneCommitment);
    lemma_collect_all(actions, f4, |e: EntryView| e.source is ActionNote);
    let all = collected_commitments(today, from, to, milestones, stewardships, commitments, actions);
    assert(all == a + b + c + d);
    let good = |e: EntryView| exists|j: int|
        0 <= j < milestones.len() && milestones[j].is_hard && !milestones[j].completed
            && e.source == SourceView::ProjectMilestone(milestones[j].project_slug@)
            && e.title == milestones[j].name@ && (milestones[j].date matches Some(ds)
            && chrono_parse_ymd(ds@) == Some(e.date));
    assert forall|k: int| 0 <= k < all.len() && (#[trigger] all[k]).source is ProjectMilestone implies good(all[k]) by {
        if k < a.len() {
            assert(all[k] == a[k]);
            let j = choose|j: int| 0 <= j < milestones.len() && f1(#[trigger] milestones[j]) == Some(a[k]);
            assert(milestone_entry(milestones[j], today, from, to) == Some(a[k]));
        } else if k < a.len() + b.len() {
            assert(all[k] == b[k - a.len()]);
        } else if k < a.len() + b.len() + c.len() {
            assert(all[k] == c[k - a.len() - b.len()]);
        } else {
            assert(all[k] == d[k - a.len() - b.len() - c.len()]);
        }
    }
    lemma_sort_by_date(all);
    let r = sort_by_date(all);
    assert forall|k: int| 0 <= k < r.len() && (#[trigger] r[k]).source is ProjectMilestone implies good(r[k]) by {
        assert(r.to_multiset().count(r[k]) > 0);
        assert(all.to_multiset().count(r[k]) > 0);
        assert(all.contains(r[k]));
        let j = choose|j: int| 0 <= j < all.len() && all[j] == r[k];
        assert(good(all[j]));
    }
}


/// Where an aggregated entry can come from, by its source: an open hard
/// milestone of that project with that name and date; a periodic line
/// with that title and date in that stewardship's section; an active
/// standalone commitment due that day with that title; or an active
/// action of that project, pinned to no milestone, due that day with that
/// title.
pub open spec fn entry_from_sources(
    e: EntryView,
    milestones: Seq<MilestoneRow>,
    stewardships: Seq<StewardshipSection>,
    commitments: Seq<CommitmentNote>,
    actions: Seq<ActionNote>,
) -> bool {
    match e.source {
        SourceView::ProjectMilestone(p) => exists|j: int|
            0 <= j < milestones.len() && (#[trigger] milestones[j]).is_hard && !milestones[j].completed
                && p == milestones[j].project_slug@ && e.title == milestones[j].name@ && (
            milestones[j].date matches Some(ds) && chrono_parse_ymd(ds@) == Some(e.date)),
        SourceView::Stewardship(slug) => exists|j: int, l: int|
            0 <= j < stewardships.len() && stewardships[j].slug@ == slug && 0 <= l < lines(
                stewardships[j].section@,
            ).len() && periodic_line(#[trigger] lines(stewardships[j].section@)[l]) == Some(
                (e.title, e.date),
            ),
        SourceView::StandaloneCommitment => exists|j: int|
            0 <= j < commitments.len() && (#[trigger] commitments[j]).frontmatter.status
                == CommitmentStatus::Active && commitments[j].frontmatter.due == e.date && e.title
                == body_title(commitments[j].raw@, commitments[j].slug@),
        SourceView::ActionNote(p) => exists|j: int|
            0 <= j < actions.len() && (#[trigger] actions[j]).frontmatter.status == ActionStatus::Active
                && actions[j].frontmatter.milestone is None && actions[j].frontmatter.due == Some(
                e.date,
            ) && p == actions[j].frontmatter.project@ && e.title == body_title(
                actions[j].raw@,
                actions[j].slug@,
            ),
    }
}

proof fn lemma_stewardship_provenance(
    s: Seq<StewardshipSection>,
    today: Date,
    from: Date,
    to: Date,
    ms: Seq<MilestoneRow>,
    cs: Seq<CommitmentNote>,
    acts: Seq<ActionNote>,
)
    ensures
        forall|k: int|
            0 <= k < stewardship_entries(s, today, from, to).len() ==> entry_from_sources(
                #[trigger] stewardship_entries(s, today, from, to)[k],
                ms,
                s,
                cs,
                acts,
            ),
    decreases s.len(),
{
    if s.len() > 0 {
        let t = s.drop_last();
        let last = s.last();
        let a = stewardship_entries(t, today, from, to);
        let f = |line: Seq<char>| periodic_entry(last.slug@, line, today, from, to);
        let ls = lines(last.section@);
        let b = collect_some(ls, f);
        lemma_stewardship_provenance(t, today, from, to, ms, cs, acts);
        lemma_collect_from(ls, f);
        assert forall|k: int| 0 <= k < (a + b).len() implies entry_from_sources(
            #[trigger] (a + b)[k],
            ms,
            s,
            cs,
            acts,
        ) by {
            if k < a.len() {
                assert((a + b)[k] == a[k]);
                assert(entry_from_sources(a[k], ms, t, cs, acts));
                let e = a[k];
                if let SourceView::Stewardship(slug) = e.source {
                    let (j, l) = choose|j: int, l: int|
                        0 <= j < t.len() && t[j].slug@ == slug && 0 <= l < lines(t[j].section@).len()
                            && periodic_line(#[trigger] lines(t[j].section@)[l]) == Some(
                            (e.title, e.date),
                        );
                    assert(s[j] == t[j]);
                    assert(periodic_line(lines(s[j].section@)[l]) == Some((e.title, e.date)));
                }
            } else {
                let e = b[k - a.len()];
                assert((a + b)[k] == e);
                assert(given_by(ls, f, b[k - a.len()]));
                let l = choose|l: int| 0 <= l < ls.len() && f(#[trigger] ls[l]) == Some(e);
                let j = s.len() - 1;
                assert(s[j] == last);
            }
        }
    }
}

/// Every aggregated commitment comes from its source: see
/// [`entry_from_sources`]. Completed or soft milestones, commitments and
/// actions that are not active, and milestone-pinned actions never show.
pub proof fn lemma_commitment_provenance(
    today: Date,
    from: Date,
    to: Date,
    milestones: Seq<MilestoneRow>,
    stewardships: Seq<StewardshipSection>,
    commitments: Seq<CommitmentNote>,
    actions: Seq<ActionNote>,
)
    ensures
        ({
            let r = sort_by_date(
                collected_commitments(today, from, to, milestones, stewardships, commitments, actions),
            );
            forall|k: int|
                0 <= k < r.len() ==> entry_from_sources(
                    #[trigger] r[k],
                    milestones,
                    stewardships,
                    commitments,
                    actions,
                )
        }),
{
    broadcast use vstd::seq_lib::group_to_multiset_ensures;

    let f1 = |r: MilestoneRow| milestone_entry(r, today, from, to);
    let f3 = |n: CommitmentNote| standalone_entry(n, today, from, to);
    let f4 = |n: ActionNote| action_entry(n, today, from, to);
    let a = collect_some(milestones, f1);
    let b = stewardship_entries(stewardships, today, from, to);
    let c = collect_some(commitments, f3);
    let d = collect_some(actions, f4);
    lemma_collect_from(milestones, f1);
    lemma_stewardship_provenance(stewardships, today, from, to, milestones, commitments, actions);
    lemma_collect_from(commitments, f3);
    lemma_collect_from(actions, f4);
    let all = collected_commitments(today, from, to, milestones, stewardships, commitments, actions);
    assert(all == a + b + c + d);
    assert forall|k: int| 0 <= k < all.len() implies entry_from_sources(
        #[trigger] all[k],
        milestones,
        stewardships,
        commitments,
        actions,
    ) by {
        if k < a.len() {
            assert(all[k] == a[k]);
            assert(given_by(milestones, f1, a[k]));
            let j = choose|j: int| 0 <= j < milestones.len() && f1(#[trigger] milestones[j]) == Some(a[k]);
            assert(milestone_entry(milestones[j], today, from, to) == Some(a[k]));
        } else if k < a.len() + b.len() {
            assert(all[k] == b[k - a.len()]);
        } else if k < a.len() + b.len() + c.len() {
            assert(all[k] == c[k - a.len() - b.len()]);
            assert(given_by(commitments, f3, c[k - a.len() - b.len()]));
            let j = choose|j: int|
                0 <= j < commitments.len() && f3(#[trigger] commitments[j]) == Some(c[k - a.len() - b.len()]);
            assert(standalone_entry(commitments[j], today, from, to) == Some(all[k]));
        } else {
            assert(all[k] == d[k - a.len() - b.len() - c.len()]);
            assert(given_by(actions, f4, d[k - a.len() - b.len() - c.len()]));
            let j = choose|j: int|
                0 <= j < actions.len() && f4(#[trigger] actions[j]) == Some(d[k - a.len() - b.len() - c.len()]);
            assert(action_entry(actions[j], today, from, to) == Some(all[k]));
        }
    }
    lemma_sort_by_date(all);
    let r = sort_by_date(all);
    assert forall|k: int| 0 <= k < r.len() implies entry_from_sources(
        #[trigger] r[k],
        milestones,
        stewardships,
        commitments,
        actions,
    ) by {
        assert(r.to_multiset().count(r[k]) > 0);
        assert(all.to_multiset().count(r[k]) > 0);
        assert(all.contains(r[k]));
        let j = choose|j: int| 0 <= j < all.len() && all[j] == r[k];
        assert(entry_from_sources(all[j], milestones, stewardships, commitments, actions));
    }
}


proof fn lemma_collect_has<A>(s: Seq<A>, f: spec_fn(A) -> Option<EntryView>, j: int)
    requires
        0 <= j < s.len(),
        f(s[j]) is Some,
    ensures
        collect_some(s, f).contains(f(s[j])->Some_0),
    decreases s.len(),
{
    let t = s.drop_last();
    if j < s.len() - 1 {
        assert(t[j] == s[j]);
        lemma_collect_has(t, f, j);
        let c = collect_some(t, f);
        let k = choose|k: int| 0 <= k < c.len() && c[k] == f(s[j])->Some_0;
        match f(s.last()) {
            Some(e) => {
                assert(c.push(e)[k] == c[k]);
            },
            None => {},
        }
    } else {
        let c = collect_some(t, f);
        assert(c.push(f(s[j])->Some_0)[c.len() as int] == f(s[j])->Some_0);
    }
}

proof fn lemma_stewardship_has(s: Seq<StewardshipSection>, today: Date, from: Date, to: Date, j: int, l: int)
    requires
        0 <= j < s.len(),
        0 <= l < lines(s[j].section@).len(),
        periodic_entry(s[j].slug@, lines(s[j].section@)[l], today, from, to) is Some,
    ensures
        stewardship_entries(s, today, from, to).contains(
            periodic_entry(s[j].slug@, lines(s[j].section@)[l], today, from, to)->Some_0,
        ),
    decreases s.len(),
{
    let t = s.drop_last();
    let last = s.last();
    let a = stewardship_entries(t, today, from, to);
    let f = |line: Seq<char>| periodic_entry(last.slug@, line, today, from, to);
    let b = collect_some(lines(last.section@), f);
    let e = periodic_entry(s[j].slug@, lines(s[j].section@)[l], today, from, to)->Some_0;
    if j < s.len() - 1 {
        assert(t[j] == s[j]);
        lemma_stewardship_has(t, today, from, to, j, l);
        let k = choose|k: int| 0 <= k < a.len() && a[k] == e;
        assert((a + b)[k] == a[k]);
    } else {
        assert(s[j] == last);
        lemma_collect_has(lines(last.section@), f, l);
        let k = choose|k: int| 0 <= k < b.len() && b[k] == e;
        assert((a + b)[a.len() + k] == b[k]);
    }
}

/// Every commitment of a source that is due inside `[from, to]` shows up:
/// each open hard milestone with a readable date, each periodic line of a
/// stewardship, each active standalone commitment, and each active action
/// that is pinned to no milestone.
pub proof fn lemma_commitments_complete(
    today: Date,
    from: Date,
    to: Date,
    milestones: Seq<MilestoneRow>,
    stewardships: Seq<StewardshipSection>,
    commitments: Seq<CommitmentNote>,
    actions: Seq<ActionNote>,
)
    ensures
        ({
            let r = sort_by_date(
                collected_commitments(today, from, to, milestones, stewardships, commitments, actions),
            );
            &&& forall|j: int|
                0 <= j < milestones.len() && (#[trigger] milestones[j]).is_hard
                    && !milestones[j].completed ==> match milestones[j].date {
                    Some(ds) => match chrono_parse_ymd(ds@) {
                        Some(d) => in_window(d, from, to) ==> r.contains(
                            EntryView {
                                date: d,
                                title: milestones[j].name@,
                                source: SourceView::ProjectMilestone(milestones[j].project_slug@),
                                is_overdue: d.lt(today),
                            },
                        ),
                        None => true,
                    },
                    None => true,
                }
            &&& forall|j: int, l: int|
                0 <= j < stewardships.len() && 0 <= l < lines(stewardships[j].section@).len()
                    ==> match periodic_line(#[trigger] lines(stewardships[j].section@)[l]) {
                    Some((t, d)) => in_window(d, from, to) ==> r.contains(
                        EntryView {
                            date: d,
                            title: t,
                            source: SourceView::Stewardship(stewardships[j].slug@),
                            is_overdue: d.lt(today),
                        },
                    ),
                    None => true,
                }
            &&& forall|j: int|
                0 <= j < commitments.len() && (#[trigger] commitments[j]).frontmatter.status
                    == CommitmentStatus::Active && in_window(commitments[j].frontmatter.due, from, to)
                    ==> r.contains(
                    EntryView {
                        date: commitments[j].frontmatter.due,
                        title: body_title(commitments[j].raw@, commitments[j].slug@),
                        source: SourceView::StandaloneCommitment,
                        is_overdue: commitments[j].frontmatter.due.lt(today),
                    },
                )
            &&& forall|j: int|
                0 <= j < actions.len() && (#[trigger] actions[j]).frontmatter.status
                    == ActionStatus::Active && actions[j].frontmatter.milestone is None ==> match actions[j].frontmatter.due {
                    Some(d) => in_window(d, from, to) ==> r.contains(
                        EntryView {
                            date: d,
                            title: body_title(actions[j].raw@, actions[j].slug@),
                            source: SourceView::ActionNote(actions[j].frontmatter.project@),
                            is_overdue: d.lt(today),
                        },
                    ),
                    None => true,
                }
        }),
{
    broadcast use vstd::seq_lib::group_to_multiset_ensures;

    let f1 = |r: MilestoneRow| milestone_entry(r, today, from, to);
    let f3 = |n: CommitmentNote| standalone_entry(n, today, from, to);
    let f4 = |n: ActionNote| action_entry(n, today, from, to);
    let a = collect_some(milestones, f1);
    let b = stewardship_entries(stewardships, today, from, to);
    let c = collect_some(commitments, f3);
    let d = collect_some(actions, f4);
    let all = collected_commitments(today, from, to, milestones, stewardships, commitments, actions);
    assert(all == a + b + c + d);
    lemma_sort_by_date(all);
    let r = sort_by_date(all);
    assert forall|e: EntryView| all.contains(e) implies r.contains(e) by {
        let k = choose|k: int| 0 <= k < all.len() && all[k] == e;
        assert(all.to_multiset().count(e) > 0);
        assert(r.to_multiset().count(e) > 0);
    }
    assert forall|j: int| 0 <= j < milestones.len() && #[trigger] f1(milestones[j]) is Some implies r.contains(
        f1(milestones[j])->Some_0,
    ) by {
        lemma_collect_has(milestones, f1, j);
        let e = f1(milestones[j])->Some_0;
        let k = choose|k: int| 0 <= k < a.len() && a[k] == e;
        assert(all[k] == a[k]);
    }
    assert forall|j: int, l: int|
        0 <= j < stewardships.len() && 0 <= l < lines(stewardships[j].section@).len()
            && (#[trigger] periodic_entry(stewardships[j].slug@, lines(stewardships[j].section@)[l], today, from, to)) is Some
        implies r.contains(
        periodic_entry(stewardships[j].slug@, lines(stewardships[j].section@)[l], today, from, to)->Some_0,
    ) by {
        lemma_stewardship_has(stewardships, today, from, to, j, l);
        let e = periodic_entry(stewardships[j].slug@, lines(stewardships[j].section@)[l], today, from, to)->Some_0;
        let k = choose|k: int| 0 <= k < b.len() && b[k] == e;
        assert(all[a.len() + k] == b[k]);
    }
    assert forall|j: int| 0 <= j < commitments.len() && #[trigger] f3(commitments[j]) is Some implies r.contains(
        f3(commitments[j])->Some_0,
    ) by {
        lemma_collect_has(commitments, f3, j);
        let e = f3(commitments[j])->Some_0;
        let k = choose|k: int| 0 <= k < c.len() && c[k] == e;
        assert(all[a.len() + b.len() + k] == c[k]);
    }
    assert forall|j: int| 0 <= j < actions.len() && #[trigger] f4(actions[j]) is Some implies r.contains(
        f4(actions[j])->Some_0,
    ) by {
        lemma_collect_has(actions, f4, j);
        let e = f4(actions[j])->Some_0;
        let k = choose|k: int| 0 <= k < d.len() && d[k] == e;
        assert(all[a.len() + b.len() + c.len() + k] == d[k]);
    }
    assert forall|j: int|
        0 <= j < milestones.len() && (#[trigger] milestones[j]).is_hard && !milestones[j].completed
        implies match milestones[j].date {
        Some(ds) => match chrono_parse_ymd(ds@) {
            Some(dd) => in_window(dd, from, to) ==> r.contains(
                EntryView {
                    date: dd,
                    title: milestones[j].name@,
                    source: SourceView::ProjectMilestone(milestones[j].project_slug@),
                    is_overdue: dd.lt(today),
                },
            ),
            None => true,
        },
        None => true,
    } by {
        let _ = f1(milestones[j]);
    }
    assert forall|j: int, l: int|
        0 <= j < stewardships.len() && 0 <= l < lines(stewardships[j].section@).len() implies match periodic_line(
        #[trigger] lines(stewardships[j].section@)[l],
    ) {
        Some((t, dd)) => in_window(dd, from, to) ==> r.contains(
            EntryView {
                date: dd,
                title: t,
                source: SourceView::Stewardship(stewardships[j].slug@),
                is_overdue: dd.lt(today),
            },
        ),
        None => true,
    } by {
        let _ = periodic_entry(stewardships[j].slug@, lines(stewardships[j].section@)[l], today, from, to);
    }
    assert forall|j: int|
        0 <= j < commitments.len() && (#[trigger] commitments[j]).frontmatter.status
            == CommitmentStatus::Active && in_window(commitments[j].frontmatter.due, from, to)
        implies r.contains(
        EntryView {
            date: commitments[j].frontmatter.due,
            title: body_title(commitments[j].raw@, commitments[j].slug@),
            source: SourceView::StandaloneCommitment,
            is_overdue: commitments[j].frontmatter.due.lt(today),
        },
    ) by {
        let _ = f3(commitments[j]);
    }
    assert forall|j: int|
        0 <= j < actions.len() && (#[trigger] actions[j]).frontmatter.status == ActionStatus::Active
            && actions[j].frontmatter.milestone is None implies match actions[j].frontmatter.due {
        Some(dd) => in_window(dd, from, to) ==> r.contains(
            EntryView {
                date: dd,
                title: body_title(actions[j].raw@, actions[j].slug@),
                source: SourceView::ActionNote(actions[j].frontmatter.project@),
                is_overdue: dd.lt(today),
            },
        ),
        None => true,
    } by {
        let _ = f4(actions[j]);
    }
}

} // verus!

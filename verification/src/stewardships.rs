//! Stewardships: perpetual responsibilities, stored flat
//! (`stewardships/<slug>.md`) or expanded (`stewardships/<slug>/_index.md`
//! with tracking notes beside it). Vault paths are `/`-separated,
//! relative and normalised: no empty, `.` or `..` component.

use vstd::prelude::*;

use crate::date::{days_between, format_ymd_chars, ymd_text, Date};
use crate::error::DomainError;
use crate::frontmatter::{Context, StewardshipFrontmatter, TrackingFrontmatter};
use crate::recurrence::Recurrence;
use crate::slug::{slugify, slugify_spec};
use crate::text::{
    chars_of, eq_exec, lemma_rfind_upto, lines, lines_exec, push_all, rfind, rfind_exec, seq_lt,
    seq_lt_exec, slice_of, string_of, strip_prefix, strip_prefix_exec, trim, trim_of, trim_start,
    trim_start_of, views,
};

verus! {

/// Heading of the periodic-commitment section of a dashboard.
pub const PERIODIC_COMMITMENTS_SECTION: &'static str = "Periodic Commitments";

/// Which on-disk variant a stewardship lives as.
#[derive(Debug, Clone, Copy, PartialEq, Eq)]
pub enum StewardshipVariant {
    /// `stewardships/<slug>.md`: a single file.
    Flat,
    /// `stewardships/<slug>/_index.md`: a folder with tracking notes.
    Expanded,
}

/// The last component of a path.
pub open spec fn file_name(path: Seq<char>) -> Seq<char> {
    match rfind(path, seq!['/']) {
        Some(i) => path.skip(i + 1),
        None => path,
    }
}

/// The path without its last component.
pub open spec fn parent(path: Seq<char>) -> Seq<char> {
    match rfind(path, seq!['/']) {
        Some(i) => path.take(i),
        None => Seq::empty(),
    }
}

/// A file name without its extension (the part from the last `.` that is
/// not the first character).
pub open spec fn file_stem(name: Seq<char>) -> Seq<char> {
    match rfind(name, seq!['.']) {
        Some(i) => if i == 0 {
            name
        } else {
            name.take(i)
        },
        None => name,
    }
}

pub fn file_name_of(path: &Vec<char>) -> (r: Vec<char>)
    ensures
        r@ == file_name(path@),
{
    let slash = vec!['/'];
    assert(slash@ =~= seq!['/']);
    let n = path.len();
    match rfind_exec(path, &slash) {
        Some(i) => {
            proof {
                lemma_rfind_upto(path@, slash@, path@.len() - 1);
            }
            slice_of(path, i + 1, path.len())
        },
        None => path.clone(),
    }
}

pub fn parent_of(path: &Vec<char>) -> (r: Vec<char>)
    ensures
        r@ == parent(path@),
{
    let slash = vec!['/'];
    assert(slash@ =~= seq!['/']);
    let n = path.len();
    match rfind_exec(path, &slash) {
        Some(i) => {
            proof {
                lemma_rfind_upto(path@, slash@, path@.len() - 1);
            }
            slice_of(path, 0, i)
        },
        None => Vec::new(),
    }
}

pub fn file_stem_of(name: &Vec<char>) -> (r: Vec<char>)
    ensures
        r@ == file_stem(name@),
{
    let dot = vec!['.'];
    assert(dot@ =~= seq!['.']);
    let n = name.len();
    match rfind_exec(name, &dot) {
        Some(i) => {
            proof {
                lemma_rfind_upto(name@, dot@, name@.len() - 1);
            }
            if i == 0 {
                name.clone()
            } else {
                slice_of(name, 0, i)
            }
        },
        None => name.clone(),
    }
}

/// The slug of a stewardship: the folder name of an expanded dashboard,
/// the file stem of a flat one.
pub open spec fn stewardship_slug(path: Seq<char>) -> Seq<char> {
    if file_name(path) == "_index.md"@ {
        file_name(parent(path))
    } else {
        file_stem(file_name(path))
    }
}

pub open spec fn stewardship_variant(path: Seq<char>) -> StewardshipVariant {
    if file_name(path) == "_index.md"@ {
        StewardshipVariant::Expanded
    } else {
        StewardshipVariant::Flat
    }
}

/// Extract the slug from a stewardship's path, flat or expanded.
pub fn stewardship_slug_from_path(path: &str) -> (r: String)
    ensures
        r@ == stewardship_slug(path@),
{
    let p = chars_of(path);
    let name = file_name_of(&p);
    if eq_exec(&name, &chars_of("_index.md")) {
        string_of(&file_name_of(&parent_of(&p)))
    } else {
        string_of(&file_stem_of(&name))
    }
}

/// The variant a stewardship path names: `_index.md` is expanded.
pub fn stewardship_variant_from_path(path: &str) -> (r: StewardshipVariant)
    ensures
        r == stewardship_variant(path@),
{
    let name = file_name_of(&chars_of(path));
    if eq_exec(&name, &chars_of("_index.md")) {
        StewardshipVariant::Expanded
    } else {
        StewardshipVariant::Flat
    }
}

/// The first ATX H1 of a list of lines (indentation allowed), trimmed.
pub open spec fn first_h1(ls: Seq<Seq<char>>) -> Option<Seq<char>>
    decreases ls.len(),
{
    if ls.len() == 0 {
        None
    } else {
        match strip_prefix(trim_start(ls[0]), "# "@) {
            Some(rest) => Some(trim(rest)),
            None => first_h1(ls.drop_first()),
        }
    }
}

pub open spec fn h1_of(body: Seq<char>) -> Seq<char> {
    match first_h1(lines(body)) {
        Some(t) => t,
        None => Seq::empty(),
    }
}

/// The text of the first `# ` heading of a body; empty when there is
/// none.
pub fn extract_h1(body: &str) -> (r: String)
    ensures
        r@ == h1_of(body@),
{
    let ls = lines_exec(&chars_of(body));
    let ghost lv = views(ls@);
    assert(lv =~= lines(body@));
    assert(lv.skip(0) =~= lv);
    let mut i: usize = 0;
    while i < ls.len()
        invariant
            i <= ls@.len(),
            lv == views(ls@),
            lv == lines(body@),
            first_h1(lv) == first_h1(lv.skip(i as int)),
        decreases ls@.len() - i,
    {
        let ghost rest = lv.skip(i as int);
        assert(rest[0] == ls@[i as int]@);
        assert(rest.drop_first() == lv.skip(i + 1));
        let t = trim_start_of(&ls[i]);
        if let Some(r) = strip_prefix_exec(&t, &chars_of("# ")) {
            return string_of(&trim_of(&r));
        }
        i = i + 1;
    }
    string_of(&Vec::new())
}

/// The slug and the two candidate paths of a stewardship.
pub struct StewardshipPaths {
    pub slug: String,
    pub flat: String,
    pub expanded: String,
}

/// The slug and both on-disk paths for a stewardship name; a blank name
/// is refused.
pub fn stewardship_paths(name: &str) -> (r: Result<StewardshipPaths, DomainError>)
    ensures
        trim(name@).len() == 0 ==> (r matches Err(DomainError::EmptyField { field: f }) && f@
            == "name"@),
        trim(name@).len() > 0 ==> ({
            let slug = slugify_spec(trim(name@));
            r matches Ok(p) && p.slug@ == slug && p.flat@ == "stewardships/"@ + slug + ".md"@
                && p.expanded@ == "stewardships/"@ + slug + "/_index.md"@
        }),
{
    let t = trim_of(&chars_of(name));
    if t.len() == 0 {
        return Err(DomainError::EmptyField { field: "name" });
    }
    let slug = slugify(string_of(&t).as_str());
    let sc = chars_of(slug.as_str());
    let mut flat = chars_of("stewardships/");
    push_all(&mut flat, &sc);
    push_all(&mut flat, &chars_of(".md"));
    let mut expanded = chars_of("stewardships/");
    push_all(&mut expanded, &sc);
    push_all(&mut expanded, &chars_of("/_index.md"));
    Ok(StewardshipPaths { slug, flat: string_of(&flat), expanded: string_of(&expanded) })
}

/// Which variant a slug resolves to, from which of its two paths exist.
/// Both existing is ambiguous; neither is not found, the message naming
/// both candidates followed by `hint`.
pub fn resolve_stewardship_variant(
    slug: &str,
    flat_exists: bool,
    expanded_exists: bool,
    hint: &str,
) -> (r: Result<StewardshipVariant, DomainError>)
    ensures
        flat_exists && expanded_exists ==> (r matches Err(DomainError::AmbiguousSlug(s)) && s@
            == slug@),
        flat_exists && !expanded_exists ==> r == Ok::<_, DomainError>(StewardshipVariant::Flat),
        !flat_exists && expanded_exists ==> r == Ok::<_, DomainError>(
            StewardshipVariant::Expanded,
        ),
        !flat_exists && !expanded_exists ==> (r matches Err(DomainError::NotFound(m)) && m@
            == "stewardships/"@ + slug@ + "(.md or /_index.md)"@ + hint@),
{
    if flat_exists && expanded_exists {
        Err(DomainError::AmbiguousSlug(slug.to_owned()))
    } else if flat_exists {
        Ok(StewardshipVariant::Flat)
    } else if expanded_exists {
        Ok(StewardshipVariant::Expanded)
    } else {
        let mut m = chars_of("stewardships/");
        push_all(&mut m, &chars_of(slug));
        push_all(&mut m, &chars_of("(.md or /_index.md)"));
        push_all(&mut m, &chars_of(hint));
        Err(DomainError::NotFound(string_of(&m)))
    }
}

/// The `## Periodic Commitments` line of a new periodic commitment:
/// `- {title} — {recurrence} — next: YYYY-MM-DD` and a newline. A blank
/// title is refused.
pub fn periodic_commitment_line(title: &str, recurrence: Recurrence, next_date: Date) -> (r: Result<
    String,
    DomainError,
>)
    requires
        next_date.wf(),
    ensures
        trim(title@).len() == 0 ==> (r matches Err(DomainError::EmptyField { field: f }) && f@
            == "title"@),
        trim(title@).len() > 0 ==> (r matches Ok(s) && s@ == "- "@ + trim(title@) + " \u{2014} "@
            + recurrence.text() + " \u{2014} next: "@ + ymd_text(next_date) + "\n"@),
{
    let t = trim_of(&chars_of(title));
    if t.len() == 0 {
        return Err(DomainError::EmptyField { field: "title" });
    }
    let mut v = chars_of("- ");
    push_all(&mut v, &t);
    push_all(&mut v, &chars_of(" \u{2014} "));
    push_all(&mut v, &chars_of(recurrence.to_text().as_str()));
    push_all(&mut v, &chars_of(" \u{2014} next: "));
    push_all(&mut v, &format_ymd_chars(&next_date));
    push_all(&mut v, &chars_of("\n"));
    Ok(string_of(&v))
}

/// One row of the stewardship list.
#[derive(Debug, Clone, PartialEq, Eq)]
pub struct StewardshipSummary {
    pub slug: String,
    /// The dashboard's H1; empty when absent.
    pub name: String,
    pub context: Context,
    pub variant: StewardshipVariant,
    /// Tracking notes filed for it (always 0 for a flat one).
    pub tracking_count: usize,
    /// Date of its most recent tracking note.
    pub last_tracking_date: Option<Date>,
    /// Days from that date to today.
    pub staleness_days: Option<i64>,
}

/// A stewardship dashboard as read from the store.
pub struct StewardshipNote {
    pub path: String,
    pub frontmatter: StewardshipFrontmatter,
    pub body: String,
}

/// Tracking notes filed for `slug`.
pub open spec fn tracking_count(ts: Seq<TrackingFrontmatter>, slug: Seq<char>) -> nat
    decreases ts.len(),
{
    if ts.len() == 0 {
        0
    } else {
        tracking_count(ts.drop_last(), slug) + if ts.last().stewardship@ == slug {
            1nat
        } else {
            0nat
        }
    }
}

/// The latest date among the tracking notes filed for `slug`.
pub open spec fn latest_tracking(ts: Seq<TrackingFrontmatter>, slug: Seq<char>) -> Option<Date>
    decreases ts.len(),
{
    if ts.len() == 0 {
        None
    } else {
        let prev = latest_tracking(ts.drop_last(), slug);
        let t = ts.last();
        if t.stewardship@ == slug {
            match prev {
                Some(p) => if p.le(t.date) {
                    Some(t.date)
                } else {
                    Some(p)
                },
                None => Some(t.date),
            }
        } else {
            prev
        }
    }
}

/// A summary row as plain values.
pub struct SummaryView {
    pub slug: Seq<char>,
    pub name: Seq<char>,
    pub context: Context,
    pub variant: StewardshipVariant,
    pub tracking_count: nat,
    pub last_tracking_date: Option<Date>,
    pub staleness_days: Option<int>,
}

pub open spec fn summary_view(s: StewardshipSummary) -> SummaryView {
    SummaryView {
        slug: s.slug@,
        name: s.name@,
        context: s.context,
        variant: s.variant,
        tracking_count: s.tracking_count as nat,
        last_tracking_date: s.last_tracking_date,
        staleness_days: match s.staleness_days {
            Some(d) => Some(d as int),
            None => None,
        },
    }
}

pub open spec fn summary_views(v: Seq<StewardshipSummary>) -> Seq<SummaryView> {
    v.map_values(|s: StewardshipSummary| summary_view(s))
}

/// The summary of one dashboard.
pub open spec fn summary_of(n: StewardshipNote, ts: Seq<TrackingFrontmatter>, today: Date) -> SummaryView {
    let slug = stewardship_slug(n.path@);
    let variant = stewardship_variant(n.path@);
    let last = if variant == StewardshipVariant::Flat {
        None
    } else {
        latest_tracking(ts, slug)
    };
    SummaryView {
        slug,
        name: h1_of(n.body@),
        context: n.frontmatter.context,
        variant,
        tracking_count: if variant == StewardshipVariant::Flat {
            0
        } else {
            tracking_count(ts, slug)
        },
        last_tracking_date: last,
        staleness_days: match last {
            Some(d) => Some(today.num() - d.num()),
            None => None,
        },
    }
}

pub open spec fn insert_by_slug(s: Seq<SummaryView>, e: SummaryView) -> Seq<SummaryView>
    decreases s.len(),
{
    if s.len() == 0 {
        seq![e]
    } else if seq_lt(e.slug, s.last().slug) {
        insert_by_slug(s.drop_last(), e).push(s.last())
    } else {
        s.push(e)
    }
}

/// The summaries of `notes`, stably sorted by slug.
pub open spec fn sorted_summaries(
    notes: Seq<StewardshipNote>,
    ts: Seq<TrackingFrontmatter>,
    today: Date,
) -> Seq<SummaryView>
    decreases notes.len(),
{
    if notes.len() == 0 {
        Seq::empty()
    } else {
        insert_by_slug(sorted_summaries(notes.drop_last(), ts, today), summary_of(notes.last(), ts, today))
    }
}

fn count_and_latest(ts: &Vec<TrackingFrontmatter>, slug: &Vec<char>) -> (r: (usize, Option<Date>))
    ensures
        r.0 == tracking_count(ts@, slug@),
        r.1 == latest_tracking(ts@, slug@),
        r.1 matches Some(d) ==> exists|k: int| 0 <= k < ts@.len() && ts@[k].date == d,
{
    let mut count: usize = 0;
    let mut last: Option<Date> = None;
    let mut i: usize = 0;
    while i < ts.len()
        invariant
            i <= ts@.len(),
            count <= i,
            count == tracking_count(ts@.take(i as int), slug@),
            last == latest_tracking(ts@.take(i as int), slug@),
            last matches Some(d) ==> exists|k: int| 0 <= k < i && ts@[k].date == d,
        decreases ts@.len() - i,
    {
        assert(ts@.take(i + 1).drop_last() =~= ts@.take(i as int));
        assert(ts@.take(i + 1).last() == ts@[i as int]);
        let t = &ts[i];
        if eq_exec(&chars_of(t.stewardship.as_str()), slug) {
            count = count + 1;
            last = match last {
                Some(p) => if p.is_on_or_before(&t.date) {
                    Some(t.date)
                } else {
                    Some(p)
                },
                None => Some(t.date),
            };
        }
        i = i + 1;
    }
    assert(ts@.take(ts@.len() as int) =~= ts@);
    (count, last)
}

fn insert_summary(v: &mut Vec<StewardshipSummary>, e: StewardshipSummary)
    ensures
        summary_views(final(v)@) == insert_by_slug(summary_views(old(v)@), summary_view(e)),
{
    let ghost s = summary_views(v@);
    let ghost ev = summary_view(e);
    let es = chars_of(e.slug.as_str());
    let mut p = v.len();
    assert(s.take(p as int) =~= s);
    assert(s.skip(p as int) =~= Seq::<SummaryView>::empty());
    loop
        invariant
            p <= v@.len(),
            s == summary_views(v@),
            es@ == ev.slug,
            insert_by_slug(s, ev) == insert_by_slug(s.take(p as int), ev) + s.skip(p as int),
        ensures
            p <= v@.len(),
            insert_by_slug(s, ev) == insert_by_slug(s.take(p as int), ev) + s.skip(p as int),
            p == 0 || !seq_lt(ev.slug, s[p - 1].slug),
        decreases p,
    {
        if p == 0 {
            break;
        }
        let q = p - 1;
        assert(s[q as int].slug == v@[q as int].slug@);
        if !seq_lt_exec(&es, &chars_of(v[q].slug.as_str())) {
            break;
        }
        let ghost t = s.take(p as int);
        assert(t.last() == s[q as int]);
        assert(t.drop_last() =~= s.take(q as int));
        assert(insert_by_slug(s.take(q as int), ev).push(s[q as int]) + s.skip(p as int)
            =~= insert_by_slug(s.take(q as int), ev) + s.skip(q as int));
        p = q;
    }
    proof {
        let t = s.take(p as int);
        if p > 0 {
            assert(t.last() == s[p - 1]);
        }
        assert(insert_by_slug(t, ev) =~= t.push(ev));
    }
    v.insert(p, e);
    assert(summary_views(v@) =~= s.take(p as int).push(ev) + s.skip(p as int));
}

/// One summary per dashboard, sorted by slug: its H1, context, variant,
/// and, for an expanded one, the count and latest date of the tracking
/// notes filed for it and the days since that date.
pub fn summarize_stewardships(
    today: Date,
    notes: &Vec<StewardshipNote>,
    tracking: &Vec<TrackingFrontmatter>,
) -> (r: Vec<StewardshipSummary>)
    requires
        today.wf(),
        forall|k: int| 0 <= k < tracking@.len() ==> (#[trigger] tracking@[k]).date.wf(),
    ensures
        summary_views(r@) == sorted_summaries(notes@, tracking@, today),
{
    let mut out: Vec<StewardshipSummary> = Vec::new();
    let mut i: usize = 0;
    while i < notes.len()
        invariant
            i <= notes@.len(),
            today.wf(),
            forall|k: int| 0 <= k < tracking@.len() ==> (#[trigger] tracking@[k]).date.wf(),
            summary_views(out@) == sorted_summaries(notes@.take(i as int), tracking@, today),
        decreases notes@.len() - i,
    {
        let n = &notes[i];
        assert(notes@.take(i + 1).drop_last() =~= notes@.take(i as int));
        assert(notes@.take(i + 1).last() == *n);
        let slug = stewardship_slug_from_path(n.path.as_str());
        let variant = stewardship_variant_from_path(n.path.as_str());
        let (count, last) = match variant {
            StewardshipVariant::Flat => (0usize, None),
            StewardshipVariant::Expanded => count_and_latest(tracking, &chars_of(slug.as_str())),
        };
        let staleness = match last {
            Some(d) => Some(days_between(&today, &d)),
            None => None,
        };
        let e = StewardshipSummary {
            slug,
            name: extract_h1(n.body.as_str()),
            context: n.frontmatter.context,
            variant,
            tracking_count: count,
            last_tracking_date: last,
            staleness_days: staleness,
        };
        assert(summary_view(e) == summary_of(*n, tracking@, today));
        insert_summary(&mut out, e);
        i = i + 1;
    }
    assert(notes@.take(notes@.len() as int) =~= notes@);
    out
}

/// Whether the summaries are in non-decreasing slug order.
pub open spec fn sorted_by_slug(s: Seq<SummaryView>) -> bool {
    forall|i: int, j: int| 0 <= i < j < s.len() ==> !seq_lt(#[trigger] s[j].slug, #[trigger] s[i].slug)
}

proof fn lemma_insert_summary_sorted(s: Seq<SummaryView>, e: SummaryView)
    requires
        sorted_by_slug(s),
    ensures
        sorted_by_slug(insert_by_slug(s, e)),
        insert_by_slug(s, e).to_multiset() == s.to_multiset().insert(e),
    decreases s.len(),
{
    broadcast use vstd::seq_lib::group_to_multiset_ensures;

    if s.len() == 0 {
        assert(seq![e] =~= Seq::<SummaryView>::empty().push(e));
    } else if seq_lt(e.slug, s.last().slug) {
        let t = s.drop_last();
        lemma_insert_summary_sorted(t, e);
        let u = insert_by_slug(t, e);
        let r = u.push(s.last());
        assert forall|i: int, j: int| 0 <= i < j < r.len() implies !seq_lt(
            #[trigger] r[j].slug,
            #[trigger] r[i].slug,
        ) by {
            if j == r.len() - 1 {
                if u[i] == e {
                    crate::text::lemma_seq_lt_asym(e.slug, s.last().slug);
                } else {
                    assert(u.to_multiset().count(u[i]) > 0);
                    assert(t.to_multiset().count(u[i]) > 0);
                    assert(t.contains(u[i]));
                    let k = choose|k: int| 0 <= k < t.len() && t[k] == u[i];
                    assert(s[k] == t[k]);
                }
            } else {
                assert(u[j] == r[j] && u[i] == r[i]);
            }
        }
        assert(s =~= t.push(s.last()));
    } else {
        let r = s.push(e);
        assert forall|i: int, j: int| 0 <= i < j < r.len() implies !seq_lt(
            #[trigger] r[j].slug,
            #[trigger] r[i].slug,
        ) by {
            if j == s.len() {
                crate::text::lemma_seq_lt_split(e.slug, s.last().slug, s[i].slug);
                if i < s.len() - 1 {
                    assert(!seq_lt(s[s.len() - 1].slug, s[i].slug));
                }
            } else {
                assert(s[j] == r[j] && s[i] == r[i]);
            }
        }
    }
}

/// The stewardship listing holds one summary per dashboard and is sorted
/// by slug.
pub proof fn lemma_stewardship_listing_sorted(
    notes: Seq<StewardshipNote>,
    ts: Seq<TrackingFrontmatter>,
    today: Date,
)
    ensures
        sorted_by_slug(sorted_summaries(notes, ts, today)),
        sorted_summaries(notes, ts, today).to_multiset() == notes.map_values(
            |n: StewardshipNote| summary_of(n, ts, today),
        ).to_multiset(),
    decreases notes.len(),
{
    broadcast use vstd::seq_lib::group_to_multiset_ensures;

    if notes.len() > 0 {
        let rest = notes.drop_last();
        lemma_stewardship_listing_sorted(rest, ts, today);
        lemma_insert_summary_sorted(sorted_summaries(rest, ts, today), summary_of(notes.last(), ts, today));
        let f = |n: StewardshipNote| summary_of(n, ts, today);
        assert(notes.map_values(f) =~= rest.map_values(f).push(f(notes.last())));
    }
}

} // verus!

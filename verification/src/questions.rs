//! Question notes, the strategic anchors projects answer against. They live
//! at `questions/<domain>/<slug>.md`, and a slug is unique across both
//! domains. This module holds where a question goes, the checks on a new
//! one, the status change and its log line, the lookup of a slug across
//! the domains, and the sorted listing.

use vstd::prelude::*;

use crate::date::{format_ymd_chars, ymd_text, Date};
use crate::error::DomainError;
use crate::frontmatter::{QuestionDomain, QuestionFrontmatter, QuestionStatus};
use crate::projects::{frontmatter_close, has_field_from, rewrite_field_in_frontmatter, rewrite_lines_from};
use crate::slug::{slugify, slugify_spec};
use crate::stewardships::{extract_h1, file_name, file_name_of, file_stem, file_stem_of, h1_of};
use crate::text::{chars_of, eq_exec, push_all, seq_lt, seq_lt_exec, string_of, trim, trim_of};

verus! {

/// `questions/<domain>/<slug>.md`.
pub open spec fn question_path(domain: QuestionDomain, slug: Seq<char>) -> Seq<char> {
    "questions/"@ + domain.name() + "/"@ + slug + ".md"@
}

pub fn question_note_path(domain: QuestionDomain, slug: &str) -> (r: String)
    ensures
        r@ == question_path(domain, slug@),
{
    let mut v = chars_of("questions/");
    push_all(&mut v, &chars_of(domain.as_str()));
    push_all(&mut v, &chars_of("/"));
    push_all(&mut v, &chars_of(slug));
    push_all(&mut v, &chars_of(".md"));
    string_of(&v)
}

/// The question of a new note, trimmed, and its slug.
pub struct NewQuestion {
    pub text: String,
    pub slug: String,
}

/// Check the text of a new question; its slug must then be free in both
/// domains.
pub fn plan_question(text: &str) -> (r: Result<NewQuestion, DomainError>)
    ensures
        ({
            let t = trim(text@);
            if t.len() == 0 {
                r matches Err(DomainError::EmptyField { field: f }) && f@ == "question"@
            } else {
                r matches Ok(q) && q.text@ == t && q.slug@ == slugify_spec(t)
            }
        }),
{
    let t = trim_of(&chars_of(text));
    if t.len() == 0 {
        return Err(DomainError::EmptyField { field: "question" });
    }
    let text = string_of(&t);
    let slug = slugify(text.as_str());
    Ok(NewQuestion { text, slug })
}

/// Which domain holds `slug`, given whether each holds a note of that name:
/// none, one, or an error when both do.
pub fn locate_question(slug: &str, in_research: bool, in_life: bool) -> (r: Result<
    Option<QuestionDomain>,
    DomainError,
>)
    ensures
        in_research && in_life ==> (r matches Err(DomainError::AmbiguousSlug(s)) && s@ == slug@),
        in_research && !in_life ==> r == Ok::<Option<QuestionDomain>, DomainError>(
            Some(QuestionDomain::Research),
        ),
        !in_research && in_life ==> r == Ok::<Option<QuestionDomain>, DomainError>(
            Some(QuestionDomain::Life),
        ),
        !in_research && !in_life ==> r == Ok::<Option<QuestionDomain>, DomainError>(None),
{
    if in_research && in_life {
        Err(DomainError::AmbiguousSlug(slug.to_owned()))
    } else if in_research {
        Ok(Some(QuestionDomain::Research))
    } else if in_life {
        Ok(Some(QuestionDomain::Life))
    } else {
        Ok(None)
    }
}

/// The daily-log line of a status change.
pub open spec fn status_log_entry(
    domain: QuestionDomain,
    slug: Seq<char>,
    old: QuestionStatus,
    new: QuestionStatus,
) -> Seq<char> {
    "status on [[questions/"@ + domain.name() + "/"@ + slug + "]]\n  was: "@ + old.name()
        + "\n  now: "@ + new.name()
}

pub fn format_status_log_entry(
    domain: QuestionDomain,
    slug: &str,
    old: QuestionStatus,
    new: QuestionStatus,
) -> (r: String)
    ensures
        r@ == status_log_entry(domain, slug@, old, new),
{
    let mut v = chars_of("status on [[questions/");
    push_all(&mut v, &chars_of(domain.as_str()));
    push_all(&mut v, &chars_of("/"));
    push_all(&mut v, &chars_of(slug));
    push_all(&mut v, &chars_of("]]\n  was: "));
    push_all(&mut v, &chars_of(old.as_str()));
    push_all(&mut v, &chars_of("\n  now: "));
    push_all(&mut v, &chars_of(new.as_str()));
    string_of(&v)
}

/// What a status change does to a question note.
pub enum StatusChange {
    /// The question already has that status: nothing changes.
    Unchanged,
    /// The note with `status` and `updated` rewritten, and the log line.
    Changed { content: String, log_entry: String },
}

/// The note after the status `old`/`updated` fields are rewritten.
pub open spec fn rewritten_field(raw: Seq<char>, field: Seq<char>, value: Seq<char>) -> Option<
    Seq<char>,
> {
    match frontmatter_close(raw) {
        Some(k) => {
            let yaml = raw.subrange(4, k + 1);
            if has_field_from(yaml, 0, field) {
                Some(raw.take(4) + rewrite_lines_from(yaml, 0, field, value) + raw.skip(k + 1))
            } else {
                None
            }
        },
        None => None,
    }
}

/// Change the status of the question note `raw` (slug `slug`, current
/// frontmatter `current`) to `new` on `today`: no change when the status is
/// already `new`; else `status` and `updated` are rewritten and the change
/// is logged. Both fields must be in the frontmatter.
pub fn plan_question_status(
    raw: &str,
    slug: &str,
    current: &QuestionFrontmatter,
    new: QuestionStatus,
    today: &Date,
) -> (r: Result<StatusChange, DomainError>)
    requires
        today.wf(),
    ensures
        current.status == new ==> r matches Ok(StatusChange::Unchanged),
        current.status != new ==> match rewritten_field(raw@, "status"@, new.name()) {
            None => r is Err,
            Some(a) => match rewritten_field(a, "updated"@, ymd_text(*today)) {
                None => r is Err,
                Some(b) => r matches Ok(StatusChange::Changed { content, log_entry }) && content@
                    == b && log_entry@ == status_log_entry(current.domain, slug@, current.status, new),
            },
        },
{
    let same = match (current.status, new) {
        (QuestionStatus::Active, QuestionStatus::Active) => true,
        (QuestionStatus::Parked, QuestionStatus::Parked) => true,
        (QuestionStatus::Answered, QuestionStatus::Answered) => true,
        (QuestionStatus::Retired, QuestionStatus::Retired) => true,
        _ => false,
    };
    if same {
        return Ok(StatusChange::Unchanged);
    }
    let a = match rewrite_field_in_frontmatter(raw, "status", new.as_str()) {
        Ok(a) => a,
        Err(e) => {
            return Err(e);
        },
    };
    let date = string_of(&format_ymd_chars(today));
    let b = match rewrite_field_in_frontmatter(a.as_str(), "updated", date.as_str()) {
        Ok(b) => b,
        Err(e) => {
            return Err(e);
        },
    };
    let log_entry = format_status_log_entry(current.domain, slug, current.status, new);
    Ok(StatusChange::Changed { content: b, log_entry })
}

/// A question note as read from the store.
pub struct QuestionNote {
    pub path: String,
    pub frontmatter: QuestionFrontmatter,
    pub body: String,
}

/// One row of the question listing.
#[derive(Debug, Clone, PartialEq, Eq)]
pub struct QuestionSummary {
    /// File stem of the note.
    pub slug: String,
    pub domain: QuestionDomain,
    pub status: QuestionStatus,
    /// The body's H1; empty when there is none.
    pub question_text: String,
    pub updated: Date,
}

pub struct QuestionSummaryView {
    pub slug: Seq<char>,
    pub domain: QuestionDomain,
    pub status: QuestionStatus,
    pub question_text: Seq<char>,
    pub updated: Date,
}

pub open spec fn question_summary_view(s: QuestionSummary) -> QuestionSummaryView {
    QuestionSummaryView {
        slug: s.slug@,
        domain: s.domain,
        status: s.status,
        question_text: s.question_text@,
        updated: s.updated,
    }
}

pub open spec fn question_summary_views(v: Seq<QuestionSummary>) -> Seq<QuestionSummaryView> {
    v.map_values(|s: QuestionSummary| question_summary_view(s))
}

/// The slug of a question: the file stem of its path.
pub open spec fn question_slug(path: Seq<char>) -> Seq<char> {
    file_stem(file_name(path))
}

pub open spec fn question_summary_of(n: QuestionNote) -> QuestionSummaryView {
    QuestionSummaryView {
        slug: question_slug(n.path@),
        domain: n.frontmatter.domain,
        status: n.frontmatter.status,
        question_text: h1_of(n.body@),
        updated: n.frontmatter.updated,
    }
}

/// Listing order: by domain name, then by slug.
pub open spec fn question_before(a: QuestionSummaryView, b: QuestionSummaryView) -> bool {
    seq_lt(a.domain.name(), b.domain.name()) || (a.domain.name() == b.domain.name() && seq_lt(
        a.slug,
        b.slug,
    ))
}

pub open spec fn insert_question(s: Seq<QuestionSummaryView>, e: QuestionSummaryView) -> Seq<
    QuestionSummaryView,
>
    decreases s.len(),
{
    if s.len() == 0 {
        seq![e]
    } else if question_before(e, s.last()) {
        insert_question(s.drop_last(), e).push(s.last())
    } else {
        s.push(e)
    }
}

/// The summaries of `notes`, stably sorted by domain and slug.
pub open spec fn sorted_questions(notes: Seq<QuestionNote>) -> Seq<QuestionSummaryView>
    decreases notes.len(),
{
    if notes.len() == 0 {
        Seq::empty()
    } else {
        insert_question(sorted_questions(notes.drop_last()), question_summary_of(notes.last()))
    }
}

fn question_before_exec(a: &QuestionSummary, b: &QuestionSummary) -> (r: bool)
    ensures
        r == question_before(question_summary_view(*a), question_summary_view(*b)),
{
    let da = chars_of(a.domain.as_str());
    let db = chars_of(b.domain.as_str());
    seq_lt_exec(&da, &db) || (eq_exec(&da, &db) && seq_lt_exec(
        &chars_of(a.slug.as_str()),
        &chars_of(b.slug.as_str()),
    ))
}

fn insert_question_summary(v: &mut Vec<QuestionSummary>, e: QuestionSummary)
    ensures
        question_summary_views(final(v)@) == insert_question(
            question_summary_views(old(v)@),
            question_summary_view(e),
        ),
{
    let ghost s = question_summary_views(v@);
    let ghost ev = question_summary_view(e);
    let mut p = v.len();
    assert(s.take(p as int) =~= s);
    assert(s.skip(p as int) =~= Seq::<QuestionSummaryView>::empty());
    loop
        invariant
            p <= v@.len(),
            s == question_summary_views(v@),
            ev == question_summary_view(e),
            insert_question(s, ev) == insert_question(s.take(p as int), ev) + s.skip(p as int),
        ensures
            p <= v@.len(),
            insert_question(s, ev) == insert_question(s.take(p as int), ev) + s.skip(p as int),
            p == 0 || !question_before(ev, s[p - 1]),
        decreases p,
    {
        if p == 0 {
            break;
        }
        let q = p - 1;
        assert(s[q as int] == question_summary_view(v@[q as int]));
        if !question_before_exec(&e, &v[q]) {
            break;
        }
        let ghost t = s.take(p as int);
        assert(t.last() == s[q as int]);
        assert(t.drop_last() =~= s.take(q as int));
        assert(insert_question(s.take(q as int), ev).push(s[q as int]) + s.skip(p as int)
            =~= insert_question(s.take(q as int), ev) + s.skip(q as int));
        p = q;
    }
    proof {
        let t = s.take(p as int);
        if p > 0 {
            assert(t.last() == s[p - 1]);
        }
        assert(insert_question(t, ev) =~= t.push(ev));
    }
    v.insert(p, e);
    assert(question_summary_views(v@) =~= s.take(p as int).push(ev) + s.skip(p as int));
}

/// Every question, sorted by domain and then slug.
pub fn summarize_questions(notes: &Vec<QuestionNote>) -> (r: Vec<QuestionSummary>)
    ensures
        question_summary_views(r@) == sorted_questions(notes@),
{
    let mut out: Vec<QuestionSummary> = Vec::new();
    let mut i: usize = 0;
    while i < notes.len()
        invariant
            i <= notes@.len(),
            question_summary_views(out@) == sorted_questions(notes@.take(i as int)),
        decreases notes@.len() - i,
    {
        let n = &notes[i];
        assert(notes@.take(i + 1).drop_last() =~= notes@.take(i as int));
        assert(notes@.take(i + 1).last() == *n);
        let slug = string_of(&file_stem_of(&file_name_of(&chars_of(n.path.as_str()))));
        let e = QuestionSummary {
            slug,
            domain: n.frontmatter.domain,
            status: n.frontmatter.status,
            question_text: extract_h1(n.body.as_str()),
            updated: n.frontmatter.updated,
        };
        assert(question_summary_view(e) == question_summary_of(*n));
        insert_question_summary(&mut out, e);
        i = i + 1;
    }
    assert(notes@.take(notes@.len() as int) =~= notes@);
    out
}

/// The active questions among a listing, in order.
pub open spec fn active_only(s: Seq<QuestionSummaryView>) -> Seq<QuestionSummaryView>
    decreases s.len(),
{
    if s.len() == 0 {
        Seq::empty()
    } else if s.last().status == QuestionStatus::Active {
        active_only(s.drop_last()).push(s.last())
    } else {
        active_only(s.drop_last())
    }
}

/// Keep the active questions of a listing, in order.
pub fn active_questions(all: Vec<QuestionSummary>) -> (r: Vec<QuestionSummary>)
    ensures
        question_summary_views(r@) == active_only(question_summary_views(all@)),
{
    let ghost s = question_summary_views(all@);
    let total = all.len();
    let mut out: Vec<QuestionSummary> = Vec::new();
    let mut rest = all;
    let mut taken: usize = 0;
    assert(s.skip(0) =~= s);
    while rest.len() > 0
        invariant
            taken + rest@.len() == total,
            total == s.len(),
            question_summary_views(rest@) == s.skip(taken as int),
            question_summary_views(out@) == active_only(s.take(taken as int)),
        decreases rest@.len(),
    {
        let ghost before = question_summary_views(rest@);
        let q = rest.remove(0);
        assert(question_summary_views(rest@) =~= before.drop_first());
        assert(question_summary_view(q) == before[0]);
        assert(before[0] == s[taken as int]);
        assert(s.take(taken + 1).drop_last() =~= s.take(taken as int));
        assert(s.skip(taken + 1) =~= before.drop_first());
        let keep = match q.status {
            QuestionStatus::Active => true,
            _ => false,
        };
        if keep {
            let ghost o = question_summary_views(out@);
            out.push(q);
            assert(question_summary_views(out@) =~= o.push(question_summary_view(q)));
        }
        taken = taken + 1;
    }
    assert(s.take(total as int) =~= s);
    out
}

pub open spec fn question_key(q: QuestionSummaryView) -> (Seq<char>, Seq<char>) {
    (q.domain.name(), q.slug)
}

/// Whether the listing is in non-decreasing (domain, slug) order.
pub open spec fn sorted_questions_order(s: Seq<QuestionSummaryView>) -> bool {
    forall|i: int, j: int| 0 <= i < j < s.len() ==> !question_before(#[trigger] s[j], #[trigger] s[i])
}

proof fn lemma_insert_question_sorted(s: Seq<QuestionSummaryView>, e: QuestionSummaryView)
    requires
        sorted_questions_order(s),
    ensures
        sorted_questions_order(insert_question(s, e)),
        insert_question(s, e).to_multiset() == s.to_multiset().insert(e),
    decreases s.len(),
{
    broadcast use vstd::seq_lib::group_to_multiset_ensures;

    if s.len() == 0 {
        assert(seq![e] =~= Seq::<QuestionSummaryView>::empty().push(e));
    } else if question_before(e, s.last()) {
        let t = s.drop_last();
        lemma_insert_question_sorted(t, e);
        let u = insert_question(t, e);
        let r = u.push(s.last());
        assert forall|i: int, j: int| 0 <= i < j < r.len() implies !question_before(
            #[trigger] r[j],
            #[trigger] r[i],
        ) by {
            if j == r.len() - 1 {
                if u[i] == e {
                    crate::text::lemma_pair_lt_asym(question_key(e), question_key(s.last()));
                } else {
                    assert(u.to_multiset().count(u[i]) > 0);
                    assert(t.to_multiset().count(u[i]) > 0);
                    assert(t.contains(u[i]));
                    let k = choose|k: int| 0 <= k < t.len() && t[k] == u[i];
                    assert(s[k] == t[k]);
                }
            } else {
                assert(u[j] == r[j] && u[i] == r[i]);
            }
        }
        assert(s =~= t.push(s.last()));
    } else {
        let r = s.push(e);
        assert forall|i: int, j: int| 0 <= i < j < r.len() implies !question_before(
            #[trigger] r[j],
            #[trigger] r[i],
        ) by {
            if j == s.len() {
                crate::text::lemma_pair_lt_split(
                    question_key(e),
                    question_key(s.last()),
                    question_key(s[i]),
                );
                if i < s.len() - 1 {
                    assert(!question_before(s[s.len() - 1], s[i]));
                }
            } else {
                assert(s[j] == r[j] && s[i] == r[i]);
            }
        }
    }
}

/// The question listing holds one summary per question note and is
/// sorted by domain and then slug.
pub proof fn lemma_question_listing_sorted(notes: Seq<QuestionNote>)
    ensures
        sorted_questions_order(sorted_questions(notes)),
        sorted_questions(notes).to_multiset() == notes.map_values(
            |n: QuestionNote| question_summary_of(n),
        ).to_multiset(),
    decreases notes.len(),
{
    broadcast use vstd::seq_lib::group_to_multiset_ensures;

    if notes.len() > 0 {
        let rest = notes.drop_last();
        lemma_question_listing_sorted(rest);
        lemma_insert_question_sorted(sorted_questions(rest), question_summary_of(notes.last()));
        let f = |n: QuestionNote| question_summary_of(n);
        assert(notes.map_values(f) =~= rest.map_values(f).push(f(notes.last())));
    }
}

} // verus!

//! References to notes as users type them — `today`, `2026-05-10`,
//! `2026-W19`, `2026-05`, a vault path, `type:slug` or a bare slug — and
//! the narrowing of slug matches to one note.

use vstd::prelude::*;

use crate::date::{add_days, chrono_parse_ymd, in_range, monday_of_iso_week_number, parse_ymd, Date};
use crate::lint::inside;
use crate::stewardships::{file_name, file_stem};
use crate::text::{
    chars_of, ends_with, ends_with_exec, eq_exec, find_char_from, find_char_from_exec, find_exec,
    find, has_char, has_char_exec, lemma_find_char_from, lemma_find_from, occurs_at,
    parse_i32, parse_i32_exec, parse_u32, parse_u32_exec, slice_of, string_of, string_views, trim,
    trim_of,
};

verus! {

/// A day named relative to today.
#[derive(Debug, Clone, Copy, PartialEq, Eq)]
pub enum RelativeDay {
    Yesterday,
    Today,
    Tomorrow,
}

impl RelativeDay {
    pub open spec fn offset(self) -> int {
        match self {
            RelativeDay::Yesterday => -1,
            RelativeDay::Today => 0,
            RelativeDay::Tomorrow => 1,
        }
    }

    /// The day this names, relative to `today`; `today` itself when the
    /// neighbour lies outside the calendar's range.
    pub fn resolve(self, today: Date) -> (r: Date)
        requires
            today.wf(),
        ensures
            r.wf(),
            in_range(today.num() + self.offset()) ==> r.num() == today.num() + self.offset(),
            !in_range(today.num() + self.offset()) ==> r == today,
    {
        let offset: i64 = match self {
            RelativeDay::Yesterday => -1,
            RelativeDay::Today => 0,
            RelativeDay::Tomorrow => 1,
        };
        match add_days(&today, offset) {
            Some(d) => d,
            None => today,
        }
    }
}

/// A period note: the ISO week starting on the given Monday, or the
/// month starting on the given first.
#[derive(Debug, Clone, Copy, PartialEq, Eq)]
pub enum PeriodRef {
    Week(Date),
    Month(Date),
}

/// A parsed note reference.
#[derive(Debug, Clone, PartialEq, Eq)]
pub enum NoteRef {
    Relative(RelativeDay),
    Date(Date),
    Period(PeriodRef),
    Path(String),
    Typed { note_type: String, slug: String },
    Bare(String),
}

/// A note reference as plain values.
pub enum NoteRefView {
    Relative(RelativeDay),
    Date(Date),
    Period(PeriodRef),
    Path(Seq<char>),
    Typed { note_type: Seq<char>, slug: Seq<char> },
    Bare(Seq<char>),
}

impl View for NoteRef {
    type V = NoteRefView;

    open spec fn view(&self) -> NoteRefView {
        match self {
            NoteRef::Relative(d) => NoteRefView::Relative(*d),
            NoteRef::Date(d) => NoteRefView::Date(*d),
            NoteRef::Period(p) => NoteRefView::Period(*p),
            NoteRef::Path(s) => NoteRefView::Path(s@),
            NoteRef::Typed { note_type, slug } => NoteRefView::Typed {
                note_type: note_type@,
                slug: slug@,
            },
            NoteRef::Bare(s) => NoteRefView::Bare(s@),
        }
    }
}

/// `YYYY-Www`: the Monday of that ISO week. The year is an `i32`, the
/// week exactly two characters naming a `u32`.
pub open spec fn iso_week_ref(t: Seq<char>) -> Option<(i32, u32)> {
    match find(t, "-W"@) {
        Some(i) => {
            let year = t.take(i);
            let week = t.skip(i + 2);
            match (parse_i32(year), parse_u32(week)) {
                (Some(y), Some(w)) => if week.len() == 2 {
                    Some((y, w))
                } else {
                    None
                },
                _ => None,
            }
        },
        None => None,
    }
}

/// `YYYY-MM`: four characters of year and two of month around the first
/// `-`, both parsing.
pub open spec fn month_ref(t: Seq<char>) -> Option<(i32, u32)> {
    match find_char_from(t, '-', 0) {
        Some(i) => {
            let year = t.take(i);
            let month = t.skip(i + 1);
            if year.len() != 4 || month.len() != 2 {
                None
            } else {
                match (parse_i32(year), parse_u32(month)) {
                    (Some(y), Some(m)) => Some((y, m)),
                    _ => None,
                }
            }
        },
        None => None,
    }
}

fn iso_week_ref_exec(t: &Vec<char>) -> (r: Option<(i32, u32)>)
    ensures
        r == iso_week_ref(t@),
{
    let pat = chars_of("-W");
    let i = match find_exec(t, &pat) {
        Some(i) => i,
        None => {
            return None;
        },
    };
    proof {
        lemma_find_from(t@, pat@, 0);
        reveal_strlit("-W");
        assert(occurs_at(t@, pat@, i as int));
    }
    let n = t.len();
    assert(i + 2 <= n);
    let year = slice_of(t, 0, i);
    let week = slice_of(t, i + 2, t.len());
    assert(year@ == t@.take(i as int));
    assert(week@ == t@.skip(i + 2));
    match (parse_i32_exec(&year), parse_u32_exec(&week)) {
        (Some(y), Some(w)) => if week.len() == 2 {
            Some((y, w))
        } else {
            None
        },
        _ => None,
    }
}

fn month_ref_exec(t: &Vec<char>) -> (r: Option<(i32, u32)>)
    ensures
        r == month_ref(t@),
{
    let i = match find_char_from_exec(t, '-', 0) {
        Some(i) => i,
        None => {
            return None;
        },
    };
    proof {
        lemma_find_char_from(t@, '-', 0);
    }
    let n = t.len();
    assert(i < n);
    let year = slice_of(t, 0, i);
    let month = slice_of(t, i + 1, t.len());
    assert(year@ == t@.take(i as int));
    assert(month@ == t@.skip(i + 1));
    if year.len() != 4 || month.len() != 2 {
        return None;
    }
    match (parse_i32_exec(&year), parse_u32_exec(&month)) {
        (Some(y), Some(m)) => Some((y, m)),
        _ => None,
    }
}

/// The first day of month `m` of year `y`, when it exists.
pub open spec fn month_start(y: i32, m: u32) -> Option<Date> {
    if crate::date::valid_ymd(y as int, m as int, 1) {
        Some(Date { year: y, month: m, day: 1 })
    } else {
        None
    }
}

/// The first day of the month a `YYYY-MM` reference names.
pub open spec fn month_ref_date(t: Seq<char>) -> Option<Date> {
    match month_ref(t) {
        Some((y, m)) => month_start(y, m),
        None => None,
    }
}

/// The Monday a `YYYY-Www` reference names; none
/// for the extreme years `i32::MIN` and `i32::MAX`, far outside the
/// calendar's range.
pub open spec fn week_ref_monday(t: Seq<char>) -> Option<Date> {
    match iso_week_ref(t) {
        Some((y, w)) => if y == i32::MIN || y == i32::MAX {
            None
        } else {
            crate::date::iso_monday(y, w)
        },
        None => None,
    }
}

/// How a reference reads.
pub open spec fn note_ref_spec(raw: Seq<char>, known_types: Seq<Seq<char>>) -> NoteRefView {
    let t = trim(raw);
    let colon = find_char_from(t, ':', 0);
    if colon matches Some(i) && known_types.contains(t.take(i)) && t.skip(i + 1).len() > 0 {
        let i = colon->Some_0;
        NoteRefView::Typed { note_type: t.take(i), slug: t.skip(i + 1) }
    } else if t == "today"@ {
        NoteRefView::Relative(RelativeDay::Today)
    } else if t == "yesterday"@ {
        NoteRefView::Relative(RelativeDay::Yesterday)
    } else if t == "tomorrow"@ {
        NoteRefView::Relative(RelativeDay::Tomorrow)
    } else if chrono_parse_ymd(t) is Some {
        NoteRefView::Date(chrono_parse_ymd(t)->Some_0)
    } else if week_ref_monday(t) is Some {
        NoteRefView::Period(PeriodRef::Week(week_ref_monday(t)->Some_0))
    } else if month_ref_date(t) is Some {
        NoteRefView::Period(PeriodRef::Month(month_ref_date(t)->Some_0))
    } else if has_char(t, '/') || ends_with(t, ".md"@) {
        NoteRefView::Path(t)
    } else {
        NoteRefView::Bare(t)
    }
}

impl NoteRef {
    /// Classify a reference: `type:slug` for a known type, a relative
    /// day, an ISO date, an ISO week, a month, a path (holds `/` or ends
    /// in `.md`), and otherwise a bare slug, tried in that order. The
    /// Monday of an ISO week comes from `chrono`.
    pub fn parse(raw: &str, known_types: &Vec<String>) -> (r: NoteRef)
        ensures
            r@ == note_ref_spec(raw@, string_views(known_types@)),
    {
        let t = trim_of(&chars_of(raw));
        let ghost known = string_views(known_types@);
        if let Some(i) = find_char_from_exec(&t, ':', 0) {
            proof {
                lemma_find_char_from(t@, ':', 0);
            }
            let n = t.len();
            assert(i < n);
            let prefix = slice_of(&t, 0, i);
            let rest = slice_of(&t, i + 1, t.len());
            assert(prefix@ == t@.take(i as int));
            assert(rest@ == t@.skip(i + 1));
            let mut known_hit = false;
            let mut k: usize = 0;
            while k < known_types.len()
                invariant
                    k <= known_types@.len(),
                    known == string_views(known_types@),
                    known_hit == (exists|j: int| 0 <= j < k && known[j] == prefix@),
                decreases known_types@.len() - k,
            {
                assert(known[k as int] == known_types@[k as int]@);
                if eq_exec(&chars_of(known_types[k].as_str()), &prefix) {
                    known_hit = true;
                }
                k = k + 1;
            }
            proof {
                if known.contains(prefix@) {
                    let j = choose|j: int| 0 <= j < known.len() && known[j] == prefix@;
                    assert(known_hit);
                }
            }
            if known_hit && rest.len() > 0 {
                let r = NoteRef::Typed { note_type: string_of(&prefix), slug: string_of(&rest) };
                assert(r@ == note_ref_spec(raw@, known));
                return r;
            }
        }
        let ts = string_of(&t);
        if eq_exec(&t, &chars_of("today")) {
            return NoteRef::Relative(RelativeDay::Today);
        }
        if eq_exec(&t, &chars_of("yesterday")) {
            return NoteRef::Relative(RelativeDay::Yesterday);
        }
        if eq_exec(&t, &chars_of("tomorrow")) {
            return NoteRef::Relative(RelativeDay::Tomorrow);
        }
        if let Some(d) = parse_ymd(ts.as_str()) {
            return NoteRef::Date(d);
        }
        if let Some((y, w)) = iso_week_ref_exec(&t) {
            if y != i32::MIN && y != i32::MAX {
                let monday = monday_of_iso_week_number(y, w);
                if let Some(m) = monday {
                    return NoteRef::Period(PeriodRef::Week(m));
                }
            }
        }
        if let Some((y, m)) = month_ref_exec(&t) {
            if let Some(d) = Date::from_ymd(y, m, 1) {
                return NoteRef::Period(PeriodRef::Month(d));
            }
        }
        if has_char_exec(&t, '/') || ends_with_exec(&t, &chars_of(".md")) {
            return NoteRef::Path(ts);
        }
        NoteRef::Bare(ts)
    }
}

/// What a reference did not find: a slug, a journal note, or a path.
#[derive(Debug, Clone, Copy, PartialEq, Eq)]
pub enum Miss {
    Slug,
    JournalNote,
    Path,
}

/// The slug a note answers to: its file stem, or its folder's name for a
/// folder note (`_index.md`).
pub open spec fn candidate_slug_spec(path: Seq<char>) -> Option<Seq<char>> {
    if path.len() == 0 {
        None
    } else {
        let stem = file_stem(file_name(path));
        if stem == "_index"@ {
            let p = crate::stewardships::parent(path);
            if p.len() == 0 {
                None
            } else {
                Some(file_name(p))
            }
        } else {
            Some(stem)
        }
    }
}

/// A note the index offers as a reference target.
#[derive(Debug, Clone, PartialEq, Eq)]
pub struct RefCandidate {
    pub path: String,
    pub note_type: String,
}

/// How a reference resolved.
#[derive(Debug, Clone, PartialEq, Eq)]
pub enum RefResolution {
    Resolved(String),
    Ambiguous(Vec<RefCandidate>),
    NotFound { reference: String, miss: Miss },
}

pub open spec fn cand_views(v: Seq<RefCandidate>) -> Seq<(Seq<char>, Seq<char>)> {
    v.map_values(|c: RefCandidate| (c.path@, c.note_type@))
}

/// The candidates whose slug is `slug` and, when a type is given, whose
/// type is that type.
pub open spec fn matching_candidates(
    cs: Seq<(Seq<char>, Seq<char>)>,
    note_type: Option<Seq<char>>,
    slug: Seq<char>,
) -> Seq<(Seq<char>, Seq<char>)>
    decreases cs.len(),
{
    if cs.len() == 0 {
        Seq::empty()
    } else {
        let c = cs.last();
        let rest = matching_candidates(cs.drop_last(), note_type, slug);
        if (match note_type {
            Some(t) => c.1 == t,
            None => true,
        }) && candidate_slug_spec(c.0) == Some(slug) {
            rest.push(c)
        } else {
            rest
        }
    }
}

/// Where parked projects live.
pub const PROJECTS_PARKED: &'static str = "projects/_parked";

/// Narrow several slug matches: when they are all projects and exactly
/// one is not parked, that one wins.
pub open spec fn narrowed(hits: Seq<(Seq<char>, Seq<char>)>) -> Option<Seq<char>> {
    let unparked = hits.filter(|c: (Seq<char>, Seq<char>)| !inside(c.0, PROJECTS_PARKED@));
    if hits.len() == 1 {
        Some(hits[0].0)
    } else if hits.len() > 1 && (forall|k: int| 0 <= k < hits.len() ==> #[trigger] hits[k].1
        == "project"@) && unparked.len() == 1 {
        Some(unparked[0].0)
    } else {
        None
    }
}

fn candidate_slug_exec(path: &Vec<char>) -> (r: Option<Vec<char>>)
    ensures
        match candidate_slug_spec(path@) {
            Some(s) => r matches Some(v) && v@ == s,
            None => r is None,
        },
{
    if path.len() == 0 {
        return None;
    }
    let stem = crate::stewardships::file_stem_of(&crate::stewardships::file_name_of(path));
    if eq_exec(&stem, &chars_of("_index")) {
        let p = crate::stewardships::parent_of(path);
        if p.len() == 0 {
            None
        } else {
            Some(crate::stewardships::file_name_of(&p))
        }
    } else {
        Some(stem)
    }
}

/// The slug a note path answers to.
pub fn candidate_slug(path: &str) -> (r: Option<String>)
    ensures
        match candidate_slug_spec(path@) {
            Some(s) => r matches Some(v) && v@ == s,
            None => r is None,
        },
{
    match candidate_slug_exec(&chars_of(path)) {
        Some(v) => Some(string_of(&v)),
        None => None,
    }
}

/// Resolve a slug reference against the index's candidates: the ones
/// whose slug matches (and whose type matches, for `type:slug`); none is
/// not found, one is resolved, several are narrowed to the one unparked
/// project or left ambiguous.
pub fn resolve_slug_ref(
    candidates: &Vec<RefCandidate>,
    note_type: Option<&str>,
    slug: &str,
    reference: &str,
) -> (r: RefResolution)
    ensures
        ({
            let hits = matching_candidates(
                cand_views(candidates@),
                match note_type {
                    Some(t) => Some(t@),
                    None => None,
                },
                slug@,
            );
            if hits.len() == 0 {
                r matches RefResolution::NotFound { reference: rf, miss: Miss::Slug } && rf@
                    == reference@
            } else {
                match narrowed(hits) {
                    Some(p) => r matches RefResolution::Resolved(q) && q@ == p,
                    None => r matches RefResolution::Ambiguous(v) && cand_views(v@) == hits,
                }
            }
        }),
{
    let ghost nt = match note_type {
        Some(t) => Some(t@),
        None => None,
    };
    let sc = chars_of(slug);
    let mut hits: Vec<RefCandidate> = Vec::new();
    let mut i: usize = 0;
    while i < candidates.len()
        invariant
            i <= candidates@.len(),
            sc@ == slug@,
            nt == (match note_type {
                Some(t) => Some(t@),
                None => None,
            }),
            cand_views(hits@) == matching_candidates(
                cand_views(candidates@.take(i as int)),
                nt,
                slug@,
            ),
        decreases candidates@.len() - i,
    {
        let c = &candidates[i];
        assert(cand_views(candidates@.take(i + 1)).drop_last() =~= cand_views(
            candidates@.take(i as int),
        ));
        assert(cand_views(candidates@.take(i + 1)).last() == (c.path@, c.note_type@));
        let type_ok = match note_type {
            Some(t) => eq_exec(&chars_of(c.note_type.as_str()), &chars_of(t)),
            None => true,
        };
        let slug_ok = match candidate_slug_exec(&chars_of(c.path.as_str())) {
            Some(s) => eq_exec(&s, &sc),
            None => false,
        };
        if type_ok && slug_ok {
            let ghost old_h = cand_views(hits@);
            let copy = RefCandidate {
                path: string_of(&chars_of(c.path.as_str())),
                note_type: string_of(&chars_of(c.note_type.as_str())),
            };
            hits.push(copy);
            assert(cand_views(hits@) =~= old_h.push((c.path@, c.note_type@)));
        }
        i = i + 1;
    }
    assert(candidates@.take(candidates@.len() as int) =~= candidates@);
    let ghost hv = cand_views(hits@);
    if hits.len() == 0 {
        return RefResolution::NotFound { reference: reference.to_owned(), miss: Miss::Slug };
    }
    if hits.len() == 1 {
        return RefResolution::Resolved(string_of(&chars_of(hits[0].path.as_str())));
    }
    let mut all_projects = true;
    let mut unparked_count: usize = 0;
    let mut unparked_first: usize = 0;
    let parked = chars_of(PROJECTS_PARKED);
    let mut k: usize = 0;
    while k < hits.len()
        invariant
            k <= hits@.len(),
            hv == cand_views(hits@),
            parked@ == PROJECTS_PARKED@,
            all_projects == (forall|j: int| 0 <= j < k ==> #[trigger] hv[j].1 == "project"@),
            unparked_count == hv.take(k as int).filter(
                |c: (Seq<char>, Seq<char>)| !inside(c.0, PROJECTS_PARKED@),
            ).len(),
            unparked_count > 0 ==> unparked_first < k && hv.take(k as int).filter(
                |c: (Seq<char>, Seq<char>)| !inside(c.0, PROJECTS_PARKED@),
            )[0] == hv[unparked_first as int],
            unparked_count <= k,
        decreases hits@.len() - k,
    {
        let h = &hits[k];
        assert(hv[k as int] == (h.path@, h.note_type@));
        let is_project = eq_exec(&chars_of(h.note_type.as_str()), &chars_of("project"));
        if !is_project {
            all_projects = false;
        }
        proof {
            if !is_project {
                assert(!(hv[k as int].1 == "project"@));
            }
            assert(all_projects == (forall|j: int| 0 <= j < k + 1 ==> #[trigger] hv[j].1
                == "project"@));
        }
        let p = chars_of(h.path.as_str());
        let is_parked = crate::lint::inside_exec(&p, &parked);
        proof {
            let f = |c: (Seq<char>, Seq<char>)| !inside(c.0, PROJECTS_PARKED@);
            assert(hv.take(k + 1) =~= hv.take(k as int).push(hv[k as int]));
            hv.take(k as int).lemma_filter_push(hv[k as int], f);
        }
        if !is_parked {
            if unparked_count == 0 {
                unparked_first = k;
            }
            unparked_count = unparked_count + 1;
        }
        k = k + 1;
    }
    assert(hv.take(hv.len() as int) =~= hv);
    if all_projects && unparked_count == 1 {
        return RefResolution::Resolved(string_of(&chars_of(hits[unparked_first].path.as_str())));
    }
    RefResolution::Ambiguous(hits)
}


/// A reference written `type:slug` with a known type always names that
/// type and slug, whatever the slug looks like (`project:today`,
/// `project:2026-08-21`, `project:a/b`): the escape hatch beats reserved
/// words, calendar shapes and paths. The type holds no `:` and does not
/// open with whitespace, and the slug is non-empty and does not end with
/// whitespace (trimming would otherwise change them).
pub proof fn lemma_typed_ref_obeyed(t: Seq<char>, slug: Seq<char>, known_types: Seq<Seq<char>>)
    requires
        known_types.contains(t),
        !has_char(t, ':'),
        t.len() == 0 || !crate::text::is_ws(t[0]),
        slug.len() > 0,
        !crate::text::is_ws(slug[slug.len() - 1]),
    ensures
        note_ref_spec(t + seq![':'] + slug, known_types) == (NoteRefView::Typed {
            note_type: t,
            slug,
        }),
{
    let x = t + seq![':'] + slug;
    let n = t.len() as int;
    assert(x[0] == if n > 0 { t[0] } else { ':' });
    assert(x[x.len() - 1] == slug[slug.len() - 1]);
    crate::text::lemma_trim_no_ws_ends(x);
    assert(x[n] == ':');
    assert forall|m: int| 0 <= m < n implies x[m] != ':' by {
        assert(x[m] == t[m]);
    }
    lemma_find_char_from(x, ':', 0);
    assert(find_char_from(x, ':', 0) == Some(n));
    assert(x.take(n) =~= t);
    assert(x.skip(n + 1) =~= slug);
}

} // verus!

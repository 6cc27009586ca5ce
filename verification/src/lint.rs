//! The vault-wide validation report: issues, their severity, and the
//! checks whose verdict is computed from plain values — malformed
//! stewardship-dashboard bullets and artefact folders no evidence stub
//! claims.

use vstd::prelude::*;

use crate::commitments::{em_dash_parts, first_word};
use crate::date::{chrono_parse_ymd, parse_ymd};
use crate::orient::{habit_line, parse_habit_line};
use crate::commitments::{parse_periodic_line, periodic_line};
use crate::stewardships::file_name;
use crate::text::{
    chars_of, contains, contains_exec, eq_exec, find_char_from, find_char_from_exec, has_char,
    has_char_exec, join, join_exec, lemma_find_char_from, lemma_rfind_upto, lines, lines_exec,
    push_all, rfind, rfind_exec, slice_of, split_char, split_char_exec, split_ws_exec,
    starts_with, starts_with_exec, string_of, string_views, strip_prefix, strip_prefix_exec, trim,
    trim_of, trim_start, trim_start_of, views,
};

verus! {

/// How serious a lint issue is.
#[derive(Debug, Clone, Copy, PartialEq, Eq)]
pub enum LintSeverity {
    /// A hard validation failure.
    Error,
    /// A non-fatal problem worth surfacing.
    Warning,
}

impl LintSeverity {
    pub open spec fn name(self) -> Seq<char> {
        match self {
            LintSeverity::Error => "error"@,
            LintSeverity::Warning => "warning"@,
        }
    }

    pub fn as_str(self) -> (s: &'static str)
        ensures
            s@ == self.name(),
    {
        match self {
            LintSeverity::Error => "error",
            LintSeverity::Warning => "warning",
        }
    }
}

impl Default for LintSeverity {
    fn default() -> (r: Self)
        ensures
            r == LintSeverity::Error,
    {
        LintSeverity::Error
    }
}

/// A single problem found at a note path.
#[derive(Debug, Clone, PartialEq, Eq)]
pub struct LintIssue {
    pub path: String,
    pub severity: LintSeverity,
    pub message: String,
}

impl LintIssue {
    /// A hard validation failure.
    pub fn error(path: String, message: String) -> (r: Self)
        ensures
            r.path == path,
            r.severity == LintSeverity::Error,
            r.message == message,
    {
        LintIssue { path, severity: LintSeverity::Error, message }
    }

    /// A non-fatal problem.
    pub fn warning(path: String, message: String) -> (r: Self)
        ensures
            r.path == path,
            r.severity == LintSeverity::Warning,
            r.message == message,
    {
        LintIssue { path, severity: LintSeverity::Warning, message }
    }
}

/// The result of a lint pass.
#[derive(Debug, Clone, PartialEq, Eq)]
pub struct LintReport {
    pub issues: Vec<LintIssue>,
}

impl LintReport {
    pub fn is_clean(&self) -> (b: bool)
        ensures
            b == (self.issues@.len() == 0),
    {
        self.issues.len() == 0
    }
}

/// A dashboard-section line is a candidate bullet when, indentation
/// aside, it opens with `- `.
pub open spec fn dashboard_bullet(line: Seq<char>) -> bool {
    starts_with(trim_start(line), "- "@)
}

pub fn is_dashboard_bullet(line: &str) -> (b: bool)
    ensures
        b == dashboard_bullet(line@),
{
    starts_with_exec(&trim_start_of(&chars_of(line)), &chars_of("- "))
}

/// The text after a bullet's `- ` marker, trimmed.
pub open spec fn bullet_body_of(line: Seq<char>) -> Seq<char> {
    match strip_prefix(trim_start(line), "- "@) {
        Some(rest) => trim(rest),
        None => Seq::empty(),
    }
}

fn bullet_body_exec(line: &Vec<char>) -> (r: Vec<char>)
    ensures
        r@ == bullet_body_of(line@),
{
    match strip_prefix_exec(&trim_start_of(line), &chars_of("- ")) {
        Some(rest) => trim_of(&rest),
        None => Vec::new(),
    }
}

pub fn bullet_body(line: &str) -> (r: String)
    ensures
        r@ == bullet_body_of(line@),
{
    string_of(&bullet_body_exec(&chars_of(line)))
}

pub open spec fn habit_hint(line: Seq<char>) -> Seq<char> {
    let body = bullet_body_of(line);
    if has_char(body, '\u{2014}') {
        "the habit text or the status either side of the em-dash is empty"@
    } else if has_char(body, '\u{2013}') {
        "found an en-dash (\u{2013}) where an em-dash (\u{2014}) separates habit from status"@
    } else if contains(body, " - "@) {
        "found an ASCII hyphen (-) where an em-dash (\u{2014}) separates habit from status"@
    } else {
        "missing the em-dash (\u{2014}) that separates habit from status"@
    }
}

/// The likeliest reason an `## Active Habits` bullet fails its grammar.
pub fn habit_line_hint(line: &str) -> (r: &'static str)
    ensures
        r@ == habit_hint(line@),
{
    let body = bullet_body_exec(&chars_of(line));
    if has_char_exec(&body, '\u{2014}') {
        "the habit text or the status either side of the em-dash is empty"
    } else if has_char_exec(&body, '\u{2013}') {
        "found an en-dash (\u{2013}) where an em-dash (\u{2014}) separates habit from status"
    } else if contains_exec(&body, &chars_of(" - ")) {
        "found an ASCII hyphen (-) where an em-dash (\u{2014}) separates habit from status"
    } else {
        "missing the em-dash (\u{2014}) that separates habit from status"
    }
}

/// The first whitespace-separated word of `s`, or nothing.
pub open spec fn first_word_or_empty(s: Seq<char>) -> Seq<char> {
    if crate::text::split_ws(s).len() > 0 {
        crate::text::split_ws(s)[0]
    } else {
        Seq::empty()
    }
}

pub open spec fn periodic_hint(line: Seq<char>) -> Seq<char> {
    let body = bullet_body_of(line);
    match em_dash_parts(body) {
        None => if has_char(body, '\u{2013}') {
            "found an en-dash (\u{2013}) where an em-dash (\u{2014}) is expected"@
        } else if contains(body, " - "@) {
            "found an ASCII hyphen (-) where an em-dash (\u{2014}) is expected"@
        } else {
            "expected `Title \u{2014} recurrence \u{2014} next: YYYY-MM-DD` (needs two em-dashes)"@
        },
        Some((_p0, _p1, p2)) => match strip_prefix(trim(p2), "next:"@) {
            None => "missing the `next:` marker before the date"@,
            Some(after) => if chrono_parse_ymd(first_word_or_empty(after)) is None {
                "unparseable date after `next:` (expected YYYY-MM-DD)"@
            } else {
                "does not match `Title \u{2014} recurrence \u{2014} next: YYYY-MM-DD`"@
            },
        },
    }
}

/// The likeliest reason a `## Periodic Commitments` bullet fails its
/// grammar.
pub fn periodic_line_hint(line: &str) -> (r: &'static str)
    ensures
        r@ == periodic_hint(line@),
{
    let body = bullet_body_exec(&chars_of(line));
    let i = find_char_from_exec(&body, '\u{2014}', 0);
    proof {
        lemma_find_char_from(body@, '\u{2014}', 0);
    }
    let parts_found = match i {
        Some(i) => {
            let n = body.len();
            assert(i < n);
            match find_char_from_exec(&body, '\u{2014}', i + 1) {
                Some(j) => {
                    proof {
                        lemma_find_char_from(body@, '\u{2014}', i + 1);
                    }
                    Some(j)
                },
                None => None,
            }
        },
        None => None,
    };
    let j = match parts_found {
        Some(j) => j,
        None => {
            if has_char_exec(&body, '\u{2013}') {
                return "found an en-dash (\u{2013}) where an em-dash (\u{2014}) is expected";
            }
            if contains_exec(&body, &chars_of(" - ")) {
                return "found an ASCII hyphen (-) where an em-dash (\u{2014}) is expected";
            }
            return "expected `Title \u{2014} recurrence \u{2014} next: YYYY-MM-DD` (needs two em-dashes)";
        },
    };
    let p2 = slice_of(&body, j + 1, body.len());
    assert(p2@ == body@.skip(j + 1));
    let after = match strip_prefix_exec(&trim_of(&p2), &chars_of("next:")) {
        Some(a) => a,
        None => {
            return "missing the `next:` marker before the date";
        },
    };
    let words = split_ws_exec(&after);
    let date_text = if words.len() > 0 {
        words[0].clone()
    } else {
        Vec::new()
    };
    if parse_ymd(string_of(&date_text).as_str()).is_none() {
        return "unparseable date after `next:` (expected YYYY-MM-DD)";
    }
    "does not match `Title \u{2014} recurrence \u{2014} next: YYYY-MM-DD`"
}

/// The dashboard sections of one stewardship: its path and, where
/// present, its `## Active Habits` and `## Periodic Commitments` bodies.
pub struct DashboardSections {
    pub path: String,
    pub habits: Option<String>,
    pub periodic: Option<String>,
}

/// An issue as plain values.
pub struct IssueView {
    pub path: Seq<char>,
    pub severity: LintSeverity,
    pub message: Seq<char>,
}

pub open spec fn issue_views(v: Seq<LintIssue>) -> Seq<IssueView> {
    v.map_values(|i: LintIssue| IssueView { path: i.path@, severity: i.severity, message: i.message@ })
}

pub open spec fn habit_issues(path: Seq<char>, ls: Seq<Seq<char>>) -> Seq<IssueView>
    decreases ls.len(),
{
    if ls.len() == 0 {
        Seq::empty()
    } else {
        let l = ls.last();
        if dashboard_bullet(l) && habit_line(l) is None {
            habit_issues(path, ls.drop_last()).push(
                IssueView {
                    path,
                    severity: LintSeverity::Warning,
                    message: "malformed Active Habits line `"@ + trim(l) + "` -- "@ + habit_hint(
                        l,
                    ),
                },
            )
        } else {
            habit_issues(path, ls.drop_last())
        }
    }
}

pub open spec fn periodic_issues(path: Seq<char>, ls: Seq<Seq<char>>) -> Seq<IssueView>
    decreases ls.len(),
{
    if ls.len() == 0 {
        Seq::empty()
    } else {
        let l = ls.last();
        if dashboard_bullet(l) && periodic_line(l) is None {
            periodic_issues(path, ls.drop_last()).push(
                IssueView {
                    path,
                    severity: LintSeverity::Warning,
                    message: "malformed Periodic Commitments line `"@ + trim(l) + "` -- "@
                        + periodic_hint(l),
                },
            )
        } else {
            periodic_issues(path, ls.drop_last())
        }
    }
}

pub open spec fn dashboard_issues(ds: Seq<DashboardSections>) -> Seq<IssueView>
    decreases ds.len(),
{
    if ds.len() == 0 {
        Seq::empty()
    } else {
        let d = ds.last();
        dashboard_issues(ds.drop_last()) + match d.habits {
            Some(h) => habit_issues(d.path@, lines(h@)),
            None => Seq::empty(),
        } + match d.periodic {
            Some(p) => periodic_issues(d.path@, lines(p@)),
            None => Seq::empty(),
        }
    }
}

fn scan_section(out: &mut Vec<LintIssue>, path: &str, section: &str, habits: bool)
    ensures
        issue_views(final(out)@) == issue_views(old(out)@) + if habits {
            habit_issues(path@, lines(section@))
        } else {
            periodic_issues(path@, lines(section@))
        },
{
    let ls = lines_exec(&chars_of(section));
    let ghost lv = views(ls@);
    assert(lv =~= lines(section@));
    let ghost base = issue_views(out@);
    let mut k: usize = 0;
    while k < ls.len()
        invariant
            k <= ls@.len(),
            lv == views(ls@),
            issue_views(out@) == base + if habits {
                habit_issues(path@, lv.take(k as int))
            } else {
                periodic_issues(path@, lv.take(k as int))
            },
        decreases ls@.len() - k,
    {
        assert(lv.take(k + 1).drop_last() =~= lv.take(k as int));
        assert(lv.take(k + 1).last() == ls@[k as int]@);
        let line = string_of(&ls[k]);
        if is_dashboard_bullet(line.as_str()) {
            let malformed = if habits {
                parse_habit_line(line.as_str()).is_none()
            } else {
                parse_periodic_line(line.as_str()).is_none()
            };
            if malformed {
                let mut m = if habits {
                    chars_of("malformed Active Habits line `")
                } else {
                    chars_of("malformed Periodic Commitments line `")
                };
                push_all(&mut m, &trim_of(&ls[k]));
                push_all(&mut m, &chars_of("` -- "));
                let hint = if habits {
                    habit_line_hint(line.as_str())
                } else {
                    periodic_line_hint(line.as_str())
                };
                push_all(&mut m, &chars_of(hint));
                let ghost old_v = issue_views(out@);
                let issue = LintIssue::warning(string_of(&chars_of(path)), string_of(&m));
                out.push(issue);
                assert(issue_views(out@) =~= old_v.push(
                    IssueView {
                        path: path@,
                        severity: LintSeverity::Warning,
                        message: m@,
                    },
                ));
            }
        }
        k = k + 1;
    }
    assert(lv.take(lv.len() as int) =~= lv);
}

/// Warn about every `## Active Habits` and `## Periodic Commitments`
/// bullet that the canonical grammar rejects, with a hint at the likely
/// typo.
pub fn stewardship_dashboard_issues(dashboards: &Vec<DashboardSections>) -> (r: Vec<LintIssue>)
    ensures
        issue_views(r@) == dashboard_issues(dashboards@),
{
    let mut out: Vec<LintIssue> = Vec::new();
    let mut i: usize = 0;
    while i < dashboards.len()
        invariant
            i <= dashboards@.len(),
            issue_views(out@) == dashboard_issues(dashboards@.take(i as int)),
        decreases dashboards@.len() - i,
    {
        let d = &dashboards[i];
        assert(dashboards@.take(i + 1).drop_last() =~= dashboards@.take(i as int));
        assert(dashboards@.take(i + 1).last() == *d);
        let ghost before = issue_views(out@);
        let ghost dv = dashboards@[i as int];
        match &d.habits {
            Some(h) => scan_section(&mut out, d.path.as_str(), h.as_str(), true),
            None => {},
        }
        let ghost mid = issue_views(out@);
        match &d.periodic {
            Some(p) => scan_section(&mut out, d.path.as_str(), p.as_str(), false),
            None => {},
        }
        proof {
            let hs = match dv.habits {
                Some(h) => habit_issues(dv.path@, lines(h@)),
                None => Seq::empty(),
            };
            let ps = match dv.periodic {
                Some(p) => periodic_issues(dv.path@, lines(p@)),
                None => Seq::empty(),
            };
            assert(mid =~= before + hs);
            assert(issue_views(out@) =~= before + hs + ps);
        }
        i = i + 1;
    }
    assert(dashboards@.take(dashboards@.len() as int) =~= dashboards@);
    out
}

// ---------------------------------------------------------------------
// Artefact folders without an evidence stub.
// ---------------------------------------------------------------------

/// The folders that could hold a file's artefacts: from
/// `portfolios/<p>/<folder>` down to the file's parent, nearest first.
/// Empty outside `portfolios/` and at a portfolio's root.
pub open spec fn portfolio_ancestors(file: Seq<char>) -> Seq<Seq<char>> {
    let segs = split_char(file, '/');
    if segs.len() < 4 || segs[0] != "portfolios"@ {
        Seq::empty()
    } else {
        Seq::new((segs.len() - 3) as nat, |k: int| join(segs.take(segs.len() - 1 - k), "/"@))
    }
}

/// Index of the first entry of `anc` that is in `set`, or its length.
pub open spec fn first_member(anc: Seq<Seq<char>>, set: Seq<Seq<char>>) -> int
    decreases anc.len(),
{
    if anc.len() == 0 || set.contains(anc[0]) {
        0
    } else {
        1 + first_member(anc.drop_first(), set)
    }
}

/// The outermost ancestor folder of `file` holding no note, stopping at
/// the first folder that holds one.
pub open spec fn orphan_folder(file: Seq<char>, with_notes: Seq<Seq<char>>) -> Option<Seq<char>> {
    let anc = portfolio_ancestors(file);
    let m = first_member(anc, with_notes);
    if m == 0 {
        None
    } else {
        Some(anc[m - 1])
    }
}

proof fn lemma_first_member(anc: Seq<Seq<char>>, set: Seq<Seq<char>>)
    ensures
        0 <= first_member(anc, set) <= anc.len(),
        forall|k: int| 0 <= k < first_member(anc, set) ==> !set.contains(#[trigger] anc[k]),
        first_member(anc, set) < anc.len() ==> set.contains(anc[first_member(anc, set)]),
    decreases anc.len(),
{
    if anc.len() > 0 && !set.contains(anc[0]) {
        lemma_first_member(anc.drop_first(), set);
        assert forall|k: int| 0 <= k < first_member(anc, set) implies !set.contains(
            #[trigger] anc[k],
        ) by {
            if k > 0 {
                assert(anc[k] == anc.drop_first()[k - 1]);
            }
        }
    }
}

fn seq_in(set: &Vec<Vec<char>>, x: &Vec<char>) -> (b: bool)
    ensures
        b == views(set@).contains(x@),
{
    let mut i: usize = 0;
    while i < set.len()
        invariant
            i <= set@.len(),
            forall|k: int| 0 <= k < i ==> set@[k]@ != x@,
        decreases set@.len() - i,
    {
        if eq_exec(&set[i], x) {
            assert(views(set@)[i as int] == x@);
            return true;
        }
        i = i + 1;
    }
    proof {
        if views(set@).contains(x@) {
            let k = choose|k: int| 0 <= k < views(set@).len() && views(set@)[k] == x@;
            assert(set@[k]@ == x@);
        }
    }
    false
}

/// The candidate artefact folders of `file`, nearest first.
pub fn portfolio_ancestors_of(file: &Vec<char>) -> (r: Vec<Vec<char>>)
    ensures
        views(r@) == portfolio_ancestors(file@),
{
    let segs = split_char_exec(file, '/');
    let ghost sv = split_char(file@, '/');
    assert(views(segs@) =~= sv);
    let mut out: Vec<Vec<char>> = Vec::new();
    if segs.len() < 4 || !eq_exec(&segs[0], &chars_of("portfolios")) {
        assert(views(out@) =~= portfolio_ancestors(file@));
        return out;
    }
    let n = segs.len();
    let mut end = n - 1;
    while end >= 3
        invariant
            n == segs@.len(),
            n >= 4,
            2 <= end <= n - 1,
            sv == views(segs@),
            views(out@) == Seq::new((n - 1 - end) as nat, |k: int| join(sv.take(n - 1 - k), "/"@)),
        decreases end,
    {
        let mut prefix: Vec<Vec<char>> = Vec::new();
        let mut k: usize = 0;
        while k < end
            invariant
                k <= end <= n - 1,
                n == segs@.len(),
                sv == views(segs@),
                views(prefix@) == sv.take(k as int),
            decreases end - k,
        {
            let c = segs[k].clone();
            assert(c@ == sv[k as int]);
            let ghost old_prefix = views(prefix@);
            prefix.push(c);
            assert(views(prefix@) =~= old_prefix.push(sv[k as int]));
            assert(views(prefix@) =~= sv.take(k + 1));
            k = k + 1;
        }
        let sep = chars_of("/");
        let joined = join_exec(&prefix, &sep);
        assert(joined@ == join(sv.take(end as int), "/"@));
        let ghost old_out = views(out@);
        out.push(joined);
        assert(views(out@) =~= old_out.push(join(sv.take(end as int), "/"@)));
        assert(views(out@) =~= Seq::new((n - end) as nat, |k: int| join(sv.take(n - 1 - k), "/"@)));
        end = end - 1;
    }
    assert(views(out@) =~= portfolio_ancestors(file@));
    out
}

/// The folder to report an unclaimed file against: its outermost
/// ancestor folder that holds no note.
pub fn orphan_folder_for(file: &Vec<char>, with_notes: &Vec<Vec<char>>) -> (r: Option<Vec<char>>)
    ensures
        match orphan_folder(file@, views(with_notes@)) {
            Some(f) => r matches Some(v) && v@ == f,
            None => r is None,
        },
{
    let anc = portfolio_ancestors_of(file);
    let ghost av = views(anc@);
    let ghost wn = views(with_notes@);
    proof {
        lemma_first_member(av, wn);
    }
    let mut k: usize = 0;
    loop
        invariant
            k <= anc@.len(),
            av == views(anc@),
            wn == views(with_notes@),
            k <= first_member(av, wn),
            0 <= first_member(av, wn) <= av.len(),
            forall|j: int| 0 <= j < first_member(av, wn) ==> !wn.contains(#[trigger] av[j]),
            first_member(av, wn) < av.len() ==> wn.contains(av[first_member(av, wn)]),
        ensures
            k == first_member(av, wn),
            k <= anc@.len(),
        decreases anc@.len() - k,
    {
        if k >= anc.len() {
            break;
        }
        assert(av[k as int] == anc@[k as int]@);
        if seq_in(with_notes, &anc[k]) {
            break;
        }
        k = k + 1;
    }
    if k == 0 {
        None
    } else {
        Some(anc[k - 1].clone())
    }
}

/// Whether `f` lies inside `folder` (component-wise prefix).
pub open spec fn inside(f: Seq<char>, folder: Seq<char>) -> bool {
    f == folder || starts_with(f, folder.push('/'))
}

/// Whether a path names a markdown file (extension `md`).
pub open spec fn is_markdown(f: Seq<char>) -> bool {
    let name = file_name(f);
    match rfind(name, seq!['.']) {
        Some(i) => i > 0 && name.skip(i + 1) == "md"@,
        None => false,
    }
}

pub open spec fn orphan_message(folder: Seq<char>, stub_present: bool, holds_markdown: bool) -> Seq<
    char,
> {
    let stub = folder + ".md"@;
    let claim = if stub_present {
        "artefact folder `"@ + folder + "` is not claimed by `"@ + stub
            + "`, which is not an attachment stub (an evidence note carrying a `kind`)"@
    } else {
        "artefact folder `"@ + folder + "` has no evidence stub `"@ + stub + "`"@
    };
    if holds_markdown {
        claim
            + " -- it holds markdown that is not indexed: either notes whose frontmatter needs fixing, or filed documents whose stub was lost (restore the stub only in the second case)"@
    } else {
        claim + " -- orphaned attachment or stray file"@
    }
}

/// One file under `portfolios/`, with what the caller knows of it.
pub struct PortfolioFile {
    pub path: String,
    /// Indexed as a note.
    pub is_note: bool,
    /// Matched by an `ignore` glob.
    pub ignored: bool,
    /// Claimed by an attachment stub as one of its artefacts.
    pub owned: bool,
}

pub open spec fn file_paths(fs: Seq<PortfolioFile>) -> Seq<Seq<char>> {
    fs.map_values(|f: PortfolioFile| f.path@)
}

/// Every folder holding an indexed note, possibly repeated.
pub open spec fn note_folders(fs: Seq<PortfolioFile>) -> Seq<Seq<char>>
    decreases fs.len(),
{
    if fs.len() == 0 {
        Seq::empty()
    } else {
        note_folders(fs.drop_last()) + if fs.last().is_note {
            portfolio_ancestors(fs.last().path@)
        } else {
            Seq::empty()
        }
    }
}

/// The orphan folders reported while scanning `fs` in order, each once,
/// against the folders holding notes `wn`, with all the files `all`.
pub open spec fn orphan_issues_spec(
    fs: Seq<PortfolioFile>,
    wn: Seq<Seq<char>>,
    all: Seq<PortfolioFile>,
) -> Seq<IssueView>
    decreases fs.len(),
{
    if fs.len() == 0 {
        Seq::empty()
    } else {
        let prev = orphan_issues_spec(fs.drop_last(), wn, all);
        let f = fs.last();
        if f.is_note || f.ignored || f.owned {
            prev
        } else {
            match orphan_folder(f.path@, wn) {
                None => prev,
                Some(folder) => if exists|k: int|
                    0 <= k < prev.len() && #[trigger] prev[k].path == folder {
                    prev
                } else {
                    prev.push(
                        IssueView {
                            path: folder,
                            severity: LintSeverity::Error,
                            message: orphan_message(
                                folder,
                                file_paths(all).contains(folder + ".md"@),
                                exists|k: int|
                                    0 <= k < all.len() && is_markdown(#[trigger] all[k].path@)
                                        && inside(all[k].path@, folder),
                            ),
                        },
                    )
                },
            }
        }
    }
}

fn is_markdown_exec(f: &Vec<char>) -> (b: bool)
    ensures
        b == is_markdown(f@),
{
    let name = crate::stewardships::file_name_of(f);
    let dot = vec!['.'];
    assert(dot@ =~= seq!['.']);
    let n = name.len();
    match rfind_exec(&name, &dot) {
        Some(i) => {
            proof {
                lemma_rfind_upto(name@, dot@, name@.len() - 1);
            }
            i > 0 && eq_exec(&slice_of(&name, i + 1, name.len()), &chars_of("md"))
        },
        None => false,
    }
}

pub fn inside_exec(f: &Vec<char>, folder: &Vec<char>) -> (b: bool)
    ensures
        b == inside(f@, folder@),
{
    let mut with_slash = folder.clone();
    with_slash.push('/');
    eq_exec(f, folder) || starts_with_exec(f, &with_slash)
}

/// Report every artefact folder under `portfolios/` that no evidence
/// stub claims: each unclaimed, unignored non-note file is reported
/// against its outermost ancestor folder holding no note, each folder
/// once, in the order the files come.
pub fn orphan_artefact_issues(files: &Vec<PortfolioFile>) -> (r: Vec<LintIssue>)
    ensures
        issue_views(r@) == orphan_issues_spec(files@, note_folders(files@), files@),
{
    let mut paths: Vec<Vec<char>> = Vec::new();
    let mut with_notes: Vec<Vec<char>> = Vec::new();
    let mut i: usize = 0;
    while i < files.len()
        invariant
            i <= files@.len(),
            views(paths@) == file_paths(files@.take(i as int)),
            views(with_notes@) == note_folders(files@.take(i as int)),
        decreases files@.len() - i,
    {
        assert(files@.take(i + 1).drop_last() =~= files@.take(i as int));
        assert(files@.take(i + 1).last() == files@[i as int]);
        let p = chars_of(files[i].path.as_str());
        if files[i].is_note {
            let anc = portfolio_ancestors_of(&p);
            let ghost before = views(with_notes@);
            let mut k: usize = 0;
            while k < anc.len()
                invariant
                    k <= anc@.len(),
                    views(with_notes@) == before + views(anc@).take(k as int),
                decreases anc@.len() - k,
            {
                let c = anc[k].clone();
                assert(c@ == views(anc@)[k as int]);
                let ghost old_wn = views(with_notes@);
                with_notes.push(c);
                assert(views(with_notes@) =~= old_wn.push(views(anc@)[k as int]));
                assert(views(with_notes@) =~= before + views(anc@).take(k + 1));
                k = k + 1;
            }
            assert(views(anc@).take(anc@.len() as int) =~= views(anc@));
        }
        let ghost old_paths = views(paths@);
        paths.push(p);
        assert(views(paths@) =~= old_paths.push(files@[i as int].path@));
        assert(file_paths(files@.take(i + 1)) =~= file_paths(files@.take(i as int)).push(
            files@[i as int].path@,
        ));
        i = i + 1;
    }
    assert(files@.take(files@.len() as int) =~= files@);
    let ghost wn = views(with_notes@);
    let ghost all = files@;
    let mut out: Vec<LintIssue> = Vec::new();
    let mut reported: Vec<Vec<char>> = Vec::new();
    let mut j: usize = 0;
    while j < files.len()
        invariant
            j <= files@.len(),
            all == files@,
            wn == views(with_notes@),
            wn == note_folders(all),
            views(paths@) == file_paths(all),
            issue_views(out@) == orphan_issues_spec(all.take(j as int), wn, all),
            views(reported@).len() == issue_views(out@).len(),
            forall|k: int|
                0 <= k < views(reported@).len() ==> #[trigger] views(reported@)[k] == issue_views(
                    out@,
                )[k].path,
        decreases files@.len() - j,
    {
        assert(all.take(j + 1).drop_last() =~= all.take(j as int));
        assert(all.take(j + 1).last() == all[j as int]);
        let f = &files[j];
        if !f.is_note && !f.ignored && !f.owned {
            let p = chars_of(f.path.as_str());
            if let Some(folder) = orphan_folder_for(&p, &with_notes) {
                let ghost prev = issue_views(out@);
                let seen = seq_in(&reported, &folder);
                proof {
                    if seen {
                        let k = choose|k: int|
                            0 <= k < views(reported@).len() && views(reported@)[k] == folder@;
                        assert(prev[k].path == folder@);
                    } else {
                        assert forall|k: int| 0 <= k < prev.len() implies #[trigger] prev[k].path
                            != folder@ by {
                            assert(views(reported@)[k] == prev[k].path);
                        }
                    }
                }
                if !seen {
                    let mut stub = folder.clone();
                    push_all(&mut stub, &chars_of(".md"));
                    let stub_present = seq_in(&paths, &stub);
                    assert(views(paths@).len() == paths@.len());
                    let mut holds_markdown = false;
                    let mut m: usize = 0;
                    while m < paths.len()
                        invariant
                            m <= paths@.len(),
                            views(paths@) == file_paths(all),
                            paths@.len() == all.len(),
                            holds_markdown == (exists|k: int|
                                0 <= k < m && is_markdown(#[trigger] all[k].path@) && inside(
                                    all[k].path@,
                                    folder@,
                                )),
                        decreases paths@.len() - m,
                    {
                        assert(views(paths@)[m as int] == all[m as int].path@);
                        if is_markdown_exec(&paths[m]) && inside_exec(&paths[m], &folder) {
                            holds_markdown = true;
                        }
                        m = m + 1;
                    }
                    let mut msg = chars_of("artefact folder `");
                    push_all(&mut msg, &folder);
                    if stub_present {
                        push_all(&mut msg, &chars_of("` is not claimed by `"));
                        push_all(&mut msg, &stub);
                        push_all(
                            &mut msg,
                            &chars_of(
                                "`, which is not an attachment stub (an evidence note carrying a `kind`)",
                            ),
                        );
                    } else {
                        push_all(&mut msg, &chars_of("` has no evidence stub `"));
                        push_all(&mut msg, &stub);
                        push_all(&mut msg, &chars_of("`"));
                    }
                    if holds_markdown {
                        push_all(
                            &mut msg,
                            &chars_of(
                                " -- it holds markdown that is not indexed: either notes whose frontmatter needs fixing, or filed documents whose stub was lost (restore the stub only in the second case)",
                            ),
                        );
                    } else {
                        push_all(&mut msg, &chars_of(" -- orphaned attachment or stray file"));
                    }
                    assert(msg@ == orphan_message(folder@, stub_present, holds_markdown));
                    let ghost fv = folder@;
                    let ghost old_rep = views(reported@);
                    let issue = LintIssue::error(string_of(&folder), string_of(&msg));
                    out.push(issue);
                    reported.push(folder);
                    assert(views(reported@) =~= old_rep.push(fv));
                    assert(issue_views(out@) =~= prev.push(
                        IssueView { path: fv, severity: LintSeverity::Error, message: msg@ },
                    ));
                }
            }
        }
        j = j + 1;
    }
    assert(all.take(all.len() as int) =~= all);
    out
}

} // verus!

//! The checks the vault-wide lint pass runs on each indexed note, from the
//! facts gathered about it: an unknown type, missing required fields,
//! declared fields of the wrong type, an archived action note edited in
//! place, an attachment stub whose artefact folder is gone, an unreadable
//! note or frontmatter, frontmatter keys out of canonical order, and body
//! wikilinks that resolve to no note.

use vstd::prelude::*;

use crate::lint::{issue_views, IssueView, LintIssue, LintSeverity};
use crate::normalise::{reorder_frontmatter, reorder_spec};
use crate::stewardships::{file_name, file_stem, parent};
use crate::text::{
    chars_of, decimal, decimal_u64, eq_exec, push_all, string_of, string_views,
};

verus! {

/// What the lint pass learned about one note before judging it.
pub struct NoteLintFacts {
    pub path: String,
    pub note_type: String,
    /// Whether the type is a built-in or a declared custom type.
    pub type_known: bool,
    /// The fields the type requires.
    pub required: Vec<String>,
    /// The frontmatter keys whose value is not null.
    pub present: Vec<String>,
    /// Declared fields whose value fails its type check, with the reason,
    /// sorted by field name.
    pub invalid_fields: Vec<(String, String)>,
    /// The verdict on an archived action note's frozen prefix, when it was
    /// edited in place.
    pub append_only: Option<String>,
    /// For an attachment stub whose artefact folder is missing or empty:
    /// that folder.
    pub empty_attachment_folder: Option<String>,
    /// The note's text, or the message of the read error.
    pub content: Result<String, String>,
    /// The message of the frontmatter parse error, if any.
    pub frontmatter_error: Option<String>,
    /// The canonical frontmatter order of the note's type, or why it could
    /// not be resolved.
    pub canonical_order: Result<Vec<String>, String>,
    /// The targets of the body's wikilinks that resolve to no note, in
    /// order.
    pub broken_links: Vec<String>,
}

pub open spec fn listed(v: Seq<String>, s: Seq<char>) -> bool {
    exists|i: int| 0 <= i < v.len() && (#[trigger] v[i])@ == s
}

pub open spec fn err_issue(path: Seq<char>, message: Seq<char>) -> IssueView {
    IssueView { path, severity: LintSeverity::Error, message }
}

pub open spec fn warn_issue(path: Seq<char>, message: Seq<char>) -> IssueView {
    IssueView { path, severity: LintSeverity::Warning, message }
}

/// An error for each required field, in order, that has no non-null value.
pub open spec fn missing_issues(
    path: Seq<char>,
    note_type: Seq<char>,
    required: Seq<String>,
    present: Seq<String>,
) -> Seq<IssueView>
    decreases required.len(),
{
    if required.len() == 0 {
        Seq::empty()
    } else {
        let rest = missing_issues(path, note_type, required.drop_last(), present);
        let r = required.last()@;
        if listed(present, r) {
            rest
        } else {
            rest.push(
                err_issue(
                    path,
                    "missing required field `"@ + r + "` for note type `"@ + note_type + "`"@,
                ),
            )
        }
    }
}

/// A warning for each declared field whose value fails its check.
pub open spec fn invalid_issues(
    path: Seq<char>,
    note_type: Seq<char>,
    invalid: Seq<(String, String)>,
) -> Seq<IssueView>
    decreases invalid.len(),
{
    if invalid.len() == 0 {
        Seq::empty()
    } else {
        invalid_issues(path, note_type, invalid.drop_last()).push(
            warn_issue(
                path,
                "field `"@ + invalid.last().0@ + "` "@ + invalid.last().1@ + " for note type `"@
                    + note_type + "`"@,
            ),
        )
    }
}

/// A warning for each broken wikilink.
pub open spec fn link_issues(path: Seq<char>, targets: Seq<String>) -> Seq<IssueView>
    decreases targets.len(),
{
    if targets.len() == 0 {
        Seq::empty()
    } else {
        link_issues(path, targets.drop_last()).push(
            warn_issue(path, "broken wikilink `[["@ + targets.last()@ + "]]` resolves to no note"@),
        )
    }
}

/// Message of frontmatter keys out of canonical order.
pub open spec fn order_drift_message() -> Seq<char> {
    "frontmatter keys are not in canonical order (run `cdno normalise` to fix)"@
}

/// The issues found in one note, in the order the checks run. An unknown
/// type stops the checks, and so do an unreadable note and unparsable
/// frontmatter.
pub open spec fn note_issues(f: NoteLintFacts) -> Seq<IssueView> {
    let p = f.path@;
    let t = f.note_type@;
    if !f.type_known {
        seq![err_issue(p, "unknown note type: `"@ + t + "`"@)]
    } else {
        let early = missing_issues(p, t, f.required@, f.present@) + invalid_issues(
            p,
            t,
            f.invalid_fields@,
        ) + match f.append_only {
            Some(m) => seq![err_issue(p, m@)],
            None => Seq::empty(),
        } + match f.empty_attachment_folder {
            Some(folder) => seq![
                err_issue(
                    p,
                    "attachment evidence links artefacts in `"@ + folder@
                        + "` but that folder is missing or empty"@,
                ),
            ],
            None => Seq::empty(),
        };
        match f.content {
            Err(e) => early.push(err_issue(p, "could not read note: "@ + e@)),
            Ok(content) => match f.frontmatter_error {
                Some(e) => early.push(err_issue(p, "malformed frontmatter: "@ + e@)),
                None => early + match f.canonical_order {
                    Ok(order) => if reorder_spec(content@, string_views(order@)) is Some {
                        seq![warn_issue(p, order_drift_message())]
                    } else {
                        Seq::empty()
                    },
                    Err(e) => seq![
                        err_issue(p, "could not resolve canonical frontmatter order: "@ + e@),
                    ],
                } + link_issues(p, f.broken_links@),
            },
        }
    }
}

fn listed_exec(v: &Vec<String>, s: &Vec<char>) -> (b: bool)
    ensures
        b == listed(v@, s@),
{
    let mut i: usize = 0;
    while i < v.len()
        invariant
            i <= v@.len(),
            forall|j: int| 0 <= j < i ==> (#[trigger] v@[j])@ != s@,
        decreases v@.len() - i,
    {
        if eq_exec(&chars_of(v[i].as_str()), s) {
            return true;
        }
        i = i + 1;
    }
    false
}

fn push_issue(out: &mut Vec<LintIssue>, path: &str, severity: LintSeverity, message: Vec<char>)
    ensures
        issue_views(final(out)@) == issue_views(old(out)@).push(
            IssueView { path: path@, severity, message: message@ },
        ),
{
    let ghost before = issue_views(out@);
    out.push(LintIssue { path: path.to_owned(), severity, message: string_of(&message) });
    assert(issue_views(out@) =~= before.push(
        IssueView { path: path@, severity, message: message@ },
    ));
}

/// Run the per-note checks on what was learned about a note.
pub fn lint_note(f: &NoteLintFacts) -> (r: Vec<LintIssue>)
    ensures
        issue_views(r@) == note_issues(*f),
{
    let p = f.path.as_str();
    let t = chars_of(f.note_type.as_str());
    let mut out: Vec<LintIssue> = Vec::new();
    if !f.type_known {
        let mut m = chars_of("unknown note type: `");
        push_all(&mut m, &t);
        push_all(&mut m, &chars_of("`"));
        push_issue(&mut out, p, LintSeverity::Error, m);
        assert(issue_views(out@) =~= note_issues(*f));
        return out;
    }
    let mut i: usize = 0;
    while i < f.required.len()
        invariant
            i <= f.required@.len(),
            t@ == f.note_type@,
            p@ == f.path@,
            issue_views(out@) == missing_issues(
                f.path@,
                f.note_type@,
                f.required@.take(i as int),
                f.present@,
            ),
        decreases f.required@.len() - i,
    {
        assert(f.required@.take(i + 1).drop_last() =~= f.required@.take(i as int));
        assert(f.required@.take(i + 1).last() == f.required@[i as int]);
        let r = chars_of(f.required[i].as_str());
        if !listed_exec(&f.present, &r) {
            let mut m = chars_of("missing required field `");
            push_all(&mut m, &r);
            push_all(&mut m, &chars_of("` for note type `"));
            push_all(&mut m, &t);
            push_all(&mut m, &chars_of("`"));
            push_issue(&mut out, p, LintSeverity::Error, m);
        }
        i = i + 1;
    }
    assert(f.required@.take(f.required@.len() as int) =~= f.required@);
    let ghost after_missing = issue_views(out@);
    let mut j: usize = 0;
    while j < f.invalid_fields.len()
        invariant
            j <= f.invalid_fields@.len(),
            t@ == f.note_type@,
            p@ == f.path@,
            issue_views(out@) == after_missing + invalid_issues(
                f.path@,
                f.note_type@,
                f.invalid_fields@.take(j as int),
            ),
        decreases f.invalid_fields@.len() - j,
    {
        assert(f.invalid_fields@.take(j + 1).drop_last() =~= f.invalid_fields@.take(j as int));
        assert(f.invalid_fields@.take(j + 1).last() == f.invalid_fields@[j as int]);
        let mut m = chars_of("field `");
        push_all(&mut m, &chars_of(f.invalid_fields[j].0.as_str()));
        push_all(&mut m, &chars_of("` "));
        push_all(&mut m, &chars_of(f.invalid_fields[j].1.as_str()));
        push_all(&mut m, &chars_of(" for note type `"));
        push_all(&mut m, &t);
        push_all(&mut m, &chars_of("`"));
        push_issue(&mut out, p, LintSeverity::Warning, m);
        j = j + 1;
    }
    assert(f.invalid_fields@.take(f.invalid_fields@.len() as int) =~= f.invalid_fields@);
    if let Some(m) = &f.append_only {
        push_issue(&mut out, p, LintSeverity::Error, chars_of(m.as_str()));
    }
    if let Some(folder) = &f.empty_attachment_folder {
        let mut m = chars_of("attachment evidence links artefacts in `");
        push_all(&mut m, &chars_of(folder.as_str()));
        push_all(&mut m, &chars_of("` but that folder is missing or empty"));
        push_issue(&mut out, p, LintSeverity::Error, m);
    }
    let ghost early = issue_views(out@);
    assert(early =~= missing_issues(f.path@, f.note_type@, f.required@, f.present@)
        + invalid_issues(f.path@, f.note_type@, f.invalid_fields@) + match f.append_only {
        Some(m) => seq![err_issue(f.path@, m@)],
        None => Seq::<IssueView>::empty(),
    } + match f.empty_attachment_folder {
        Some(folder) => seq![
            err_issue(
                f.path@,
                "attachment evidence links artefacts in `"@ + folder@
                    + "` but that folder is missing or empty"@,
            ),
        ],
        None => Seq::<IssueView>::empty(),
    });
    let content = match &f.content {
        Err(e) => {
            let mut m = chars_of("could not read note: ");
            push_all(&mut m, &chars_of(e.as_str()));
            push_issue(&mut out, p, LintSeverity::Error, m);
            return out;
        },
        Ok(c) => c,
    };
    if let Some(e) = &f.frontmatter_error {
        let mut m = chars_of("malformed frontmatter: ");
        push_all(&mut m, &chars_of(e.as_str()));
        push_issue(&mut out, p, LintSeverity::Error, m);
        return out;
    }
    match &f.canonical_order {
        Ok(order) => {
            if reorder_frontmatter(content.as_str(), order).is_some() {
                push_issue(
                    &mut out,
                    p,
                    LintSeverity::Warning,
                    chars_of("frontmatter keys are not in canonical order (run `cdno normalise` to fix)"),
                );
            }
        },
        Err(e) => {
            let mut m = chars_of("could not resolve canonical frontmatter order: ");
            push_all(&mut m, &chars_of(e.as_str()));
            push_issue(&mut out, p, LintSeverity::Error, m);
        },
    }
    let ghost before_links = issue_views(out@);
    let mut k: usize = 0;
    while k < f.broken_links.len()
        invariant
            k <= f.broken_links@.len(),
            p@ == f.path@,
            issue_views(out@) == before_links + link_issues(
                f.path@,
                f.broken_links@.take(k as int),
            ),
        decreases f.broken_links@.len() - k,
    {
        assert(f.broken_links@.take(k + 1).drop_last() =~= f.broken_links@.take(k as int));
        assert(f.broken_links@.take(k + 1).last() == f.broken_links@[k as int]);
        let mut m = chars_of("broken wikilink `[[");
        push_all(&mut m, &chars_of(f.broken_links[k].as_str()));
        push_all(&mut m, &chars_of("]]` resolves to no note"));
        push_issue(&mut out, p, LintSeverity::Warning, m);
        k = k + 1;
    }
    assert(f.broken_links@.take(f.broken_links@.len() as int) =~= f.broken_links@);
    assert(issue_views(out@) =~= note_issues(*f));
    out
}

/// The artefact folder of an attachment stub: its path without the
/// extension (`portfolios/p/x.md` pairs with `portfolios/p/x`).
pub open spec fn attachment_folder(path: Seq<char>) -> Seq<char> {
    let stem = file_stem(file_name(path));
    if parent(path).len() == 0 {
        stem
    } else {
        parent(path) + "/"@ + stem
    }
}

pub fn attachment_folder_of(path: &str) -> (r: String)
    ensures
        r@ == attachment_folder(path@),
{
    let v = chars_of(path);
    let par = crate::stewardships::parent_of(&v);
    let stem = crate::stewardships::file_stem_of(&crate::stewardships::file_name_of(&v));
    if par.len() == 0 {
        string_of(&stem)
    } else {
        let mut r = par;
        push_all(&mut r, &chars_of("/"));
        push_all(&mut r, &stem);
        string_of(&r)
    }
}

/// The verdict on an archived action note against the snapshot taken at
/// archival: truncated below the frozen prefix, the prefix changed (its
/// hash differs), or intact.
pub open spec fn append_only_verdict(
    frozen_size: u64,
    current_size: u64,
    prefix_hash: Seq<char>,
    frozen_hash: Seq<char>,
) -> Option<Seq<char>> {
    if current_size < frozen_size {
        Some(
            "archived action note was truncated below its frozen prefix (was "@ + decimal(
                frozen_size as nat,
            ) + " bytes at archival, now "@ + decimal(current_size as nat) + ")"@,
        )
    } else if prefix_hash != frozen_hash {
        Some("archived action note modified an existing line (append-only after completion)"@)
    } else {
        None
    }
}

/// Judge an archived action note: `current_size` is its length now,
/// `prefix_hash` the hash of its first `frozen_size` bytes (when it still
/// has that many).
pub fn check_append_only(frozen_size: u64, current_size: u64, prefix_hash: &str, frozen_hash: &str) -> (r:
    Option<String>)
    ensures
        match append_only_verdict(frozen_size, current_size, prefix_hash@, frozen_hash@) {
            Some(m) => r matches Some(s) && s@ == m,
            None => r is None,
        },
{
    if current_size < frozen_size {
        let mut m = chars_of("archived action note was truncated below its frozen prefix (was ");
        push_all(&mut m, &decimal_u64(frozen_size));
        push_all(&mut m, &chars_of(" bytes at archival, now "));
        push_all(&mut m, &decimal_u64(current_size));
        push_all(&mut m, &chars_of(")"));
        return Some(string_of(&m));
    }
    if !eq_exec(&chars_of(prefix_hash), &chars_of(frozen_hash)) {
        return Some(
            "archived action note modified an existing line (append-only after completion)".to_owned(),
        );
    }
    None
}

} // verus!

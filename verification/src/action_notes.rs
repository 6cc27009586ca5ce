//! Action notes, the heavier form of an action: where one lives while
//! active and once done, the variables its template is rendered with, the
//! bullet that links it from a project, and the archival rewrite.

use vstd::prelude::*;

use crate::date::{format_ymd_chars, ymd_text, Date};
use crate::error::DomainError;
use crate::frontmatter::{ActionStatus, EnergyLevel};
use crate::projects::actions::{append_bullet, append_bullet_exec, promoted_bullet};
use crate::projects::{rewrite_field_in_frontmatter};
use crate::questions::rewritten_field;
use crate::text::{chars_of, decimal_int, decimal_i64, push_all, string_of, trim, trim_of};
use crate::tracking::pair_seq_views;

verus! {

/// `actions/<slug>.md`.
pub open spec fn active_action(slug: Seq<char>) -> Seq<char> {
    "actions/"@ + slug + ".md"@
}

pub fn active_action_path(slug: &str) -> (r: String)
    ensures
        r@ == active_action(slug@),
{
    let mut v = chars_of("actions/");
    push_all(&mut v, &chars_of(slug));
    push_all(&mut v, &chars_of(".md"));
    string_of(&v)
}

/// `actions/_done/<year>/<slug>.md`: where a completed action note is
/// archived, by the year of its completion.
pub open spec fn done_action(year: i32, slug: Seq<char>) -> Seq<char> {
    "actions/_done/"@ + decimal_int(year as int) + "/"@ + slug + ".md"@
}

pub fn done_action_path(year: i32, slug: &str) -> (r: String)
    ensures
        r@ == done_action(year, slug@),
{
    let mut v = chars_of("actions/_done/");
    push_all(&mut v, &decimal_i64(year as i64));
    push_all(&mut v, &chars_of("/"));
    push_all(&mut v, &chars_of(slug));
    push_all(&mut v, &chars_of(".md"));
    string_of(&v)
}

/// The variables an action note's template is rendered with.
pub open spec fn action_vars(
    project: Seq<char>,
    title: Seq<char>,
    slug: Seq<char>,
    energy: EnergyLevel,
    milestone: Option<Seq<char>>,
    due: Option<Date>,
    created: Date,
) -> Seq<(Seq<char>, Seq<char>)> {
    seq![
        ("status"@, ActionStatus::Active.name()),
        ("project"@, project),
        ("energy"@, energy.name()),
        ("milestone"@, match milestone {
            Some(m) => "\""@ + m + "\""@,
            None => "null"@,
        }),
        ("due"@, match due {
            Some(d) => ymd_text(d),
            None => "null"@,
        }),
        ("created"@, ymd_text(created)),
        ("completed"@, "null"@),
        ("blocker"@, "null"@),
        ("criteria"@, "null"@),
        ("tags"@, "[]"@),
        ("title"@, title),
        ("slug"@, slug),
    ]
}

/// The template variables of a new, active action note.
pub fn action_note_variables(
    project: &str,
    title: &str,
    slug: &str,
    energy: EnergyLevel,
    milestone: Option<&str>,
    due: Option<Date>,
    created: &Date,
) -> (r: Vec<(String, String)>)
    requires
        created.wf(),
        due matches Some(d) ==> d.wf(),
    ensures
        pair_seq_views(r@) == action_vars(
            project@,
            title@,
            slug@,
            energy,
            match milestone {
                Some(m) => Some(m@),
                None => None,
            },
            due,
            *created,
        ),
{
    let milestone_yaml = match milestone {
        Some(m) => {
            let mut v = chars_of("\"");
            push_all(&mut v, &chars_of(m));
            push_all(&mut v, &chars_of("\""));
            string_of(&v)
        },
        None => "null".to_owned(),
    };
    let due_yaml = match due {
        Some(d) => string_of(&format_ymd_chars(&d)),
        None => "null".to_owned(),
    };
    let mut r: Vec<(String, String)> = Vec::new();
    r.push(("status".to_owned(), ActionStatus::Active.as_str().to_owned()));
    r.push(("project".to_owned(), project.to_owned()));
    r.push(("energy".to_owned(), energy.as_str().to_owned()));
    r.push(("milestone".to_owned(), milestone_yaml));
    r.push(("due".to_owned(), due_yaml));
    r.push(("created".to_owned(), string_of(&format_ymd_chars(created))));
    r.push(("completed".to_owned(), "null".to_owned()));
    r.push(("blocker".to_owned(), "null".to_owned()));
    r.push(("criteria".to_owned(), "null".to_owned()));
    r.push(("tags".to_owned(), "[]".to_owned()));
    r.push(("title".to_owned(), title.to_owned()));
    r.push(("slug".to_owned(), slug.to_owned()));
    assert(pair_seq_views(r@) =~= action_vars(
        project@,
        title@,
        slug@,
        energy,
        match milestone {
            Some(m) => Some(m@),
            None => None,
        },
        due,
        *created,
    ));
    r
}

/// The next-actions section after an action note is attached: a bullet
/// wikilinking the note, with its energy.
pub fn attach_action_note_to_section(section: &str, action_slug: &str, energy: EnergyLevel) -> (r:
    String)
    ensures
        r@ == append_bullet(section@, promoted_bullet(action_slug@, energy)),
{
    let mut bullet = chars_of("- [ ] [[");
    push_all(&mut bullet, &chars_of("actions/"));
    push_all(&mut bullet, &chars_of(action_slug));
    push_all(&mut bullet, &chars_of("]]"));
    push_all(&mut bullet, &crate::projects::actions::energy_suffix_exec(energy));
    string_of(&append_bullet_exec(&chars_of(section), &bullet))
}

/// The daily-log line of an action added with its note.
pub open spec fn action_note_entry(
    project: Seq<char>,
    action_slug: Seq<char>,
    title: Seq<char>,
    energy: EnergyLevel,
) -> Seq<char> {
    "action added to [["@ + project + "]] with note [[actions/"@ + action_slug
        + "]] \u{2014} "@ + trim(title) + " ("@ + energy.name() + ")"@
}

pub fn format_action_note_log_entry(
    project: &str,
    action_slug: &str,
    title: &str,
    energy: EnergyLevel,
) -> (r: String)
    ensures
        r@ == action_note_entry(project@, action_slug@, title@, energy),
{
    let mut v = chars_of("action added to [[");
    push_all(&mut v, &chars_of(project));
    push_all(&mut v, &chars_of("]] with note [[actions/"));
    push_all(&mut v, &chars_of(action_slug));
    push_all(&mut v, &chars_of("]] \u{2014} "));
    push_all(&mut v, &trim_of(&chars_of(title)));
    push_all(&mut v, &chars_of(" ("));
    push_all(&mut v, &chars_of(energy.as_str()));
    push_all(&mut v, &chars_of(")"));
    string_of(&v)
}

/// An action note as archived on `completed`: `status: completed` and
/// `completed: <date>` stamped into its frontmatter, both of which it must
/// carry.
pub fn archived_action_content(raw: &str, completed: &Date) -> (r: Result<String, DomainError>)
    requires
        completed.wf(),
    ensures
        match rewritten_field(raw@, "status"@, ActionStatus::Completed.name()) {
            None => r is Err,
            Some(a) => match rewritten_field(a, "completed"@, ymd_text(*completed)) {
                None => r is Err,
                Some(b) => r matches Ok(s) && s@ == b,
            },
        },
{
    let a = match rewrite_field_in_frontmatter(raw, "status", ActionStatus::Completed.as_str()) {
        Ok(a) => a,
        Err(e) => {
            return Err(e);
        },
    };
    let date = string_of(&format_ymd_chars(completed));
    rewrite_field_in_frontmatter(a.as_str(), "completed", date.as_str())
}

} // verus!

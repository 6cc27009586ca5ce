//! Project lifecycle rules: the status a new project is created with,
//! the cap on active projects, the `core_question` frontmatter value and
//! the log lines of parking and activation.

use vstd::prelude::*;

use crate::error::DomainError;
use crate::frontmatter::ProjectStatus;
use crate::slug::{slugify, slugify_spec};
use crate::text::{chars_of, push_all, string_of, string_views};

verus! {

/// A project created while `active_count` projects are active, under a
/// cap of `cap`, starts parked at or above the cap and active below it.
pub fn creation_status(active_count: usize, cap: usize) -> (r: ProjectStatus)
    ensures
        r == (if active_count >= cap {
            ProjectStatus::Parked
        } else {
            ProjectStatus::Active
        }),
{
    if active_count >= cap {
        ProjectStatus::Parked
    } else {
        ProjectStatus::Active
    }
}

/// Activation is refused at or above the cap, the error naming the
/// projects already active.
pub fn check_activation_cap(active_slugs: &Vec<String>, cap: usize) -> (r: Result<(), DomainError>)
    ensures
        active_slugs@.len() < cap ==> r is Ok,
        active_slugs@.len() >= cap ==> (r matches Err(
            DomainError::ProjectCapReached { current: c, max: m, active_projects: a },
        ) && c == active_slugs@.len() && m == cap && string_views(a@) == string_views(
            active_slugs@,
        )),
{
    if active_slugs.len() >= cap {
        let mut names: Vec<String> = Vec::new();
        let mut i: usize = 0;
        while i < active_slugs.len()
            invariant
                i <= active_slugs@.len(),
                string_views(names@) == string_views(active_slugs@).take(i as int),
            decreases active_slugs@.len() - i,
        {
            let s = string_of(&chars_of(active_slugs[i].as_str()));
            let ghost old_names = string_views(names@);
            names.push(s);
            assert(string_views(names@) =~= old_names.push(active_slugs@[i as int]@));
            assert(string_views(names@) =~= string_views(active_slugs@).take(i + 1));
            i = i + 1;
        }
        assert(string_views(active_slugs@).take(active_slugs@.len() as int) == string_views(
            active_slugs@,
        ));
        return Err(
            DomainError::ProjectCapReached {
                current: active_slugs.len(),
                max: cap,
                active_projects: names,
            },
        );
    }
    Ok(())
}

/// The YAML value of `core_question`: the quoted wikilink to the target,
/// or `null`.
pub open spec fn core_question_yaml_spec(target: Option<Seq<char>>) -> Seq<char> {
    match target {
        Some(t) => "\"[["@ + t + "]]\""@,
        None => "null"@,
    }
}

/// Render the `core_question` frontmatter value for a wikilink target.
pub fn core_question_yaml(target: Option<&str>) -> (r: String)
    ensures
        r@ == core_question_yaml_spec(
            match target {
                Some(t) => Some(t@),
                None => None,
            },
        ),
{
    match target {
        Some(t) => {
            let mut v = chars_of("\"[[");
            push_all(&mut v, &chars_of(t));
            push_all(&mut v, &chars_of("]]\""));
            string_of(&v)
        },
        None => string_of(&chars_of("null")),
    }
}

/// `project [[<slug>]] parked`.
pub fn format_project_parked_log_entry(slug: &str) -> (r: String)
    ensures
        r@ == "project [["@ + slug@ + "]] parked"@,
{
    let mut v = chars_of("project [[");
    push_all(&mut v, &chars_of(slug));
    push_all(&mut v, &chars_of("]] parked"));
    string_of(&v)
}

/// `project [[<slug>]] activated`.
pub fn format_project_activated_log_entry(slug: &str) -> (r: String)
    ensures
        r@ == "project [["@ + slug@ + "]] activated"@,
{
    let mut v = chars_of("project [[");
    push_all(&mut v, &chars_of(slug));
    push_all(&mut v, &chars_of("]] activated"));
    string_of(&v)
}


/// The two places a project's map may live: `projects/<slug>.md` while
/// active and `projects/_parked/<slug>.md` while parked, the slug that of
/// its title.
pub fn project_paths(title: &str) -> (r: (String, String))
    ensures
        r.0@ == "projects/"@ + slugify_spec(title@) + ".md"@,
        r.1@ == "projects/_parked/"@ + slugify_spec(title@) + ".md"@,
{
    let slug = chars_of(slugify(title).as_str());
    let mut active = chars_of("projects/");
    push_all(&mut active, &slug);
    push_all(&mut active, &chars_of(".md"));
    let mut parked = chars_of("projects/_parked/");
    push_all(&mut parked, &slug);
    push_all(&mut parked, &chars_of(".md"));
    (string_of(&active), string_of(&parked))
}

/// Where a new project with `status` is written, given which of its two
/// places (see [`project_paths`]) already hold a file. Either one refuses
/// the creation, so that a parked project never shadows an active one of
/// the same slug or the reverse; the error names the active place first.
pub fn project_creation_path(
    status: ProjectStatus,
    active_path: &str,
    parked_path: &str,
    active_exists: bool,
    parked_exists: bool,
) -> (r: Result<String, DomainError>)
    ensures
        active_exists ==> (r matches Err(DomainError::AlreadyExists(p)) && p@ == active_path@),
        !active_exists && parked_exists ==> (r matches Err(DomainError::AlreadyExists(p)) && p@
            == parked_path@),
        !active_exists && !parked_exists ==> (r matches Ok(p) && p@ == (if status
            == ProjectStatus::Active {
            active_path@
        } else {
            parked_path@
        })),
{
    if active_exists {
        return Err(DomainError::AlreadyExists(active_path.to_owned()));
    }
    if parked_exists {
        return Err(DomainError::AlreadyExists(parked_path.to_owned()));
    }
    match status {
        ProjectStatus::Active => Ok(active_path.to_owned()),
        _ => Ok(parked_path.to_owned()),
    }
}

} // verus!

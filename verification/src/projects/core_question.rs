//! Changing the `core_question:` of a project after creation: the
//! validation of the new target, the no-op rule and the log line.

use vstd::prelude::*;

use crate::error::DomainError;
use crate::projects::lifecycle::{core_question_yaml, core_question_yaml_spec};
use crate::text::{chars_of, contains, contains_exec, eq_exec, push_all, string_of, trim, trim_of};

verus! {

/// Log prefix of a core-question change.
pub const LOG_CORE_QUESTION_PREFIX: &'static str = "core question on ";

/// Stand-in for an absent core question in the log.
pub const NO_CORE_QUESTION: &'static str = "(none)";

pub open spec fn opt_view(o: Option<&str>) -> Option<Seq<char>> {
    match o {
        Some(s) => Some(s@),
        None => None,
    }
}

/// Check a new core-question target: trimmed, not empty, and a bare
/// target rather than an already wrapped `[[…]]` link. `None` detaches
/// the question and is always accepted.
pub fn validate_core_question(core_question: Option<&str>) -> (r: Result<Option<String>, DomainError>)
    ensures
        core_question is None ==> r matches Ok(None),
        core_question matches Some(q) ==> {
            let t = trim(q@);
            if t.len() == 0 {
                r matches Err(DomainError::EmptyField { field: f }) && f@ == "core_question"@
            } else if contains(t, "[["@) || contains(t, "]]"@) {
                r matches Err(DomainError::MalformedWikilink { value: v }) && v@ == t
            } else {
                r matches Ok(Some(s)) && s@ == t
            }
        },
{
    match core_question {
        None => Ok(None),
        Some(q) => {
            let t = trim_of(&chars_of(q));
            if t.len() == 0 {
                return Err(DomainError::EmptyField { field: "core_question" });
            }
            if contains_exec(&t, &chars_of("[[")) || contains_exec(&t, &chars_of("]]")) {
                return Err(DomainError::MalformedWikilink { value: string_of(&t) });
            }
            Ok(Some(string_of(&t)))
        },
    }
}

/// How a core question renders in the log: the wikilink, or `(none)`.
pub open spec fn rendered_question(value: Option<Seq<char>>) -> Seq<char> {
    match value {
        Some(v) => v,
        None => NO_CORE_QUESTION@,
    }
}

pub open spec fn core_question_entry(
    slug: Seq<char>,
    previous: Option<Seq<char>>,
    new: Option<Seq<char>>,
) -> Seq<char> {
    LOG_CORE_QUESTION_PREFIX@ + "[["@ + slug + "]]\n  was: "@ + rendered_question(previous)
        + "\n  now: "@ + rendered_question(new)
}

/// `core question on [[<slug>]]` with indented `was:` and `now:` lines.
pub fn format_core_question_log_entry(slug: &str, previous: Option<&str>, new: Option<&str>) -> (r:
    String)
    ensures
        r@ == core_question_entry(slug@, opt_view(previous), opt_view(new)),
{
    let mut v = chars_of(LOG_CORE_QUESTION_PREFIX);
    push_all(&mut v, &chars_of("[["));
    push_all(&mut v, &chars_of(slug));
    push_all(&mut v, &chars_of("]]\n  was: "));
    match previous {
        Some(p) => push_all(&mut v, &chars_of(p)),
        None => push_all(&mut v, &chars_of(NO_CORE_QUESTION)),
    }
    push_all(&mut v, &chars_of("\n  now: "));
    match new {
        Some(n) => push_all(&mut v, &chars_of(n)),
        None => push_all(&mut v, &chars_of(NO_CORE_QUESTION)),
    }
    string_of(&v)
}

/// The outcome of `set_core_question` on a project's frontmatter.
pub enum CoreQuestionChange {
    /// The project already links that question (or none, when detaching).
    Unchanged,
    /// Rewrite `core_question:` to `yaml_value` and log the change.
    Write { yaml_value: String, log_entry: String },
}

/// Decide `set_core_question`, given the current `core_question` value
/// (`None` when unset) and the validated new target. A blank current
/// value counts as unset; the change is a no-op when the current value
/// equals the new wikilink.
pub fn plan_core_question(slug: &str, previous: Option<&str>, target: Option<&str>) -> (r:
    CoreQuestionChange)
    ensures
        ({
            let prev = match previous {
                Some(p) => if trim(p@).len() == 0 {
                    None
                } else {
                    Some(p@)
                },
                None => None,
            };
            let rendered = match target {
                Some(t) => Some("[["@ + t@ + "]]"@),
                None => None,
            };
            if prev == rendered {
                r matches CoreQuestionChange::Unchanged
            } else {
                r matches CoreQuestionChange::Write { yaml_value: y, log_entry: l } && y@
                    == core_question_yaml_spec(opt_view(target)) && l@ == core_question_entry(
                    slug@,
                    prev,
                    rendered,
                )
            }
        }),
{
    let prev: Option<Vec<char>> = match previous {
        Some(p) => {
            let pc = chars_of(p);
            if trim_of(&pc).len() == 0 {
                None
            } else {
                Some(pc)
            }
        },
        None => None,
    };
    let rendered: Option<Vec<char>> = match target {
        Some(t) => {
            let mut v = chars_of("[[");
            push_all(&mut v, &chars_of(t));
            push_all(&mut v, &chars_of("]]"));
            Some(v)
        },
        None => None,
    };
    let same = match (&prev, &rendered) {
        (Some(a), Some(b)) => eq_exec(a, b),
        (None, None) => true,
        _ => false,
    };
    if same {
        return CoreQuestionChange::Unchanged;
    }
    let prev_s: Option<String> = match prev {
        Some(p) => Some(string_of(&p)),
        None => None,
    };
    let new_s: Option<String> = match rendered {
        Some(n) => Some(string_of(&n)),
        None => None,
    };
    let log_entry = format_core_question_log_entry(
        slug,
        match &prev_s {
            Some(p) => Some(p.as_str()),
            None => None,
        },
        match &new_s {
            Some(n) => Some(n.as_str()),
            None => None,
        },
    );
    CoreQuestionChange::Write { yaml_value: core_question_yaml(target), log_entry }
}

} // verus!

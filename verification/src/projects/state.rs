//! The `## Current State` section of a project map: replacing it, the
//! length ceiling on the new body, and the daily-log line that keeps the
//! previous body.

use vstd::prelude::*;

use crate::error::DomainError;
use crate::text::{
    chars_of, decimal, decimal_u64, join, join_exec, push_all, split_ws, split_ws_exec, string_of,
    trim, trim_of, views,
};

verus! {

/// What happens to a Current State body over the length ceiling.
#[derive(Debug, Clone, Copy, PartialEq, Eq, Structural)]
pub enum StateOverflow {
    /// No ceiling.
    Off,
    /// Write, and return an advisory warning.
    Warn,
    /// Refuse the update.
    Reject,
}

/// `text` with every whitespace run collapsed to one space and the ends
/// trimmed.
pub open spec fn flatten_spec(text: Seq<char>) -> Seq<char> {
    join(split_ws(text), " "@)
}

/// Collapse every whitespace run (newlines included) to a single space,
/// so that a multi-line body becomes one log line.
pub fn flatten_for_log(text: &str) -> (r: String)
    ensures
        r@ == flatten_spec(text@),
{
    let words = split_ws_exec(&chars_of(text));
    assert(views(words@) =~= split_ws(text@));
    string_of(&join_exec(&words, &chars_of(" ")))
}

pub open spec fn state_change_entry(slug: Seq<char>, old: Seq<char>, new: Seq<char>) -> Seq<char> {
    "state on [["@ + slug + "]]\n  was: "@ + flatten_spec(old) + "\n  now: "@ + flatten_spec(new)
}

/// The log line of a state change: a header naming the project, then
/// indented `was:` and `now:` lines, each body flattened to one line.
pub fn format_state_change_log_entry(slug: &str, old_state: &str, new_state: &str) -> (r: String)
    ensures
        r@ == state_change_entry(slug@, old_state@, new_state@),
{
    let mut v = chars_of("state on [[");
    push_all(&mut v, &chars_of(slug));
    push_all(&mut v, &chars_of("]]\n  was: "));
    push_all(&mut v, &chars_of(flatten_for_log(old_state).as_str()));
    push_all(&mut v, &chars_of("\n  now: "));
    push_all(&mut v, &chars_of(flatten_for_log(new_state).as_str()));
    string_of(&v)
}

/// The outcome of `update_project_state` on a project's body.
pub enum StateUpdate {
    /// The new body equals the old one, once both are trimmed: nothing is
    /// written or logged.
    Unchanged,
    /// The section is rewritten and the old body logged.
    Write { section: String, log_entry: String, warning: Option<String> },
}

pub open spec fn over_limit_warning(slug: Seq<char>, len: nat, cap: nat) -> Seq<char> {
    "Current State for '"@ + slug + "' is "@ + decimal(len) + " characters (over the "@ + decimal(
        cap,
    ) + " limit) \u{2014} consider trimming; the detail belongs in the daily log."@
}

/// Decide `update_project_state` from the current `## Current State`
/// body. A body equal to the old one (both trimmed) is a no-op, checked
/// before the ceiling so that an unchanged over-long body is never
/// refused. With a ceiling `cap > 0` and overflow not `Off`, a trimmed
/// body of more than `cap` characters is refused (`Reject`) or written
/// with a warning (`Warn`). The written section is the trimmed body and a
/// blank line.
pub fn plan_state_update(
    old_section: &str,
    slug: &str,
    new_state: &str,
    cap: usize,
    overflow: StateOverflow,
) -> (r: Result<StateUpdate, DomainError>)
    ensures
        ({
            let old = trim(old_section@);
            let new = trim(new_state@);
            let over = cap > 0 && overflow != StateOverflow::Off && new.len() > cap;
            if old == new {
                r matches Ok(StateUpdate::Unchanged)
            } else if over && overflow == StateOverflow::Reject {
                r matches Err(DomainError::StateTooLong { slug: s, chars: n, max: m }) && s@
                    == slug@ && n == new.len() && m == cap
            } else {
                r matches Ok(StateUpdate::Write { section, log_entry, warning }) && section@ == new
                    + "\n\n"@ && log_entry@ == state_change_entry(slug@, old, new) && (if over {
                    warning matches Some(w) && w@ == over_limit_warning(slug@, new.len(), cap as nat)
                } else {
                    warning is None
                })
            }
        }),
{
    let old = trim_of(&chars_of(old_section));
    let new = trim_of(&chars_of(new_state));
    if crate::text::eq_exec(&old, &new) {
        return Ok(StateUpdate::Unchanged);
    }
    let len = new.len();
    let over = cap > 0 && overflow != StateOverflow::Off && len > cap;
    let mut warning: Option<String> = None;
    if over {
        match overflow {
            StateOverflow::Reject => {
                return Err(DomainError::StateTooLong { slug: slug.to_owned(), chars: len, max: cap });
            },
            _ => {
                let mut w = chars_of("Current State for '");
                push_all(&mut w, &chars_of(slug));
                push_all(&mut w, &chars_of("' is "));
                push_all(&mut w, &decimal_u64(len as u64));
                push_all(&mut w, &chars_of(" characters (over the "));
                push_all(&mut w, &decimal_u64(cap as u64));
                push_all(
                    &mut w,
                    &chars_of(
                        " limit) \u{2014} consider trimming; the detail belongs in the daily log.",
                    ),
                );
                warning = Some(string_of(&w));
            },
        }
    }
    let mut section = new.clone();
    push_all(&mut section, &chars_of("\n\n"));
    let old_s = string_of(&old);
    let new_s = string_of(&new);
    let log_entry = format_state_change_log_entry(slug, old_s.as_str(), new_s.as_str());
    Ok(StateUpdate::Write { section: string_of(&section), log_entry, warning })
}

} // verus!

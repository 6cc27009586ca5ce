//! Action note frontmatter: the typed view of `type: action` headers.

use vstd::prelude::*;

use crate::date::Date;
use crate::frontmatter::project::EnergyLevel;
use crate::text::{chars_of, eq_exec};

verus! {

/// Lifecycle state of an action note.
#[derive(Debug, Clone, Copy, PartialEq, Eq, Hash)]
pub enum ActionStatus {
    Active,
    Completed,
    Blocked,
    /// Abandoned, superseded or reprioritised — closed without having been
    /// performed; carries no `completed` date.
    Dropped,
}

impl ActionStatus {
    /// Every variant in declaration order.
    pub const ALL: [ActionStatus; 4] = [
        ActionStatus::Active,
        ActionStatus::Completed,
        ActionStatus::Blocked,
        ActionStatus::Dropped,
    ];

    /// The kebab-case name of the variant.
    pub open spec fn name(self) -> Seq<char> {
        match self {
            ActionStatus::Active => "active"@,
            ActionStatus::Completed => "completed"@,
            ActionStatus::Blocked => "blocked"@,
            ActionStatus::Dropped => "dropped"@,
        }
    }

    /// The variant whose name is `s`, if any.
    pub open spec fn from_name_spec(s: Seq<char>) -> Option<Self> {
        if s == "active"@ {
            Some(ActionStatus::Active)
        } else if s == "completed"@ {
            Some(ActionStatus::Completed)
        } else if s == "blocked"@ {
            Some(ActionStatus::Blocked)
        } else if s == "dropped"@ {
            Some(ActionStatus::Dropped)
        } else {
            None
        }
    }

    /// Kebab-case YAML / CLI form.
    pub fn as_str(self) -> (s: &'static str)
        ensures
            s@ == self.name(),
    {
        match self {
            ActionStatus::Active => "active",
            ActionStatus::Completed => "completed",
            ActionStatus::Blocked => "blocked",
            ActionStatus::Dropped => "dropped",
        }
    }

    /// Parse the kebab-case name; anything else is an error carrying the
    /// input.
    pub fn from_name(s: &str) -> (r: Result<ActionStatus, ParseActionStatusError>)
        ensures
            match Self::from_name_spec(s@) {
                Some(t) => r == Ok::<Self, ParseActionStatusError>(t),
                None => r matches Err(e) && e.0@ == s@,
            },
    {
        let v = chars_of(s);
        if eq_exec(&v, &chars_of("active")) {
            return Ok(ActionStatus::Active);
        }
        if eq_exec(&v, &chars_of("completed")) {
            return Ok(ActionStatus::Completed);
        }
        if eq_exec(&v, &chars_of("blocked")) {
            return Ok(ActionStatus::Blocked);
        }
        if eq_exec(&v, &chars_of("dropped")) {
            return Ok(ActionStatus::Dropped);
        }
        Err(ParseActionStatusError(s.to_owned()))
    }

    /// Every variant's name parses back to that variant.
    pub proof fn lemma_name_roundtrip(self)
        ensures
            Self::from_name_spec(self.name()) == Some(self),
    {
        reveal_strlit("active");
        reveal_strlit("completed");
        reveal_strlit("blocked");
        reveal_strlit("dropped");
        match self {
            ActionStatus::Active => {
            },
            ActionStatus::Completed => {
                assert("completed"@ != "active"@) by {
                    reveal_strlit("completed");
                    reveal_strlit("active");
                    assert("completed"@.len() != "active"@.len());
                }
            },
            ActionStatus::Blocked => {
                assert("blocked"@ != "active"@) by {
                    reveal_strlit("blocked");
                    reveal_strlit("active");
                    assert("blocked"@.len() != "active"@.len());
                }
                assert("blocked"@ != "completed"@) by {
                    reveal_strlit("blocked");
                    reveal_strlit("completed");
                    assert("blocked"@.len() != "completed"@.len());
                }
            },
            ActionStatus::Dropped => {
                assert("dropped"@ != "active"@) by {
                    reveal_strlit("dropped");
                    reveal_strlit("active");
                    assert("dropped"@.len() != "active"@.len());
                }
                assert("dropped"@ != "completed"@) by {
                    reveal_strlit("dropped");
                    reveal_strlit("completed");
                    assert("dropped"@.len() != "completed"@.len());
                }
                assert("dropped"@ != "blocked"@) by {
                    reveal_strlit("dropped");
                    reveal_strlit("blocked");
                    assert("dropped"@[0] != "blocked"@[0]);
                }
            },
        }
    }

    /// A name that parses names exactly the variant it parses to.
    pub proof fn lemma_parse_names(s: Seq<char>)
        ensures
            Self::from_name_spec(s) matches Some(t) ==> t.name() == s,
    {
    }
}

/// Error returned when a string does not match any [`ActionStatus`] variant.
#[derive(Debug, Clone, PartialEq, Eq)]
pub struct ParseActionStatusError(pub String);

impl core::str::FromStr for ActionStatus {
    type Err = ParseActionStatusError;

    fn from_str(s: &str) -> (r: Result<Self, Self::Err>)
        ensures
            match Self::from_name_spec(s@) {
                Some(t) => r == Ok::<Self, ParseActionStatusError>(t),
                None => r matches Err(e) && e.0@ == s@,
            },
    {
        ActionStatus::from_name(s)
    }
}

/// Parsed frontmatter of an action note.
#[derive(Debug, Clone, PartialEq, Eq)]
pub struct ActionFrontmatter {
    pub status: ActionStatus,
    pub project: String,
    pub energy: EnergyLevel,
    pub milestone: Option<String>,
    pub due: Option<Date>,
    pub created: Date,
    pub completed: Option<Date>,
    pub blocker: Option<String>,
    pub criteria: Option<String>,
    pub tags: Vec<String>,
}

} // verus!

//! Commitment note frontmatter: the typed view of `type: commitment`
//! headers.

use vstd::prelude::*;

use crate::date::Date;
use crate::frontmatter::context::Context;
use crate::text::{chars_of, eq_exec};

verus! {

/// Lifecycle state of a commitment.
#[derive(Debug, Clone, Copy, PartialEq, Eq, Hash)]
pub enum CommitmentStatus {
    Active,
    Completed,
}

impl CommitmentStatus {
    /// Every variant in declaration order.
    pub const ALL: [CommitmentStatus; 2] = [
        CommitmentStatus::Active,
        CommitmentStatus::Completed,
    ];

    /// The kebab-case name of the variant.
    pub open spec fn name(self) -> Seq<char> {
        match self {
            CommitmentStatus::Active => "active"@,
            CommitmentStatus::Completed => "completed"@,
        }
    }

    /// The variant whose name is `s`, if any.
    pub open spec fn from_name_spec(s: Seq<char>) -> Option<Self> {
        if s == "active"@ {
            Some(CommitmentStatus::Active)
        } else if s == "completed"@ {
            Some(CommitmentStatus::Completed)
        } else {
            None
        }
    }

    /// Kebab-case YAML / CLI form.
    pub fn as_str(self) -> (s: &'static str)
        ensures
            s@ == self.name(),
    {
        match self {
            CommitmentStatus::Active => "active",
            CommitmentStatus::Completed => "completed",
        }
    }

    /// Parse the kebab-case name; anything else is an error carrying the
    /// input.
    pub fn from_name(s: &str) -> (r: Result<CommitmentStatus, ParseCommitmentStatusError>)
        ensures
            match Self::from_name_spec(s@) {
                Some(t) => r == Ok::<Self, ParseCommitmentStatusError>(t),
                None => r matches Err(e) && e.0@ == s@,
            },
    {
        let v = chars_of(s);
        if eq_exec(&v, &chars_of("active")) {
            return Ok(CommitmentStatus::Active);
        }
        if eq_exec(&v, &chars_of("completed")) {
            return Ok(CommitmentStatus::Completed);
        }
        Err(ParseCommitmentStatusError(s.to_owned()))
    }

    /// Every variant's name parses back to that variant.
    pub proof fn lemma_name_roundtrip(self)
        ensures
            Self::from_name_spec(self.name()) == Some(self),
    {
        reveal_strlit("active");
        reveal_strlit("completed");
        match self {
            CommitmentStatus::Active => {
            },
            CommitmentStatus::Completed => {
                assert("completed"@ != "active"@) by {
                    reveal_strlit("completed");
                    reveal_strlit("active");
                    assert("completed"@.len() != "active"@.len());
                }
            },
        }
    }

    /// A name that parses names exactly the variant it parses to.
    pub proof fn lemma_parse_names(s: Seq<char>)
        ensures
            Self::from_name_spec(s) matches Some(t) ==> t.name() == s,
    {
    }
}

/// Error returned when a string does not match any [`CommitmentStatus`] variant.
#[derive(Debug, Clone, PartialEq, Eq)]
pub struct ParseCommitmentStatusError(pub String);

impl core::str::FromStr for CommitmentStatus {
    type Err = ParseCommitmentStatusError;

    fn from_str(s: &str) -> (r: Result<Self, Self::Err>)
        ensures
            match Self::from_name_spec(s@) {
                Some(t) => r == Ok::<Self, ParseCommitmentStatusError>(t),
                None => r matches Err(e) && e.0@ == s@,
            },
    {
        CommitmentStatus::from_name(s)
    }
}

/// Parsed frontmatter of a commitment note. `project` and `stewardship`
/// name the originating note, when there is one.
#[derive(Debug, Clone, PartialEq, Eq)]
pub struct CommitmentFrontmatter {
    pub status: CommitmentStatus,
    pub due: Date,
    pub created: Date,
    pub completed: Option<Date>,
    pub context: Context,
    pub project: Option<String>,
    pub stewardship: Option<String>,
}

} // verus!

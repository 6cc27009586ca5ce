//! Project map frontmatter: project status, energy levels and the typed
//! view of `type: project` headers.

use vstd::prelude::*;

use crate::date::Date;
use crate::frontmatter::context::Context;
use crate::text::{chars_of, eq_exec};

verus! {

/// Lifecycle state of a project.
#[derive(Debug, Clone, Copy, PartialEq, Eq, Hash)]
pub enum ProjectStatus {
    Active,
    Parked,
    Completed,
}

impl ProjectStatus {
    /// Every variant in declaration order.
    pub const ALL: [ProjectStatus; 3] = [
        ProjectStatus::Active,
        ProjectStatus::Parked,
        ProjectStatus::Completed,
    ];

    /// The kebab-case name of the variant.
    pub open spec fn name(self) -> Seq<char> {
        match self {
            ProjectStatus::Active => "active"@,
            ProjectStatus::Parked => "parked"@,
            ProjectStatus::Completed => "completed"@,
        }
    }

    /// The variant whose name is `s`, if any.
    pub open spec fn from_name_spec(s: Seq<char>) -> Option<Self> {
        if s == "active"@ {
            Some(ProjectStatus::Active)
        } else if s == "parked"@ {
            Some(ProjectStatus::Parked)
        } else if s == "completed"@ {
            Some(ProjectStatus::Completed)
        } else {
            None
        }
    }

    /// Kebab-case YAML / CLI form.
    pub fn as_str(self) -> (s: &'static str)
        ensures
            s@ == self.name(),
    {
        match self {
            ProjectStatus::Active => "active",
            ProjectStatus::Parked => "parked",
            ProjectStatus::Completed => "completed",
        }
    }

    /// Every variant's name parses back to that variant.
    pub proof fn lemma_name_roundtrip(self)
        ensures
            Self::from_name_spec(self.name()) == Some(self),
    {
        reveal_strlit("active");
        reveal_strlit("parked");
        reveal_strlit("completed");
        match self {
            ProjectStatus::Active => {
            },
            ProjectStatus::Parked => {
                assert("parked"@ != "active"@) by {
                    reveal_strlit("parked");
                    reveal_strlit("active");
                    assert("parked"@[0] != "active"@[0]);
                }
            },
            ProjectStatus::Completed => {
                assert("completed"@ != "active"@) by {
                    reveal_strlit("completed");
                    reveal_strlit("active");
                    assert("completed"@.len() != "active"@.len());
                }
                assert("completed"@ != "parked"@) by {
                    reveal_strlit("completed");
                    reveal_strlit("parked");
                    assert("completed"@.len() != "parked"@.len());
                }
            },
        }
    }

    /// A name that parses names exactly the variant it parses to.
    pub proof fn lemma_parse_names(s: Seq<char>)
        ensures
            Self::from_name_spec(s) matches Some(t) ==> t.name() == s,
    {
    }
}

/// Effort/focus tag attached to a next action, shown as a parenthesised
/// suffix (`- [ ] Run ablation (deep)`).
#[derive(Debug, Clone, Copy, PartialEq, Eq, Hash)]
pub enum EnergyLevel {
    Deep,
    Medium,
    Light,
}

impl EnergyLevel {
    /// Every variant in declaration order.
    pub const ALL: [EnergyLevel; 3] = [
        EnergyLevel::Deep,
        EnergyLevel::Medium,
        EnergyLevel::Light,
    ];

    /// The kebab-case name of the variant.
    pub open spec fn name(self) -> Seq<char> {
        match self {
            EnergyLevel::Deep => "deep"@,
            EnergyLevel::Medium => "medium"@,
            EnergyLevel::Light => "light"@,
        }
    }

    /// The variant whose name is `s`, if any.
    pub open spec fn from_name_spec(s: Seq<char>) -> Option<Self> {
        if s == "deep"@ {
            Some(EnergyLevel::Deep)
        } else if s == "medium"@ {
            Some(EnergyLevel::Medium)
        } else if s == "light"@ {
            Some(EnergyLevel::Light)
        } else {
            None
        }
    }

    /// Kebab-case YAML / CLI form.
    pub fn as_str(self) -> (s: &'static str)
        ensures
            s@ == self.name(),
    {
        match self {
            EnergyLevel::Deep => "deep",
            EnergyLevel::Medium => "medium",
            EnergyLevel::Light => "light",
        }
    }

    /// Parse the kebab-case name; anything else is an error carrying the
    /// input.
    pub fn from_name(s: &str) -> (r: Result<EnergyLevel, ParseEnergyLevelError>)
        ensures
            match Self::from_name_spec(s@) {
                Some(t) => r == Ok::<Self, ParseEnergyLevelError>(t),
                None => r matches Err(e) && e.0@ == s@,
            },
    {
        let v = chars_of(s);
        if eq_exec(&v, &chars_of("deep")) {
            return Ok(EnergyLevel::Deep);
        }
        if eq_exec(&v, &chars_of("medium")) {
            return Ok(EnergyLevel::Medium);
        }
        if eq_exec(&v, &chars_of("light")) {
            return Ok(EnergyLevel::Light);
        }
        Err(ParseEnergyLevelError(s.to_owned()))
    }

    /// Every variant's name parses back to that variant.
    pub proof fn lemma_name_roundtrip(self)
        ensures
            Self::from_name_spec(self.name()) == Some(self),
    {
        reveal_strlit("deep");
        reveal_strlit("medium");
        reveal_strlit("light");
        match self {
            EnergyLevel::Deep => {
            },
            EnergyLevel::Medium => {
                assert("medium"@ != "deep"@) by {
                    reveal_strlit("medium");
                    reveal_strlit("deep");
                    assert("medium"@.len() != "deep"@.len());
                }
            },
            EnergyLevel::Light => {
                assert("light"@ != "deep"@) by {
                    reveal_strlit("light");
                    reveal_strlit("deep");
                    assert("light"@.len() != "deep"@.len());
                }
                assert("light"@ != "medium"@) by {
                    reveal_strlit("light");
                    reveal_strlit("medium");
                    assert("light"@.len() != "medium"@.len());
                }
            },
        }
    }

    /// A name that parses names exactly the variant it parses to.
    pub proof fn lemma_parse_names(s: Seq<char>)
        ensures
            Self::from_name_spec(s) matches Some(t) ==> t.name() == s,
    {
    }
}

/// Error returned when a string does not match any [`EnergyLevel`] variant.
#[derive(Debug, Clone, PartialEq, Eq)]
pub struct ParseEnergyLevelError(pub String);

impl core::str::FromStr for EnergyLevel {
    type Err = ParseEnergyLevelError;

    fn from_str(s: &str) -> (r: Result<Self, Self::Err>)
        ensures
            match Self::from_name_spec(s@) {
                Some(t) => r == Ok::<Self, ParseEnergyLevelError>(t),
                None => r matches Err(e) && e.0@ == s@,
            },
    {
        EnergyLevel::from_name(s)
    }
}

/// Parsed frontmatter of a project map. `core_question` keeps the raw
/// wikilink text.
#[derive(Debug, Clone, PartialEq, Eq)]
pub struct ProjectFrontmatter {
    pub context: Context,
    pub status: ProjectStatus,
    pub created: Date,
    pub core_question: Option<String>,
}

} // verus!

//! Question note frontmatter: domain, status and the typed view of
//! `type: question` headers.

use vstd::prelude::*;

use crate::date::Date;
use crate::text::{chars_of, eq_exec};

verus! {

/// Which kind of question this is; also the folder under `questions/`.
#[derive(Debug, Clone, Copy, PartialEq, Eq, Hash)]
pub enum QuestionDomain {
    Research,
    Life,
}

impl QuestionDomain {
    /// Every variant in declaration order.
    pub const ALL: [QuestionDomain; 2] = [
        QuestionDomain::Research,
        QuestionDomain::Life,
    ];

    /// The kebab-case name of the variant.
    pub open spec fn name(self) -> Seq<char> {
        match self {
            QuestionDomain::Research => "research"@,
            QuestionDomain::Life => "life"@,
        }
    }

    /// The variant whose name is `s`, if any.
    pub open spec fn from_name_spec(s: Seq<char>) -> Option<Self> {
        if s == "research"@ {
            Some(QuestionDomain::Research)
        } else if s == "life"@ {
            Some(QuestionDomain::Life)
        } else {
            None
        }
    }

    /// Kebab-case YAML / CLI form.
    pub fn as_str(self) -> (s: &'static str)
        ensures
            s@ == self.name(),
    {
        match self {
            QuestionDomain::Research => "research",
            QuestionDomain::Life => "life",
        }
    }

    /// Parse the kebab-case name; anything else is an error carrying the
    /// input.
    pub fn from_name(s: &str) -> (r: Result<QuestionDomain, ParseQuestionDomainError>)
        ensures
            match Self::from_name_spec(s@) {
                Some(t) => r == Ok::<Self, ParseQuestionDomainError>(t),
                None => r matches Err(e) && e.0@ == s@,
            },
    {
        let v = chars_of(s);
        if eq_exec(&v, &chars_of("research")) {
            return Ok(QuestionDomain::Research);
        }
        if eq_exec(&v, &chars_of("life")) {
            return Ok(QuestionDomain::Life);
        }
        Err(ParseQuestionDomainError(s.to_owned()))
    }

    /// Every variant's name parses back to that variant.
    pub proof fn lemma_name_roundtrip(self)
        ensures
            Self::from_name_spec(self.name()) == Some(self),
    {
        reveal_strlit("research");
        reveal_strlit("life");
        match self {
            QuestionDomain::Research => {
            },
            QuestionDomain::Life => {
                assert("life"@ != "research"@) by {
                    reveal_strlit("life");
                    reveal_strlit("research");
                    assert("life"@.len() != "research"@.len());
                }
            },
        }
    }

    /// A name that parses names exactly the variant it parses to.
    pub proof fn lemma_parse_names(s: Seq<char>)
        ensures
            Self::from_name_spec(s) matches Some(t) ==> t.name() == s,
    {
    }
}

/// Error returned when a string does not match any [`QuestionDomain`] variant.
#[derive(Debug, Clone, PartialEq, Eq)]
pub struct ParseQuestionDomainError(pub String);

impl core::str::FromStr for QuestionDomain {
    type Err = ParseQuestionDomainError;

    fn from_str(s: &str) -> (r: Result<Self, Self::Err>)
        ensures
            match Self::from_name_spec(s@) {
                Some(t) => r == Ok::<Self, ParseQuestionDomainError>(t),
                None => r matches Err(e) && e.0@ == s@,
            },
    {
        QuestionDomain::from_name(s)
    }
}

/// Lifecycle state of a question.
#[derive(Debug, Clone, Copy, PartialEq, Eq, Hash)]
pub enum QuestionStatus {
    Active,
    Parked,
    Answered,
    Retired,
}

impl QuestionStatus {
    /// Every variant in declaration order.
    pub const ALL: [QuestionStatus; 4] = [
        QuestionStatus::Active,
        QuestionStatus::Parked,
        QuestionStatus::Answered,
        QuestionStatus::Retired,
    ];

    /// The kebab-case name of the variant.
    pub open spec fn name(self) -> Seq<char> {
        match self {
            QuestionStatus::Active => "active"@,
            QuestionStatus::Parked => "parked"@,
            QuestionStatus::Answered => "answered"@,
            QuestionStatus::Retired => "retired"@,
        }
    }

    /// The variant whose name is `s`, if any.
    pub open spec fn from_name_spec(s: Seq<char>) -> Option<Self> {
        if s == "active"@ {
            Some(QuestionStatus::Active)
        } else if s == "parked"@ {
            Some(QuestionStatus::Parked)
        } else if s == "answered"@ {
            Some(QuestionStatus::Answered)
        } else if s == "retired"@ {
            Some(QuestionStatus::Retired)
        } else {
            None
        }
    }

    /// Kebab-case YAML / CLI form.
    pub fn as_str(self) -> (s: &'static str)
        ensures
            s@ == self.name(),
    {
        match self {
            QuestionStatus::Active => "active",
            QuestionStatus::Parked => "parked",
            QuestionStatus::Answered => "answered",
            QuestionStatus::Retired => "retired",
        }
    }

    /// Parse the kebab-case name; anything else is an error carrying the
    /// input.
    pub fn from_name(s: &str) -> (r: Result<QuestionStatus, ParseQuestionStatusError>)
        ensures
            match Self::from_name_spec(s@) {
                Some(t) => r == Ok::<Self, ParseQuestionStatusError>(t),
                None => r matches Err(e) && e.0@ == s@,
            },
    {
        let v = chars_of(s);
        if eq_exec(&v, &chars_of("active")) {
            return Ok(QuestionStatus::Active);
        }
        if eq_exec(&v, &chars_of("parked")) {
            return Ok(QuestionStatus::Parked);
        }
        if eq_exec(&v, &chars_of("answered")) {
            return Ok(QuestionStatus::Answered);
        }
        if eq_exec(&v, &chars_of("retired")) {
            return Ok(QuestionStatus::Retired);
        }
        Err(ParseQuestionStatusError(s.to_owned()))
    }

    /// Every variant's name parses back to that variant.
    pub proof fn lemma_name_roundtrip(self)
        ensures
            Self::from_name_spec(self.name()) == Some(self),
    {
        reveal_strlit("active");
        reveal_strlit("parked");
        reveal_strlit("answered");
        reveal_strlit("retired");
        match self {
            QuestionStatus::Active => {
            },
            QuestionStatus::Parked => {
                assert("parked"@ != "active"@) by {
                    reveal_strlit("parked");
                    reveal_strlit("active");
                    assert("parked"@[0] != "active"@[0]);
                }
            },
            QuestionStatus::Answered => {
                assert("answered"@ != "active"@) by {
                    reveal_strlit("answered");
                    reveal_strlit("active");
                    assert("answered"@.len() != "active"@.len());
                }
                assert("answered"@ != "parked"@) by {
                    reveal_strlit("answered");
                    reveal_strlit("parked");
                    assert("answered"@.len() != "parked"@.len());
                }
            },
            QuestionStatus::Retired => {
                assert("retired"@ != "active"@) by {
                    reveal_strlit("retired");
                    reveal_strlit("active");
                    assert("retired"@.len() != "active"@.len());
                }
                assert("retired"@ != "parked"@) by {
                    reveal_strlit("retired");
                    reveal_strlit("parked");
                    assert("retired"@.len() != "parked"@.len());
                }
                assert("retired"@ != "answered"@) by {
                    reveal_strlit("retired");
                    reveal_strlit("answered");
                    assert("retired"@.len() != "answered"@.len());
                }
            },
        }
    }

    /// A name that parses names exactly the variant it parses to.
    pub proof fn lemma_parse_names(s: Seq<char>)
        ensures
            Self::from_name_spec(s) matches Some(t) ==> t.name() == s,
    {
    }
}

/// Error returned when a string does not match any [`QuestionStatus`] variant.
#[derive(Debug, Clone, PartialEq, Eq)]
pub struct ParseQuestionStatusError(pub String);

impl core::str::FromStr for QuestionStatus {
    type Err = ParseQuestionStatusError;

    fn from_str(s: &str) -> (r: Result<Self, Self::Err>)
        ensures
            match Self::from_name_spec(s@) {
                Some(t) => r == Ok::<Self, ParseQuestionStatusError>(t),
                None => r matches Err(e) && e.0@ == s@,
            },
    {
        QuestionStatus::from_name(s)
    }
}

/// Parsed frontmatter of a question note.
#[derive(Debug, Clone, PartialEq, Eq)]
pub struct QuestionFrontmatter {
    pub domain: QuestionDomain,
    pub status: QuestionStatus,
    pub created: Date,
    pub updated: Date,
}

} // verus!

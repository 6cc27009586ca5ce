//! Life-domain classification shared by project, commitment and
//! stewardship frontmatter.

use vstd::prelude::*;

use crate::text::{chars_of, eq_exec};

verus! {

/// Life-domain classification for projects, stewardships and commitments.
#[derive(Debug, Clone, Copy, PartialEq, Eq, Hash)]
pub enum Context {
    Work,
    SideProject,
    University,
    Family,
    Household,
    Legal,
    Personal,
}

impl Context {
    /// Every variant in declaration order.
    pub const ALL: [Context; 7] = [
        Context::Work,
        Context::SideProject,
        Context::University,
        Context::Family,
        Context::Household,
        Context::Legal,
        Context::Personal,
    ];

    /// The kebab-case name of the variant.
    pub open spec fn name(self) -> Seq<char> {
        match self {
            Context::Work => "work"@,
            Context::SideProject => "side-project"@,
            Context::University => "university"@,
            Context::Family => "family"@,
            Context::Household => "household"@,
            Context::Legal => "legal"@,
            Context::Personal => "personal"@,
        }
    }

    /// The variant whose name is `s`, if any.
    pub open spec fn from_name_spec(s: Seq<char>) -> Option<Self> {
        if s == "work"@ {
            Some(Context::Work)
        } else if s == "side-project"@ {
            Some(Context::SideProject)
        } else if s == "university"@ {
            Some(Context::University)
        } else if s == "family"@ {
            Some(Context::Family)
        } else if s == "household"@ {
            Some(Context::Household)
        } else if s == "legal"@ {
            Some(Context::Legal)
        } else if s == "personal"@ {
            Some(Context::Personal)
        } else {
            None
        }
    }

    /// Kebab-case YAML / CLI form.
    pub fn as_str(self) -> (s: &'static str)
        ensures
            s@ == self.name(),
    {
        match self {
            Context::Work => "work",
            Context::SideProject => "side-project",
            Context::University => "university",
            Context::Family => "family",
            Context::Household => "household",
            Context::Legal => "legal",
            Context::Personal => "personal",
        }
    }

    /// Parse the kebab-case name; anything else is an error carrying the
    /// input.
    pub fn from_name(s: &str) -> (r: Result<Context, ParseContextError>)
        ensures
            match Self::from_name_spec(s@) {
                Some(t) => r == Ok::<Self, ParseContextError>(t),
                None => r matches Err(e) && e.0@ == s@,
            },
    {
        let v = chars_of(s);
        if eq_exec(&v, &chars_of("work")) {
            return Ok(Context::Work);
        }
        if eq_exec(&v, &chars_of("side-project")) {
            return Ok(Context::SideProject);
        }
        if eq_exec(&v, &chars_of("university")) {
            return Ok(Context::University);
        }
        if eq_exec(&v, &chars_of("family")) {
            return Ok(Context::Family);
        }
        if eq_exec(&v, &chars_of("household")) {
            return Ok(Context::Household);
        }
        if eq_exec(&v, &chars_of("legal")) {
            return Ok(Context::Legal);
        }
        if eq_exec(&v, &chars_of("personal")) {
            return Ok(Context::Personal);
        }
        Err(ParseContextError(s.to_owned()))
    }

    /// Every variant's name parses back to that variant.
    pub proof fn lemma_name_roundtrip(self)
        ensures
            Self::from_name_spec(self.name()) == Some(self),
    {
        reveal_strlit("work");
        reveal_strlit("side-project");
        reveal_strlit("university");
        reveal_strlit("family");
        reveal_strlit("household");
        reveal_strlit("legal");
        reveal_strlit("personal");
        match self {
            Context::Work => {
            },
            Context::SideProject => {
                assert("side-project"@ != "work"@) by {
                    reveal_strlit("side-project");
                    reveal_strlit("work");
                    assert("side-project"@.len() != "work"@.len());
                }
            },
            Context::University => {
                assert("university"@ != "work"@) by {
                    reveal_strlit("university");
                    reveal_strlit("work");
                    assert("university"@.len() != "work"@.len());
                }
                assert("university"@ != "side-project"@) by {
                    reveal_strlit("university");
                    reveal_strlit("side-project");
                    assert("university"@.len() != "side-project"@.len());
                }
            },
            Context::Family => {
                assert("family"@ != "work"@) by {
                    reveal_strlit("family");
                    reveal_strlit("work");
                    assert("family"@.len() != "work"@.len());
                }
                assert("family"@ != "side-project"@) by {
                    reveal_strlit("family");
                    reveal_strlit("side-project");
                    assert("family"@.len() != "side-project"@.len());
                }
                assert("family"@ != "university"@) by {
                    reveal_strlit("family");
                    reveal_strlit("university");
                    assert("family"@.len() != "university"@.len());
                }
            },
            Context::Household => {
                assert("household"@ != "work"@) by {
                    reveal_strlit("household");
                    reveal_strlit("work");
                    assert("household"@.len() != "work"@.len());
                }
                assert("household"@ != "side-project"@) by {
                    reveal_strlit("household");
                    reveal_strlit("side-project");
                    assert("household"@.len() != "side-project"@.len());
                }
                assert("household"@ != "university"@) by {
                    reveal_strlit("household");
                    reveal_strlit("university");
                    assert("household"@.len() != "university"@.len());
                }
                assert("household"@ != "family"@) by {
                    reveal_strlit("household");
                    reveal_strlit("family");
                    assert("household"@.len() != "family"@.len());
                }
            },
            Context::Legal => {
                assert("legal"@ != "work"@) by {
                    reveal_strlit("legal");
                    reveal_strlit("work");
                    assert("legal"@.len() != "work"@.len());
                }
                assert("legal"@ != "side-project"@) by {
                    reveal_strlit("legal");
                    reveal_strlit("side-project");
                    assert("legal"@.len() != "side-project"@.len());
                }
                assert("legal"@ != "university"@) by {
                    reveal_strlit("legal");
                    reveal_strlit("university");
                    assert("legal"@.len() != "university"@.len());
                }
                assert("legal"@ != "family"@) by {
                    reveal_strlit("legal");
                    reveal_strlit("family");
                    assert("legal"@.len() != "family"@.len());
                }
                assert("legal"@ != "household"@) by {
                    reveal_strlit("legal");
                    reveal_strlit("household");
                    assert("legal"@.len() != "household"@.len());
                }
            },
            Context::Personal => {
                assert("personal"@ != "work"@) by {
                    reveal_strlit("personal");
                    reveal_strlit("work");
                    assert("personal"@.len() != "work"@.len());
                }
                assert("personal"@ != "side-project"@) by {
                    reveal_strlit("personal");
                    reveal_strlit("side-project");
                    assert("personal"@.len() != "side-project"@.len());
                }
                assert("personal"@ != "university"@) by {
                    reveal_strlit("personal");
                    reveal_strlit("university");
                    assert("personal"@.len() != "university"@.len());
                }
                assert("personal"@ != "family"@) by {
                    reveal_strlit("personal");
                    reveal_strlit("family");
                    assert("personal"@.len() != "family"@.len());
                }
                assert("personal"@ != "household"@) by {
                    reveal_strlit("personal");
                    reveal_strlit("household");
                    assert("personal"@.len() != "household"@.len());
                }
                assert("personal"@ != "legal"@) by {
                    reveal_strlit("personal");
                    reveal_strlit("legal");
                    assert("personal"@.len() != "legal"@.len());
                }
            },
        }
    }

    /// A name that parses names exactly the variant it parses to.
    pub proof fn lemma_parse_names(s: Seq<char>)
        ensures
            Self::from_name_spec(s) matches Some(t) ==> t.name() == s,
    {
    }
}

/// Error returned when a string does not match any [`Context`] variant.
#[derive(Debug, Clone, PartialEq, Eq)]
pub struct ParseContextError(pub String);

impl core::str::FromStr for Context {
    type Err = ParseContextError;

    fn from_str(s: &str) -> (r: Result<Self, Self::Err>)
        ensures
            match Self::from_name_spec(s@) {
                Some(t) => r == Ok::<Self, ParseContextError>(t),
                None => r matches Err(e) && e.0@ == s@,
            },
    {
        Context::from_name(s)
    }
}

} // verus!

//! The twelve canonical note types of a vault, with their kebab-case
//! names, canonical frontmatter key order and supplied placeholders.

use vstd::prelude::*;

use crate::text::{chars_of, eq_exec};

verus! {

/// The twelve canonical note types that make up a Cuaderno vault.
#[derive(Debug, Clone, Copy, PartialEq, Eq, Hash)]
pub enum NoteType {
    Daily,
    Weekly,
    Monthly,
    Project,
    Action,
    Portfolio,
    Evidence,
    Stewardship,
    Tracking,
    Question,
    Commitment,
    Inbox,
}

impl NoteType {
    /// Every variant in declaration order.
    pub const ALL: [NoteType; 12] = [
        NoteType::Daily,
        NoteType::Weekly,
        NoteType::Monthly,
        NoteType::Project,
        NoteType::Action,
        NoteType::Portfolio,
        NoteType::Evidence,
        NoteType::Stewardship,
        NoteType::Tracking,
        NoteType::Question,
        NoteType::Commitment,
        NoteType::Inbox,
    ];

    /// The kebab-case name of the variant.
    pub open spec fn name(self) -> Seq<char> {
        match self {
            NoteType::Daily => "daily"@,
            NoteType::Weekly => "weekly"@,
            NoteType::Monthly => "monthly"@,
            NoteType::Project => "project"@,
            NoteType::Action => "action"@,
            NoteType::Portfolio => "portfolio"@,
            NoteType::Evidence => "evidence"@,
            NoteType::Stewardship => "stewardship"@,
            NoteType::Tracking => "tracking"@,
            NoteType::Question => "question"@,
            NoteType::Commitment => "commitment"@,
            NoteType::Inbox => "inbox"@,
        }
    }

    /// The variant whose name is `s`, if any.
    pub open spec fn from_name_spec(s: Seq<char>) -> Option<Self> {
        if s == "daily"@ {
            Some(NoteType::Daily)
        } else if s == "weekly"@ {
            Some(NoteType::Weekly)
        } else if s == "monthly"@ {
            Some(NoteType::Monthly)
        } else if s == "project"@ {
            Some(NoteType::Project)
        } else if s == "action"@ {
            Some(NoteType::Action)
        } else if s == "portfolio"@ {
            Some(NoteType::Portfolio)
        } else if s == "evidence"@ {
            Some(NoteType::Evidence)
        } else if s == "stewardship"@ {
            Some(NoteType::Stewardship)
        } else if s == "tracking"@ {
            Some(NoteType::Tracking)
        } else if s == "question"@ {
            Some(NoteType::Question)
        } else if s == "commitment"@ {
            Some(NoteType::Commitment)
        } else if s == "inbox"@ {
            Some(NoteType::Inbox)
        } else {
            None
        }
    }

    /// Kebab-case YAML / CLI form.
    pub fn as_str(self) -> (s: &'static str)
        ensures
            s@ == self.name(),
    {
        match self {
            NoteType::Daily => "daily",
            NoteType::Weekly => "weekly",
            NoteType::Monthly => "monthly",
            NoteType::Project => "project",
            NoteType::Action => "action",
            NoteType::Portfolio => "portfolio",
            NoteType::Evidence => "evidence",
            NoteType::Stewardship => "stewardship",
            NoteType::Tracking => "tracking",
            NoteType::Question => "question",
            NoteType::Commitment => "commitment",
            NoteType::Inbox => "inbox",
        }
    }

    /// Parse the kebab-case name; anything else is an error carrying the
    /// input.
    pub fn from_name(s: &str) -> (r: Result<NoteType, ParseNoteTypeError>)
        ensures
            match Self::from_name_spec(s@) {
                Some(t) => r == Ok::<Self, ParseNoteTypeError>(t),
                None => r matches Err(e) && e.0@ == s@,
            },
    {
        let v = chars_of(s);
        if eq_exec(&v, &chars_of("daily")) {
            return Ok(NoteType::Daily);
        }
        if eq_exec(&v, &chars_of("weekly")) {
            return Ok(NoteType::Weekly);
        }
        if eq_exec(&v, &chars_of("monthly")) {
            return Ok(NoteType::Monthly);
        }
        if eq_exec(&v, &chars_of("project")) {
            return Ok(NoteType::Project);
        }
        if eq_exec(&v, &chars_of("action")) {
            return Ok(NoteType::Action);
        }
        if eq_exec(&v, &chars_of("portfolio")) {
            return Ok(NoteType::Portfolio);
        }
        if eq_exec(&v, &chars_of("evidence")) {
            return Ok(NoteType::Evidence);
        }
        if eq_exec(&v, &chars_of("stewardship")) {
            return Ok(NoteType::Stewardship);
        }
        if eq_exec(&v, &chars_of("tracking")) {
            return Ok(NoteType::Tracking);
        }
        if eq_exec(&v, &chars_of("question")) {
            return Ok(NoteType::Question);
        }
        if eq_exec(&v, &chars_of("commitment")) {
            return Ok(NoteType::Commitment);
        }
        if eq_exec(&v, &chars_of("inbox")) {
            return Ok(NoteType::Inbox);
        }
        Err(ParseNoteTypeError(s.to_owned()))
    }

    /// Every variant's name parses back to that variant.
    pub proof fn lemma_name_roundtrip(self)
        ensures
            Self::from_name_spec(self.name()) == Some(self),
    {
        reveal_strlit("daily");
        reveal_strlit("weekly");
        reveal_strlit("monthly");
        reveal_strlit("project");
        reveal_strlit("action");
        reveal_strlit("portfolio");
        reveal_strlit("evidence");
        reveal_strlit("stewardship");
        reveal_strlit("tracking");
        reveal_strlit("question");
        reveal_strlit("commitment");
        reveal_strlit("inbox");
        match self {
            NoteType::Daily => {
            },
            NoteType::Weekly => {
                assert("weekly"@ != "daily"@) by {
                    reveal_strlit("weekly");
                    reveal_strlit("daily");
                    assert("weekly"@.len() != "daily"@.len());
                }
            },
            NoteType::Monthly => {
                assert("monthly"@ != "daily"@) by {
                    reveal_strlit("monthly");
                    reveal_strlit("daily");
                    assert("monthly"@.len() != "daily"@.len());
                }
                assert("monthly"@ != "weekly"@) by {
                    reveal_strlit("monthly");
                    reveal_strlit("weekly");
                    assert("monthly"@.len() != "weekly"@.len());
                }
            },
            NoteType::Project => {
                assert("project"@ != "daily"@) by {
                    reveal_strlit("project");
                    reveal_strlit("daily");
                    assert("project"@.len() != "daily"@.len());
                }
                assert("project"@ != "weekly"@) by {
                    reveal_strlit("project");
                    reveal_strlit("weekly");
                    assert("project"@.len() != "weekly"@.len());
                }
                assert("project"@ != "monthly"@) by {
                    reveal_strlit("project");
                    reveal_strlit("monthly");
                    assert("project"@[0] != "monthly"@[0]);
                }
            },
            NoteType::Action => {
                assert("action"@ != "daily"@) by {
                    reveal_strlit("action");
                    reveal_strlit("daily");
                    assert("action"@.len() != "daily"@.len());
                }
                assert("action"@ != "weekly"@) by {
                    reveal_strlit("action");
                    reveal_strlit("weekly");
                    assert("action"@[0] != "weekly"@[0]);
                }
                assert("action"@ != "monthly"@) by {
                    reveal_strlit("action");
                    reveal_strlit("monthly");
                    assert("action"@.len() != "monthly"@.len());
                }
                assert("action"@ != "project"@) by {
                    reveal_strlit("action");
                    reveal_strlit("project");
                    assert("action"@.len() != "project"@.len());
                }
            },
            NoteType::Portfolio => {
                assert("portfolio"@ != "daily"@) by {
                    reveal_strlit("portfolio");
                    reveal_strlit("daily");
                    assert("portfolio"@.len() != "daily"@.len());
                }
                assert("portfolio"@ != "weekly"@) by {
                    reveal_strlit("portfolio");
                    reveal_strlit("weekly");
                    assert("portfolio"@.len() != "weekly"@.len());
                }
                assert("portfolio"@ != "monthly"@) by {
                    reveal_strlit("portfolio");
                    reveal_strlit("monthly");
                    assert("portfolio"@.len() != "monthly"@.len());
                }
                assert("portfolio"@ != "project"@) by {
                    reveal_strlit("portfolio");
                    reveal_strlit("project");
                    assert("portfolio"@.len() != "project"@.len());
                }
                assert("portfolio"@ != "action"@) by {
                    reveal_strlit("portfolio");
                    reveal_strlit("action");
                    assert("portfolio"@.len() != "action"@.len());
                }
            },
            NoteType::Evidence => {
                assert("evidence"@ != "daily"@) by {
                    reveal_strlit("evidence");
                    reveal_strlit("daily");
                    assert("evidence"@.len() != "daily"@.len());
                }
                assert("evidence"@ != "weekly"@) by {
                    reveal_strlit("evidence");
                    reveal_strlit("weekly");
                    assert("evidence"@.len() != "weekly"@.len());
                }
                assert("evidence"@ != "monthly"@) by {
                    reveal_strlit("evidence");
                    reveal_strlit("monthly");
                    assert("evidence"@.len() != "monthly"@.len());
                }
                assert("evidence"@ != "project"@) by {
                    reveal_strlit("evidence");
                    reveal_strlit("project");
                    assert("evidence"@.len() != "project"@.len());
                }
                assert("evidence"@ != "action"@) by {
                    reveal_strlit("evidence");
                    reveal_strlit("action");
                    assert("evidence"@.len() != "action"@.len());
                }
                assert("evidence"@ != "portfolio"@) by {
                    reveal_strlit("evidence");
                    reveal_strlit("portfolio");
                    assert("evidence"@.len() != "portfolio"@.len());
                }
            },
            NoteType::Stewardship => {
                assert("stewardship"@ != "daily"@) by {
                    reveal_strlit("stewardship");
                    reveal_strlit("daily");
                    assert("stewardship"@.len() != "daily"@.len());
                }
                assert("stewardship"@ != "weekly"@) by {
                    reveal_strlit("stewardship");
                    reveal_strlit("weekly");
                    assert("stewardship"@.len() != "weekly"@.len());
                }
                assert("stewardship"@ != "monthly"@) by {
                    reveal_strlit("stewardship");
                    reveal_strlit("monthly");
                    assert("stewardship"@.len() != "monthly"@.len());
                }
                assert("stewardship"@ != "project"@) by {
                    reveal_strlit("stewardship");
                    reveal_strlit("project");
                    assert("stewardship"@.len() != "project"@.len());
                }
                assert("stewardship"@ != "action"@) by {
                    reveal_strlit("stewardship");
                    reveal_strlit("action");
                    assert("stewardship"@.len() != "action"@.len());
                }
                assert("stewardship"@ != "portfolio"@) by {
                    reveal_strlit("stewardship");
                    reveal_strlit("portfolio");
                    assert("stewardship"@.len() != "portfolio"@.len());
                }
                assert("stewardship"@ != "evidence"@) by {
                    reveal_strlit("stewardship");
                    reveal_strlit("evidence");
                    assert("stewardship"@.len() != "evidence"@.len());
                }
            },
            NoteType::Tracking => {
                assert("tracking"@ != "daily"@) by {
                    reveal_strlit("tracking");
                    reveal_strlit("daily");
                    assert("tracking"@.len() != "daily"@.len());
                }
                assert("tracking"@ != "weekly"@) by {
                    reveal_strlit("tracking");
                    reveal_strlit("weekly");
                    assert("tracking"@.len() != "weekly"@.len());
                }
                assert("tracking"@ != "monthly"@) by {
                    reveal_strlit("tracking");
                    reveal_strlit("monthly");
                    assert("tracking"@.len() != "monthly"@.len());
                }
                assert("tracking"@ != "project"@) by {
                    reveal_strlit("tracking");
                    reveal_strlit("project");
                    assert("tracking"@.len() != "project"@.len());
                }
                assert("tracking"@ != "action"@) by {
                    reveal_strlit("tracking");
                    reveal_strlit("action");
                    assert("tracking"@.len() != "action"@.len());
                }
                assert("tracking"@ != "portfolio"@) by {
                    reveal_strlit("tracking");
                    reveal_strlit("portfolio");
                    assert("tracking"@.len() != "portfolio"@.len());
                }
                assert("tracking"@ != "evidence"@) by {
                    reveal_strlit("tracking");
                    reveal_strlit("evidence");
                    assert("tracking"@[0] != "evidence"@[0]);
                }
                assert("tracking"@ != "stewardship"@) by {
                    reveal_strlit("tracking");
                    reveal_strlit("stewardship");
                    assert("tracking"@.len() != "stewardship"@.len());
                }
            },
            NoteType::Question => {
                assert("question"@ != "daily"@) by {
                    reveal_strlit("question");
                    reveal_strlit("daily");
                    assert("question"@.len() != "daily"@.len());
                }
                assert("question"@ != "weekly"@) by {
                    reveal_strlit("question");
                    reveal_strlit("weekly");
                    assert("question"@.len() != "weekly"@.len());
                }
                assert("question"@ != "monthly"@) by {
                    reveal_strlit("question");
                    reveal_strlit("monthly");
                    assert("question"@.len() != "monthly"@.len());
                }
                assert("question"@ != "project"@) by {
                    reveal_strlit("question");
                    reveal_strlit("project");
                    assert("question"@.len() != "project"@.len());
                }
                assert("question"@ != "action"@) by {
                    reveal_strlit("question");
                    reveal_strlit("action");
                    assert("question"@.len() != "action"@.len());
                }
                assert("question"@ != "portfolio"@) by {
                    reveal_strlit("question");
                    reveal_strlit("portfolio");
                    assert("question"@.len() != "portfolio"@.len());
                }
                assert("question"@ != "evidence"@) by {
                    reveal_strlit("question");
                    reveal_strlit("evidence");
                    assert("question"@[0] != "evidence"@[0]);
                }
                assert("question"@ != "stewardship"@) by {
                    reveal_strlit("question");
                    reveal_strlit("stewardship");
                    assert("question"@.len() != "stewardship"@.len());
                }
                assert("question"@ != "tracking"@) by {
                    reveal_strlit("question");
                    reveal_strlit("tracking");
                    assert("question"@[0] != "tracking"@[0]);
                }
            },
            NoteType::Commitment => {
                assert("commitment"@ != "daily"@) by {
                    reveal_strlit("commitment");
                    reveal_strlit("daily");
                    assert("commitment"@.len() != "daily"@.len());
                }
                assert("commitment"@ != "weekly"@) by {
                    reveal_strlit("commitment");
                    reveal_strlit("weekly");
                    assert("commitment"@.len() != "weekly"@.len());
                }
                assert("commitment"@ != "monthly"@) by {
                    reveal_strlit("commitment");
                    reveal_strlit("monthly");
                    assert("commitment"@.len() != "monthly"@.len());
                }
                assert("commitment"@ != "project"@) by {
                    reveal_strlit("commitment");
                    reveal_strlit("project");
                    assert("commitment"@.len() != "project"@.len());
                }
                assert("commitment"@ != "action"@) by {
                    reveal_strlit("commitment");
                    reveal_strlit("action");
                    assert("commitment"@.len() != "action"@.len());
                }
                assert("commitment"@ != "portfolio"@) by {
                    reveal_strlit("commitment");
                    reveal_strlit("portfolio");
                    assert("commitment"@.len() != "portfolio"@.len());
                }
                assert("commitment"@ != "evidence"@) by {
                    reveal_strlit("commitment");
                    reveal_strlit("evidence");
                    assert("commitment"@.len() != "evidence"@.len());
                }
                assert("commitment"@ != "stewardship"@) by {
                    reveal_strlit("commitment");
                    reveal_strlit("stewardship");
                    assert("commitment"@.len() != "stewardship"@.len());
                }
                assert("commitment"@ != "tracking"@) by {
                    reveal_strlit("commitment");
                    reveal_strlit("tracking");
                    assert("commitment"@.len() != "tracking"@.len());
                }
                assert("commitment"@ != "question"@) by {
                    reveal_strlit("commitment");
                    reveal_strlit("question");
                    assert("commitment"@.len() != "question"@.len());
                }
            },
            NoteType::Inbox => {
                assert("inbox"@ != "daily"@) by {
                    reveal_strlit("inbox");
                    reveal_strlit("daily");
                    assert("inbox"@[0] != "daily"@[0]);
                }
                assert("inbox"@ != "weekly"@) by {
                    reveal_strlit("inbox");
                    reveal_strlit("weekly");
                    assert("inbox"@.len() != "weekly"@.len());
                }
                assert("inbox"@ != "monthly"@) by {
                    reveal_strlit("inbox");
                    reveal_strlit("monthly");
                    assert("inbox"@.len() != "monthly"@.len());
                }
                assert("inbox"@ != "project"@) by {
                    reveal_strlit("inbox");
                    reveal_strlit("project");
                    assert("inbox"@.len() != "project"@.len());
                }
                assert("inbox"@ != "action"@) by {
                    reveal_strlit("inbox");
                    reveal_strlit("action");
                    assert("inbox"@.len() != "action"@.len());
                }
                assert("inbox"@ != "portfolio"@) by {
                    reveal_strlit("inbox");
                    reveal_strlit("portfolio");
                    assert("inbox"@.len() != "portfolio"@.len());
                }
                assert("inbox"@ != "evidence"@) by {
                    reveal_strlit("inbox");
                    reveal_strlit("evidence");
                    assert("inbox"@.len() != "evidence"@.len());
                }
                assert("inbox"@ != "stewardship"@) by {
                    reveal_strlit("inbox");
                    reveal_strlit("stewardship");
                    assert("inbox"@.len() != "stewardship"@.len());
                }
                assert("inbox"@ != "tracking"@) by {
                    reveal_strlit("inbox");
                    reveal_strlit("tracking");
                    assert("inbox"@.len() != "tracking"@.len());
                }
                assert("inbox"@ != "question"@) by {
                    reveal_strlit("inbox");
                    reveal_strlit("question");
                    assert("inbox"@.len() != "question"@.len());
                }
                assert("inbox"@ != "commitment"@) by {
                    reveal_strlit("inbox");
                    reveal_strlit("commitment");
                    assert("inbox"@.len() != "commitment"@.len());
                }
            },
        }
    }

    /// A name that parses names exactly the variant it parses to.
    pub proof fn lemma_parse_names(s: Seq<char>)
        ensures
            Self::from_name_spec(s) matches Some(t) ==> t.name() == s,
    {
    }
}

/// Error returned when a string does not match any [`NoteType`] variant.
#[derive(Debug, Clone, PartialEq, Eq)]
pub struct ParseNoteTypeError(pub String);

impl core::str::FromStr for NoteType {
    type Err = ParseNoteTypeError;

    fn from_str(s: &str) -> (r: Result<Self, Self::Err>)
        ensures
            match Self::from_name_spec(s@) {
                Some(t) => r == Ok::<Self, ParseNoteTypeError>(t),
                None => r matches Err(e) && e.0@ == s@,
            },
    {
        NoteType::from_name(s)
    }
}

impl NoteType {
    /// The canonical built-in frontmatter keys of the type, `type` first.
    pub open spec fn frontmatter_keys(self) -> Seq<Seq<char>> {
        match self {
            NoteType::Daily => seq!["type"@, "date"@],
            NoteType::Weekly => seq!["type"@, "week"@, "date_start"@, "date_end"@],
            NoteType::Monthly => seq!["type"@, "month"@, "date_start"@, "date_end"@],
            NoteType::Project => seq!["type"@, "context"@, "status"@, "created"@, "core_question"@],
            NoteType::Action => seq!["type"@, "status"@, "project"@, "energy"@, "milestone"@, "due"@, "created"@, "completed"@, "blocker"@, "criteria"@, "tags"@],
            NoteType::Portfolio => seq!["type"@, "question"@, "created"@, "project"@],
            NoteType::Evidence => seq!["type"@, "created"@, "source"@, "portfolio"@, "origin"@],
            NoteType::Stewardship => seq!["type"@, "context"@],
            NoteType::Tracking => seq!["type"@, "stewardship"@, "activity"@, "date"@, "duration_min"@, "routine"@],
            NoteType::Question => seq!["type"@, "domain"@, "status"@, "created"@, "updated"@],
            NoteType::Commitment => seq!["type"@, "status"@, "due"@, "created"@, "completed"@, "context"@, "project"@, "stewardship"@],
            NoteType::Inbox => seq!["type"@, "created"@],
        }
    }

    /// The canonical *built-in* frontmatter key order for this note type, with
    /// `type` first — the order each type's creation produces.
    pub fn frontmatter_order(self) -> (r: &'static [&'static str])
        ensures
            r@.len() == self.frontmatter_keys().len(),
            forall|i: int| 0 <= i < r@.len() ==> #[trigger] r@[i]@ == self.frontmatter_keys()[i],
    {
        match self {
            NoteType::Daily => &["type", "date"],
            NoteType::Weekly => &["type", "week", "date_start", "date_end"],
            NoteType::Monthly => &["type", "month", "date_start", "date_end"],
            NoteType::Project => &["type", "context", "status", "created", "core_question"],
            NoteType::Action => &["type", "status", "project", "energy", "milestone", "due", "created", "completed", "blocker", "criteria", "tags"],
            NoteType::Portfolio => &["type", "question", "created", "project"],
            NoteType::Evidence => &["type", "created", "source", "portfolio", "origin"],
            NoteType::Stewardship => &["type", "context"],
            NoteType::Tracking => &["type", "stewardship", "activity", "date", "duration_min", "routine"],
            NoteType::Question => &["type", "domain", "status", "created", "updated"],
            NoteType::Commitment => &["type", "status", "due", "created", "completed", "context", "project", "stewardship"],
            NoteType::Inbox => &["type", "created"],
        }
    }
}

impl NoteType {
    /// The `{{placeholders}}` the type's create path supplies.
    pub open spec fn placeholder_names(self) -> Seq<Seq<char>> {
        match self {
            NoteType::Daily => seq!["date"@, "heading"@, "weekday"@],
            NoteType::Weekly => seq!["week"@, "week_num"@, "year"@, "date_start"@, "date_end"@],
            NoteType::Monthly => seq!["month"@, "month_name"@, "year"@, "date_start"@, "date_end"@, "weeks"@],
            NoteType::Project => seq!["title"@, "context"@, "status"@, "created"@, "core_question"@],
            NoteType::Action => seq!["title"@, "slug"@, "project"@, "energy"@, "status"@, "created"@, "due"@, "completed"@, "milestone"@, "criteria"@, "blocker"@, "tags"@],
            NoteType::Portfolio => seq!["question"@, "project"@, "created"@],
            NoteType::Evidence => seq!["source"@, "origin"@, "portfolio"@, "content"@, "created"@],
            NoteType::Stewardship => seq!["name"@, "context"@],
            NoteType::Tracking => seq!["stewardship"@, "activity"@, "activity_title"@, "routine"@, "content"@, "date"@, "date_long"@],
            NoteType::Question => seq!["question"@, "domain"@, "created"@, "updated"@],
            NoteType::Commitment => seq!["title"@, "context"@, "status"@, "due"@, "project"@, "stewardship"@, "created"@, "completed"@],
            NoteType::Inbox => seq!["body"@, "created"@],
        }
    }


    /// Every type's frontmatter keys start with `type` and name no key twice,
    /// and a periodic type's period key stands second; every type's supplied
    /// placeholders name none twice and never `type`.
    pub proof fn lemma_key_lists_well_formed(t: NoteType)
        ensures
            t.frontmatter_keys().len() >= 2,
            t.frontmatter_keys()[0] == "type"@,
            t.frontmatter_keys().no_duplicates(),
            t.placeholder_names().no_duplicates(),
            !t.placeholder_names().contains("type"@),
            t == NoteType::Daily ==> t.frontmatter_keys()[1] == "date"@,
            t == NoteType::Weekly ==> t.frontmatter_keys()[1] == "week"@,
            t == NoteType::Monthly ==> t.frontmatter_keys()[1] == "month"@,
    {
            reveal_strlit("activity");
            reveal_strlit("activity_title");
            reveal_strlit("blocker");
            reveal_strlit("body");
            reveal_strlit("completed");
            reveal_strlit("content");
            reveal_strlit("context");
            reveal_strlit("core_question");
            reveal_strlit("created");
            reveal_strlit("criteria");
            reveal_strlit("date");
            reveal_strlit("date_end");
            reveal_strlit("date_long");
            reveal_strlit("date_start");
            reveal_strlit("domain");
            reveal_strlit("due");
            reveal_strlit("duration_min");
            reveal_strlit("energy");
            reveal_strlit("heading");
            reveal_strlit("milestone");
            reveal_strlit("month");
            reveal_strlit("month_name");
            reveal_strlit("name");
            reveal_strlit("origin");
            reveal_strlit("portfolio");
            reveal_strlit("project");
            reveal_strlit("question");
            reveal_strlit("routine");
            reveal_strlit("slug");
            reveal_strlit("source");
            reveal_strlit("status");
            reveal_strlit("stewardship");
            reveal_strlit("tags");
            reveal_strlit("title");
            reveal_strlit("type");
            reveal_strlit("updated");
            reveal_strlit("week");
            reveal_strlit("week_num");
            reveal_strlit("weekday");
            reveal_strlit("weeks");
            reveal_strlit("year");
        let k = t.frontmatter_keys();
        let p = t.placeholder_names();
        match t {
            NoteType::Daily => {
                assert(p[0][0] != "type"@[0]);
                assert(k[0][0] != k[1][0]);
                assert(p[0].len() != p[1].len());
                assert(p[0].len() != p[2].len());
                assert(p[1][0] != p[2][0]);
            },
            NoteType::Weekly => {
                assert(p[0][0] != "type"@[0]);
                assert(p[2][0] != "type"@[0]);
                assert(k[0][0] != k[1][0]);
                assert(k[0].len() != k[2].len());
                assert(k[0].len() != k[3].len());
                assert(k[1].len() != k[2].len());
                assert(k[1].len() != k[3].len());
                assert(k[2].len() != k[3].len());
                assert(p[0].len() != p[1].len());
                assert(p[0][0] != p[2][0]);
                assert(p[0].len() != p[3].len());
                assert(p[0].len() != p[4].len());
                assert(p[1].len() != p[2].len());
                assert(p[1].len() != p[3].len());
                assert(p[1][0] != p[4][0]);
                assert(p[2].len() != p[3].len());
                assert(p[2].len() != p[4].len());
                assert(p[3].len() != p[4].len());
            },
            NoteType::Monthly => {
                assert(p[2][0] != "type"@[0]);
                assert(k[0].len() != k[1].len());
                assert(k[0].len() != k[2].len());
                assert(k[0].len() != k[3].len());
                assert(k[1].len() != k[2].len());
                assert(k[1].len() != k[3].len());
                assert(k[2].len() != k[3].len());
                assert(p[0].len() != p[1].len());
                assert(p[0].len() != p[2].len());
                assert(p[0].len() != p[3].len());
                assert(p[0].len() != p[4].len());
                assert(p[0][0] != p[5][0]);
                assert(p[1].len() != p[2].len());
                assert(p[1][0] != p[3][0]);
                assert(p[1].len() != p[4].len());
                assert(p[1].len() != p[5].len());
                assert(p[2].len() != p[3].len());
                assert(p[2].len() != p[4].len());
                assert(p[2].len() != p[5].len());
                assert(p[3].len() != p[4].len());
                assert(p[3].len() != p[5].len());
                assert(p[4].len() != p[5].len());
            },
            NoteType::Project => {
                assert(k[0].len() != k[1].len());
                assert(k[0].len() != k[2].len());
                assert(k[0].len() != k[3].len());
                assert(k[0].len() != k[4].len());
                assert(k[1].len() != k[2].len());
                assert(k[1][1] != k[3][1]);
                assert(k[1].len() != k[4].len());
                assert(k[2].len() != k[3].len());
                assert(k[2].len() != k[4].len());
                assert(k[3].len() != k[4].len());
                assert(p[0].len() != p[1].len());
                assert(p[0].len() != p[2].len());
                assert(p[0].len() != p[3].len());
                assert(p[0].len() != p[4].len());
                assert(p[1].len() != p[2].len());
                assert(p[1][1] != p[3][1]);
                assert(p[1].len() != p[4].len());
                assert(p[2].len() != p[3].len());
                assert(p[2].len() != p[4].len());
                assert(p[3].len() != p[4].len());
            },
            NoteType::Action => {
                assert(p[1][0] != "type"@[0]);
                assert(p[11][1] != "type"@[1]);
                assert(k[0].len() != k[1].len());
                assert(k[0].len() != k[2].len());
                assert(k[0].len() != k[3].len());
                assert(k[0].len() != k[4].len());
                assert(k[0].len() != k[5].len());
                assert(k[0].len() != k[6].len());
                assert(k[0].len() != k[7].len());
                assert(k[0].len() != k[8].len());
                assert(k[0].len() != k[9].len());
                assert(k[0][1] != k[10][1]);
                assert(k[1].len() != k[2].len());
                assert(k[1][0] != k[3][0]);
                assert(k[1].len() != k[4].len());
                assert(k[1].len() != k[5].len());
                assert(k[1].len() != k[6].len());
                assert(k[1].len() != k[7].len());
                assert(k[1].len() != k[8].len());
                assert(k[1].len() != k[9].len());
                assert(k[1].len() != k[10].len());
                assert(k[2].len() != k[3].len());
                assert(k[2].len() != k[4].len());
                assert(k[2].len() != k[5].len());
                assert(k[2][0] != k[6][0]);
                assert(k[2].len() != k[7].len());
                assert(k[2][0] != k[8][0]);
                assert(k[2].len() != k[9].len());
                assert(k[2].len() != k[10].len());
                assert(k[3].len() != k[4].len());
                assert(k[3].len() != k[5].len());
                assert(k[3].len() != k[6].len());
                assert(k[3].len() != k[7].len());
                assert(k[3].len() != k[8].len());
                assert(k[3].len() != k[9].len());
                assert(k[3].len() != k[10].len());
                assert(k[4].len() != k[5].len());
                assert(k[4].len() != k[6].len());
                assert(k[4][0] != k[7][0]);
                assert(k[4].len() != k[8].len());
                assert(k[4].len() != k[9].len());
                assert(k[4].len() != k[10].len());
                assert(k[5].len() != k[6].len());
                assert(k[5].len() != k[7].len());
                assert(k[5].len() != k[8].len());
                assert(k[5].len() != k[9].len());
                assert(k[5].len() != k[10].len());
                assert(k[6].len() != k[7].len());
                assert(k[6][0] != k[8][0]);
                assert(k[6].len() != k[9].len());
                assert(k[6].len() != k[10].len());
                assert(k[7].len() != k[8].len());
                assert(k[7].len() != k[9].len());
                assert(k[7].len() != k[10].len());
                assert(k[8].len() != k[9].len());
                assert(k[8].len() != k[10].len());
                assert(k[9].len() != k[10].len());
                assert(p[0].len() != p[1].len());
                assert(p[0].len() != p[2].len());
                assert(p[0].len() != p[3].len());
                assert(p[0].len() != p[4].len());
                assert(p[0].len() != p[5].len());
                assert(p[0].len() != p[6].len());
                assert(p[0].len() != p[7].len());
                assert(p[0].len() != p[8].len());
                assert(p[0].len() != p[9].len());
                assert(p[0].len() != p[10].len());
                assert(p[0].len() != p[11].len());
                assert(p[1].len() != p[2].len());
                assert(p[1].len() != p[3].len());
                assert(p[1].len() != p[4].len());
                assert(p[1].len() != p[5].len());
                assert(p[1].len() != p[6].len());
                assert(p[1].len() != p[7].len());
                assert(p[1].len() != p[8].len());
                assert(p[1].len() != p[9].len());
                assert(p[1].len() != p[10].len());
                assert(p[1][0] != p[11][0]);
                assert(p[2].len() != p[3].len());
                assert(p[2].len() != p[4].len());
                assert(p[2][0] != p[5][0]);
                assert(p[2].len() != p[6].len());
                assert(p[2].len() != p[7].len());
                assert(p[2].len() != p[8].len());
                assert(p[2].len() != p[9].len());
                assert(p[2][0] != p[10][0]);
                assert(p[2].len() != p[11].len());
                assert(p[3][0] != p[4][0]);
                assert(p[3].len() != p[5].len());
                assert(p[3].len() != p[6].len());
                assert(p[3].len() != p[7].len());
                assert(p[3].len() != p[8].len());
                assert(p[3].len() != p[9].len());
                assert(p[3].len() != p[10].len());
                assert(p[3].len() != p[11].len());
                assert(p[4].len() != p[5].len());
                assert(p[4].len() != p[6].len());
                assert(p[4].len() != p[7].len());
                assert(p[4].len() != p[8].len());
                assert(p[4].len() != p[9].len());
                assert(p[4].len() != p[10].len());
                assert(p[4].len() != p[11].len());
                assert(p[5].len() != p[6].len());
                assert(p[5].len() != p[7].len());
                assert(p[5].len() != p[8].len());
                assert(p[5].len() != p[9].len());
                assert(p[5][0] != p[10][0]);
                assert(p[5].len() != p[11].len());
                assert(p[6].len() != p[7].len());
                assert(p[6].len() != p[8].len());
                assert(p[6].len() != p[9].len());
                assert(p[6].len() != p[10].len());
                assert(p[6].len() != p[11].len());
                assert(p[7][0] != p[8][0]);
                assert(p[7].len() != p[9].len());
                assert(p[7].len() != p[10].len());
                assert(p[7].len() != p[11].len());
                assert(p[8].len() != p[9].len());
                assert(p[8].len() != p[10].len());
                assert(p[8].len() != p[11].len());
                assert(p[9].len() != p[10].len());
                assert(p[9].len() != p[11].len());
                assert(p[10].len() != p[11].len());
            },
            NoteType::Portfolio => {
                assert(k[0].len() != k[1].len());
                assert(k[0].len() != k[2].len());
                assert(k[0].len() != k[3].len());
                assert(k[1].len() != k[2].len());
                assert(k[1].len() != k[3].len());
                assert(k[2][0] != k[3][0]);
                assert(p[0].len() != p[1].len());
                assert(p[0].len() != p[2].len());
                assert(p[1][0] != p[2][0]);
            },
            NoteType::Evidence => {
                assert(k[0].len() != k[1].len());
                assert(k[0].len() != k[2].len());
                assert(k[0].len() != k[3].len());
                assert(k[0].len() != k[4].len());
                assert(k[1].len() != k[2].len());
                assert(k[1].len() != k[3].len());
                assert(k[1].len() != k[4].len());
                assert(k[2].len() != k[3].len());
                assert(k[2][0] != k[4][0]);
                assert(k[3].len() != k[4].len());
                assert(p[0][0] != p[1][0]);
                assert(p[0].len() != p[2].len());
                assert(p[0].len() != p[3].len());
                assert(p[0].len() != p[4].len());
                assert(p[1].len() != p[2].len());
                assert(p[1].len() != p[3].len());
                assert(p[1].len() != p[4].len());
                assert(p[2].len() != p[3].len());
                assert(p[2].len() != p[4].len());
                assert(p[3][1] != p[4][1]);
            },
            NoteType::Stewardship => {
                assert(p[0][0] != "type"@[0]);
                assert(k[0].len() != k[1].len());
                assert(p[0].len() != p[1].len());
            },
            NoteType::Tracking => {
                assert(p[5][0] != "type"@[0]);
                assert(k[0].len() != k[1].len());
                assert(k[0].len() != k[2].len());
                assert(k[0][0] != k[3][0]);
                assert(k[0].len() != k[4].len());
                assert(k[0].len() != k[5].len());
                assert(k[1].len() != k[2].len());
                assert(k[1].len() != k[3].len());
                assert(k[1].len() != k[4].len());
                assert(k[1].len() != k[5].len());
                assert(k[2].len() != k[3].len());
                assert(k[2].len() != k[4].len());
                assert(k[2].len() != k[5].len());
                assert(k[3].len() != k[4].len());
                assert(k[3].len() != k[5].len());
                assert(k[4].len() != k[5].len());
                assert(p[0].len() != p[1].len());
                assert(p[0].len() != p[2].len());
                assert(p[0].len() != p[3].len());
                assert(p[0].len() != p[4].len());
                assert(p[0].len() != p[5].len());
                assert(p[0].len() != p[6].len());
                assert(p[1].len() != p[2].len());
                assert(p[1].len() != p[3].len());
                assert(p[1].len() != p[4].len());
                assert(p[1].len() != p[5].len());
                assert(p[1].len() != p[6].len());
                assert(p[2].len() != p[3].len());
                assert(p[2].len() != p[4].len());
                assert(p[2].len() != p[5].len());
                assert(p[2].len() != p[6].len());
                assert(p[3][0] != p[4][0]);
                assert(p[3].len() != p[5].len());
                assert(p[3].len() != p[6].len());
                assert(p[4].len() != p[5].len());
                assert(p[4].len() != p[6].len());
                assert(p[5].len() != p[6].len());
            },
            NoteType::Question => {
                assert(k[0].len() != k[1].len());
                assert(k[0].len() != k[2].len());
                assert(k[0].len() != k[3].len());
                assert(k[0].len() != k[4].len());
                assert(k[1][0] != k[2][0]);
                assert(k[1].len() != k[3].len());
                assert(k[1].len() != k[4].len());
                assert(k[2].len() != k[3].len());
                assert(k[2].len() != k[4].len());
                assert(k[3][0] != k[4][0]);
                assert(p[0].len() != p[1].len());
                assert(p[0].len() != p[2].len());
                assert(p[0].len() != p[3].len());
                assert(p[1].len() != p[2].len());
                assert(p[1].len() != p[3].len());
                assert(p[2][0] != p[3][0]);
            },
            NoteType::Commitment => {
                assert(k[0].len() != k[1].len());
                assert(k[0].len() != k[2].len());
                assert(k[0].len() != k[3].len());
                assert(k[0].len() != k[4].len());
                assert(k[0].len() != k[5].len());
                assert(k[0].len() != k[6].len());
                assert(k[0].len() != k[7].len());
                assert(k[1].len() != k[2].len());
                assert(k[1].len() != k[3].len());
                assert(k[1].len() != k[4].len());
                assert(k[1].len() != k[5].len());
                assert(k[1].len() != k[6].len());
                assert(k[1].len() != k[7].len());
                assert(k[2].len() != k[3].len());
                assert(k[2].len() != k[4].len());
                assert(k[2].len() != k[5].len());
                assert(k[2].len() != k[6].len());
                assert(k[2].len() != k[7].len());
                assert(k[3].len() != k[4].len());
                assert(k[3][1] != k[5][1]);
                assert(k[3][0] != k[6][0]);
                assert(k[3].len() != k[7].len());
                assert(k[4].len() != k[5].len());
                assert(k[4].len() != k[6].len());
                assert(k[4].len() != k[7].len());
                assert(k[5][0] != k[6][0]);
                assert(k[5].len() != k[7].len());
                assert(k[6].len() != k[7].len());
                assert(p[0].len() != p[1].len());
                assert(p[0].len() != p[2].len());
                assert(p[0].len() != p[3].len());
                assert(p[0].len() != p[4].len());
                assert(p[0].len() != p[5].len());
                assert(p[0].len() != p[6].len());
                assert(p[0].len() != p[7].len());
                assert(p[1].len() != p[2].len());
                assert(p[1].len() != p[3].len());
                assert(p[1][0] != p[4][0]);
                assert(p[1].len() != p[5].len());
                assert(p[1][1] != p[6][1]);
                assert(p[1].len() != p[7].len());
                assert(p[2].len() != p[3].len());
                assert(p[2].len() != p[4].len());
                assert(p[2].len() != p[5].len());
                assert(p[2].len() != p[6].len());
                assert(p[2].len() != p[7].len());
                assert(p[3].len() != p[4].len());
                assert(p[3].len() != p[5].len());
                assert(p[3].len() != p[6].len());
                assert(p[3].len() != p[7].len());
                assert(p[4].len() != p[5].len());
                assert(p[4][0] != p[6][0]);
                assert(p[4].len() != p[7].len());
                assert(p[5].len() != p[6].len());
                assert(p[5].len() != p[7].len());
                assert(p[6].len() != p[7].len());
            },
            NoteType::Inbox => {
                assert(p[0][0] != "type"@[0]);
                assert(k[0].len() != k[1].len());
                assert(p[0].len() != p[1].len());
            },
        }
    }

    /// The complete set of `{{placeholders}}` this note type's create path
    /// supplies: what a custom template for it may reference.
    pub fn supplied_placeholders(self) -> (r: &'static [&'static str])
        ensures
            r@.len() == self.placeholder_names().len(),
            forall|i: int| 0 <= i < r@.len() ==> #[trigger] r@[i]@ == self.placeholder_names()[i],
    {
        match self {
            NoteType::Daily => &["date", "heading", "weekday"],
            NoteType::Weekly => &["week", "week_num", "year", "date_start", "date_end"],
            NoteType::Monthly => &["month", "month_name", "year", "date_start", "date_end", "weeks"],
            NoteType::Project => &["title", "context", "status", "created", "core_question"],
            NoteType::Action => &["title", "slug", "project", "energy", "status", "created", "due", "completed", "milestone", "criteria", "blocker", "tags"],
            NoteType::Portfolio => &["question", "project", "created"],
            NoteType::Evidence => &["source", "origin", "portfolio", "content", "created"],
            NoteType::Stewardship => &["name", "context"],
            NoteType::Tracking => &["stewardship", "activity", "activity_title", "routine", "content", "date", "date_long"],
            NoteType::Question => &["question", "domain", "created", "updated"],
            NoteType::Commitment => &["title", "context", "status", "due", "project", "stewardship", "created", "completed"],
            NoteType::Inbox => &["body", "created"],
        }
    }
}

} // verus!

//! Errors raised by the domain rules of the logbook.

use vstd::prelude::*;

use crate::date::Date;

verus! {

/// A violated business rule, or a store-level condition that the domain
/// layer reports on behalf of the note store.
#[derive(Debug, Clone, PartialEq, Eq)]
pub enum DomainError {
    /// The cap on simultaneously active projects is reached.
    ProjectCapReached { current: usize, max: usize, active_projects: Vec<String> },
    /// A Current State body longer than the allowed number of characters.
    StateTooLong { slug: String, chars: usize, max: usize },
    ProjectNotActive(String),
    ProjectNotParked(String),
    CommitmentNotActive(String),
    ActionNotFound { slug: String, query: String },
    AmbiguousAction { slug: String, query: String, candidates: Vec<String> },
    ActionAlreadyPromoted { slug: String, line: String },
    BulletMissingEnergy { slug: String, line: String },
    MilestoneNotFound { slug: String, query: String },
    AmbiguousMilestone { slug: String, query: String, candidates: Vec<String> },
    /// A hard milestone was requested without a target date.
    HardMilestoneRequiresDate { slug: String, title: String },
    WaitingOnNotFound { slug: String, query: String },
    AmbiguousWaitingOn { slug: String, query: String, candidates: Vec<String> },
    AmbiguousSlug(String),
    TrackingOnFlatStewardship(String),
    EmptyField { field: &'static str },
    MalformedWikilink { value: String },
    MissingSection(&'static str),
    MissingFrontmatterField(String),
    /// A frontmatter key whose value spans several lines cannot be
    /// rewritten in place.
    MultilineFrontmatterField(String),
    UnrepresentableFrontmatterValue { field: String, reason: String },
    UnresolvedPrompts { note_type: String, names: Vec<String> },
    UnknownNoteType { note_type: String },
    ReservedTypeName { name: String },
    ReservedSchemaField { note_type: String, field: String },
    BuiltinTypeNotCustom { note_type: String },
    UndeclaredSchemaField { note_type: String, field: String },
    FieldNotSettable { note_type: String, field: String },
    InvalidFieldValue { note_type: String, field: String, reason: String },
    MissingRequiredField { note_type: String, field: String },
    UnknownField { note_type: String, field: String },
    UnknownTemplateVariant { note_type: String, variant: String },
    TemplateAlreadyExists { path: String },
    /// A date outside the plausible window around the anchor day.
    ImplausibleDate { date: Date, earliest: Date, latest: Date },
    /// The note store has nothing at the given path.
    NotFound(String),
    /// The note store already holds something at the given path.
    AlreadyExists(String),
}

} // verus!

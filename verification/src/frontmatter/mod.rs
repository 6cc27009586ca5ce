//! Per-note-type frontmatter vocabulary and typed views.

pub mod action;
pub mod commitment;
pub mod context;
pub mod evidence;
pub mod portfolio;
pub mod project;
pub mod question;
pub mod stewardship;
pub mod tracking;

pub use action::{ActionFrontmatter, ActionStatus, ParseActionStatusError};
pub use commitment::{CommitmentFrontmatter, CommitmentStatus, ParseCommitmentStatusError};
pub use context::{Context, ParseContextError};
pub use evidence::EvidenceFrontmatter;
pub use portfolio::PortfolioFrontmatter;
pub use project::{EnergyLevel, ParseEnergyLevelError, ProjectFrontmatter, ProjectStatus};
pub use question::{
    ParseQuestionDomainError, ParseQuestionStatusError, QuestionDomain, QuestionFrontmatter,
    QuestionStatus,
};
pub use stewardship::StewardshipFrontmatter;
pub use tracking::TrackingFrontmatter;

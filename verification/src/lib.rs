//! Domain logic of the Cuaderno research logbook: note types, frontmatter
//! vocabulary, markdown line parsing, slugs, dates and recurrence rules.

pub mod text;
pub mod note_type;
pub mod date;
pub mod recurrence;
pub mod frontmatter;
pub mod slug;
pub mod error;
pub mod projects;
pub mod commitments;
pub mod orient;
pub mod stewardships;
pub mod lint;
pub mod journal;
pub mod note_ref;
pub mod context;
pub mod type_registry;
pub mod templating;
pub mod normalise;
pub mod normalise_law;
pub mod portfolios;
pub mod set_frontmatter;
pub mod frontmatter_edit;
pub mod tracking;
pub mod custom_notes;
pub mod questions;
pub mod capture;
pub mod config;
pub mod search;
pub mod write_outcome;
pub mod slug_hint;
pub mod action_notes;
pub mod note_lint;
pub mod queries;
pub mod records;
pub mod periodic_law;
pub mod slug_law;
pub mod lint_law;
pub mod state_log_law;
pub mod section_law;
pub mod date_law;

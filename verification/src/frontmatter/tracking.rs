//! Tracking note frontmatter: one occurrence of an activity under a
//! stewardship.

use vstd::prelude::*;

use crate::date::Date;

verus! {

/// Parsed frontmatter of a tracking note.
#[derive(Debug, Clone, PartialEq, Eq)]
pub struct TrackingFrontmatter {
    pub stewardship: String,
    pub activity: String,
    pub date: Date,
    pub duration_min: Option<u32>,
    pub routine: Option<String>,
}

} // verus!

//! Stewardship dashboard frontmatter.

use vstd::prelude::*;

use crate::frontmatter::context::Context;

verus! {

/// Parsed frontmatter of a stewardship dashboard (flat or expanded).
#[derive(Debug, Clone, PartialEq, Eq)]
pub struct StewardshipFrontmatter {
    pub context: Context,
}

} // verus!

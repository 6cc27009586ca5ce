//! Portfolio frontmatter: the typed view of `type: portfolio` headers.

use vstd::prelude::*;

use crate::date::Date;

verus! {

/// Parsed frontmatter of a portfolio `_index.md`.
#[derive(Debug, Clone, PartialEq, Eq)]
pub struct PortfolioFrontmatter {
    pub question: String,
    pub created: Date,
    pub project: Option<String>,
}

} // verus!

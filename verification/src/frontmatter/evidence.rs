//! Evidence note frontmatter: the typed view of `type: evidence` headers.

use vstd::prelude::*;

use crate::date::Date;

verus! {

/// Parsed frontmatter of an evidence note. `origin` is the raw wikilink to
/// whatever produced the evidence; `kind` marks an attachment stub.
#[derive(Debug, Clone, PartialEq, Eq)]
pub struct EvidenceFrontmatter {
    pub created: Date,
    pub source: String,
    pub portfolio: String,
    pub origin: String,
    pub kind: Option<String>,
}

} // verus!

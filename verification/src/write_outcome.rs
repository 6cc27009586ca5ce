//! What a write operation touched: the path it is about, and every path
//! its transaction wrote (none for a no-op).

use vstd::prelude::*;

verus! {

/// The full effect of a write: its primary path, plus every path the
/// committing transaction wrote, in commit order; empty for a no-op.
#[derive(Debug, Clone, PartialEq, Eq)]
pub struct WriteOutcome {
    pub primary: String,
    pub paths: Vec<String>,
}

impl WriteOutcome {
    /// A real write: `primary` and the transaction's touched set.
    pub fn written(primary: String, paths: Vec<String>) -> (r: Self)
        ensures
            r.primary == primary,
            r.paths == paths,
    {
        WriteOutcome { primary, paths }
    }

    /// A silent no-op: a path was resolved but nothing written.
    pub fn noop(primary: String) -> (r: Self)
        ensures
            r.primary == primary,
            r.paths@.len() == 0,
    {
        WriteOutcome { primary, paths: Vec::new() }
    }

    /// Whether the operation wrote anything.
    pub fn touched(&self) -> (b: bool)
        ensures
            b == (self.paths@.len() > 0),
    {
        self.paths.len() > 0
    }
}

} // verus!

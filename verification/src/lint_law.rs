//! The dashboard lint judges a bullet by the canonical parsers alone: it
//! flags exactly the bullets they reject, one issue each and in order, so
//! the hint in a message never changes which lines are flagged, and a line
//! the lapse scan or the commitment aggregator reads is never flagged.

use vstd::prelude::*;

use crate::commitments::periodic_line;
use crate::lint::{
    dashboard_bullet, habit_hint, habit_issues, periodic_hint, periodic_issues, IssueView,
    LintSeverity,
};
use crate::orient::{habit_line, lapsed_habit_line};
use crate::text::trim;

verus! {

/// A bullet the habit grammar rejects.
pub open spec fn rejected_habit(l: Seq<char>) -> bool {
    dashboard_bullet(l) && habit_line(l) is None
}

/// A bullet the periodic-commitment grammar rejects.
pub open spec fn rejected_periodic(l: Seq<char>) -> bool {
    dashboard_bullet(l) && periodic_line(l) is None
}

/// The `## Active Habits` lint flags exactly the bullets the habit parser
/// rejects, in order, each with its trimmed text and hint; a line the
/// lapse scan reads as a habit is never among them.
pub proof fn lemma_habit_lint_agrees(path: Seq<char>, ls: Seq<Seq<char>>)
    ensures
        ({
            let bad = ls.filter(|l: Seq<char>| rejected_habit(l));
            &&& habit_issues(path, ls).len() == bad.len()
            &&& forall|k: int|
                0 <= k < bad.len() ==> #[trigger] habit_issues(path, ls)[k] == (IssueView {
                    path,
                    severity: LintSeverity::Warning,
                    message: "malformed Active Habits line `"@ + trim(bad[k]) + "` -- "@
                        + habit_hint(bad[k]),
                })
        }),
        forall|l: Seq<char>| lapsed_habit_line(l) is Some ==> !rejected_habit(l),
    decreases ls.len(),
{
    if ls.len() > 0 {
        reveal(Seq::filter);
        lemma_habit_lint_agrees(path, ls.drop_last());
        let bad0 = ls.drop_last().filter(|l: Seq<char>| rejected_habit(l));
        let bad = ls.filter(|l: Seq<char>| rejected_habit(l));
        assert(bad == if rejected_habit(ls.last()) {
            bad0.push(ls.last())
        } else {
            bad0
        });
    }
}

/// The `## Periodic Commitments` lint flags exactly the bullets the
/// periodic-line parser rejects, in order, each with its trimmed text and
/// hint; a line the commitment aggregator reads is never among them.
pub proof fn lemma_periodic_lint_agrees(path: Seq<char>, ls: Seq<Seq<char>>)
    ensures
        ({
            let bad = ls.filter(|l: Seq<char>| rejected_periodic(l));
            &&& periodic_issues(path, ls).len() == bad.len()
            &&& forall|k: int|
                0 <= k < bad.len() ==> #[trigger] periodic_issues(path, ls)[k] == (IssueView {
                    path,
                    severity: LintSeverity::Warning,
                    message: "malformed Periodic Commitments line `"@ + trim(bad[k]) + "` -- "@
                        + periodic_hint(bad[k]),
                })
        }),
        forall|l: Seq<char>| periodic_line(l) is Some ==> !rejected_periodic(l),
    decreases ls.len(),
{
    if ls.len() > 0 {
        reveal(Seq::filter);
        lemma_periodic_lint_agrees(path, ls.drop_last());
        let bad0 = ls.drop_last().filter(|l: Seq<char>| rejected_periodic(l));
        let bad = ls.filter(|l: Seq<char>| rejected_periodic(l));
        assert(bad == if rejected_periodic(ls.last()) {
            bad0.push(ls.last())
        } else {
            bad0
        });
    }
}

} // verus!

//! The compact view of a project used by orientation and reviews: the
//! first lines of its Current State and its first open action.

use vstd::prelude::*;

use crate::frontmatter::{EnergyLevel, ProjectStatus};
use crate::projects::actions::{energy_suffix, energy_suffix_exec};
use crate::text::{
    chars_of, join, join_exec, lines, lines_exec, string_of, strip_prefix, strip_prefix_exec,
    strip_suffix, strip_suffix_exec, trim, trim_end, trim_end_of, trim_of, trim_start,
    trim_start_of, views,
};

verus! {

/// Compact view of a project for orientation displays and reviews.
#[derive(Debug, Clone, PartialEq, Eq)]
pub struct ProjectSummary {
    pub slug: String,
    pub status: ProjectStatus,
    /// The first two non-blank lines of `## Current State`, joined by a
    /// newline; empty when the section is missing or blank.
    pub state_snippet: String,
    /// The first open bullet of `## Next Actions`.
    pub top_action: Option<TopAction>,
}

/// One next-action line, with its energy when the suffix is present.
#[derive(Debug, Clone, PartialEq, Eq)]
pub struct TopAction {
    pub text: String,
    pub energy: Option<EnergyLevel>,
}

/// The lines of `ls` that hold more than whitespace, in order.
pub open spec fn nonblank(ls: Seq<Seq<char>>) -> Seq<Seq<char>>
    decreases ls.len(),
{
    if ls.len() == 0 {
        Seq::empty()
    } else if trim(ls.last()).len() > 0 {
        nonblank(ls.drop_last()).push(ls.last())
    } else {
        nonblank(ls.drop_last())
    }
}

/// The first two non-blank lines of a section, joined by a newline.
pub open spec fn state_snippet(section: Seq<char>) -> Seq<char> {
    let nb = nonblank(lines(section));
    join(
        if nb.len() > 2 {
            nb.take(2)
        } else {
            nb
        },
        "\n"@,
    )
}

/// Take the first two non-blank lines of a section and join them with a
/// newline.
pub fn extract_state_snippet(section: &str) -> (r: String)
    ensures
        r@ == state_snippet(section@),
{
    let ls = lines_exec(&chars_of(section));
    let ghost lv = views(ls@);
    assert(lv =~= lines(section@));
    let mut nb: Vec<Vec<char>> = Vec::new();
    let mut i: usize = 0;
    while i < ls.len()
        invariant
            i <= ls@.len(),
            lv == views(ls@),
            views(nb@) == nonblank(lv.take(i as int)),
        decreases ls@.len() - i,
    {
        assert(lv.take(i + 1).drop_last() == lv.take(i as int));
        assert(lv.take(i + 1).last() == ls@[i as int]@);
        let ghost old_nb = views(nb@);
        if trim_of(&ls[i]).len() > 0 {
            nb.push(ls[i].clone());
            assert(views(nb@) =~= old_nb.push(ls@[i as int]@));
        }
        i = i + 1;
    }
    assert(lv.take(ls@.len() as int) == lv);
    let mut first: Vec<Vec<char>> = Vec::new();
    let mut k: usize = 0;
    while k < nb.len() && k < 2
        invariant
            k <= nb@.len(),
            k <= 2,
            views(first@) == views(nb@).take(k as int),
        decreases 2 - k,
    {
        let ghost old_first = views(first@);
        first.push(nb[k as usize].clone());
        assert(views(first@) =~= old_first.push(nb@[k as int]@));
        assert(views(first@) =~= views(nb@).take(k + 1));
        k = k + 1;
    }
    assert(views(first@) == (if views(nb@).len() > 2 {
        views(nb@).take(2)
    } else {
        views(nb@)
    }));
    string_of(&join_exec(&first, &chars_of("\n")))
}

/// The open bullet of a line and its energy: the text after `- [ ] `,
/// trimmed, with a ` (deep)`, ` (medium)` or ` (light)` suffix (tried in
/// that order) split off and the rest trimmed at the end.
pub open spec fn top_action_of(line: Seq<char>) -> Option<(Seq<char>, Option<EnergyLevel>)> {
    match strip_prefix(trim_start(line), "- [ ] "@) {
        Some(rest) => {
            let after = trim(rest);
            match strip_suffix(after, energy_suffix(EnergyLevel::Deep)) {
                Some(st) => Some((trim_end(st), Some(EnergyLevel::Deep))),
                None => match strip_suffix(after, energy_suffix(EnergyLevel::Medium)) {
                    Some(st) => Some((trim_end(st), Some(EnergyLevel::Medium))),
                    None => match strip_suffix(after, energy_suffix(EnergyLevel::Light)) {
                        Some(st) => Some((trim_end(st), Some(EnergyLevel::Light))),
                        None => Some((after, None)),
                    },
                },
            }
        },
        None => None,
    }
}

/// Parse one line as an open bullet with an optional energy suffix.
pub fn parse_top_action(line: &str) -> (r: Option<TopAction>)
    ensures
        match top_action_of(line@) {
            Some((text, energy)) => r matches Some(t) && t.text@ == text && t.energy == energy,
            None => r is None,
        },
{
    let t = trim_start_of(&chars_of(line));
    let rest = match strip_prefix_exec(&t, &chars_of("- [ ] ")) {
        Some(rest) => rest,
        None => {
            return None;
        },
    };
    let after = trim_of(&rest);
    if let Some(st) = strip_suffix_exec(&after, &energy_suffix_exec(EnergyLevel::Deep)) {
        return Some(TopAction { text: string_of(&trim_end_of(&st)), energy: Some(EnergyLevel::Deep) });
    }
    if let Some(st) = strip_suffix_exec(&after, &energy_suffix_exec(EnergyLevel::Medium)) {
        return Some(
            TopAction { text: string_of(&trim_end_of(&st)), energy: Some(EnergyLevel::Medium) },
        );
    }
    if let Some(st) = strip_suffix_exec(&after, &energy_suffix_exec(EnergyLevel::Light)) {
        return Some(
            TopAction { text: string_of(&trim_end_of(&st)), energy: Some(EnergyLevel::Light) },
        );
    }
    Some(TopAction { text: string_of(&after), energy: None })
}

/// The first line of `ls` that is an open bullet, parsed.
pub open spec fn first_top_action(ls: Seq<Seq<char>>) -> Option<(Seq<char>, Option<EnergyLevel>)>
    decreases ls.len(),
{
    if ls.len() == 0 {
        None
    } else {
        match top_action_of(ls[0]) {
            Some(x) => Some(x),
            None => first_top_action(ls.drop_first()),
        }
    }
}

/// The first open bullet of a `## Next Actions` section.
pub fn find_top_open_action(section: &str) -> (r: Option<TopAction>)
    ensures
        match first_top_action(lines(section@)) {
            Some((text, energy)) => r matches Some(t) && t.text@ == text && t.energy == energy,
            None => r is None,
        },
{
    let ls = lines_exec(&chars_of(section));
    let ghost lv = views(ls@);
    assert(lv =~= lines(section@));
    assert(lv.skip(0) =~= lv);
    let mut i: usize = 0;
    while i < ls.len()
        invariant
            i <= ls@.len(),
            lv == views(ls@),
            lv == lines(section@),
            first_top_action(lv) == first_top_action(lv.skip(i as int)),
        decreases ls@.len() - i,
    {
        let ghost rest = lv.skip(i as int);
        assert(rest[0] == ls@[i as int]@);
        assert(rest.drop_first() == lv.skip(i + 1));
        let line = string_of(&ls[i]);
        assert(line@ == rest[0]);
        assert(rest.len() > 0);
        assert(first_top_action(rest) == match top_action_of(rest[0]) {
            Some(x) => Some(x),
            None => first_top_action(rest.drop_first()),
        });
        let parsed = parse_top_action(line.as_str());
        if let Some(t) = parsed {
            assert(top_action_of(rest[0]) is Some);
            assert(first_top_action(lines(section@)) == top_action_of(line@));
            return Some(t);
        }
        i = i + 1;
    }
    None
}

/// Build the summary of a project from its status and the bodies of its
/// `## Current State` and `## Next Actions` sections (`None` where a
/// section is missing).
pub fn summarize_project(
    slug: &str,
    status: ProjectStatus,
    state_section: Option<&str>,
    actions_section: Option<&str>,
) -> (r: ProjectSummary)
    ensures
        r.slug@ == slug@,
        r.status == status,
        r.state_snippet@ == match state_section {
            Some(s) => state_snippet(s@),
            None => Seq::<char>::empty(),
        },
        match actions_section {
            Some(a) => match first_top_action(lines(a@)) {
                Some((text, energy)) => r.top_action matches Some(t) && t.text@ == text && t.energy
                    == energy,
                None => r.top_action is None,
            },
            None => r.top_action is None,
        },
{
    let state_snippet = match state_section {
        Some(s) => extract_state_snippet(s),
        None => string_of(&Vec::new()),
    };
    let top_action = match actions_section {
        Some(a) => find_top_open_action(a),
        None => None,
    };
    ProjectSummary { slug: slug.to_owned(), status, state_snippet, top_action }
}

} // verus!

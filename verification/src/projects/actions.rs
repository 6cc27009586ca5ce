//! The `## Next Actions` checklist of a project map: open bullets
//! `- [ ] <text> (<energy>)`, their energy tags, wikilinked action notes,
//! and the resolution of a free-text query to one bullet.

use vstd::prelude::*;

use crate::error::DomainError;
use crate::frontmatter::{ActionStatus, EnergyLevel};
use crate::projects::{indices_of_true, int_indices, pick_of, section_lines, Pick};
use crate::text::{
    chars_of, contains, is_ws, lemma_trim_ends, lemma_trim_no_ws_ends, contains_exec, ends_with, ends_with_exec, eq_exec, has_char,
    has_char_exec, indices_where, join, join_exec, lowercase_vec, push_all, remove_at,
    remove_line, replace_line, slice_of, split_char, starts_with, string_of, string_views,
    strip_prefix, strip_prefix_exec, strip_suffix, strip_suffix_exec, trim, trim_end,
    trim_end_of, trim_of, trim_start, trim_start_of, unicode_lowercase, views, first_non_ws,
};

verus! {

/// The text of an open action bullet: what follows `- [ ] ` once the
/// line's indentation is dropped, trimmed.
pub open spec fn open_action_text(line: Seq<char>) -> Option<Seq<char>> {
    match strip_prefix(trim_start(line), "- [ ] "@) {
        Some(rest) => Some(trim(rest)),
        None => None,
    }
}

/// The bullet text, or nothing for a line that is not an open bullet.
pub open spec fn action_text_or_empty(line: Seq<char>) -> Seq<char> {
    match open_action_text(line) {
        Some(t) => t,
        None => Seq::empty(),
    }
}

/// The ` (<energy>)` suffix of a bullet.
pub open spec fn energy_suffix(e: EnergyLevel) -> Seq<char> {
    " ("@ + e.name() + ")"@
}

/// `text` without a trailing ` (deep)`, ` (medium)` or ` (light)`.
pub open spec fn strip_energy(text: Seq<char>) -> Seq<char> {
    if ends_with(text, energy_suffix(EnergyLevel::Deep)) {
        text.take(text.len() - energy_suffix(EnergyLevel::Deep).len())
    } else if ends_with(text, energy_suffix(EnergyLevel::Medium)) {
        text.take(text.len() - energy_suffix(EnergyLevel::Medium).len())
    } else if ends_with(text, energy_suffix(EnergyLevel::Light)) {
        text.take(text.len() - energy_suffix(EnergyLevel::Light).len())
    } else {
        text
    }
}

/// The energy named by the trailing suffix of `text`.
pub open spec fn bullet_energy(text: Seq<char>) -> Option<EnergyLevel> {
    if ends_with(text, energy_suffix(EnergyLevel::Deep)) {
        Some(EnergyLevel::Deep)
    } else if ends_with(text, energy_suffix(EnergyLevel::Medium)) {
        Some(EnergyLevel::Medium)
    } else if ends_with(text, energy_suffix(EnergyLevel::Light)) {
        Some(EnergyLevel::Light)
    } else {
        None
    }
}

/// The slug of the action note that a bullet wikilinks
/// (`[[actions/<slug>]]`, energy suffix allowed); none for a plain
/// bullet, a labelled link or any other target.
pub open spec fn attached_action_slug(text: Seq<char>) -> Option<Seq<char>> {
    let core = trim(strip_energy(trim(text)));
    match strip_prefix(core, "[["@) {
        Some(a) => match strip_suffix(a, "]]"@) {
            Some(inner) => match strip_prefix(inner, "actions/"@) {
                Some(slug) => if slug.len() == 0 || has_char(slug, '[') || has_char(slug, ']')
                    || has_char(slug, '|') {
                    None
                } else {
                    Some(slug)
                },
                None => None,
            },
            None => None,
        },
        None => None,
    }
}

/// Line `i` is an open bullet whose whole text equals the query, case
/// aside.
pub open spec fn exact_action_match(lines: Seq<Seq<char>>, query: Seq<char>) -> spec_fn(
    int,
) -> bool {
    |i: int|
        (open_action_text(lines[i]) matches Some(t) && unicode_lowercase(t) == unicode_lowercase(
            trim(query),
        ))
}

/// Line `i` is an open bullet whose text, energy suffix dropped, holds
/// the query (energy suffix dropped too), case aside.
pub open spec fn fuzzy_action_match(lines: Seq<Seq<char>>, query: Seq<char>) -> spec_fn(
    int,
) -> bool {
    |i: int|
        (open_action_text(lines[i]) matches Some(t) && contains(
            unicode_lowercase(strip_energy(t)),
            unicode_lowercase(strip_energy(trim(query))),
        ))
}

/// Which open bullet a query names: a unique exact match wins outright;
/// otherwise the substring matches decide.
pub open spec fn pick_action(lines: Seq<Seq<char>>, query: Seq<char>) -> Pick {
    let exact = indices_where(lines.len() as int, exact_action_match(lines, query));
    if exact.len() == 1 {
        Pick::One(exact[0])
    } else {
        pick_of(indices_where(lines.len() as int, fuzzy_action_match(lines, query)))
    }
}

/// The outcome of resolving `query` among `lines`, as the resolver
/// reports it.
pub open spec fn resolved_action(
    lines: Seq<Seq<char>>,
    slug: Seq<char>,
    query: Seq<char>,
    r: Result<usize, DomainError>,
) -> bool {
    match pick_action(lines, query) {
        Pick::One(i) => r == Ok::<usize, DomainError>(i as usize),
        Pick::NoMatch => (r matches Err(DomainError::ActionNotFound { slug: s, query: q }) && s@
            == slug && q@ == query),
        Pick::Several(ix) => (r matches Err(
            DomainError::AmbiguousAction { slug: s, query: q, candidates: c },
        ) && s@ == slug && q@ == query && string_views(c@) == ix.map_values(
            |k: int| action_text_or_empty(lines[k]),
        )),
    }
}

pub fn energy_suffix_exec(e: EnergyLevel) -> (r: Vec<char>)
    ensures
        r@ == energy_suffix(e),
{
    let mut r = chars_of(" (");
    push_all(&mut r, &chars_of(e.as_str()));
    push_all(&mut r, &chars_of(")"));
    r
}

fn open_action_text_exec(line: &Vec<char>) -> (r: Option<Vec<char>>)
    ensures
        match open_action_text(line@) {
            Some(t) => r matches Some(v) && v@ == t,
            None => r is None,
        },
{
    let t = trim_start_of(line);
    match strip_prefix_exec(&t, &chars_of("- [ ] ")) {
        Some(rest) => Some(trim_of(&rest)),
        None => None,
    }
}

fn strip_energy_exec(text: &Vec<char>) -> (r: Vec<char>)
    ensures
        r@ == strip_energy(text@),
{
    let deep = energy_suffix_exec(EnergyLevel::Deep);
    if ends_with_exec(text, &deep) {
        return slice_of(text, 0, text.len() - deep.len());
    }
    let medium = energy_suffix_exec(EnergyLevel::Medium);
    if ends_with_exec(text, &medium) {
        return slice_of(text, 0, text.len() - medium.len());
    }
    let light = energy_suffix_exec(EnergyLevel::Light);
    if ends_with_exec(text, &light) {
        return slice_of(text, 0, text.len() - light.len());
    }
    text.clone()
}

fn bullet_energy_exec(text: &Vec<char>) -> (r: Option<EnergyLevel>)
    ensures
        r == bullet_energy(text@),
{
    if ends_with_exec(text, &energy_suffix_exec(EnergyLevel::Deep)) {
        Some(EnergyLevel::Deep)
    } else if ends_with_exec(text, &energy_suffix_exec(EnergyLevel::Medium)) {
        Some(EnergyLevel::Medium)
    } else if ends_with_exec(text, &energy_suffix_exec(EnergyLevel::Light)) {
        Some(EnergyLevel::Light)
    } else {
        None
    }
}

fn attached_action_slug_exec(text: &Vec<char>) -> (r: Option<Vec<char>>)
    ensures
        match attached_action_slug(text@) {
            Some(s) => r matches Some(v) && v@ == s,
            None => r is None,
        },
{
    let core = trim_of(&strip_energy_exec(&trim_of(text)));
    let a = match strip_prefix_exec(&core, &chars_of("[[")) {
        Some(a) => a,
        None => {
            return None;
        },
    };
    let inner = match strip_suffix_exec(&a, &chars_of("]]")) {
        Some(inner) => inner,
        None => {
            return None;
        },
    };
    let slug = match strip_prefix_exec(&inner, &chars_of("actions/")) {
        Some(slug) => slug,
        None => {
            return None;
        },
    };
    if slug.len() == 0 || has_char_exec(&slug, '[') || has_char_exec(&slug, ']') || has_char_exec(
        &slug,
        '|',
    ) {
        None
    } else {
        Some(slug)
    }
}

/// The text of an open action bullet (`- [ ] <text>`), energy suffix
/// included; `None` for closed bullets, blanks and other content.
pub fn parse_open_action_text(line: &str) -> (r: Option<String>)
    ensures
        match open_action_text(line@) {
            Some(t) => r matches Some(s) && s@ == t,
            None => r is None,
        },
{
    match open_action_text_exec(&chars_of(line)) {
        Some(v) => Some(string_of(&v)),
        None => None,
    }
}

/// Drop a trailing ` (deep)`, ` (medium)` or ` (light)`.
pub fn strip_energy_suffix(text: &str) -> (r: String)
    ensures
        r@ == strip_energy(text@),
{
    string_of(&strip_energy_exec(&chars_of(text)))
}

/// The energy named by the bullet's trailing suffix, if it has one.
pub fn parse_bullet_energy(text: &str) -> (r: Option<EnergyLevel>)
    ensures
        r == bullet_energy(text@),
{
    bullet_energy_exec(&chars_of(text))
}

/// The slug of the action note a bullet wikilinks, if it is exactly an
/// `[[actions/<slug>]]` link.
pub fn parse_attached_action_slug(text: &str) -> (r: Option<String>)
    ensures
        match attached_action_slug(text@) {
            Some(s) => r matches Some(v) && v@ == s,
            None => r is None,
        },
{
    match attached_action_slug_exec(&chars_of(text)) {
        Some(v) => Some(string_of(&v)),
        None => None,
    }
}

fn resolve_open_action_lines(lines: &Vec<Vec<char>>, slug: &str, query: &str) -> (r: Result<
    usize,
    DomainError,
>)
    ensures
        resolved_action(views(lines@), slug@, query@, r),
{
    let ghost ls = views(lines@);
    let q = chars_of(query);
    let tq = trim_of(&q);
    let exact = lowercase_vec(&tq);
    let needle = lowercase_vec(&strip_energy_exec(&tq));
    let mut exact_flags: Vec<bool> = Vec::new();
    let mut fuzzy_flags: Vec<bool> = Vec::new();
    let mut i: usize = 0;
    while i < lines.len()
        invariant
            i <= lines@.len(),
            ls == views(lines@),
            exact_flags@.len() == i,
            fuzzy_flags@.len() == i,
            exact@ == unicode_lowercase(trim(query@)),
            needle@ == unicode_lowercase(strip_energy(trim(query@))),
            forall|j: int| 0 <= j < i ==> exact_flags@[j] == exact_action_match(ls, query@)(j),
            forall|j: int| 0 <= j < i ==> fuzzy_flags@[j] == fuzzy_action_match(ls, query@)(j),
        decreases lines@.len() - i,
    {
        assert(ls[i as int] == lines@[i as int]@);
        match open_action_text_exec(&lines[i]) {
            Some(t) => {
                let lt = lowercase_vec(&t);
                exact_flags.push(eq_exec(&lt, &exact));
                let ls_t = lowercase_vec(&strip_energy_exec(&t));
                fuzzy_flags.push(contains_exec(&ls_t, &needle));
            },
            None => {
                exact_flags.push(false);
                fuzzy_flags.push(false);
            },
        }
        i = i + 1;
    }
    let exact_ix = indices_of_true(&exact_flags, Ghost(exact_action_match(ls, query@)));
    if exact_ix.len() == 1 {
        return Ok(exact_ix[0]);
    }
    let fuzzy_ix = indices_of_true(&fuzzy_flags, Ghost(fuzzy_action_match(ls, query@)));
    assert(int_indices(fuzzy_ix@).len() == fuzzy_ix@.len());
    if fuzzy_ix.len() == 0 {
        return Err(DomainError::ActionNotFound { slug: slug.to_owned(), query: query.to_owned() });
    }
    if fuzzy_ix.len() == 1 {
        return Ok(fuzzy_ix[0]);
    }
    let mut candidates: Vec<String> = Vec::new();
    let mut k: usize = 0;
    while k < fuzzy_ix.len()
        invariant
            k <= fuzzy_ix@.len(),
            ls == views(lines@),
            forall|m: int| 0 <= m < fuzzy_ix@.len() ==> fuzzy_ix@[m] < lines@.len(),
            string_views(candidates@) == int_indices(fuzzy_ix@).take(k as int).map_values(
                |j: int| action_text_or_empty(ls[j]),
            ),
        decreases fuzzy_ix@.len() - k,
    {
        let idx = fuzzy_ix[k];
        assert(ls[idx as int] == lines@[idx as int]@);
        let text = match open_action_text_exec(&lines[idx]) {
            Some(t) => string_of(&t),
            None => string_of(&Vec::new()),
        };
        assert(text@ == action_text_or_empty(ls[idx as int]));
        assert(int_indices(fuzzy_ix@)[k as int] == idx as int);
        let ghost old_c = string_views(candidates@);
        candidates.push(text);
        assert(string_views(candidates@) =~= old_c.push(text@));
        assert(string_views(candidates@) =~= int_indices(fuzzy_ix@).take(k + 1).map_values(
            |j: int| action_text_or_empty(ls[j]),
        ));
        k = k + 1;
    }
    assert(int_indices(fuzzy_ix@).take(fuzzy_ix@.len() as int) == int_indices(fuzzy_ix@));
    Err(
        DomainError::AmbiguousAction {
            slug: slug.to_owned(),
            query: query.to_owned(),
            candidates,
        },
    )
}

/// Find the one open bullet among `lines` that `query` names: a unique
/// case-insensitive exact match on the whole bullet wins; otherwise a
/// case-insensitive substring match with the energy suffix dropped from
/// both sides must be unique. No match and several matches are errors,
/// the latter carrying the candidate texts.
pub fn resolve_open_action(lines: &Vec<String>, slug: &str, query: &str) -> (r: Result<
    usize,
    DomainError,
>)
    ensures
        resolved_action(string_views(lines@), slug@, query@, r),
{
    let mut cl: Vec<Vec<char>> = Vec::new();
    let mut i: usize = 0;
    while i < lines.len()
        invariant
            i <= lines@.len(),
            views(cl@) == string_views(lines@).take(i as int),
        decreases lines@.len() - i,
    {
        let c = chars_of(lines[i].as_str());
        assert(c@ == lines@[i as int]@);
        let ghost old_cl = views(cl@);
        cl.push(c);
        assert(views(cl@) =~= old_cl.push(c@));
        assert(views(cl@) =~= string_views(lines@).take(i + 1));
        i = i + 1;
    }
    assert(string_views(lines@).take(lines@.len() as int) == string_views(lines@));
    resolve_open_action_lines(&cl, slug, query)
}

/// The bullet that `add_action` writes: `- [ ] <action> (<energy>)`,
/// the action trimmed.
pub open spec fn action_bullet(action: Seq<char>, e: EnergyLevel) -> Seq<char> {
    "- [ ] "@ + trim(action) + energy_suffix(e)
}

/// A section with `bullet` appended: the old content with trailing
/// whitespace dropped, a newline, the bullet and a blank line; an empty
/// section becomes the bullet and a blank line.
pub open spec fn append_bullet(section: Seq<char>, bullet: Seq<char>) -> Seq<char> {
    let existing = trim_end(section);
    if existing.len() == 0 {
        bullet + "\n\n"@
    } else {
        existing + "\n"@ + bullet + "\n\n"@
    }
}

/// Append `bullet` to a section.
pub fn append_bullet_exec(section: &Vec<char>, bullet: &Vec<char>) -> (r: Vec<char>)
    ensures
        r@ == append_bullet(section@, bullet@),
{
    let existing = trim_end_of(section);
    if existing.len() == 0 {
        let mut r = bullet.clone();
        push_all(&mut r, &chars_of("\n\n"));
        r
    } else {
        let mut r = existing;
        push_all(&mut r, &chars_of("\n"));
        push_all(&mut r, bullet);
        push_all(&mut r, &chars_of("\n\n"));
        r
    }
}

/// The `## Next Actions` section after `add_action`: the new bullet
/// appended at the end.
pub fn add_action_to_section(section: &str, action: &str, energy: EnergyLevel) -> (r: String)
    ensures
        r@ == append_bullet(section@, action_bullet(action@, energy)),
{
    let mut bullet = chars_of("- [ ] ");
    push_all(&mut bullet, &trim_of(&chars_of(action)));
    push_all(&mut bullet, &energy_suffix_exec(energy));
    string_of(&append_bullet_exec(&chars_of(section), &bullet))
}

/// The section text after `complete_action`, and the text of the removed
/// bullet.
pub struct CompletedAction {
    pub section: String,
    pub removed: String,
}

/// Remove the open bullet that `query` names from a `## Next Actions`
/// section. Every other line is kept, in order.
pub fn complete_action_in_section(section: &str, slug: &str, query: &str) -> (r: Result<
    CompletedAction,
    DomainError,
>)
    ensures
        ({
            let lines = split_char(section@, '\n');
            match pick_action(lines, query@) {
                Pick::One(i) => (r matches Ok(c) && c.section@ == join(remove_at(lines, i), "\n"@)
                    && c.removed@ == action_text_or_empty(lines[i])),
                _ => r matches Err(e) && resolved_action(lines, slug@, query@, Err(e)),
            }
        }),
{
    let s = chars_of(section);
    let lines = section_lines(&s);
    match resolve_open_action_lines(&lines, slug, query) {
        Ok(i) => {
            proof {
                crate::text::lemma_indices_where(
                    lines@.len() as int,
                    exact_action_match(views(lines@), query@),
                );
                crate::text::lemma_indices_where(
                    lines@.len() as int,
                    fuzzy_action_match(views(lines@), query@),
                );
            }
            assert(i < lines@.len());
            let removed = match open_action_text_exec(&lines[i]) {
                Some(t) => string_of(&t),
                None => string_of(&Vec::new()),
            };
            let kept = remove_line(&lines, i);
            let joined = join_exec(&kept, &chars_of("\n"));
            Ok(CompletedAction { section: string_of(&joined), removed })
        },
        Err(e) => Err(e),
    }
}

/// The bullet a promoted action is rewritten to.
pub open spec fn promoted_bullet(action_slug: Seq<char>, e: EnergyLevel) -> Seq<char> {
    "- [ ] [["@ + "actions/"@ + action_slug + "]]"@ + energy_suffix(e)
}

/// The bullet that `promote_action` turns into an action note.
pub struct PromotionTarget {
    /// Index of the bullet among the section's lines.
    pub index: usize,
    /// The bullet text, energy suffix included.
    pub text: String,
    /// The title the note inherits: the text without its energy suffix.
    pub title: String,
    pub energy: EnergyLevel,
}

/// Pick the bullet `query` names for promotion to an action note. A
/// bullet already linking an action note, and a bullet without an energy
/// tag to inherit, are refused.
pub fn promotion_target(section: &str, slug: &str, query: &str) -> (r: Result<
    PromotionTarget,
    DomainError,
>)
    ensures
        ({
            let lines = split_char(section@, '\n');
            match pick_action(lines, query@) {
                Pick::One(i) => {
                    let text = action_text_or_empty(lines[i]);
                    if attached_action_slug(text) is Some {
                        r matches Err(DomainError::ActionAlreadyPromoted { slug: s, line: l }) && s@
                            == slug@ && l@ == text
                    } else if bullet_energy(text) is None {
                        r matches Err(DomainError::BulletMissingEnergy { slug: s, line: l }) && s@
                            == slug@ && l@ == text
                    } else {
                        r matches Ok(t) && t.index == i && t.text@ == text && t.title@ == trim(
                            strip_energy(text),
                        ) && Some(t.energy) == bullet_energy(text)
                    }
                },
                _ => r matches Err(e) && resolved_action(lines, slug@, query@, Err(e)),
            }
        }),
{
    let s = chars_of(section);
    let lines = section_lines(&s);
    match resolve_open_action_lines(&lines, slug, query) {
        Ok(i) => {
            proof {
                crate::text::lemma_indices_where(
                    lines@.len() as int,
                    exact_action_match(views(lines@), query@),
                );
                crate::text::lemma_indices_where(
                    lines@.len() as int,
                    fuzzy_action_match(views(lines@), query@),
                );
            }
            assert(i < lines@.len());
            let text = match open_action_text_exec(&lines[i]) {
                Some(t) => t,
                None => Vec::new(),
            };
            if attached_action_slug_exec(&text).is_some() {
                return Err(
                    DomainError::ActionAlreadyPromoted {
                        slug: slug.to_owned(),
                        line: string_of(&text),
                    },
                );
            }
            let energy = match bullet_energy_exec(&text) {
                Some(e) => e,
                None => {
                    return Err(
                        DomainError::BulletMissingEnergy {
                            slug: slug.to_owned(),
                            line: string_of(&text),
                        },
                    );
                },
            };
            let title = trim_of(&strip_energy_exec(&text));
            Ok(PromotionTarget { index: i, text: string_of(&text), title: string_of(&title), energy })
        },
        Err(e) => Err(e),
    }
}

/// The section after promotion: line `index` replaced by the wikilink
/// bullet, every other line kept.
pub fn promote_bullet_in_section(
    section: &str,
    index: usize,
    action_slug: &str,
    energy: EnergyLevel,
) -> (r: String)
    requires
        index < split_char(section@, '\n').len(),
    ensures
        r@ == join(
            split_char(section@, '\n').update(index as int, promoted_bullet(action_slug@, energy)),
            "\n"@,
        ),
{
    let s = chars_of(section);
    let lines = section_lines(&s);
    let mut bullet = chars_of("- [ ] [[");
    push_all(&mut bullet, &chars_of("actions/"));
    push_all(&mut bullet, &chars_of(action_slug));
    push_all(&mut bullet, &chars_of("]]"));
    push_all(&mut bullet, &energy_suffix_exec(energy));
    let replaced = replace_line(&lines, index, bullet);
    string_of(&join_exec(&replaced, &chars_of("\n")))
}

/// The texts of the open bullets of a section, in order.
pub open spec fn open_action_texts(lines: Seq<Seq<char>>) -> Seq<Seq<char>>
    decreases lines.len(),
{
    if lines.len() == 0 {
        Seq::empty()
    } else {
        let rest = open_action_texts(lines.drop_last());
        match open_action_text(lines.last()) {
            Some(t) => rest.push(t),
            None => rest,
        }
    }
}

/// The open bullets of a `## Next Actions` section, verbatim.
pub fn list_open_action_texts(section: &str) -> (r: Vec<String>)
    ensures
        string_views(r@) == open_action_texts(split_char(section@, '\n')),
{
    let s = chars_of(section);
    let lines = section_lines(&s);
    let ghost ls = views(lines@);
    let mut out: Vec<String> = Vec::new();
    let mut i: usize = 0;
    while i < lines.len()
        invariant
            i <= lines@.len(),
            ls == views(lines@),
            string_views(out@) == open_action_texts(ls.take(i as int)),
        decreases lines@.len() - i,
    {
        assert(ls.take(i + 1).drop_last() == ls.take(i as int));
        assert(ls.take(i + 1).last() == lines@[i as int]@);
        match open_action_text_exec(&lines[i]) {
            Some(t) => {
                out.push(string_of(&t));
                assert(string_views(out@) =~= open_action_texts(ls.take(i + 1)));
            },
            None => {},
        }
        i = i + 1;
    }
    assert(ls.take(lines@.len() as int) == ls);
    out
}

/// One open action bullet as `list_actions` reports it.
#[derive(Debug, Clone, PartialEq, Eq)]
pub struct ActionListEntry {
    /// The bullet text after `- [ ] `, energy suffix and link included.
    pub text: String,
    /// The energy parsed from the trailing suffix.
    pub energy: Option<EnergyLevel>,
    /// The linked action note, when the bullet links one that exists.
    pub attached: Option<AttachedAction>,
}

/// The action note hanging off a wikilink bullet, with its status.
#[derive(Debug, Clone, PartialEq, Eq)]
pub struct AttachedAction {
    pub slug: String,
    pub status: ActionStatus,
}

/// Build the list entry of a bullet. `note_status` is the status of the
/// action note that the bullet links, when that note exists.
pub fn action_list_entry(text: &str, note_status: Option<ActionStatus>) -> (r: ActionListEntry)
    ensures
        r.text@ == text@,
        r.energy == bullet_energy(text@),
        match (attached_action_slug(text@), note_status) {
            (Some(slug), Some(st)) => r.attached matches Some(a) && a.slug@ == slug && a.status
                == st,
            _ => r.attached is None,
        },
{
    let v = chars_of(text);
    let energy = bullet_energy_exec(&v);
    let attached = match (attached_action_slug_exec(&v), note_status) {
        (Some(slug), Some(status)) => Some(AttachedAction { slug: string_of(&slug), status }),
        _ => None,
    };
    ActionListEntry { text: text.to_owned(), energy, attached }
}

/// Opening of the daily-log line recording that work on an action
/// started.
pub const LOG_STARTED_PREFIX: &'static str = "started ";

/// Opening of the daily-log line recording a finished action.
pub const LOG_ACTION_DONE_PREFIX: &'static str = "action done on ";

pub open spec fn action_started_entry(slug: Seq<char>, action: Seq<char>) -> Seq<char> {
    "started "@ + "[["@ + slug + "]] \u{2014} "@ + action
}

pub open spec fn action_added_entry(slug: Seq<char>, action: Seq<char>, e: EnergyLevel) -> Seq<
    char,
> {
    "action added to [["@ + slug + "]] \u{2014} "@ + action + " ("@ + e.name() + ")"@
}

pub open spec fn action_done_entry(slug: Seq<char>, action: Seq<char>) -> Seq<char> {
    "action done on "@ + "[["@ + slug + "]] \u{2014} "@ + action
}

pub open spec fn action_promoted_entry(slug: Seq<char>, title: Seq<char>, action_slug: Seq<char>) -> Seq<
    char,
> {
    "action promoted on [["@ + slug + "]] \u{2014} \""@ + title + "\" -> [["@ + "actions/"@
        + action_slug + "]]"@
}

/// `started [[<slug>]] — <action>`.
pub fn format_action_started_log_entry(slug: &str, action_text: &str) -> (r: String)
    ensures
        r@ == action_started_entry(slug@, action_text@),
{
    let mut v = chars_of(LOG_STARTED_PREFIX);
    push_all(&mut v, &chars_of("[["));
    push_all(&mut v, &chars_of(slug));
    push_all(&mut v, &chars_of("]] \u{2014} "));
    push_all(&mut v, &chars_of(action_text));
    string_of(&v)
}

/// The log line of `start_action`: the action is trimmed and must not be
/// empty.
pub fn start_action_entry(slug: &str, action: &str) -> (r: Result<String, DomainError>)
    ensures
        trim(action@).len() == 0 ==> (r matches Err(DomainError::EmptyField { field: f }) && f@
            == "action"@),
        trim(action@).len() > 0 ==> (r matches Ok(s) && s@ == action_started_entry(
            slug@,
            trim(action@),
        )),
{
    let t = trim_of(&chars_of(action));
    if t.len() == 0 {
        return Err(DomainError::EmptyField { field: "action" });
    }
    Ok(format_action_started_log_entry(slug, string_of(&t).as_str()))
}

/// `action added to [[<slug>]] — <action> (<energy>)`.
pub fn format_action_added_log_entry(slug: &str, action: &str, energy: EnergyLevel) -> (r: String)
    ensures
        r@ == action_added_entry(slug@, action@, energy),
{
    let mut v = chars_of("action added to [[");
    push_all(&mut v, &chars_of(slug));
    push_all(&mut v, &chars_of("]] \u{2014} "));
    push_all(&mut v, &chars_of(action));
    push_all(&mut v, &chars_of(" ("));
    push_all(&mut v, &chars_of(energy.as_str()));
    push_all(&mut v, &chars_of(")"));
    string_of(&v)
}

/// `action done on [[<slug>]] — <action>`, the action text keeping its
/// energy suffix.
pub fn format_action_done_log_entry(slug: &str, action_text: &str) -> (r: String)
    ensures
        r@ == action_done_entry(slug@, action_text@),
{
    let mut v = chars_of(LOG_ACTION_DONE_PREFIX);
    push_all(&mut v, &chars_of("[["));
    push_all(&mut v, &chars_of(slug));
    push_all(&mut v, &chars_of("]] \u{2014} "));
    push_all(&mut v, &chars_of(action_text));
    string_of(&v)
}

/// `action promoted on [[<slug>]] — "<title>" -> [[actions/<note>]]`.
pub fn format_action_promoted_log_entry(slug: &str, title: &str, action_slug: &str) -> (r: String)
    ensures
        r@ == action_promoted_entry(slug@, title@, action_slug@),
{
    let mut v = chars_of("action promoted on [[");
    push_all(&mut v, &chars_of(slug));
    push_all(&mut v, &chars_of("]] \u{2014} \""));
    push_all(&mut v, &chars_of(title));
    push_all(&mut v, &chars_of("\" -> [["));
    push_all(&mut v, &chars_of("actions/"));
    push_all(&mut v, &chars_of(action_slug));
    push_all(&mut v, &chars_of("]]"));
    string_of(&v)
}

/// A bullet written by `add_action` reads back as an open bullet whose
/// energy is the one it was written with and whose text, suffix dropped,
/// is the trimmed action. An action that trims to nothing is the one
/// exception: its bullet text is the bare suffix.
pub proof fn lemma_action_bullet_roundtrip(action: Seq<char>, e: EnergyLevel)
    requires
        trim(action).len() > 0,
    ensures
        open_action_text(action_bullet(action, e)) == Some(trim(action) + energy_suffix(e)),
        bullet_energy(trim(action) + energy_suffix(e)) == Some(e),
        strip_energy(trim(action) + energy_suffix(e)) == trim(action),
{
    reveal_strlit("- [ ] ");
    reveal_strlit(" (");
    reveal_strlit(")");
    reveal_strlit("deep");
    reveal_strlit("medium");
    reveal_strlit("light");
    let t = trim(action);
    let sfx = energy_suffix(e);
    let x = t + sfx;
    let b = action_bullet(action, e);
    lemma_trim_ends(action);
    // The bullet opens with '-', so nothing is trimmed from its start.
    assert(b[0] == '-');
    assert(first_non_ws(b, 0) == 0);
    assert(b.skip(0) =~= b);
    assert(b.take(6) =~= "- [ ] "@);
    assert(b.skip(6) =~= x);
    // The text starts with the action and ends with ')'.
    assert(x[0] == t[0]);
    assert(x[x.len() - 1] == ')');
    lemma_trim_no_ws_ends(x);
    assert(x.skip(x.len() - sfx.len()) =~= sfx);
    assert(x.take(x.len() - sfx.len()) =~= t);
    let d = energy_suffix(EnergyLevel::Deep);
    let m = energy_suffix(EnergyLevel::Medium);
    let l = energy_suffix(EnergyLevel::Light);
    assert(d[d.len() - 2] == 'p');
    assert(m[m.len() - 2] == 'm');
    assert(l[l.len() - 2] == 't');
    match e {
        EnergyLevel::Deep => {},
        EnergyLevel::Medium => {
            assert(x[x.len() - 2] == 'm');
            if ends_with(x, d) {
                assert(x.skip(x.len() - d.len())[d.len() - 2] == x[x.len() - 2]);
            }
        },
        EnergyLevel::Light => {
            assert(x[x.len() - 2] == 't');
            if ends_with(x, d) {
                assert(x.skip(x.len() - d.len())[d.len() - 2] == x[x.len() - 2]);
            }
            if ends_with(x, m) {
                assert(x.skip(x.len() - m.len())[m.len() - 2] == x[x.len() - 2]);
            }
        },
    }
}

} // verus!

//! The `## Waiting On` section of a project map: plain bullets
//! `- <description>` naming blockers, with the `(nothing yet)`
//! placeholder standing for an empty section.

use vstd::prelude::*;

use crate::error::DomainError;
use crate::projects::milestones::SectionEdit;
use crate::projects::{indices_of_true, int_indices, pick_of, section_lines, Pick};
use crate::text::{
    find_char_from, has_char, chars_of, contains, contains_exec, eq_exec, indices_where, join, join_exec, lowercase_vec,
    push_all, remove_at, remove_line, split_char, starts_with, starts_with_exec, string_of,
    string_views, strip_prefix, strip_prefix_exec, trim, trim_of, trim_start, trim_start_of,
    unicode_lowercase, views,
};

verus! {

/// Body of an empty `## Waiting On` section.
pub const WAITING_ON_PLACEHOLDER: &'static str = "(nothing yet)";

/// The description of a waiting-on bullet: a `- ` bullet that is not a
/// checkbox, its text trimmed and not empty.
pub open spec fn waiting_text(line: Seq<char>) -> Option<Seq<char>> {
    let t = trim_start(line);
    if starts_with(t, "- ["@) {
        None
    } else {
        match strip_prefix(t, "- "@) {
            Some(rest) => if trim(rest).len() == 0 {
                None
            } else {
                Some(trim(rest))
            },
            None => None,
        }
    }
}

pub open spec fn waiting_text_or_empty(line: Seq<char>) -> Seq<char> {
    match waiting_text(line) {
        Some(t) => t,
        None => Seq::empty(),
    }
}

fn waiting_text_exec(line: &Vec<char>) -> (r: Option<Vec<char>>)
    ensures
        match waiting_text(line@) {
            Some(t) => r matches Some(v) && v@ == t,
            None => r is None,
        },
{
    let t = trim_start_of(line);
    if starts_with_exec(&t, &chars_of("- [")) {
        return None;
    }
    match strip_prefix_exec(&t, &chars_of("- ")) {
        Some(rest) => {
            let body = trim_of(&rest);
            if body.len() == 0 {
                None
            } else {
                Some(body)
            }
        },
        None => None,
    }
}

/// The description of a waiting-on bullet (`- <description>`); `None`
/// for checkboxes, blanks, the placeholder and other content.
pub fn parse_waiting_on_text(line: &str) -> (r: Option<String>)
    ensures
        match waiting_text(line@) {
            Some(t) => r matches Some(s) && s@ == t,
            None => r is None,
        },
{
    match waiting_text_exec(&chars_of(line)) {
        Some(v) => Some(string_of(&v)),
        None => None,
    }
}

/// The section after `add_waiting_on`: the placeholder (or an empty
/// section) is replaced by the bullet, otherwise the bullet is appended
/// to the trimmed content.
pub open spec fn add_waiting_section(section: Seq<char>, description: Seq<char>) -> Seq<char> {
    let bullet = "- "@ + trim(description);
    let existing = trim(section);
    if existing.len() == 0 || existing == WAITING_ON_PLACEHOLDER@ {
        bullet + "\n\n"@
    } else {
        existing + "\n"@ + bullet + "\n\n"@
    }
}

/// The `## Waiting On` section and log line after `add_waiting_on`.
pub fn add_waiting_on_to_section(section: &str, slug: &str, description: &str) -> (r: SectionEdit)
    ensures
        r.section@ == add_waiting_section(section@, description@),
        r.log_entry@ == "waiting added on [["@ + slug@ + "]] \u{2014} "@ + trim(description@),
{
    let d = trim_of(&chars_of(description));
    let mut bullet = chars_of("- ");
    push_all(&mut bullet, &d);
    let existing = trim_of(&chars_of(section));
    let new_section = if existing.len() == 0 || eq_exec(&existing, &chars_of(WAITING_ON_PLACEHOLDER)) {
        let mut r = bullet;
        push_all(&mut r, &chars_of("\n\n"));
        r
    } else {
        let mut r = existing;
        push_all(&mut r, &chars_of("\n"));
        push_all(&mut r, &bullet);
        push_all(&mut r, &chars_of("\n\n"));
        r
    };
    let mut log = chars_of("waiting added on [[");
    push_all(&mut log, &chars_of(slug));
    push_all(&mut log, &chars_of("]] \u{2014} "));
    push_all(&mut log, &d);
    SectionEdit { section: string_of(&new_section), log_entry: string_of(&log) }
}

/// Line `i` is a waiting-on bullet whose description holds the query,
/// case aside.
pub open spec fn waiting_match(lines: Seq<Seq<char>>, query: Seq<char>) -> spec_fn(int) -> bool {
    |i: int|
        (waiting_text(lines[i]) matches Some(t) && contains(
            unicode_lowercase(t),
            unicode_lowercase(trim(query)),
        ))
}

pub open spec fn pick_waiting(lines: Seq<Seq<char>>, query: Seq<char>) -> Pick {
    pick_of(indices_where(lines.len() as int, waiting_match(lines, query)))
}

/// Whether no line left is a bullet and every one is blank.
pub open spec fn all_blank(lines: Seq<Seq<char>>) -> bool {
    forall|k: int| 0 <= k < lines.len() ==> waiting_text(#[trigger] lines[k]) is None && trim(
        lines[k],
    ).len() == 0
}

/// The section once line `i` is removed; a section left with nothing but
/// blank lines gets the placeholder back.
pub open spec fn resolve_waiting_section(lines: Seq<Seq<char>>, i: int) -> Seq<char> {
    let kept = remove_at(lines, i);
    if all_blank(kept) {
        WAITING_ON_PLACEHOLDER@ + "\n\n"@
    } else {
        join(kept, "\n"@)
    }
}

/// The section and log line after `resolve_waiting_on`: the one bullet
/// the case-insensitive substring `query` names is removed.
pub fn resolve_waiting_on_in_section(section: &str, slug: &str, query: &str) -> (r: Result<
    SectionEdit,
    DomainError,
>)
    ensures
        ({
            let lines = split_char(section@, '\n');
            match pick_waiting(lines, query@) {
                Pick::One(i) => (r matches Ok(edit) && edit.section@ == resolve_waiting_section(
                    lines,
                    i,
                ) && edit.log_entry@ == "waiting resolved on [["@ + slug@ + "]] \u{2014} "@
                    + waiting_text_or_empty(lines[i])),
                Pick::NoMatch => (r matches Err(DomainError::WaitingOnNotFound { slug: s, query: q })
                    && s@ == slug@ && q@ == query@),
                Pick::Several(ix) => (r matches Err(
                    DomainError::AmbiguousWaitingOn { slug: s, query: q, candidates: c },
                ) && s@ == slug@ && q@ == query@ && string_views(c@) == ix.map_values(
                    |k: int| waiting_text_or_empty(lines[k]),
                )),
            }
        }),
{
    let s = chars_of(section);
    let lines = section_lines(&s);
    let ghost ls = views(lines@);
    let needle = lowercase_vec(&trim_of(&chars_of(query)));
    let mut flags: Vec<bool> = Vec::new();
    let mut i: usize = 0;
    while i < lines.len()
        invariant
            i <= lines@.len(),
            ls == views(lines@),
            flags@.len() == i,
            needle@ == unicode_lowercase(trim(query@)),
            forall|j: int| 0 <= j < i ==> flags@[j] == waiting_match(ls, query@)(j),
        decreases lines@.len() - i,
    {
        assert(ls[i as int] == lines@[i as int]@);
        match waiting_text_exec(&lines[i]) {
            Some(t) => {
                flags.push(contains_exec(&lowercase_vec(&t), &needle));
            },
            None => {
                flags.push(false);
            },
        }
        i = i + 1;
    }
    let ix = indices_of_true(&flags, Ghost(waiting_match(ls, query@)));
    assert(int_indices(ix@).len() == ix@.len());
    if ix.len() == 0 {
        return Err(
            DomainError::WaitingOnNotFound { slug: slug.to_owned(), query: query.to_owned() },
        );
    }
    if ix.len() > 1 {
        let mut candidates: Vec<String> = Vec::new();
        let mut k: usize = 0;
        while k < ix.len()
            invariant
                k <= ix@.len(),
                ls == views(lines@),
                forall|m: int| 0 <= m < ix@.len() ==> ix@[m] < lines@.len(),
                string_views(candidates@) == int_indices(ix@).take(k as int).map_values(
                    |j: int| waiting_text_or_empty(ls[j]),
                ),
            decreases ix@.len() - k,
        {
            let idx = ix[k];
            assert(ls[idx as int] == lines@[idx as int]@);
            let text = match waiting_text_exec(&lines[idx]) {
                Some(t) => string_of(&t),
                None => string_of(&Vec::new()),
            };
            assert(text@ == waiting_text_or_empty(ls[idx as int]));
            assert(int_indices(ix@)[k as int] == idx as int);
            let ghost old_c = string_views(candidates@);
            candidates.push(text);
            assert(string_views(candidates@) =~= old_c.push(text@));
            assert(string_views(candidates@) =~= int_indices(ix@).take(k + 1).map_values(
                |j: int| waiting_text_or_empty(ls[j]),
            ));
            k = k + 1;
        }
        assert(int_indices(ix@).take(ix@.len() as int) == int_indices(ix@));
        return Err(
            DomainError::AmbiguousWaitingOn {
                slug: slug.to_owned(),
                query: query.to_owned(),
                candidates,
            },
        );
    }
    let idx = ix[0];
    assert(int_indices(ix@)[0] == idx as int);
    assert(ls[idx as int] == lines@[idx as int]@);
    let removed = match waiting_text_exec(&lines[idx]) {
        Some(t) => t,
        None => Vec::new(),
    };
    let kept = remove_line(&lines, idx);
    let ghost kv = views(kept@);
    let mut blank = true;
    let mut k: usize = 0;
    while k < kept.len()
        invariant
            k <= kept@.len(),
            kv == views(kept@),
            blank == (forall|m: int|
                0 <= m < k ==> waiting_text(#[trigger] kv[m]) is None && trim(kv[m]).len() == 0),
        decreases kept@.len() - k,
    {
        assert(kv[k as int] == kept@[k as int]@);
        let is_blank = waiting_text_exec(&kept[k]).is_none() && trim_of(&kept[k]).len() == 0;
        if !is_blank {
            blank = false;
        }
        k = k + 1;
    }
    let new_section = if blank {
        let mut r = chars_of(WAITING_ON_PLACEHOLDER);
        push_all(&mut r, &chars_of("\n\n"));
        r
    } else {
        join_exec(&kept, &chars_of("\n"))
    };
    let mut log = chars_of("waiting resolved on [[");
    push_all(&mut log, &chars_of(slug));
    push_all(&mut log, &chars_of("]] \u{2014} "));
    push_all(&mut log, &removed);
    Ok(SectionEdit { section: string_of(&new_section), log_entry: string_of(&log) })
}

/// The characters of `trim(s)` are characters of `s`.
proof fn lemma_trim_within(s: Seq<char>, c: char)
    ensures
        has_char(trim(s), c) ==> has_char(s, c),
{
    crate::text::lemma_first_non_ws(s, 0);
    let u = trim_start(s);
    crate::text::lemma_end_non_ws(u, u.len() as int);
    if has_char(trim(s), c) {
        let i = choose|i: int| 0 <= i < trim(s).len() && trim(s)[i] == c;
        assert(trim(s)[i] == s[i + crate::text::first_non_ws(s, 0)]);
    }
}

/// The placeholder round-trips: adding an item to an empty section (or
/// one holding only the placeholder) and then resolving that item gives
/// the placeholder back. The item is a one-line description that does not
/// open with `[` (which would read as a checkbox).
pub proof fn lemma_waiting_round_trip(section: Seq<char>, description: Seq<char>)
    requires
        trim(section).len() == 0 || trim(section) == WAITING_ON_PLACEHOLDER@,
        trim(description).len() > 0,
        !has_char(description, '\n'),
        !starts_with(trim(description), "["@),
    ensures
        ({
            let lines = split_char(add_waiting_section(section, description), '\n');
            &&& pick_waiting(lines, description) == Pick::One(0)
            &&& resolve_waiting_section(lines, 0) == WAITING_ON_PLACEHOLDER@ + "\n\n"@
        }),
{
    reveal_strlit("- ");
    reveal_strlit("\n\n");
    reveal_strlit("- [");
    reveal_strlit("[");
    let t = trim(description);
    let b = "- "@ + t;
    let s2 = add_waiting_section(section, description);
    assert(s2 =~= b + seq!['\n', '\n']);
    lemma_trim_within(description, '\n');
    assert(!has_char(b, '\n')) by {
        assert forall|i: int| 0 <= i < b.len() implies b[i] != '\n' by {
            if i >= 2 {
                assert(b[i] == t[i - 2]);
            }
        }
    }
    // The lines: the bullet, then two empty ones.
    crate::text::lemma_find_char_from(s2, '\n', 0);
    assert(s2[b.len() as int] == '\n');
    assert(find_char_from(s2, '\n', 0) == Some(b.len() as int));
    assert(s2.take(b.len() as int) =~= b);
    let rest = s2.skip(b.len() as int + 1);
    assert(rest =~= seq!['\n']);
    assert(find_char_from(rest, '\n', 0) == Some(0int));
    assert(rest.take(0) =~= Seq::<char>::empty());
    assert(rest.skip(1) =~= Seq::<char>::empty());
    let e = Seq::<char>::empty();
    assert(split_char(e, '\n') == seq![e]);
    assert(split_char(rest, '\n') =~= seq![e, e]);
    let lines = split_char(s2, '\n');
    assert(lines =~= seq![b, e, e]);
    // The bullet reads back as the description; the empty lines as nothing.
    crate::text::lemma_trim_ends(description);
    crate::text::lemma_trim_no_ws_ends(t);
    assert(trim_start(b) =~= b) by {
        assert(crate::text::first_non_ws(b, 0) == 0);
    }
    assert(!starts_with(b, "- ["@)) by {
        if starts_with(b, "- ["@) {
            assert(b[2] == '[');
            assert(t[0] == '[');
            assert(t.take(1) =~= "["@);
        }
    }
    assert(strip_prefix(b, "- "@) == Some(t)) by {
        assert(b.take(2) =~= "- "@);
        assert(b.skip(2) =~= t);
    }
    assert(waiting_text(b) == Some(t));
    assert(trim_start(e) =~= e);
    assert(waiting_text(e) is None);
    let lt = unicode_lowercase(t);
    crate::text::lemma_find_from(lt, lt, 0);
    assert(crate::text::occurs_at(lt, lt, 0)) by {
        assert(lt.subrange(0, lt.len() as int) =~= lt);
    }
    let p = waiting_match(lines, description);
    assert(p(0));
    assert(!p(1) && !p(2));
    assert(indices_where(0, p) =~= Seq::<int>::empty());
    assert(indices_where(1, p) =~= seq![0int]);
    assert(indices_where(2, p) =~= seq![0int]);
    assert(indices_where(3, p) =~= seq![0int]);
    assert(trim(e) =~= e) by {
        assert(trim_start(e) =~= e);
    }
    assert(remove_at(lines, 0) =~= seq![e, e]);
}

} // verus!

//! Project maps: the pure rules behind the project operations. Each
//! function takes the text of a section (or of the whole note) and gives
//! back the rewritten text, the daily-log line, or the error the
//! operation reports.

use vstd::prelude::*;

use crate::error::DomainError;
use crate::text::{
    chars_of, indices_where, lemma_indices_where, split_char, split_char_exec, views, find_char_from, find_char_from_exec, find_from, find_from_exec, lemma_find_char_from,
    lemma_find_from, occurs_at, push_all, slice_of, starts_with, starts_with_exec, string_of, trim_start,
    trim_start_of,
};

pub mod actions;
pub mod milestones;
pub mod waiting;
pub mod state;
pub mod summary;
pub mod lifecycle;
pub mod core_question;
pub mod rewrite_law;
pub mod milestone_law;

verus! {

/// How a query resolves against the candidate lines of a section.
pub enum Pick {
    /// Exactly one line matches: its index.
    One(int),
    /// No line matches.
    NoMatch,
    /// Several lines match: their indices, in order.
    Several(Seq<int>),
}

/// The resolution given by the indices of the matching lines.
pub open spec fn pick_of(ix: Seq<int>) -> Pick {
    if ix.len() == 0 {
        Pick::NoMatch
    } else if ix.len() == 1 {
        Pick::One(ix[0])
    } else {
        Pick::Several(ix)
    }
}

/// Machine indices read as integers.
pub open spec fn int_indices(v: Seq<usize>) -> Seq<int> {
    v.map_values(|x: usize| x as int)
}

/// The indices of the `true` entries of `flags`, in order.
pub fn indices_of_true(flags: &Vec<bool>, Ghost(p): Ghost<spec_fn(int) -> bool>) -> (r: Vec<usize>)
    requires
        forall|i: int| 0 <= i < flags@.len() ==> flags@[i] == p(i),
    ensures
        int_indices(r@) == indices_where(flags@.len() as int, p),
        forall|k: int| 0 <= k < r@.len() ==> r@[k] < flags@.len(),
{
    let mut r: Vec<usize> = Vec::new();
    let mut i: usize = 0;
    while i < flags.len()
        invariant
            i <= flags@.len(),
            forall|j: int| 0 <= j < flags@.len() ==> flags@[j] == p(j),
            int_indices(r@) == indices_where(i as int, p),
            forall|k: int| 0 <= k < r@.len() ==> r@[k] < i,
        decreases flags@.len() - i,
    {
        if flags[i] {
            r.push(i);
            assert(int_indices(r@) =~= indices_where(i as int, p).push(i as int));
        }
        i = i + 1;
    }
    r
}

/// The lines of a section: its text split at every `'\n'`.
pub fn section_lines(s: &Vec<char>) -> (r: Vec<Vec<char>>)
    ensures
        views(r@) == split_char(s@, '\n'),
{
    let r = split_char_exec(s, '\n');
    assert(views(r@) =~= split_char(s@, '\n'));
    r
}

/// The line that opens a YAML frontmatter block.
pub open spec fn fm_open() -> Seq<char> {
    seq!['-', '-', '-', '\n']
}

/// The marker that closes a YAML frontmatter block: a newline followed
/// by three dashes.
pub open spec fn fm_close() -> Seq<char> {
    seq!['\n', '-', '-', '-']
}

/// Index of the newline that ends the frontmatter block of `raw`, when
/// `raw` opens with `---\n` and the marker `\n---` follows.
pub open spec fn frontmatter_close(raw: Seq<char>) -> Option<int> {
    if starts_with(raw, fm_open()) {
        find_from(raw, fm_close(), 4)
    } else {
        None
    }
}

/// End (exclusive) of the line of `s` that starts at `i`: just past the
/// next `'\n'`, or the end of `s`.
pub open spec fn line_end(s: Seq<char>, i: int) -> int {
    match find_char_from(s, '\n', i) {
        Some(k) => k + 1,
        None => s.len() as int,
    }
}

pub proof fn lemma_line_end(s: Seq<char>, i: int)
    requires
        0 <= i < s.len(),
    ensures
        i < line_end(s, i) <= s.len(),
        forall|m: int| i <= m < line_end(s, i) - 1 ==> s[m] != '\n',
        line_end(s, i) < s.len() ==> s[line_end(s, i) - 1] == '\n',
{
    lemma_find_char_from(s, '\n', i);
}

/// Whether a YAML line assigns `field` (`field:` or `field :` after the
/// indentation).
pub open spec fn is_field_line(line: Seq<char>, field: Seq<char>) -> bool {
    let t = trim_start(line);
    starts_with(t, field.push(':')) || starts_with(t, field.push(' ').push(':'))
}

/// The line that replaces an assignment of `field`.
pub open spec fn field_line(field: Seq<char>, value: Seq<char>) -> Seq<char> {
    field + seq![':', ' '] + value + seq!['\n']
}

/// The lines of `s` from index `i` on, each assignment of `field`
/// replaced by `field: value`, every other line kept as it is.
pub open spec fn rewrite_lines_from(s: Seq<char>, i: int, field: Seq<char>, value: Seq<char>) -> Seq<
    char,
>
    decreases s.len() - i,
{
    if i < 0 || i >= s.len() {
        Seq::empty()
    } else {
        proof {
            lemma_line_end(s, i);
        }
        let e = line_end(s, i);
        let line = s.subrange(i, e);
        (if is_field_line(line, field) {
            field_line(field, value)
        } else {
            line
        }) + rewrite_lines_from(s, e, field, value)
    }
}

/// Whether some line of `s` from index `i` on assigns `field`.
pub open spec fn has_field_from(s: Seq<char>, i: int, field: Seq<char>) -> bool
    decreases s.len() - i,
{
    if i < 0 || i >= s.len() {
        false
    } else {
        proof {
            lemma_line_end(s, i);
        }
        let e = line_end(s, i);
        is_field_line(s.subrange(i, e), field) || has_field_from(s, e, field)
    }
}

fn is_field_line_exec(line: &Vec<char>, compact: &Vec<char>, spaced: &Vec<char>) -> (b: bool)
    ensures
        b == (starts_with(trim_start(line@), compact@) || starts_with(trim_start(line@), spaced@)),
{
    let t = trim_start_of(line);
    starts_with_exec(&t, compact) || starts_with_exec(&t, spaced)
}

/// Rewrite the value of one field inside the YAML frontmatter of a note,
/// leaving every other line of the block and the whole body untouched.
///
/// The block must open the note with `---\n` and be closed by `\n---`;
/// the first closing marker after the opening line ends it. Every line
/// of the block that assigns `field` becomes `field: new_value`.
pub fn rewrite_field_in_frontmatter(raw: &str, field: &str, new_value: &str) -> (r: Result<
    String,
    DomainError,
>)
    ensures
        frontmatter_close(raw@) is None ==> (r matches Err(DomainError::MissingSection(s)) && s@
            == "frontmatter"@),
        frontmatter_close(raw@) matches Some(k) ==> {
            let yaml = raw@.subrange(4, k + 1);
            if has_field_from(yaml, 0, field@) {
                r matches Ok(s) && s@ == raw@.take(4) + rewrite_lines_from(
                    yaml,
                    0,
                    field@,
                    new_value@,
                ) + raw@.skip(k + 1)
            } else {
                r matches Err(DomainError::MissingFrontmatterField(f)) && f@ == field@
            }
        },
{
    let s = chars_of(raw);
    let open = vec!['-', '-', '-', '\n'];
    let close = vec!['\n', '-', '-', '-'];
    assert(open@ == fm_open());
    assert(close@ == fm_close());
    if !starts_with_exec(&s, &open) {
        return Err(DomainError::MissingSection("frontmatter"));
    }
    let k = match find_from_exec(&s, &close, 4) {
        Some(k) => k,
        None => {
            return Err(DomainError::MissingSection("frontmatter"));
        },
    };
    proof {
        lemma_find_from(s@, close@, 4);
        assert(occurs_at(s@, close@, k as int));
        assert(close@.len() == 4);
        assert(k + 4 <= s@.len());
    }
    let n = s.len();
    assert(k + 4 <= n);
    let yaml = slice_of(&s, 4, k + 1);
    let fchars = chars_of(field);
    let vchars = chars_of(new_value);
    let mut compact = fchars.clone();
    compact.push(':');
    let mut spaced = fchars.clone();
    spaced.push(' ');
    spaced.push(':');
    let mut out: Vec<char> = Vec::new();
    let mut found = false;
    let mut i: usize = 0;
    while i < yaml.len()
        invariant
            i <= yaml@.len(),
            compact@ == field@.push(':'),
            spaced@ == field@.push(' ').push(':'),
            fchars@ == field@,
            vchars@ == new_value@,
            out@ + rewrite_lines_from(yaml@, i as int, field@, new_value@) == rewrite_lines_from(
                yaml@,
                0,
                field@,
                new_value@,
            ),
            has_field_from(yaml@, 0, field@) == (found || has_field_from(yaml@, i as int, field@)),
        decreases yaml@.len() - i,
    {
        proof {
            lemma_line_end(yaml@, i as int);
        }
        let e = match find_char_from_exec(&yaml, '\n', i) {
            Some(k) => k + 1,
            None => yaml.len(),
        };
        let line = slice_of(&yaml, i, e);
        let old_out = Ghost(out@);
        if is_field_line_exec(&line, &compact, &spaced) {
            push_all(&mut out, &fchars);
            out.push(':');
            out.push(' ');
            push_all(&mut out, &vchars);
            out.push('\n');
            found = true;
            assert(out@ == old_out@ + field_line(field@, new_value@));
        } else {
            push_all(&mut out, &line);
        }
        i = e;
    }
    if !found {
        return Err(DomainError::MissingFrontmatterField(field.to_owned()));
    }
    let mut result = slice_of(&s, 0, 4);
    push_all(&mut result, &out);
    let tail = slice_of(&s, k + 1, s.len());
    push_all(&mut result, &tail);
    assert(s@.subrange(0, 4) == raw@.take(4));
    assert(s@.subrange(k + 1, s@.len() as int) == raw@.skip(k + 1));
    assert(out@ == rewrite_lines_from(yaml@, 0, field@, new_value@)) by {
        assert(rewrite_lines_from(yaml@, i as int, field@, new_value@) == Seq::<char>::empty());
    }
    Ok(string_of(&result))
}

} // verus!

//! Merging structured fields into the frontmatter block of a note, line by
//! line: a key the block already declares on a single line is replaced
//! where it stands, any other key is appended before the closing `---`,
//! and every other line survives byte for byte. Keys and values go through
//! the YAML emitter, never in as raw text.

use vstd::prelude::*;

use crate::error::DomainError;
use crate::set_frontmatter::{emit_yaml_str, trim_newlines, trim_newlines_exec, yaml_emit_str};
use crate::text::{
    chars_of, find, find_exec, keys_ascending, keys_distinct, has_char, has_char_exec, is_whitespace, is_ws, lemma_find_from,
    lines, lines_exec, push_all, slice_of, split_char, split_char_exec, starts_with,
    starts_with_exec, string_of, trim_end, trim_end_of, trim_start, trim_start_of,
    lemma_split_char_len,
};

verus! {

/// The shape of a JSON value, as far as its layout in a frontmatter block
/// goes.
#[derive(Debug, Clone, Copy, PartialEq, Eq)]
pub enum ValueShape {
    Scalar,
    /// A sequence of the given length.
    Sequence(usize),
    /// A mapping with the given number of entries.
    Mapping(usize),
}

/// A value to merge, as the YAML emitter rendered it: its document (or the
/// emitter's error message) and its shape.
pub struct EmittedValue {
    pub yaml: Result<String, String>,
    pub shape: ValueShape,
}

pub struct EmittedView {
    pub yaml: Result<Seq<char>, Seq<char>>,
    pub shape: ValueShape,
}

pub open spec fn emitted_view(v: EmittedValue) -> EmittedView {
    EmittedView {
        yaml: match v.yaml {
            Ok(t) => Ok(t@),
            Err(m) => Err(m@),
        },
        shape: v.shape,
    }
}

pub open spec fn field_views(fields: Seq<(String, EmittedValue)>) -> Seq<(Seq<char>, EmittedView)> {
    fields.map_values(|f: (String, EmittedValue)| (f.0@, emitted_view(f.1)))
}

/// A non-empty sequence or mapping, which is laid out as an indented block.
pub open spec fn is_nested(shape: ValueShape) -> bool {
    match shape {
        ValueShape::Scalar => false,
        ValueShape::Sequence(n) => n > 0,
        ValueShape::Mapping(n) => n > 0,
    }
}

/// Why a merge failed.
pub enum MergeFault {
    /// The note has no frontmatter block.
    NoFrontmatter,
    /// The key is declared with a value spanning several lines.
    Multiline(Seq<char>),
    /// The key or its value cannot be written as a frontmatter entry.
    Unrepresentable(Seq<char>, Seq<char>),
}

/// Whether `e` is the error that reports `f`.
pub open spec fn reports(e: DomainError, f: MergeFault) -> bool {
    match f {
        MergeFault::NoFrontmatter => e matches DomainError::MissingSection(s) && s@
            == "frontmatter"@,
        MergeFault::Multiline(k) => e matches DomainError::MultilineFrontmatterField(x) && x@ == k,
        MergeFault::Unrepresentable(k, m) => e matches DomainError::UnrepresentableFrontmatterValue {
            field,
            reason,
        } && field@ == k && reason@ == m,
    }
}

/// The part of a line before its first `:` (all of it when there is none).
pub open spec fn before_colon(line: Seq<char>) -> Seq<char> {
    split_char(line, ':')[0]
}

/// A key without one pair of surrounding double or single quotes.
pub open spec fn unquote(key: Seq<char>) -> Seq<char> {
    if key.len() >= 2 && key[0] == '"' && key.last() == '"' {
        key.subrange(1, key.len() - 1)
    } else if key.len() >= 2 && key[0] == '\'' && key.last() == '\'' {
        key.subrange(1, key.len() - 1)
    } else {
        key
    }
}

pub open spec fn has_ws(s: Seq<char>) -> bool {
    exists|i: int| 0 <= i < s.len() && is_ws(#[trigger] s[i])
}

/// The top-level key a frontmatter line declares: none for an indented
/// line, a line without `:`, or a key that is empty or holds whitespace
/// once one pair of quotes is removed.
pub open spec fn declared_key(line: Seq<char>) -> Option<Seq<char>> {
    if line.len() > 0 && is_ws(line[0]) {
        None
    } else {
        let k = unquote(trim_end(before_colon(line)));
        if k.len() == 0 || has_ws(k) || !has_char(line, ':') {
            None
        } else {
            Some(k)
        }
    }
}

fn has_ws_exec(s: &Vec<char>) -> (b: bool)
    ensures
        b == has_ws(s@),
{
    let mut i: usize = 0;
    while i < s.len()
        invariant
            i <= s@.len(),
            forall|j: int| 0 <= j < i ==> !is_ws(#[trigger] s@[j]),
        decreases s@.len() - i,
    {
        if is_whitespace(s[i]) {
            return true;
        }
        i = i + 1;
    }
    false
}

/// The key a frontmatter line declares, if any.
pub fn declared_key_exec(line: &Vec<char>) -> (r: Option<Vec<char>>)
    ensures
        match declared_key(line@) {
            Some(k) => r matches Some(v) && v@ == k,
            None => r is None,
        },
{
    if line.len() > 0 && is_whitespace(line[0]) {
        return None;
    }
    let parts = split_char_exec(line, ':');
    proof {
        lemma_split_char_len(line@, ':');
    }
    let key = trim_end_of(&parts[0]);
    let n = key.len();
    let k = if n >= 2 && key[0] == '"' && key[n - 1] == '"' {
        slice_of(&key, 1, n - 1)
    } else if n >= 2 && key[0] == '\'' && key[n - 1] == '\'' {
        slice_of(&key, 1, n - 1)
    } else {
        key
    };
    if k.len() == 0 || has_ws_exec(&k) || !has_char_exec(line, ':') {
        None
    } else {
        Some(k)
    }
}

/// Whether the line after a key belongs to that key's value: it is not
/// blank, and it is indented or a list item.
pub open spec fn continues(next: Option<Seq<char>>) -> bool {
    match next {
        Some(n) => {
            let t = trim_start(n);
            t.len() > 0 && ((n.len() > 0 && is_ws(n[0])) || starts_with(t, "- "@))
        },
        None => false,
    }
}

pub fn continues_onto_next_line(next: Option<&Vec<char>>) -> (b: bool)
    ensures
        b == continues(
            match next {
                Some(n) => Some(n@),
                None => None,
            },
        ),
{
    match next {
        Some(n) => {
            let t = trim_start_of(n);
            t.len() > 0 && ((n.len() > 0 && is_whitespace(n[0])) || starts_with_exec(
                &t,
                &chars_of("- "),
            ))
        },
        None => false,
    }
}

/// Whether `s` holds a character YAML reads as a line break.
pub open spec fn has_line_break(s: Seq<char>) -> bool {
    has_char(s, '\n') || has_char(s, '\r') || has_char(s, '\u{2028}') || has_char(s, '\u{2029}')
}

/// `s` with every `'\n'` replaced by `nl`.
pub open spec fn with_newline(s: Seq<char>, nl: Seq<char>) -> Seq<char>
    decreases s.len(),
{
    if s.len() == 0 {
        Seq::empty()
    } else {
        with_newline(s.drop_last(), nl) + if s.last() == '\n' {
            nl
        } else {
            seq![s.last()]
        }
    }
}

/// The lines of a nested value, indented by two spaces, each ended by `nl`
/// (an empty line is just `nl`).
pub open spec fn indented(ls: Seq<Seq<char>>, nl: Seq<char>) -> Seq<char>
    decreases ls.len(),
{
    if ls.len() == 0 {
        Seq::empty()
    } else {
        indented(ls.drop_last(), nl) + if ls.last().len() == 0 {
            nl
        } else {
            "  "@ + ls.last() + nl
        }
    }
}

/// One `key: value` entry ended by `nl`, or an indented block under
/// `key:` for a non-empty sequence or mapping.
pub open spec fn render_entry(key: Seq<char>, v: EmittedView, nl: Seq<char>) -> Result<
    Seq<char>,
    MergeFault,
> {
    match yaml_emit_str(key) {
        Err(m) => Err(MergeFault::Unrepresentable(key, m)),
        Ok(doc) => {
            let ks = trim_end(doc);
            if has_line_break(ks) {
                Err(
                    MergeFault::Unrepresentable(
                        key,
                        "a frontmatter key cannot contain a line break"@,
                    ),
                )
            } else {
                match v.yaml {
                    Err(m) => Err(MergeFault::Unrepresentable(key, m)),
                    Ok(y0) => {
                        let y = if nl == "\n"@ {
                            trim_newlines(y0)
                        } else {
                            with_newline(trim_newlines(y0), nl)
                        };
                        if !is_nested(v.shape) {
                            Ok(ks + ": "@ + y + nl)
                        } else {
                            Ok(ks + ":"@ + nl + indented(lines(y), nl))
                        }
                    },
                }
            }
        },
    }
}

fn with_newline_exec(s: &Vec<char>, nl: &Vec<char>) -> (r: Vec<char>)
    ensures
        r@ == with_newline(s@, nl@),
{
    let mut out: Vec<char> = Vec::new();
    let mut i: usize = 0;
    while i < s.len()
        invariant
            i <= s@.len(),
            out@ == with_newline(s@.take(i as int), nl@),
        decreases s@.len() - i,
    {
        assert(s@.take(i + 1).drop_last() =~= s@.take(i as int));
        if s[i] == '\n' {
            push_all(&mut out, nl);
        } else {
            out.push(s[i]);
        }
        i = i + 1;
    }
    assert(s@.take(s@.len() as int) =~= s@);
    out
}

fn indented_exec(ls: &Vec<Vec<char>>, nl: &Vec<char>) -> (r: Vec<char>)
    ensures
        r@ == indented(crate::text::views(ls@), nl@),
{
    let ghost v = crate::text::views(ls@);
    let mut out: Vec<char> = Vec::new();
    let mut i: usize = 0;
    while i < ls.len()
        invariant
            i <= ls@.len(),
            v == crate::text::views(ls@),
            out@ == indented(v.take(i as int), nl@),
        decreases ls@.len() - i,
    {
        assert(v.take(i + 1).drop_last() =~= v.take(i as int));
        assert(v[i as int] == ls@[i as int]@);
        if ls[i].len() == 0 {
            push_all(&mut out, nl);
        } else {
            push_all(&mut out, &chars_of("  "));
            push_all(&mut out, &ls[i]);
            push_all(&mut out, nl);
        }
        i = i + 1;
    }
    assert(v.take(v.len() as int) =~= v);
    out
}

fn has_line_break_exec(s: &Vec<char>) -> (b: bool)
    ensures
        b == has_line_break(s@),
{
    has_char_exec(s, '\n') || has_char_exec(s, '\r') || has_char_exec(s, '\u{2028}')
        || has_char_exec(s, '\u{2029}')
}

/// Render one frontmatter entry for `key`, ended by `newline`.
pub fn render_field(key: &str, value: &EmittedValue, newline: &Vec<char>) -> (r: Result<
    Vec<char>,
    DomainError,
>)
    ensures
        match render_entry(key@, emitted_view(*value), newline@) {
            Ok(t) => r matches Ok(x) && x@ == t,
            Err(f) => r matches Err(e) && reports(e, f),
        },
{
    let doc = match emit_yaml_str(key) {
        Err(m) => {
            return Err(
                DomainError::UnrepresentableFrontmatterValue { field: key.to_owned(), reason: m },
            );
        },
        Ok(d) => d,
    };
    let ks = trim_end_of(&chars_of(doc.as_str()));
    if has_line_break_exec(&ks) {
        return Err(
            DomainError::UnrepresentableFrontmatterValue {
                field: key.to_owned(),
                reason: "a frontmatter key cannot contain a line break".to_owned(),
            },
        );
    }
    let y0 = match &value.yaml {
        Err(m) => {
            return Err(
                DomainError::UnrepresentableFrontmatterValue {
                    field: key.to_owned(),
                    reason: string_of(&chars_of(m.as_str())),
                },
            );
        },
        Ok(t) => chars_of(t.as_str()),
    };
    let trimmed = trim_newlines_exec(&y0);
    let y = if crate::text::eq_exec(newline, &chars_of("\n")) {
        trimmed
    } else {
        with_newline_exec(&trimmed, newline)
    };
    let nested = match value.shape {
        ValueShape::Scalar => false,
        ValueShape::Sequence(n) => n > 0,
        ValueShape::Mapping(n) => n > 0,
    };
    let mut out = ks;
    if !nested {
        push_all(&mut out, &chars_of(": "));
        push_all(&mut out, &y);
        push_all(&mut out, newline);
    } else {
        push_all(&mut out, &chars_of(":"));
        push_all(&mut out, newline);
        let ls = lines_exec(&y);
        assert(crate::text::views(ls@) =~= lines(y@));
        push_all(&mut out, &indented_exec(&ls, newline));
    }
    Ok(out)
}

/// `str::split_inclusive('\n')`: the lines of `s`, each keeping its `'\n'`.
pub open spec fn inclusive_lines(s: Seq<char>) -> Seq<Seq<char>> {
    let p = split_char(s, '\n');
    let n = p.len();
    Seq::new((n - 1) as nat, |i: int| p[i].push('\n')) + if p[n - 1].len() > 0 {
        seq![p[n - 1]]
    } else {
        Seq::<Seq<char>>::empty()
    }
}

fn inclusive_lines_exec(s: &Vec<char>) -> (r: Vec<Vec<char>>)
    ensures
        crate::text::views(r@) == inclusive_lines(s@),
{
    let pieces = split_char_exec(s, '\n');
    proof {
        lemma_split_char_len(s@, '\n');
    }
    let ghost p = split_char(s@, '\n');
    let n = pieces.len();
    let mut out: Vec<Vec<char>> = Vec::new();
    let mut i: usize = 0;
    while i + 1 < n
        invariant
            n == p.len(),
            n >= 1,
            i < n,
            pieces@.len() == n,
            forall|k: int| 0 <= k < n ==> #[trigger] pieces@[k]@ == p[k],
            out@.len() == i,
            forall|k: int| 0 <= k < i ==> #[trigger] out@[k]@ == p[k].push('\n'),
        decreases n - i,
    {
        let mut piece = pieces[i].clone();
        assert(piece@ == p[i as int]);
        piece.push('\n');
        out.push(piece);
        i = i + 1;
    }
    if pieces[n - 1].len() > 0 {
        out.push(pieces[n - 1].clone());
    }
    assert(crate::text::views(out@) =~= inclusive_lines(s@));
    out
}

/// Index of the first field whose key is `k`, searching from `j`.
pub open spec fn find_field(fields: Seq<(Seq<char>, EmittedView)>, k: Seq<char>, j: int) -> Option<
    int,
>
    decreases fields.len() - j,
{
    if j < 0 || j >= fields.len() {
        None
    } else if fields[j].0 == k {
        Some(j)
    } else {
        find_field(fields, k, j + 1)
    }
}

/// The field a line is replaced by, if it declares one of the keys.
pub open spec fn line_field(fields: Seq<(Seq<char>, EmittedView)>, line: Seq<char>) -> Option<int> {
    match declared_key(line) {
        Some(k) => find_field(fields, k, 0),
        None => None,
    }
}

/// The block after its first `n` lines have been visited: each line kept,
/// or replaced by the rendering of the field its key names.
pub open spec fn replace_pass(
    ls: Seq<Seq<char>>,
    fields: Seq<(Seq<char>, EmittedView)>,
    nl: Seq<char>,
    n: int,
) -> Result<Seq<char>, MergeFault>
    decreases n,
{
    if n <= 0 {
        Ok(Seq::empty())
    } else {
        match replace_pass(ls, fields, nl, n - 1) {
            Err(f) => Err(f),
            Ok(acc) => match line_field(fields, ls[n - 1]) {
                None => Ok(acc + ls[n - 1]),
                Some(j) => if continues(
                    if n < ls.len() {
                        Some(ls[n])
                    } else {
                        None
                    },
                ) {
                    Err(MergeFault::Multiline(fields[j].0))
                } else {
                    match render_entry(fields[j].0, fields[j].1, nl) {
                        Err(f) => Err(f),
                        Ok(t) => Ok(acc + t),
                    }
                },
            },
        }
    }
}

/// Whether some line of the block declares `k`.
pub open spec fn declared_in(ls: Seq<Seq<char>>, k: Seq<char>) -> bool {
    exists|i: int| 0 <= i < ls.len() && declared_key(#[trigger] ls[i]) == Some(k)
}

/// The entries appended after the block's own lines, for the first `m`
/// fields: those no line declares, in field order.
pub open spec fn append_pass(
    ls: Seq<Seq<char>>,
    fields: Seq<(Seq<char>, EmittedView)>,
    nl: Seq<char>,
    m: int,
) -> Result<Seq<char>, MergeFault>
    decreases m,
{
    if m <= 0 {
        Ok(Seq::empty())
    } else {
        match append_pass(ls, fields, nl, m - 1) {
            Err(f) => Err(f),
            Ok(acc) => if declared_in(ls, fields[m - 1].0) {
                Ok(acc)
            } else {
                match render_entry(fields[m - 1].0, fields[m - 1].1, nl) {
                    Err(f) => Err(f),
                    Ok(t) => Ok(acc + t),
                }
            },
        }
    }
}

/// Where the frontmatter opens, and the line ending it uses.
pub open spec fn opening(raw: Seq<char>) -> Option<(int, Seq<char>)> {
    if starts_with(raw, "---\r\n"@) {
        Some((5, "\r\n"@))
    } else if starts_with(raw, "---\n"@) {
        Some((4, "\n"@))
    } else {
        None
    }
}

/// `raw` with `fields` merged into its frontmatter block.
pub open spec fn merged(raw: Seq<char>, fields: Seq<(Seq<char>, EmittedView)>) -> Result<
    Seq<char>,
    MergeFault,
> {
    if fields.len() == 0 {
        Ok(raw)
    } else {
        match opening(raw) {
            None => Err(MergeFault::NoFrontmatter),
            Some((o, nl)) => match find(raw.skip(o), "\n---"@) {
                None => Err(MergeFault::NoFrontmatter),
                Some(off) => {
                    let end = o + off + 1;
                    let ls = inclusive_lines(raw.subrange(o, end));
                    match replace_pass(ls, fields, nl, ls.len() as int) {
                        Err(f) => Err(f),
                        Ok(kept) => match append_pass(ls, fields, nl, fields.len() as int) {
                            Err(f) => Err(f),
                            Ok(added) => Ok(raw.take(o) + kept + added + raw.skip(end)),
                        },
                    }
                },
            },
        }
    }
}

proof fn lemma_replace_pass_err(
    ls: Seq<Seq<char>>,
    fields: Seq<(Seq<char>, EmittedView)>,
    nl: Seq<char>,
    a: int,
    b: int,
)
    requires
        0 <= a <= b,
        replace_pass(ls, fields, nl, a) is Err,
    ensures
        replace_pass(ls, fields, nl, b) == replace_pass(ls, fields, nl, a),
    decreases b - a,
{
    if a < b {
        lemma_replace_pass_err(ls, fields, nl, a, b - 1);
    }
}

proof fn lemma_append_pass_err(
    ls: Seq<Seq<char>>,
    fields: Seq<(Seq<char>, EmittedView)>,
    nl: Seq<char>,
    a: int,
    b: int,
)
    requires
        0 <= a <= b,
        append_pass(ls, fields, nl, a) is Err,
    ensures
        append_pass(ls, fields, nl, b) == append_pass(ls, fields, nl, a),
    decreases b - a,
{
    if a < b {
        lemma_append_pass_err(ls, fields, nl, a, b - 1);
    }
}

fn find_field_exec(fields: &Vec<(String, EmittedValue)>, k: &Vec<char>) -> (r: Option<usize>)
    ensures
        r matches Some(j) ==> j < fields@.len(),
        match r {
            Some(j) => find_field(field_views(fields@), k@, 0) == Some(j as int),
            None => find_field(field_views(fields@), k@, 0) is None,
        },
{
    let ghost fv = field_views(fields@);
    let mut j: usize = 0;
    while j < fields.len()
        invariant
            j <= fields@.len(),
            fv == field_views(fields@),
            find_field(fv, k@, 0) == find_field(fv, k@, j as int),
        decreases fields@.len() - j,
    {
        assert(fv[j as int].0 == fields@[j as int].0@);
        if crate::text::eq_exec(&chars_of(fields[j].0.as_str()), k) {
            return Some(j);
        }
        j = j + 1;
    }
    None
}

fn declared_in_exec(ls: &Vec<Vec<char>>, k: &Vec<char>) -> (b: bool)
    ensures
        b == declared_in(crate::text::views(ls@), k@),
{
    let ghost v = crate::text::views(ls@);
    let mut i: usize = 0;
    while i < ls.len()
        invariant
            i <= ls@.len(),
            v == crate::text::views(ls@),
            forall|j: int| 0 <= j < i ==> declared_key(#[trigger] v[j]) != Some(k@),
        decreases ls@.len() - i,
    {
        assert(v[i as int] == ls@[i as int]@);
        match declared_key_exec(&ls[i]) {
            Some(d) => {
                if crate::text::eq_exec(&d, k) {
                    return true;
                }
            },
            None => {},
        }
        i = i + 1;
    }
    false
}

/// Merge `fields` (each key with its emitted value, in the order they are
/// appended) into the frontmatter block of `raw`.
pub fn merge_fields_into_frontmatter(raw: &str, fields: &Vec<(String, EmittedValue)>) -> (r: Result<
    String,
    DomainError,
>)
    ensures
        match merged(raw@, field_views(fields@)) {
            Ok(t) => r matches Ok(x) && x@ == t,
            Err(f) => r matches Err(e) && reports(e, f),
        },
{
    let ghost fv = field_views(fields@);
    if fields.len() == 0 {
        return Ok(string_of(&chars_of(raw)));
    }
    let s = chars_of(raw);
    proof {
        reveal_strlit("---\r\n");
        reveal_strlit("---\n");
        reveal_strlit("\n---");
    }
    let (o, nl): (usize, Vec<char>) = if starts_with_exec(&s, &chars_of("---\r\n")) {
        (5, chars_of("\r\n"))
    } else if starts_with_exec(&s, &chars_of("---\n")) {
        (4, chars_of("\n"))
    } else {
        return Err(DomainError::MissingSection("frontmatter"));
    };
    let rest = slice_of(&s, o, s.len());
    assert(rest@ =~= s@.skip(o as int));
    let off = match find_exec(&rest, &chars_of("\n---")) {
        None => {
            return Err(DomainError::MissingSection("frontmatter"));
        },
        Some(off) => off,
    };
    proof {
        crate::text::lemma_find_from(rest@, "\n---"@, 0);
    }
    let end = o + off + 1;
    let yaml = slice_of(&s, o, end);
    assert(yaml@ =~= raw@.subrange(o as int, end as int));
    let ls = inclusive_lines_exec(&yaml);
    let ghost lv = crate::text::views(ls@);
    let mut kept: Vec<char> = Vec::new();
    let mut i: usize = 0;
    while i < ls.len()
        invariant
            i <= ls@.len(),
            lv == crate::text::views(ls@),
            fv == field_views(fields@),
            s@ == raw@,
            fields@.len() > 0,
            opening(raw@) == Some((o as int, nl@)),
            find(raw@.skip(o as int), "\n---"@) == Some(off as int),
            end == o + off + 1,
            end <= raw@.len(),
            lv == inclusive_lines(raw@.subrange(o as int, end as int)),
            replace_pass(lv, fv, nl@, i as int) == Ok::<Seq<char>, MergeFault>(kept@),
        decreases ls@.len() - i,
    {
        assert(lv[i as int] == ls@[i as int]@);
        let dk = declared_key_exec(&ls[i]);
        let found = match &dk {
            Some(k) => find_field_exec(fields, k),
            None => None,
        };
        assert(match dk {
            Some(k) => declared_key(lv[i as int]) == Some(k@),
            None => declared_key(lv[i as int]) is None,
        });
        assert(match found {
            Some(j) => line_field(fv, lv[i as int]) == Some(j as int),
            None => line_field(fv, lv[i as int]) is None,
        });
        match found {
            None => {
                push_all(&mut kept, &ls[i]);
            },
            Some(j) => {
                let next = if i + 1 < ls.len() {
                    Some(&ls[i + 1])
                } else {
                    None
                };
                proof {
                    if i + 1 < ls@.len() {
                        assert(lv[i + 1] == ls@[i + 1]@);
                    }
                }
                assert(fv[j as int].0 == fields@[j as int].0@);
                let ghost nv: Option<Seq<char>> = if i + 1 < lv.len() {
                    Some(lv[i + 1])
                } else {
                    None
                };
                assert(nv == match next {
                    Some(n) => Some(n@),
                    None => None::<Seq<char>>,
                });
                if continues_onto_next_line(next) {
                    assert(replace_pass(lv, fv, nl@, i + 1) == Err::<Seq<char>, MergeFault>(
                        MergeFault::Multiline(fv[j as int].0),
                    ));
                    proof {
                        lemma_replace_pass_err(lv, fv, nl@, i + 1, lv.len() as int);
                    }
                    return Err(DomainError::MultilineFrontmatterField(string_of(&chars_of(fields[j].0.as_str()))));
                }
                let t = match render_field(fields[j].0.as_str(), &fields[j].1, &nl) {
                    Err(e) => {
                        proof {
                            lemma_replace_pass_err(lv, fv, nl@, i + 1, lv.len() as int);
                        }
                        return Err(e);
                    },
                    Ok(t) => t,
                };
                push_all(&mut kept, &t);
            },
        }
        i = i + 1;
    }
    let mut added: Vec<char> = Vec::new();
    let mut m: usize = 0;
    while m < fields.len()
        invariant
            m <= fields@.len(),
            lv == crate::text::views(ls@),
            fv == field_views(fields@),
            s@ == raw@,
            fields@.len() > 0,
            opening(raw@) == Some((o as int, nl@)),
            find(raw@.skip(o as int), "\n---"@) == Some(off as int),
            end == o + off + 1,
            end <= raw@.len(),
            lv == inclusive_lines(raw@.subrange(o as int, end as int)),
            replace_pass(lv, fv, nl@, lv.len() as int) == Ok::<Seq<char>, MergeFault>(kept@),
            append_pass(lv, fv, nl@, m as int) == Ok::<Seq<char>, MergeFault>(added@),
        decreases fields@.len() - m,
    {
        assert(fv[m as int].0 == fields@[m as int].0@);
        if !declared_in_exec(&ls, &chars_of(fields[m].0.as_str())) {
            let t = match render_field(fields[m].0.as_str(), &fields[m].1, &nl) {
                Err(e) => {
                    proof {
                        lemma_append_pass_err(lv, fv, nl@, m + 1, fv.len() as int);
                    }
                    return Err(e);
                },
                Ok(t) => t,
            };
            push_all(&mut added, &t);
        }
        m = m + 1;
    }
    let mut out = slice_of(&s, 0, o);
    push_all(&mut out, &kept);
    push_all(&mut out, &added);
    push_all(&mut out, &slice_of(&s, end, s.len()));
    Ok(string_of(&out))
}

/// A JSON value as the library holds one. A number is kept as its JSON
/// text, so that a fraction needs no float; an object lists its entries
/// with distinct keys.
#[derive(Debug)]
pub enum JsonValue {
    Null,
    Bool(bool),
    Number(String),
    String(String),
    Array(Vec<JsonValue>),
    Object(Vec<(String, JsonValue)>),
}

/// The shape of a JSON value: the length of an array, the number of
/// entries of an object, and scalar for the rest.
pub open spec fn json_shape_of(v: JsonValue) -> ValueShape {
    match v {
        JsonValue::Array(a) => ValueShape::Sequence(a@.len() as usize),
        JsonValue::Object(o) => ValueShape::Mapping(o@.len() as usize),
        _ => ValueShape::Scalar,
    }
}

/// An object's keys are distinct (vacuous for any other value).
pub open spec fn object_keys_distinct(v: JsonValue) -> bool {
    match v {
        JsonValue::Object(o) => keys_distinct(o@),
        _ => true,
    }
}

/// The shape of `v`, as the merge lays it out.
pub fn json_shape(v: &JsonValue) -> (r: ValueShape)
    ensures
        r == json_shape_of(*v),
{
    match v {
        JsonValue::Array(a) => ValueShape::Sequence(a.len()),
        JsonValue::Object(o) => ValueShape::Mapping(o.len()),
        _ => ValueShape::Scalar,
    }
}

/// The YAML document `serde_yaml::to_string` emits for the
/// `serde_json::Value` that a JSON value spells out, or the text of the
/// error (of the emitter, or of `serde_json` refusing a number's text).
pub uninterp spec fn yaml_emit_json(v: JsonValue) -> Result<Seq<char>, Seq<char>>;

/// A textual result taken by its views.
pub open spec fn text_result(r: Result<String, String>) -> Result<Seq<char>, Seq<char>> {
    match r {
        Ok(t) => Ok(t@),
        Err(m) => Err(m@),
    }
}

/// A JSON value of `serde_json`, carried from the conversion to the emitter.
#[verifier::external_type_specification]
#[verifier::external_body]
pub struct ExJsonValue(serde_json::Value);

/// The `serde_json::Value` that `v` spells out, variant for variant; a
/// number's text goes through `serde_json::Number`'s `FromStr`, whose error
/// is passed on as text. Used only by [`emit_yaml_json`]; nothing is claimed
/// of it.
#[verifier::external_body]
fn serde_value_of(v: &JsonValue) -> Result<serde_json::Value, String> {
    Ok(match v {
        JsonValue::Null => serde_json::Value::Null,
        JsonValue::Bool(b) => serde_json::Value::Bool(*b),
        JsonValue::Number(t) => serde_json::Value::Number(t.parse().map_err(|e: serde_json::Error| e.to_string())?),
        JsonValue::String(s) => serde_json::Value::String(s.clone()),
        JsonValue::Array(a) => serde_json::Value::Array(a.iter().map(serde_value_of).collect::<Result<_, _>>()?),
        JsonValue::Object(o) => serde_json::Value::Object(o.iter().map(|(k, x)| serde_value_of(x).map(|y| (k.clone(), y))).collect::<Result<_, _>>()?),
    })
}

/// `serde_yaml::to_string` on the `serde_json::Value` that `v` spells out:
/// the contract names the emitted document (or the error's text) as a
/// function of `v` and claims nothing else of it.
#[verifier::external_body]
fn emit_yaml_json(v: &JsonValue) -> (r: Result<String, String>)
    ensures
        text_result(r) == yaml_emit_json(*v),
{
    serde_yaml::to_string(&serde_value_of(v)?).map_err(|e| e.to_string())
}

/// Run each value through the YAML emitter, keeping the keys and their
/// order, ready for [`merge_fields_into_frontmatter`]: each field's
/// document is what the emitter gives for its own value, and its shape
/// that value's shape. The fields are a JSON object's entries, in its
/// sorted key order.
pub fn emit_fields(fields: &Vec<(String, JsonValue)>) -> (r: Vec<(String, EmittedValue)>)
    requires
        keys_ascending(fields@),
        forall|k: int| 0 <= k < fields@.len() ==> object_keys_distinct(#[trigger] fields@[k].1),
    ensures
        r@.len() == fields@.len(),
        forall|k: int|
            0 <= k < r@.len() ==> (#[trigger] r@[k]).0@ == fields@[k].0@ && text_result(r@[k].1.yaml)
                == yaml_emit_json(fields@[k].1) && r@[k].1.shape == json_shape_of(fields@[k].1),
{
    let mut out: Vec<(String, EmittedValue)> = Vec::new();
    let mut i: usize = 0;
    while i < fields.len()
        invariant
            i <= fields@.len(),
            out@.len() == i,
            forall|k: int|
                0 <= k < i ==> (#[trigger] out@[k]).0@ == fields@[k].0@ && text_result(out@[k].1.yaml)
                    == yaml_emit_json(fields@[k].1) && out@[k].1.shape == json_shape_of(fields@[k].1),
        decreases fields@.len() - i,
    {
        let key = string_of(&chars_of(fields[i].0.as_str()));
        let value = EmittedValue { yaml: emit_yaml_json(&fields[i].1), shape: json_shape(&fields[i].1) };
        out.push((key, value));
        i = i + 1;
    }
    out
}

/// The frontmatter merge and the normaliser agree on what counts as a
/// top-level key, with one difference: the merge unwraps one pair of
/// quotes around a key (and so sees no key where only the quotes were).
pub proof fn lemma_declared_key_agrees(line: Seq<char>)
    ensures
        declared_key(line) == match crate::normalise::top_level_key(line) {
            Some(k) => if unquote(k).len() > 0 {
                Some(unquote(k))
            } else {
                None
            },
            None => None,
        },
{
    crate::text::lemma_find_char_from(line, ':', 0);
    let before = before_colon(line);
    match crate::text::find_char_from(line, ':', 0) {
        Some(i) => {
            assert(split_char(line, ':')[0] == line.take(i));
            assert(has_char(line, ':'));
        },
        None => {
            assert(split_char(line, ':')[0] == line);
            if has_char(line, ':') {
                let j = choose|j: int| 0 <= j < line.len() && line[j] == ':';
                assert(line[j] != ':');
            }
        },
    }
    let key = trim_end(before);
    let k = unquote(key);
    // Dropping a pair of quotes keeps every other character of the key.
    assert(forall|x: int| 0 <= x < k.len() ==> #[trigger] k[x] == key[x + (key.len() - k.len()) / 2]);
    if has_ws(k) {
        let x = choose|x: int| 0 <= x < k.len() && is_ws(#[trigger] k[x]);
        assert(is_ws(key[x + (key.len() - k.len()) / 2]));
        assert(has_ws(key));
    }
    // A space in the key is never one of the quotes, so it survives.
    if exists|x: int| 0 <= x < key.len() && is_ws(#[trigger] key[x]) {
        let x = choose|x: int| 0 <= x < key.len() && is_ws(#[trigger] key[x]);
        if k.len() < key.len() {
            assert(x != 0 && x != key.len() - 1);
            assert(k[x - 1] == key[x]);
        } else {
            assert(k[x] == key[x]);
        }
        assert(has_ws(k));
    }
}

} // verus!

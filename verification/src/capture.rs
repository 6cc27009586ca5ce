//! The inbox: quick captures filed at `inbox/<YYYY-MM-DD>-<slug>.md`,
//! listed oldest first for triage and discarded once routed.

use vstd::prelude::*;

use crate::date::{format_ymd_chars, ymd_text, Date};
use crate::error::DomainError;
use crate::portfolios::{path_lt, path_lt_exec};
use crate::projects::state::{flatten_for_log, flatten_spec};
use crate::slug::{slugify, slugify_spec};
use crate::stewardships::{file_name, file_name_of, file_stem, file_stem_of};
use crate::text::{
    chars_of, decimal, decimal_u64, eq_exec, pad2, pad2_exec, push_all, string_of, string_views,
    trim, trim_of,
};

verus! {

/// Past this many same-day captures with the same leading words, a
/// capture is refused rather than numbered further.
pub const COLLISION_LIMIT: u32 = 100;

/// One capture awaiting triage.
#[derive(Debug, Clone, PartialEq, Eq)]
pub struct InboxItem {
    /// File stem (`<YYYY-MM-DD>-<slug>`), the handle for discarding it.
    pub slug: String,
    /// The captured text, trimmed.
    pub text: String,
}

/// `inbox/<YYYY-MM-DD>-<slug of text>`: the stem shared by the candidate
/// paths of a capture.
pub open spec fn inbox_base(date: Date, text: Seq<char>) -> Seq<char> {
    "inbox/"@ + ymd_text(date) + "-"@ + slugify_spec(text)
}

/// The `n`th candidate path of a capture: `<base>.md`, then
/// `<base>-2.md`, `<base>-3.md`, and so on.
pub open spec fn inbox_candidate(base: Seq<char>, n: nat) -> Seq<char> {
    if n <= 1 {
        base + ".md"@
    } else {
        base + "-"@ + decimal(n) + ".md"@
    }
}

fn inbox_candidate_exec(base: &Vec<char>, n: u32) -> (r: Vec<char>)
    ensures
        r@ == inbox_candidate(base@, n as nat),
{
    let mut v = base.clone();
    if n > 1 {
        push_all(&mut v, &chars_of("-"));
        push_all(&mut v, &decimal_u64(n as u64));
    }
    push_all(&mut v, &chars_of(".md"));
    v
}

/// Whether `p` is one of the paths in `taken`.
pub open spec fn is_taken(taken: Seq<String>, p: Seq<char>) -> bool {
    exists|i: int| 0 <= i < taken.len() && (#[trigger] taken[i])@ == p
}

fn is_taken_exec(taken: &Vec<String>, p: &Vec<char>) -> (b: bool)
    ensures
        b == is_taken(taken@, p@),
{
    let mut i: usize = 0;
    while i < taken.len()
        invariant
            i <= taken@.len(),
            forall|j: int| 0 <= j < i ==> (#[trigger] taken@[j])@ != p@,
        decreases taken@.len() - i,
    {
        if eq_exec(&chars_of(taken[i].as_str()), p) {
            return true;
        }
        i = i + 1;
    }
    false
}

/// The first free candidate among `<base>.md` and `<base>-2.md` up to
/// `<base>-99.md`, trying them in that order.
pub open spec fn first_free_candidate(base: Seq<char>, taken: Seq<String>, n: nat) -> Option<
    Seq<char>,
>
    decreases COLLISION_LIMIT - n,
{
    if n >= COLLISION_LIMIT {
        None
    } else if !is_taken(taken, inbox_candidate(base, n)) {
        Some(inbox_candidate(base, n))
    } else {
        first_free_candidate(base, taken, if n < 2 { 2 } else { n + 1 })
    }
}

proof fn lemma_first_free_untaken(base: Seq<char>, taken: Seq<String>, n: nat)
    ensures
        first_free_candidate(base, taken, n) matches Some(p) ==> !is_taken(taken, p),
    decreases COLLISION_LIMIT - n,
{
    if n < COLLISION_LIMIT && is_taken(taken, inbox_candidate(base, n)) {
        lemma_first_free_untaken(base, taken, if n < 2 { 2 } else { n + 1 });
    }
}

/// A new capture never lands on a taken path: the path it is given is
/// free.
pub proof fn lemma_inbox_path_is_free(date: Date, text: Seq<char>, taken: Seq<String>)
    ensures
        first_free_candidate(inbox_base(date, text), taken, 1) matches Some(p) ==> !is_taken(
            taken,
            p,
        ),
{
    lemma_first_free_untaken(inbox_base(date, text), taken, 1);
}

/// The path of a new capture of `text` on `date`, given the paths already
/// taken; an error naming the base when every candidate is taken.
pub fn next_inbox_path(date: &Date, text: &str, taken: &Vec<String>) -> (r: Result<
    String,
    DomainError,
>)
    requires
        date.wf(),
    ensures
        r matches Ok(p) ==> !is_taken(taken@, p@),
        match first_free_candidate(inbox_base(*date, text@), taken@, 1) {
            Some(p) => r matches Ok(s) && s@ == p,
            None => r matches Err(DomainError::AlreadyExists(b)) && b@ == inbox_base(
                *date,
                text@,
            ),
        },
{
    let mut base = chars_of("inbox/");
    push_all(&mut base, &format_ymd_chars(date));
    push_all(&mut base, &chars_of("-"));
    push_all(&mut base, &chars_of(slugify(text).as_str()));
    let ghost b = inbox_base(*date, text@);
    assert(base@ == b);
    proof {
        lemma_inbox_path_is_free(*date, text@, taken@);
    }
    let first = inbox_candidate_exec(&base, 1);
    if !is_taken_exec(taken, &first) {
        return Ok(string_of(&first));
    }
    let mut n: u32 = 2;
    while n < COLLISION_LIMIT
        invariant
            2 <= n <= COLLISION_LIMIT,
            base@ == b,
            b == inbox_base(*date, text@),
            first_free_candidate(b, taken@, 1) == first_free_candidate(b, taken@, n as nat),
            first_free_candidate(b, taken@, 1) matches Some(q) ==> !is_taken(taken@, q),
        decreases COLLISION_LIMIT - n,
    {
        let candidate = inbox_candidate_exec(&base, n);
        if !is_taken_exec(taken, &candidate) {
            return Ok(string_of(&candidate));
        }
        n = n + 1;
    }
    Err(DomainError::AlreadyExists(string_of(&base)))
}

/// The stem of an inbox note: the file stem of its path.
pub open spec fn inbox_slug(path: Seq<char>) -> Seq<char> {
    file_stem(file_name(path))
}

pub fn inbox_slug_from_path(path: &str) -> (r: String)
    ensures
        r@ == inbox_slug(path@),
{
    string_of(&file_stem_of(&file_name_of(&chars_of(path))))
}

/// `inbox/<slug>.md`: the note a discard removes.
pub fn inbox_item_path(slug: &str) -> (r: String)
    ensures
        r@ == "inbox/"@ + slug@ + ".md"@,
{
    let mut v = chars_of("inbox/");
    push_all(&mut v, &chars_of(slug));
    push_all(&mut v, &chars_of(".md"));
    string_of(&v)
}

/// The daily-log line of a discarded capture: plain text (the note is
/// gone, so a wikilink would dangle) carrying the captured text on one
/// line.
pub open spec fn discard_entry(slug: Seq<char>, body: Seq<char>) -> Seq<char> {
    let text = flatten_spec(body);
    if text.len() == 0 {
        "triaged inbox item `"@ + slug + "` -- discarded"@
    } else {
        "triaged inbox item `"@ + slug + "` -- discarded: "@ + text
    }
}

pub fn format_discard_log_entry(slug: &str, body: &str) -> (r: String)
    ensures
        r@ == discard_entry(slug@, body@),
{
    let text = chars_of(flatten_for_log(body).as_str());
    let mut v = chars_of("triaged inbox item `");
    push_all(&mut v, &chars_of(slug));
    if text.len() == 0 {
        push_all(&mut v, &chars_of("` -- discarded"));
    } else {
        push_all(&mut v, &chars_of("` -- discarded: "));
        push_all(&mut v, &text);
    }
    string_of(&v)
}

/// An inbox note as read from the store: its path and body.
pub struct InboxNote {
    pub path: String,
    pub body: String,
}

pub struct InboxItemView {
    pub path: Seq<char>,
    pub slug: Seq<char>,
    pub text: Seq<char>,
}

pub open spec fn inbox_item_of(n: InboxNote) -> InboxItemView {
    InboxItemView { path: n.path@, slug: inbox_slug(n.path@), text: trim(n.body@) }
}

pub open spec fn insert_by_path(s: Seq<InboxItemView>, e: InboxItemView) -> Seq<InboxItemView>
    decreases s.len(),
{
    if s.len() == 0 {
        seq![e]
    } else if path_lt(e.path, s.last().path) {
        insert_by_path(s.drop_last(), e).push(s.last())
    } else {
        s.push(e)
    }
}

/// The captures of `notes`, stably sorted by path (oldest first, by the
/// date their names start with).
pub open spec fn sorted_inbox(notes: Seq<InboxNote>) -> Seq<InboxItemView>
    decreases notes.len(),
{
    if notes.len() == 0 {
        Seq::empty()
    } else {
        insert_by_path(sorted_inbox(notes.drop_last()), inbox_item_of(notes.last()))
    }
}

pub open spec fn item_views(v: Seq<(String, InboxItem)>) -> Seq<InboxItemView> {
    v.map_values(|p: (String, InboxItem)| InboxItemView { path: p.0@, slug: p.1.slug@, text: p.1.text@ })
}

fn insert_item(v: &mut Vec<(String, InboxItem)>, e: (String, InboxItem))
    ensures
        item_views(final(v)@) == insert_by_path(
            item_views(old(v)@),
            InboxItemView { path: e.0@, slug: e.1.slug@, text: e.1.text@ },
        ),
{
    let ghost s = item_views(v@);
    let ghost ev = InboxItemView { path: e.0@, slug: e.1.slug@, text: e.1.text@ };
    let ep = chars_of(e.0.as_str());
    let mut p = v.len();
    assert(s.take(p as int) =~= s);
    assert(s.skip(p as int) =~= Seq::<InboxItemView>::empty());
    loop
        invariant
            p <= v@.len(),
            s == item_views(v@),
            ep@ == ev.path,
            insert_by_path(s, ev) == insert_by_path(s.take(p as int), ev) + s.skip(p as int),
        ensures
            p <= v@.len(),
            insert_by_path(s, ev) == insert_by_path(s.take(p as int), ev) + s.skip(p as int),
            p == 0 || !path_lt(ev.path, s[p - 1].path),
        decreases p,
    {
        if p == 0 {
            break;
        }
        let q = p - 1;
        assert(s[q as int].path == v@[q as int].0@);
        if !path_lt_exec(&ep, &chars_of(v[q].0.as_str())) {
            break;
        }
        let ghost t = s.take(p as int);
        assert(t.last() == s[q as int]);
        assert(t.drop_last() =~= s.take(q as int));
        assert(insert_by_path(s.take(q as int), ev).push(s[q as int]) + s.skip(p as int)
            =~= insert_by_path(s.take(q as int), ev) + s.skip(q as int));
        p = q;
    }
    proof {
        let t = s.take(p as int);
        if p > 0 {
            assert(t.last() == s[p - 1]);
        }
        assert(insert_by_path(t, ev) =~= t.push(ev));
    }
    v.insert(p, e);
    assert(item_views(v@) =~= s.take(p as int).push(ev) + s.skip(p as int));
}

/// The captures awaiting triage, oldest first: each note's stem and its
/// trimmed text, sorted by path. Each item is paired with its path.
pub fn list_inbox_items(notes: &Vec<InboxNote>) -> (r: Vec<(String, InboxItem)>)
    ensures
        item_views(r@) == sorted_inbox(notes@),
{
    let mut out: Vec<(String, InboxItem)> = Vec::new();
    let mut i: usize = 0;
    while i < notes.len()
        invariant
            i <= notes@.len(),
            item_views(out@) == sorted_inbox(notes@.take(i as int)),
        decreases notes@.len() - i,
    {
        let n = &notes[i];
        assert(notes@.take(i + 1).drop_last() =~= notes@.take(i as int));
        assert(notes@.take(i + 1).last() == *n);
        let path = string_of(&chars_of(n.path.as_str()));
        let item = InboxItem {
            slug: inbox_slug_from_path(n.path.as_str()),
            text: string_of(&trim_of(&chars_of(n.body.as_str()))),
        };
        insert_item(&mut out, (path, item));
        i = i + 1;
    }
    assert(notes@.take(notes@.len() as int) =~= notes@);
    out
}

/// `YYYY-MM-DDTHH:MM:SS`: the `created` stamp of a capture.
pub open spec fn created_stamp(date: Date, hour: nat, minute: nat, second: nat) -> Seq<char> {
    ymd_text(date) + "T"@ + pad2(hour) + ":"@ + pad2(minute) + ":"@ + pad2(second)
}

/// The variables an inbox note's template is rendered with: the `created`
/// stamp and the trimmed text as `body`.
pub fn inbox_variables(date: &Date, hour: u32, minute: u32, second: u32, text: &str) -> (r: Vec<
    (String, String),
>)
    requires
        date.wf(),
    ensures
        r@.len() == 2,
        r@[0].0@ == "created"@,
        r@[0].1@ == created_stamp(*date, hour as nat, minute as nat, second as nat),
        r@[1].0@ == "body"@,
        r@[1].1@ == trim(text@),
{
    let mut stamp = format_ymd_chars(date);
    push_all(&mut stamp, &chars_of("T"));
    push_all(&mut stamp, &pad2_exec(hour as u64));
    push_all(&mut stamp, &chars_of(":"));
    push_all(&mut stamp, &pad2_exec(minute as u64));
    push_all(&mut stamp, &chars_of(":"));
    push_all(&mut stamp, &pad2_exec(second as u64));
    let mut r: Vec<(String, String)> = Vec::new();
    r.push(("created".to_owned(), string_of(&stamp)));
    r.push(("body".to_owned(), string_of(&trim_of(&chars_of(text)))));
    r
}

} // verus!

//! Full-text search on top of the ranked index: turning free text into a
//! safe match expression, and the filters (note type, date window,
//! portfolio) applied to the ranked hits.

use vstd::prelude::*;

use crate::date::{parse_ymd, chrono_parse_ymd, Date};
use crate::note_type::NoteType;
use crate::stewardships::{file_name, file_name_of, file_stem, file_stem_of};
use crate::text::{
    chars_of, eq_exec, is_alphanumeric, join, join_exec, push_all, split_ws, split_ws_exec,
    string_of, unicode_alphanumeric, views,
};

verus! {

/// How many ranked hits are examined when a filter may discard some.
pub const FILTERED_SCAN_CAP: usize = 500;

/// Optional refinements of a search; all empty means no filtering.
#[derive(Debug, Clone)]
pub struct SearchFilters {
    /// Restrict to these note types; empty means any type.
    pub note_types: Vec<NoteType>,
    /// Inclusive lower bound on the note's date.
    pub date_from: Option<Date>,
    /// Inclusive upper bound on the note's date.
    pub date_to: Option<Date>,
    /// Restrict to notes whose `portfolio` field is this.
    pub portfolio: Option<String>,
}

impl SearchFilters {
    /// No filter at all.
    pub fn none() -> (r: Self)
        ensures
            r.note_types@.len() == 0,
            r.date_from is None,
            r.date_to is None,
            r.portfolio is None,
    {
        SearchFilters { note_types: Vec::new(), date_from: None, date_to: None, portfolio: None }
    }

    pub open spec fn empty_spec(&self) -> bool {
        self.note_types@.len() == 0 && self.date_from is None && self.date_to is None
            && self.portfolio is None
    }

    /// Whether no filter is set.
    pub fn is_empty(&self) -> (b: bool)
        ensures
            b == self.empty_spec(),
    {
        self.note_types.len() == 0 && self.date_from.is_none() && self.date_to.is_none()
            && self.portfolio.is_none()
    }

    /// Whether a hit can only be judged from its frontmatter (a date window
    /// or a portfolio); the note type is carried on the hit itself.
    pub fn needs_frontmatter(&self) -> (b: bool)
        ensures
            b == (self.date_from is Some || self.date_to is Some || self.portfolio is Some),
    {
        self.date_from.is_some() || self.date_to.is_some() || self.portfolio.is_some()
    }

    /// How many ranked hits to ask the index for: exactly `limit` when no
    /// filter can discard one, else the scan cap.
    pub fn scan_limit(&self, limit: usize) -> (r: usize)
        ensures
            r == if self.empty_spec() {
                limit
            } else {
                FILTERED_SCAN_CAP
            },
    {
        if self.is_empty() {
            limit
        } else {
            FILTERED_SCAN_CAP
        }
    }

    /// Whether a hit of type `note_type` passes the type filter.
    pub fn admits_type(&self, note_type: &str) -> (b: bool)
        ensures
            b == (self.note_types@.len() == 0 || exists|i: int|
                0 <= i < self.note_types@.len() && (#[trigger] self.note_types@[i]).name()
                    == note_type@),
    {
        if self.note_types.len() == 0 {
            return true;
        }
        let t = chars_of(note_type);
        let mut i: usize = 0;
        while i < self.note_types.len()
            invariant
                i <= self.note_types@.len(),
                t@ == note_type@,
                forall|j: int| 0 <= j < i ==> (#[trigger] self.note_types@[j]).name() != note_type@,
            decreases self.note_types@.len() - i,
        {
            if eq_exec(&chars_of(self.note_types[i].as_str()), &t) {
                return true;
            }
            i = i + 1;
        }
        false
    }

    pub open spec fn admits_spec(&self, portfolio: Option<Seq<char>>, date: Option<Date>) -> bool {
        &&& (self.portfolio matches Some(want) ==> portfolio == Some(want@))
        &&& ((self.date_from is Some || self.date_to is Some) ==> (date matches Some(d) && (
        self.date_from matches Some(from) ==> !d.lt(from)) && (self.date_to matches Some(to)
            ==> !to.lt(d))))
    }

    /// Whether a hit whose note has the `portfolio` field `portfolio` and
    /// the logical date `date` passes the frontmatter filters: the
    /// portfolio must match, and an undated note never falls in a date
    /// window.
    pub fn admits(&self, portfolio: Option<&str>, date: Option<Date>) -> (b: bool)
        ensures
            b == self.admits_spec(
                match portfolio {
                    Some(p) => Some(p@),
                    None => None,
                },
                date,
            ),
    {
        if let Some(want) = &self.portfolio {
            match portfolio {
                Some(got) => {
                    if !eq_exec(&chars_of(got), &chars_of(want.as_str())) {
                        return false;
                    }
                },
                None => {
                    return false;
                },
            }
        }
        if self.date_from.is_some() || self.date_to.is_some() {
            let d = match date {
                Some(d) => d,
                None => {
                    return false;
                },
            };
            if let Some(from) = &self.date_from {
                if d.is_before(from) {
                    return false;
                }
            }
            if let Some(to) = &self.date_to {
                if to.is_before(&d) {
                    return false;
                }
            }
        }
        true
    }
}

/// Whether a term has any alphanumeric character.
pub open spec fn searchable(term: Seq<char>) -> bool {
    exists|i: int| 0 <= i < term.len() && unicode_alphanumeric(#[trigger] term[i])
}

/// A term as an FTS5 phrase: quoted, with inner quotes doubled.
pub open spec fn quote_term(term: Seq<char>) -> Seq<char> {
    "\""@ + double_quotes(term) + "\""@
}

pub open spec fn double_quotes(s: Seq<char>) -> Seq<char>
    decreases s.len(),
{
    if s.len() == 0 {
        Seq::empty()
    } else {
        double_quotes(s.drop_last()) + if s.last() == '"' {
            seq!['"', '"']
        } else {
            seq![s.last()]
        }
    }
}

/// The quoted searchable terms of `terms`, in order.
pub open spec fn quoted_terms(terms: Seq<Seq<char>>) -> Seq<Seq<char>>
    decreases terms.len(),
{
    if terms.len() == 0 {
        Seq::empty()
    } else if searchable(terms.last()) {
        quoted_terms(terms.drop_last()).push(quote_term(terms.last()))
    } else {
        quoted_terms(terms.drop_last())
    }
}

/// The match expression for a query: its searchable whitespace-separated
/// terms, each quoted, joined by spaces (so ANDed); `None` when there is
/// no searchable term.
pub open spec fn fts_query(raw: Seq<char>) -> Option<Seq<char>> {
    let parts = quoted_terms(split_ws(raw));
    if parts.len() == 0 {
        None
    } else {
        Some(join(parts, " "@))
    }
}

fn searchable_exec(term: &Vec<char>) -> (b: bool)
    ensures
        b == searchable(term@),
{
    let mut i: usize = 0;
    while i < term.len()
        invariant
            i <= term@.len(),
            forall|j: int| 0 <= j < i ==> !unicode_alphanumeric(#[trigger] term@[j]),
        decreases term@.len() - i,
    {
        if is_alphanumeric(term[i]) {
            return true;
        }
        i = i + 1;
    }
    false
}

fn quote_term_exec(term: &Vec<char>) -> (r: Vec<char>)
    ensures
        r@ == quote_term(term@),
{
    let mut body: Vec<char> = Vec::new();
    let mut i: usize = 0;
    while i < term.len()
        invariant
            i <= term@.len(),
            body@ == double_quotes(term@.take(i as int)),
        decreases term@.len() - i,
    {
        assert(term@.take(i + 1).drop_last() =~= term@.take(i as int));
        if term[i] == '"' {
            body.push('"');
        }
        body.push(term[i]);
        i = i + 1;
    }
    assert(term@.take(term@.len() as int) =~= term@);
    let mut r = chars_of("\"");
    push_all(&mut r, &body);
    push_all(&mut r, &chars_of("\""));
    r
}

/// Turn free text into a safe FTS5 match expression, or `None` when
/// nothing in it is searchable.
pub fn sanitise_fts_query(raw: &str) -> (r: Option<String>)
    ensures
        match fts_query(raw@) {
            Some(q) => r matches Some(s) && s@ == q,
            None => r is None,
        },
{
    let terms = split_ws_exec(&chars_of(raw));
    let ghost tv = views(terms@);
    assert(tv =~= split_ws(raw@));
    let mut parts: Vec<Vec<char>> = Vec::new();
    let mut i: usize = 0;
    while i < terms.len()
        invariant
            i <= terms@.len(),
            tv == views(terms@),
            views(parts@) == quoted_terms(tv.take(i as int)),
        decreases terms@.len() - i,
    {
        assert(tv.take(i + 1).drop_last() =~= tv.take(i as int));
        assert(tv[i as int] == terms@[i as int]@);
        if searchable_exec(&terms[i]) {
            let ghost before = views(parts@);
            parts.push(quote_term_exec(&terms[i]));
            assert(views(parts@) =~= before.push(quote_term(tv[i as int])));
        }
        i = i + 1;
    }
    assert(tv.take(tv.len() as int) =~= tv);
    if parts.len() == 0 {
        None
    } else {
        assert(parts@.map_values(|v: Vec<char>| v@) =~= views(parts@));
        Some(string_of(&join_exec(&parts, &chars_of(" "))))
    }
}

/// The date a note is filed under for date filtering: the date its file
/// stem names, else its `created` date, else none.
pub open spec fn logical_date(path: Seq<char>, created: Option<Date>) -> Option<Date> {
    match chrono_parse_ymd(file_stem(file_name(path))) {
        Some(d) => Some(d),
        None => created,
    }
}

pub fn note_logical_date(path: &str, created: Option<Date>) -> (r: Option<Date>)
    ensures
        r == logical_date(path@, created),
{
    let stem = string_of(&file_stem_of(&file_name_of(&chars_of(path))));
    match parse_ymd(stem.as_str()) {
        Some(d) => Some(d),
        None => created,
    }
}


/// What the frontmatter filters admit. A note dated before the window's
/// start or after its end is never admitted, nor an undated note while a
/// window is set, nor a note whose portfolio is not the one asked for; a
/// note that meets every filter that is set is admitted.
pub proof fn lemma_admits_filters(f: SearchFilters, p: Option<Seq<char>>, d: Option<Date>)
    ensures
        (f.date_from matches Some(from) && d matches Some(x) && x.lt(from)) ==> !f.admits_spec(p, d),
        (f.date_to matches Some(to) && d matches Some(x) && to.lt(x)) ==> !f.admits_spec(p, d),
        ((f.date_from is Some || f.date_to is Some) && d is None) ==> !f.admits_spec(p, d),
        (f.portfolio matches Some(w) && p != Some(w@)) ==> !f.admits_spec(p, d),
        ((f.portfolio matches Some(w) ==> p == Some(w@))
            && ((f.date_from is Some || f.date_to is Some) ==> d is Some)
            && (f.date_from matches Some(from) && d matches Some(x) ==> !x.lt(from))
            && (f.date_to matches Some(to) && d matches Some(x) ==> !to.lt(x)))
            ==> f.admits_spec(p, d),
{
}


/// How many `"` characters `s` holds.
pub open spec fn quote_count(s: Seq<char>) -> nat
    decreases s.len(),
{
    if s.len() == 0 {
        0
    } else {
        quote_count(s.drop_last()) + if s.last() == '"' {
            1nat
        } else {
            0nat
        }
    }
}

/// Reading a quoted phrase's body back: each `""` is one `"`, every other
/// character stands for itself.
pub open spec fn unescape_phrase(s: Seq<char>) -> Seq<char>
    decreases s.len(),
{
    if s.len() == 0 {
        Seq::empty()
    } else if s.len() >= 2 && s[0] == '"' && s[1] == '"' {
        seq!['"'] + unescape_phrase(s.skip(2))
    } else {
        seq![s[0]] + unescape_phrase(s.skip(1))
    }
}

proof fn lemma_double_quotes_concat(a: Seq<char>, b: Seq<char>)
    ensures
        double_quotes(a + b) == double_quotes(a) + double_quotes(b),
    decreases b.len(),
{
    if b.len() == 0 {
        assert(a + b =~= a);
        assert(double_quotes(a) + double_quotes(b) =~= double_quotes(a));
    } else {
        assert((a + b).drop_last() =~= a + b.drop_last());
        assert((a + b).last() == b.last());
        lemma_double_quotes_concat(a, b.drop_last());
        let tail = if b.last() == '"' {
            seq!['"', '"']
        } else {
            seq![b.last()]
        };
        assert(double_quotes(a) + double_quotes(b.drop_last()) + tail =~= double_quotes(a) + (
        double_quotes(b.drop_last()) + tail));
    }
}

proof fn lemma_quote_count_front(t: Seq<char>)
    requires
        t.len() > 0,
    ensures
        quote_count(t) == quote_count(t.drop_first()) + if t[0] == '"' {
            1nat
        } else {
            0nat
        },
    decreases t.len(),
{
    if t.len() > 1 {
        assert(t.drop_last().drop_first() =~= t.drop_first().drop_last());
        assert(t.drop_first().last() == t.last());
        assert(t.drop_last()[0] == t[0]);
        lemma_quote_count_front(t.drop_last());
    } else {
        assert(t.drop_first() =~= Seq::<char>::empty());
        assert(t.drop_last() =~= Seq::<char>::empty());
        assert(t.last() == t[0]);
    }
}

proof fn lemma_unescape_double(t: Seq<char>)
    ensures
        unescape_phrase(double_quotes(t)) == t,
        double_quotes(t).len() == t.len() + quote_count(t),
    decreases t.len(),
{
    if t.len() > 0 {
        let c = t[0];
        let rest = t.drop_first();
        assert(t =~= seq![c] + rest);
        lemma_double_quotes_concat(seq![c], rest);
        lemma_unescape_double(rest);
        lemma_quote_count_front(t);
        assert(seq![c].drop_last() =~= Seq::<char>::empty());
        assert(seq![c].last() == c);
        assert(double_quotes(Seq::<char>::empty()) == Seq::<char>::empty());
        assert(double_quotes(seq![c]) == double_quotes(Seq::<char>::empty()) + if c == '"' {
            seq!['"', '"']
        } else {
            seq![c]
        });
        let x = double_quotes(rest);
        if c == '"' {
            assert(double_quotes(seq![c]) =~= seq!['"', '"']);
            let s = seq!['"', '"'] + x;
            assert(s[0] == '"' && s[1] == '"');
            assert(s.skip(2) =~= x);
            assert(unescape_phrase(s) =~= seq!['"'] + rest);
        } else {
            assert(double_quotes(seq![c]) =~= seq![c]);
            let s = seq![c] + x;
            assert(s[0] == c);
            assert(s.skip(1) =~= x);
            assert(unescape_phrase(s) =~= seq![c] + rest);
        }
    } else {
        assert(double_quotes(t) =~= Seq::<char>::empty());
    }
}

/// A term is quoted safely: the phrase opens and closes with `"`, every
/// `"` of the term is doubled inside it (and nothing else added), and
/// reading the inside back gives the term.
pub proof fn lemma_quote_term_reads_back(t: Seq<char>)
    ensures
        quote_term(t).len() == t.len() + quote_count(t) + 2,
        quote_term(t)[0] == '"',
        quote_term(t)[quote_term(t).len() - 1] == '"',
        unescape_phrase(quote_term(t).subrange(1, quote_term(t).len() - 1)) == t,
{
    reveal_strlit("\"");
    lemma_unescape_double(t);
    let q = quote_term(t);
    let body = double_quotes(t);
    assert(q =~= seq!['"'] + body + seq!['"']);
    assert(q.subrange(1, q.len() - 1) =~= body);
}

/// A query has a match expression exactly when one of its whitespace-
/// separated terms holds an alphanumeric character.
pub proof fn lemma_fts_query_some(raw: Seq<char>)
    ensures
        fts_query(raw) is Some <==> exists|k: int, i: int|
            0 <= k < split_ws(raw).len() && 0 <= i < split_ws(raw)[k].len() && unicode_alphanumeric(
                #[trigger] split_ws(raw)[k][i],
            ),
{
    lemma_quoted_terms_empty(split_ws(raw));
}

proof fn lemma_quoted_terms_empty(terms: Seq<Seq<char>>)
    ensures
        quoted_terms(terms).len() == 0 <==> forall|k: int, i: int|
            0 <= k < terms.len() && 0 <= i < terms[k].len() ==> !unicode_alphanumeric(
                #[trigger] terms[k][i],
            ),
    decreases terms.len(),
{
    if terms.len() > 0 {
        let t = terms.drop_last();
        lemma_quoted_terms_empty(t);
        let last = terms.last();
        if searchable(last) {
            let i = choose|i: int| 0 <= i < last.len() && unicode_alphanumeric(#[trigger] last[i]);
            assert(terms[terms.len() - 1][i] == last[i]);
        } else {
            assert forall|k: int, i: int|
                0 <= k < terms.len() && 0 <= i < terms[k].len() && forall|k2: int, i2: int|
                    0 <= k2 < t.len() && 0 <= i2 < t[k2].len() ==> !unicode_alphanumeric(
                        #[trigger] t[k2][i2],
                    ) implies !unicode_alphanumeric(#[trigger] terms[k][i]) by {
                if k < t.len() {
                    assert(terms[k] == t[k]);
                } else {
                    assert(terms[k] == last);
                }
            }
            if exists|k: int, i: int|
                0 <= k < t.len() && 0 <= i < t[k].len() && unicode_alphanumeric(#[trigger] t[k][i]) {
                let (k, i) = choose|k: int, i: int|
                    0 <= k < t.len() && 0 <= i < t[k].len() && unicode_alphanumeric(
                        #[trigger] t[k][i],
                    );
                assert(terms[k] == t[k]);
            }
        }
    }
}

} // verus!

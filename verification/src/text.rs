//! Character-level text toolkit over `Seq<char>`: whitespace trimming,
//! prefix/suffix tests, substring search and line splitting, with the
//! executable counterparts working on `Vec<char>`.

use vstd::prelude::*;

verus! {

/// The keys of a keyed list ascend strictly, in code point order: the
/// order of a sorted map's entries.
pub open spec fn keys_ascending<V>(s: Seq<(String, V)>) -> bool {
    forall|i: int, j: int| 0 <= i < j < s.len() ==> seq_lt((#[trigger] s[i]).0@, (#[trigger] s[j]).0@)
}

/// No two entries of a keyed list share a key.
pub open spec fn keys_distinct<V>(s: Seq<(String, V)>) -> bool {
    forall|i: int, j: int| 0 <= i < j < s.len() ==> (#[trigger] s[i]).0@ != (#[trigger] s[j]).0@
}

// ---------------------------------------------------------------------
// Conversion between `str`/`String` and character vectors.
// ---------------------------------------------------------------------

/// Copy the characters of a string slice into a vector.
pub fn chars_of(s: &str) -> (v: Vec<char>)
    ensures
        v@ == s@,
{
    let mut v: Vec<char> = Vec::new();
    for c in it: s.chars()
        invariant
            v@ == it.seq().take(it.index() as int),
            it.seq() == s@,
    {
        v.push(c);
    }
    v
}

/// `String::push`: appends one character to the string.
#[verifier::external_body]
fn string_push(s: &mut String, c: char)
    ensures
        final(s)@ == old(s)@.push(c),
{
    s.push(c);
}

/// Build a `String` holding exactly the given characters.
pub fn string_of(v: &Vec<char>) -> (s: String)
    ensures
        s@ == v@,
{
    let mut s = String::new();
    let mut i: usize = 0;
    while i < v.len()
        invariant
            i <= v@.len(),
            s@ == v@.take(i as int),
        decreases v@.len() - i,
    {
        string_push(&mut s, v[i]);
        i = i + 1;
        assert(v@.take(i as int) == v@.take(i - 1).push(v@[i - 1]));
    }
    assert(v@.take(v@.len() as int) == v@);
    s
}

// ---------------------------------------------------------------------
// Whitespace.
// ---------------------------------------------------------------------

/// The Unicode `White_Space` property, as `char::is_whitespace` reports it.
pub open spec fn is_ws(c: char) -> bool {
    ||| ('\t' <= c && c <= '\r')
    ||| c == ' '
    ||| c == '\u{85}'
    ||| c == '\u{A0}'
    ||| c == '\u{1680}'
    ||| ('\u{2000}' <= c && c <= '\u{200A}')
    ||| c == '\u{2028}'
    ||| c == '\u{2029}'
    ||| c == '\u{202F}'
    ||| c == '\u{205F}'
    ||| c == '\u{3000}'
}

pub fn is_whitespace(c: char) -> (b: bool)
    ensures
        b == is_ws(c),
{
    ('\t' <= c && c <= '\r') || c == ' ' || c == '\u{85}' || c == '\u{A0}' || c == '\u{1680}'
        || ('\u{2000}' <= c && c <= '\u{200A}') || c == '\u{2028}' || c == '\u{2029}' || c
        == '\u{202F}' || c == '\u{205F}' || c == '\u{3000}'
}

/// Index of the first non-whitespace character at or after `i`
/// (`s.len()` when there is none).
pub open spec fn first_non_ws(s: Seq<char>, i: int) -> int
    decreases s.len() - i,
{
    if i >= s.len() {
        s.len() as int
    } else if is_ws(s[i]) {
        first_non_ws(s, i + 1)
    } else {
        i
    }
}

/// End (exclusive) of the text before `j` once trailing whitespace is
/// dropped: the smallest `k <= j` with `s[k..j]` all whitespace.
pub open spec fn end_non_ws(s: Seq<char>, j: int) -> int
    decreases j,
{
    if j <= 0 {
        0
    } else if is_ws(s[j - 1]) {
        end_non_ws(s, j - 1)
    } else {
        j
    }
}

pub open spec fn trim_start(s: Seq<char>) -> Seq<char> {
    s.skip(first_non_ws(s, 0))
}

pub open spec fn trim_end(s: Seq<char>) -> Seq<char> {
    s.take(end_non_ws(s, s.len() as int))
}

pub open spec fn trim(s: Seq<char>) -> Seq<char> {
    trim_end(trim_start(s))
}

pub proof fn lemma_first_non_ws(s: Seq<char>, i: int)
    requires
        0 <= i <= s.len(),
    ensures
        i <= first_non_ws(s, i) <= s.len(),
        forall|k: int| i <= k < first_non_ws(s, i) ==> is_ws(#[trigger] s[k]),
        first_non_ws(s, i) < s.len() ==> !is_ws(s[first_non_ws(s, i)]),
    decreases s.len() - i,
{
    if i < s.len() && is_ws(s[i]) {
        lemma_first_non_ws(s, i + 1);
    }
}

pub proof fn lemma_end_non_ws(s: Seq<char>, j: int)
    requires
        0 <= j <= s.len(),
    ensures
        0 <= end_non_ws(s, j) <= j,
        forall|k: int| end_non_ws(s, j) <= k < j ==> is_ws(#[trigger] s[k]),
        end_non_ws(s, j) > 0 ==> !is_ws(s[end_non_ws(s, j) - 1]),
    decreases j,
{
    if j > 0 && is_ws(s[j - 1]) {
        lemma_end_non_ws(s, j - 1);
    }
}

pub fn first_non_ws_from(s: &Vec<char>, start: usize) -> (r: usize)
    requires
        start <= s@.len(),
    ensures
        r == first_non_ws(s@, start as int),
{
    let mut i = start;
    while i < s.len() && is_whitespace(s[i])
        invariant
            start <= i <= s@.len(),
            first_non_ws(s@, start as int) == first_non_ws(s@, i as int),
        decreases s@.len() - i,
    {
        i = i + 1;
    }
    i
}

pub fn end_non_ws_before(s: &Vec<char>, end: usize) -> (r: usize)
    requires
        end <= s@.len(),
    ensures
        r == end_non_ws(s@, end as int),
{
    let mut j = end;
    while j > 0 && is_whitespace(s[j - 1])
        invariant
            j <= end <= s@.len(),
            end_non_ws(s@, end as int) == end_non_ws(s@, j as int),
        decreases j,
    {
        j = j - 1;
    }
    j
}

// ---------------------------------------------------------------------
// Sub-sequences.
// ---------------------------------------------------------------------

/// Copy `s[i..j]` into a fresh vector.
pub fn slice_of(s: &Vec<char>, i: usize, j: usize) -> (r: Vec<char>)
    requires
        i <= j <= s@.len(),
    ensures
        r@ == s@.subrange(i as int, j as int),
{
    let mut r: Vec<char> = Vec::new();
    let mut k = i;
    while k < j
        invariant
            i <= k <= j <= s@.len(),
            r@ == s@.subrange(i as int, k as int),
        decreases j - k,
    {
        r.push(s[k]);
        k = k + 1;
    }
    r
}

/// Append all of `b` to `a`.
pub fn push_all(a: &mut Vec<char>, b: &Vec<char>)
    ensures
        final(a)@ == old(a)@ + b@,
{
    let mut k: usize = 0;
    while k < b.len()
        invariant
            k <= b@.len(),
            a@ == old(a)@ + b@.take(k as int),
        decreases b@.len() - k,
    {
        a.push(b[k]);
        k = k + 1;
        assert(b@.take(k as int) == b@.take(k - 1).push(b@[k - 1]));
    }
    assert(b@.take(b@.len() as int) == b@);
}

/// `a + b` as a fresh vector.
pub fn concat(a: &Vec<char>, b: &Vec<char>) -> (r: Vec<char>)
    ensures
        r@ == a@ + b@,
{
    let mut r = a.clone();
    push_all(&mut r, b);
    r
}

pub fn trim_start_of(s: &Vec<char>) -> (r: Vec<char>)
    ensures
        r@ == trim_start(s@),
{
    let i = first_non_ws_from(s, 0);
    proof {
        lemma_first_non_ws(s@, 0);
    }
    slice_of(s, i, s.len())
}

pub fn trim_end_of(s: &Vec<char>) -> (r: Vec<char>)
    ensures
        r@ == trim_end(s@),
{
    let j = end_non_ws_before(s, s.len());
    proof {
        lemma_end_non_ws(s@, s@.len() as int);
    }
    slice_of(s, 0, j)
}

pub fn trim_of(s: &Vec<char>) -> (r: Vec<char>)
    ensures
        r@ == trim(s@),
{
    let t = trim_start_of(s);
    trim_end_of(&t)
}

// ---------------------------------------------------------------------
// Prefixes, suffixes, equality.
// ---------------------------------------------------------------------

pub open spec fn starts_with(s: Seq<char>, p: Seq<char>) -> bool {
    p.len() <= s.len() && s.take(p.len() as int) == p
}

pub open spec fn ends_with(s: Seq<char>, p: Seq<char>) -> bool {
    p.len() <= s.len() && s.skip(s.len() - p.len()) == p
}

/// Whether `s[at..at + p.len()]` equals `p`.
pub open spec fn occurs_at(s: Seq<char>, p: Seq<char>, at: int) -> bool {
    0 <= at && at + p.len() <= s.len() && s.subrange(at, at + p.len()) == p
}

pub fn occurs_at_exec(s: &Vec<char>, p: &Vec<char>, at: usize) -> (b: bool)
    ensures
        b == occurs_at(s@, p@, at as int),
{
    if p.len() > s.len() || at > s.len() - p.len() {
        return false;
    }
    let mut k: usize = 0;
    while k < p.len()
        invariant
            k <= p@.len(),
            at + p@.len() <= s@.len(),
            s@.len() == s.len(),
            forall|m: int| 0 <= m < k ==> s@[at + m] == p@[m],
        decreases p@.len() - k,
    {
        if s[at + k] != p[k] {
            assert(s@.subrange(at as int, at + p@.len())[k as int] != p@[k as int]);
            return false;
        }
        k = k + 1;
    }
    assert(s@.subrange(at as int, at + p@.len()) =~= p@);
    true
}

pub fn starts_with_exec(s: &Vec<char>, p: &Vec<char>) -> (b: bool)
    ensures
        b == starts_with(s@, p@),
{
    let b = occurs_at_exec(s, p, 0);
    proof {
        if p@.len() <= s@.len() {
            assert(s@.subrange(0, p@.len() as int) == s@.take(p@.len() as int));
        }
    }
    b
}

pub fn ends_with_exec(s: &Vec<char>, p: &Vec<char>) -> (b: bool)
    ensures
        b == ends_with(s@, p@),
{
    if p.len() > s.len() {
        return false;
    }
    let b = occurs_at_exec(s, p, s.len() - p.len());
    proof {
        assert(s@.subrange(s@.len() - p@.len(), s@.len() as int) == s@.skip(
            s@.len() - p@.len(),
        ));
    }
    b
}

pub fn eq_exec(a: &Vec<char>, b: &Vec<char>) -> (r: bool)
    ensures
        r == (a@ == b@),
{
    if a.len() != b.len() {
        return false;
    }
    let r = starts_with_exec(a, b);
    proof {
        assert(a@.take(b@.len() as int) =~= a@);
    }
    r
}

// ---------------------------------------------------------------------
// Search.
// ---------------------------------------------------------------------

/// First index `>= i` where `p` occurs in `s`.
pub open spec fn find_from(s: Seq<char>, p: Seq<char>, i: int) -> Option<int>
    decreases s.len() + 1 - i,
{
    if i < 0 || i + p.len() > s.len() {
        None
    } else if occurs_at(s, p, i) {
        Some(i)
    } else {
        find_from(s, p, i + 1)
    }
}

pub open spec fn find(s: Seq<char>, p: Seq<char>) -> Option<int> {
    find_from(s, p, 0)
}

pub open spec fn contains(s: Seq<char>, p: Seq<char>) -> bool {
    find(s, p) is Some
}

/// Last index where `p` occurs in `s` at or before `i`.
pub open spec fn rfind_upto(s: Seq<char>, p: Seq<char>, i: int) -> Option<int>
    decreases i + 1,
{
    if i < 0 {
        None
    } else if occurs_at(s, p, i) {
        Some(i)
    } else {
        rfind_upto(s, p, i - 1)
    }
}

pub open spec fn rfind(s: Seq<char>, p: Seq<char>) -> Option<int> {
    rfind_upto(s, p, s.len() - p.len())
}

pub proof fn lemma_find_from(s: Seq<char>, p: Seq<char>, i: int)
    requires
        0 <= i,
    ensures
        match find_from(s, p, i) {
            Some(k) => i <= k && occurs_at(s, p, k) && forall|m: int|
                i <= m < k ==> !occurs_at(s, p, m),
            None => forall|m: int| i <= m ==> !occurs_at(s, p, m),
        },
    decreases s.len() + 1 - i,
{
    if i + p.len() <= s.len() && !occurs_at(s, p, i) {
        lemma_find_from(s, p, i + 1);
    }
}

pub proof fn lemma_rfind_upto(s: Seq<char>, p: Seq<char>, i: int)
    ensures
        match rfind_upto(s, p, i) {
            Some(k) => 0 <= k <= i && occurs_at(s, p, k) && forall|m: int|
                k < m <= i ==> !occurs_at(s, p, m),
            None => forall|m: int| m <= i ==> !occurs_at(s, p, m),
        },
    decreases i + 1,
{
    if i >= 0 && !occurs_at(s, p, i) {
        lemma_rfind_upto(s, p, i - 1);
    }
}

pub fn find_from_exec(s: &Vec<char>, p: &Vec<char>, start: usize) -> (r: Option<usize>)
    ensures
        match r {
            Some(k) => find_from(s@, p@, start as int) == Some(k as int),
            None => find_from(s@, p@, start as int) is None,
        },
{
    if p.len() > s.len() {
        return None;
    }
    let last = s.len() - p.len();
    let mut i = start;
    while i <= last
        invariant
            start <= i,
            last + p@.len() == s@.len(),
            s@.len() == s.len(),
            find_from(s@, p@, start as int) == find_from(s@, p@, i as int),
        decreases last + 1 - i,
    {
        if occurs_at_exec(s, p, i) {
            return Some(i);
        }
        if i == last {
            assert(find_from(s@, p@, i + 1) is None);
            return None;
        }
        i = i + 1;
    }
    None
}

pub fn find_exec(s: &Vec<char>, p: &Vec<char>) -> (r: Option<usize>)
    ensures
        match r {
            Some(k) => find(s@, p@) == Some(k as int),
            None => find(s@, p@) is None,
        },
{
    find_from_exec(s, p, 0)
}

pub fn contains_exec(s: &Vec<char>, p: &Vec<char>) -> (b: bool)
    ensures
        b == contains(s@, p@),
{
    find_exec(s, p).is_some()
}

pub fn rfind_exec(s: &Vec<char>, p: &Vec<char>) -> (r: Option<usize>)
    ensures
        match r {
            Some(k) => rfind(s@, p@) == Some(k as int),
            None => rfind(s@, p@) is None,
        },
{
    if p.len() > s.len() {
        proof {
            lemma_rfind_upto(s@, p@, s@.len() - p@.len());
            if rfind(s@, p@) is Some {
                assert(false);
            }
        }
        return None;
    }
    let mut i = s.len() - p.len();
    loop
        invariant
            i + p@.len() <= s@.len(),
            rfind(s@, p@) == rfind_upto(s@, p@, i as int),
        decreases i,
    {
        if occurs_at_exec(s, p, i) {
            return Some(i);
        }
        if i == 0 {
            assert(rfind_upto(s@, p@, -1) is None);
            return None;
        }
        i = i - 1;
    }
}

/// Index of the first occurrence of `c` at or after `i`.
pub open spec fn find_char_from(s: Seq<char>, c: char, i: int) -> Option<int>
    decreases s.len() - i,
{
    if i < 0 || i >= s.len() {
        None
    } else if s[i] == c {
        Some(i)
    } else {
        find_char_from(s, c, i + 1)
    }
}

pub proof fn lemma_find_char_from(s: Seq<char>, c: char, i: int)
    requires
        0 <= i,
    ensures
        match find_char_from(s, c, i) {
            Some(k) => i <= k < s.len() && s[k] == c && forall|m: int|
                i <= m < k ==> s[m] != c,
            None => forall|m: int| i <= m < s.len() ==> s[m] != c,
        },
    decreases s.len() - i,
{
    if i < s.len() && s[i] != c {
        lemma_find_char_from(s, c, i + 1);
    }
}

pub fn find_char_from_exec(s: &Vec<char>, c: char, start: usize) -> (r: Option<usize>)
    ensures
        match r {
            Some(k) => find_char_from(s@, c, start as int) == Some(k as int),
            None => find_char_from(s@, c, start as int) is None,
        },
{
    let mut i = start;
    while i < s.len()
        invariant
            start <= i,
            find_char_from(s@, c, start as int) == find_char_from(s@, c, i as int),
        decreases s@.len() - i,
    {
        if s[i] == c {
            return Some(i);
        }
        i = i + 1;
    }
    None
}

pub open spec fn has_char(s: Seq<char>, c: char) -> bool {
    exists|i: int| 0 <= i < s.len() && s[i] == c
}

pub fn has_char_exec(s: &Vec<char>, c: char) -> (b: bool)
    ensures
        b == has_char(s@, c),
{
    let r = find_char_from_exec(s, c, 0);
    proof {
        lemma_find_char_from(s@, c, 0);
    }
    r.is_some()
}

// ---------------------------------------------------------------------
// Splitting and joining.
// ---------------------------------------------------------------------

/// `str::split(c)`: the pieces between occurrences of `c`, always at
/// least one.
pub open spec fn split_char(s: Seq<char>, c: char) -> Seq<Seq<char>>
    decreases s.len(),
{
    match find_char_from(s, c, 0) {
        Some(i) => {
            if 0 <= i < s.len() {
                seq![s.take(i)] + split_char(s.skip(i + 1), c)
            } else {
                seq![s]
            }
        },
        None => seq![s],
    }
}

/// Concatenate `parts` with `sep` between neighbours.
pub open spec fn join(parts: Seq<Seq<char>>, sep: Seq<char>) -> Seq<char>
    decreases parts.len(),
{
    if parts.len() == 0 {
        Seq::empty()
    } else if parts.len() == 1 {
        parts[0]
    } else {
        parts[0] + sep + join(parts.drop_first(), sep)
    }
}

/// Drop one trailing `'\r'`, if present.
pub open spec fn strip_cr(s: Seq<char>) -> Seq<char> {
    if s.len() > 0 && s.last() == '\r' {
        s.drop_last()
    } else {
        s
    }
}

/// `str::lines`: split at `'\n'`, dropping a `'\r'` that precedes a
/// `'\n'` and the empty piece after a final line terminator.
pub open spec fn lines(s: Seq<char>) -> Seq<Seq<char>> {
    let p = split_char(s, '\n');
    let n = p.len();
    Seq::new((n - 1) as nat, |i: int| strip_cr(p[i])) + if p[n - 1].len() > 0 {
        seq![p[n - 1]]
    } else {
        Seq::<Seq<char>>::empty()
    }
}

pub proof fn lemma_split_char_len(s: Seq<char>, c: char)
    ensures
        split_char(s, c).len() >= 1,
    decreases s.len(),
{
    lemma_find_char_from(s, c, 0);
    match find_char_from(s, c, 0) {
        Some(i) => {
            lemma_split_char_len(s.skip(i + 1), c);
        },
        None => {},
    }
}

/// Split `s` at every `c`.
pub fn split_char_exec(s: &Vec<char>, c: char) -> (r: Vec<Vec<char>>)
    ensures
        r@.len() == split_char(s@, c).len(),
        forall|k: int| 0 <= k < r@.len() ==> #[trigger] r@[k]@ == split_char(s@, c)[k],
{
    let mut out: Vec<Vec<char>> = Vec::new();
    let mut start: usize = 0;
    assert(s@.skip(0) == s@);
    assert(out@.map_values(|v: Vec<char>| v@) + split_char(s@, c) == split_char(s@, c));
    loop
        invariant
            start <= s@.len(),
            s@.len() == s.len(),
            split_char(s@, c) == out@.map_values(|v: Vec<char>| v@) + split_char(
                s@.skip(start as int),
                c,
            ),
        decreases s@.len() - start,
    {
        let ghost rest = s@.skip(start as int);
        proof {
            lemma_find_char_from(rest, c, 0);
            lemma_find_char_from(s@, c, start as int);
        }
        match find_char_from_exec(s, c, start) {
            Some(k) => {
                assert(k < s@.len());
                proof {
                    assert(find_char_from(rest, c, 0) == Some(k - start)) by {
                        lemma_find_char_from(rest, c, 0);
                        match find_char_from(rest, c, 0) {
                            Some(j) => {
                                if j < k - start {
                                    assert(rest[j] == s@[start + j]);
                                } else if j > k - start {
                                    assert(rest[k - start] == s@[k as int]);
                                }
                            },
                            None => {
                                assert(rest[k - start] == s@[k as int]);
                            },
                        }
                    }
                    assert(rest.take(k - start) == s@.subrange(start as int, k as int));
                    assert(rest.skip(k - start + 1) == s@.skip(k + 1));
                }
                let piece = slice_of(s, start, k);
                let ghost old_out = out@;
                out.push(piece);
                proof {
                    assert(out@.map_values(|v: Vec<char>| v@) == old_out.map_values(
                        |v: Vec<char>| v@,
                    ).push(piece@));
                    assert(out@.map_values(|v: Vec<char>| v@) + split_char(
                        s@.skip(k + 1),
                        c,
                    ) == old_out.map_values(|v: Vec<char>| v@) + (seq![rest.take(k - start)]
                        + split_char(rest.skip(k - start + 1), c)));
                }
                start = k + 1;
            },
            None => {
                proof {
                    assert(find_char_from(rest, c, 0) is None) by {
                        match find_char_from(rest, c, 0) {
                            Some(j) => {
                                assert(rest[j] == s@[start + j]);
                            },
                            None => {},
                        }
                    }
                }
                let piece = slice_of(s, start, s.len());
                let ghost old_out = out@;
                out.push(piece);
                proof {
                    assert(out@.map_values(|v: Vec<char>| v@) == old_out.map_values(
                        |v: Vec<char>| v@,
                    ).push(piece@));
                    assert(piece@ == rest);
                }
                return out;
            },
        }
    }
}


/// Lines of `s`, as `str::lines` yields them.
pub fn lines_exec(s: &Vec<char>) -> (r: Vec<Vec<char>>)
    ensures
        r@.len() == lines(s@).len(),
        forall|k: int| 0 <= k < r@.len() ==> #[trigger] r@[k]@ == lines(s@)[k],
{
    let pieces = split_char_exec(s, '\n');
    proof {
        lemma_split_char_len(s@, '\n');
    }
    let ghost p = split_char(s@, '\n');
    let n = pieces.len();
    let mut out: Vec<Vec<char>> = Vec::new();
    let mut i: usize = 0;
    while i + 1 < n
        invariant
            n == p.len(),
            n >= 1,
            i < n,
            pieces@.len() == n,
            forall|k: int| 0 <= k < n ==> #[trigger] pieces@[k]@ == p[k],
            out@.len() == i,
            forall|k: int| 0 <= k < i ==> #[trigger] out@[k]@ == strip_cr(p[k]),
        decreases n - i,
    {
        let piece = &pieces[i];
        let stripped = if piece.len() > 0 && piece[piece.len() - 1] == '\r' {
            slice_of(piece, 0, piece.len() - 1)
        } else {
            piece.clone()
        };
        proof {
            assert(pieces@[i as int]@ == p[i as int]);
            if piece@.len() > 0 && piece@.last() == '\r' {
                assert(stripped@ == piece@.drop_last());
            }
        }
        out.push(stripped);
        i = i + 1;
    }
    let last = &pieces[n - 1];
    if last.len() > 0 {
        out.push(last.clone());
    }
    proof {
        let expect = lines(s@);
        assert(pieces@[n - 1]@ == p[n - 1]);
        assert(out@.len() == expect.len());
        assert forall|k: int| 0 <= k < out@.len() implies #[trigger] out@[k]@ == expect[k] by {
            if k < n - 1 {
            } else {
            }
        }
    }
    out
}

/// Whitespace-separated words, accumulating the current word in `cur`.
pub open spec fn words_acc(s: Seq<char>, cur: Seq<char>) -> Seq<Seq<char>>
    decreases s.len(),
{
    if s.len() == 0 {
        if cur.len() > 0 {
            seq![cur]
        } else {
            Seq::empty()
        }
    } else if is_ws(s[0]) {
        (if cur.len() > 0 {
            seq![cur]
        } else {
            Seq::<Seq<char>>::empty()
        }) + words_acc(s.drop_first(), Seq::empty())
    } else {
        words_acc(s.drop_first(), cur.push(s[0]))
    }
}

/// `str::split_whitespace`: the maximal runs of non-whitespace characters.
pub open spec fn split_ws(s: Seq<char>) -> Seq<Seq<char>> {
    words_acc(s, Seq::empty())
}

pub fn split_ws_exec(s: &Vec<char>) -> (r: Vec<Vec<char>>)
    ensures
        r@.len() == split_ws(s@).len(),
        forall|k: int| 0 <= k < r@.len() ==> #[trigger] r@[k]@ == split_ws(s@)[k],
{
    let mut out: Vec<Vec<char>> = Vec::new();
    let mut cur: Vec<char> = Vec::new();
    let mut i: usize = 0;
    assert(s@.skip(0) == s@);
    while i < s.len()
        invariant
            i <= s@.len(),
            out@.map_values(|v: Vec<char>| v@) + words_acc(s@.skip(i as int), cur@) == split_ws(
                s@,
            ),
        decreases s@.len() - i,
    {
        let ghost rest = s@.skip(i as int);
        assert(rest.drop_first() == s@.skip(i + 1));
        assert(rest[0] == s@[i as int]);
        let c = s[i];
        let ghost old_out = out@.map_values(|v: Vec<char>| v@);
        let ghost old_cur = cur@;
        if is_whitespace(c) {
            if cur.len() > 0 {
                let w = cur;
                out.push(w);
                cur = Vec::new();
                proof {
                    assert(out@.map_values(|v: Vec<char>| v@) == old_out.push(w@));
                    assert(words_acc(rest, old_cur) == seq![old_cur] + words_acc(
                        rest.drop_first(),
                        Seq::empty(),
                    ));
                    assert(old_out.push(w@) + words_acc(rest.drop_first(), Seq::empty()) =~= old_out
                        + (seq![old_cur] + words_acc(rest.drop_first(), Seq::empty())));
                    assert(cur@ == Seq::<char>::empty());
                }
            } else {
                assert(words_acc(rest, old_cur) == Seq::<Seq<char>>::empty() + words_acc(
                    rest.drop_first(),
                    Seq::empty(),
                ));
                assert(Seq::<Seq<char>>::empty() + words_acc(rest.drop_first(), Seq::empty())
                    =~= words_acc(rest.drop_first(), Seq::empty()));
                assert(old_cur =~= Seq::<char>::empty());
            }
        } else {
            cur.push(c);
            assert(words_acc(rest, old_cur) == words_acc(rest.drop_first(), old_cur.push(c)));
        }
        i = i + 1;
    }
    if cur.len() > 0 {
        let ghost old_out = out@;
        let w = cur;
        out.push(w);
        proof {
            assert(out@.map_values(|v: Vec<char>| v@) == old_out.map_values(|v: Vec<char>| v@).push(
                w@,
            ));
            assert(out@.map_values(|v: Vec<char>| v@) == split_ws(s@));
        }
    } else {
        assert(out@.map_values(|v: Vec<char>| v@) == split_ws(s@));
    }
    proof {
        assert forall|k: int| 0 <= k < out@.len() implies #[trigger] out@[k]@ == split_ws(s@)[k] by {
            assert(out@.map_values(|v: Vec<char>| v@)[k] == out@[k]@);
        }
    }
    out
}

/// Join the pieces of `parts` with `sep` between neighbours.
pub fn join_exec(parts: &Vec<Vec<char>>, sep: &Vec<char>) -> (r: Vec<char>)
    ensures
        r@ == join(parts@.map_values(|v: Vec<char>| v@), sep@),
{
    let ghost ps = parts@.map_values(|v: Vec<char>| v@);
    if parts.len() == 0 {
        return Vec::new();
    }
    let mut i: usize = parts.len() - 1;
    let mut acc = parts[i].clone();
    proof {
        assert(ps.skip(i as int) =~= seq![ps[i as int]]);
    }
    while i > 0
        invariant
            i < parts@.len(),
            ps == parts@.map_values(|v: Vec<char>| v@),
            acc@ == join(ps.skip(i as int), sep@),
        decreases i,
    {
        i = i - 1;
        let mut next = parts[i].clone();
        push_all(&mut next, sep);
        push_all(&mut next, &acc);
        proof {
            let t = ps.skip(i as int);
            assert(t.drop_first() == ps.skip(i + 1));
            assert(t[0] == parts@[i as int]@);
            assert(t.len() >= 2);
        }
        acc = next;
    }
    proof {
        assert(ps.skip(0) == ps);
    }
    acc
}

// ---------------------------------------------------------------------
// Case mapping and character classes.
// ---------------------------------------------------------------------

/// `char::to_ascii_lowercase`.
pub open spec fn ascii_lower(c: char) -> char {
    if 'A' <= c && c <= 'Z' {
        ((c as u32) + 32) as char
    } else {
        c
    }
}

pub fn ascii_lower_exec(c: char) -> (r: char)
    ensures
        r == ascii_lower(c),
{
    if 'A' <= c && c <= 'Z' {
        ((c as u8) + 32) as char
    } else {
        c
    }
}

pub open spec fn ascii_lower_seq(s: Seq<char>) -> Seq<char> {
    s.map_values(|c: char| ascii_lower(c))
}

pub fn ascii_lower_vec(s: &Vec<char>) -> (r: Vec<char>)
    ensures
        r@ == ascii_lower_seq(s@),
{
    let mut r: Vec<char> = Vec::new();
    let mut i: usize = 0;
    while i < s.len()
        invariant
            i <= s@.len(),
            r@ == ascii_lower_seq(s@.take(i as int)),
        decreases s@.len() - i,
    {
        r.push(ascii_lower_exec(s[i]));
        i = i + 1;
        assert(ascii_lower_seq(s@.take(i as int)) =~= ascii_lower_seq(s@.take(i - 1)).push(
            ascii_lower(s@[i - 1]),
        ));
    }
    assert(s@.take(s@.len() as int) == s@);
    r
}

pub open spec fn is_ascii_alnum(c: char) -> bool {
    ('a' <= c && c <= 'z') || ('A' <= c && c <= 'Z') || ('0' <= c && c <= '9')
}

/// What `char::is_alphanumeric` reports for `c` (Unicode `Alphabetic` or
/// `Numeric`).
pub uninterp spec fn unicode_alphanumeric(c: char) -> bool;

/// `char::is_alphanumeric`. The contract states the documented result for
/// ASCII characters (letters and decimal digits only); beyond ASCII it
/// names the Unicode property table rather than restating it.
#[verifier::external_body]
pub(crate) fn is_alphanumeric(c: char) -> (b: bool)
    ensures
        b == unicode_alphanumeric(c),
        (c as u32) < 128 ==> (b == is_ascii_alnum(c)),
{
    c.is_alphanumeric()
}

/// What `str::to_lowercase` returns for a string (full Unicode case
/// mapping, context-sensitive for final sigma).
pub uninterp spec fn unicode_lowercase(s: Seq<char>) -> Seq<char>;

pub open spec fn all_ascii(s: Seq<char>) -> bool {
    forall|i: int| 0 <= i < s.len() ==> (#[trigger] s[i] as u32) < 128
}

/// `str::to_lowercase`. For an all-ASCII string the documented result is
/// the per-character ASCII lowering; otherwise the result is named.
#[verifier::external_body]
pub(crate) fn to_lowercase(s: &str) -> (r: String)
    ensures
        r@ == unicode_lowercase(s@),
        all_ascii(s@) ==> r@ == ascii_lower_seq(s@),
{
    s.to_lowercase()
}

pub fn lowercase_vec(s: &Vec<char>) -> (r: Vec<char>)
    ensures
        r@ == unicode_lowercase(s@),
        all_ascii(s@) ==> r@ == ascii_lower_seq(s@),
{
    let st = string_of(s);
    let l = to_lowercase(st.as_str());
    chars_of(l.as_str())
}

// ---------------------------------------------------------------------
// Decimal numbers.
// ---------------------------------------------------------------------

pub open spec fn digit_char(d: int) -> char {
    (('0' as int) + d) as char
}

/// Decimal digits of `n`, most significant first, no padding.
pub open spec fn decimal(n: nat) -> Seq<char>
    decreases n,
{
    if n < 10 {
        seq![digit_char(n as int)]
    } else {
        decimal(n / 10).push(digit_char((n % 10) as int))
    }
}

/// Decimal rendering of an integer, with a leading `-` when negative.
pub open spec fn decimal_int(n: int) -> Seq<char> {
    if n < 0 {
        seq!['-'] + decimal((-n) as nat)
    } else {
        decimal(n as nat)
    }
}

/// At least two digits: a single digit gets a leading zero.
pub open spec fn pad2(n: nat) -> Seq<char> {
    if n < 10 {
        seq!['0', digit_char(n as int)]
    } else {
        decimal(n)
    }
}

pub proof fn lemma_pad2_len(n: nat)
    requires
        n < 100,
    ensures
        pad2(n).len() == 2,
{
    if n >= 10 {
        assert(decimal(n / 10) == seq![digit_char((n / 10) as int)]);
    }
}

pub fn decimal_u64(n: u64) -> (r: Vec<char>)
    ensures
        r@ == decimal(n as nat),
    decreases n,
{
    if n < 10 {
        let mut r = Vec::new();
        r.push((('0' as u8) + (n as u8)) as char);
        r
    } else {
        let mut r = decimal_u64(n / 10);
        r.push((('0' as u8) + ((n % 10) as u8)) as char);
        r
    }
}

pub fn decimal_i64(n: i64) -> (r: Vec<char>)
    ensures
        r@ == decimal_int(n as int),
{
    if n < 0 {
        let m: u64 = if n == i64::MIN {
            9223372036854775808u64
        } else {
            (-n) as u64
        };
        let d = decimal_u64(m);
        let mut r = Vec::new();
        r.push('-');
        push_all(&mut r, &d);
        r
    } else {
        decimal_u64(n as u64)
    }
}

pub fn pad2_exec(n: u64) -> (r: Vec<char>)
    ensures
        r@ == pad2(n as nat),
{
    if n < 10 {
        let mut r = Vec::new();
        r.push('0');
        r.push((('0' as u8) + (n as u8)) as char);
        r
    } else {
        decimal_u64(n)
    }
}

pub open spec fn is_digit(c: char) -> bool {
    '0' <= c && c <= '9'
}

pub open spec fn all_digits(s: Seq<char>) -> bool {
    forall|i: int| 0 <= i < s.len() ==> is_digit(#[trigger] s[i])
}

/// Value of a run of decimal digits.
pub open spec fn digits_value(s: Seq<char>) -> nat
    decreases s.len(),
{
    if s.len() == 0 {
        0
    } else {
        digits_value(s.drop_last()) * 10 + ((s.last() as int) - ('0' as int)) as nat
    }
}

/// `u32::from_str`: an optional `+`, then one or more ASCII digits whose
/// value fits in `u32`.
pub open spec fn parse_u32(s: Seq<char>) -> Option<u32> {
    let d = if s.len() > 0 && s[0] == '+' {
        s.drop_first()
    } else {
        s
    };
    if d.len() > 0 && all_digits(d) && digits_value(d) <= u32::MAX {
        Some(digits_value(d) as u32)
    } else {
        None
    }
}

/// `i32::from_str`: an optional sign, then one or more ASCII digits whose
/// signed value fits in `i32`.
pub open spec fn parse_i32(s: Seq<char>) -> Option<i32> {
    let neg = s.len() > 0 && s[0] == '-';
    let d = if s.len() > 0 && (s[0] == '+' || s[0] == '-') {
        s.drop_first()
    } else {
        s
    };
    let v: int = if neg {
        -(digits_value(d) as int)
    } else {
        digits_value(d) as int
    };
    if d.len() > 0 && all_digits(d) && i32::MIN <= v <= i32::MAX {
        Some(v as i32)
    } else {
        None
    }
}

/// Value of the digit run `s[from..to]`, or `None` when a character is not
/// a digit or the value exceeds `limit`.
fn digits_value_exec(s: &Vec<char>, from: usize, to: usize, limit: u128) -> (r: Option<u128>)
    requires
        from <= to <= s@.len(),
        limit <= i64::MAX + 1,
    ensures
        match r {
            Some(v) => all_digits(s@.subrange(from as int, to as int)) && v == digits_value(
                s@.subrange(from as int, to as int),
            ) && v <= limit,
            None => !all_digits(s@.subrange(from as int, to as int)) || digits_value(
                s@.subrange(from as int, to as int),
            ) > limit,
        },
{
    let mut acc: u128 = 0;
    let mut i = from;
    while i < to
        invariant
            from <= i <= to <= s@.len(),
            limit <= i64::MAX + 1,
            all_digits(s@.subrange(from as int, i as int)),
            acc == digits_value(s@.subrange(from as int, i as int)),
            acc <= limit,
        decreases to - i,
    {
        let c = s[i];
        let ghost prev = s@.subrange(from as int, i as int);
        let ghost next = s@.subrange(from as int, i + 1);
        assert(next.drop_last() == prev);
        assert(next.last() == c);
        if !('0' <= c && c <= '9') {
            proof {
                assert(!is_digit(next[next.len() - 1]));
                lemma_not_all_digits_extend(s@, from as int, i + 1, to as int);
            }
            return None;
        }
        let d = (c as u128) - ('0' as u128);
        acc = acc * 10 + d;
        i = i + 1;
        if acc > limit {
            proof {
                lemma_digits_value_monotone(s@, from as int, i as int, to as int);
            }
            return None;
        }
    }
    Some(acc)
}

proof fn lemma_not_all_digits_extend(s: Seq<char>, from: int, mid: int, to: int)
    requires
        0 <= from <= mid <= to <= s.len(),
        !all_digits(s.subrange(from, mid)),
    ensures
        !all_digits(s.subrange(from, to)),
{
    let k = choose|k: int| 0 <= k < mid - from && !is_digit(s.subrange(from, mid)[k]);
    assert(s.subrange(from, to)[k] == s.subrange(from, mid)[k]);
}

proof fn lemma_digits_value_monotone(s: Seq<char>, from: int, mid: int, to: int)
    requires
        0 <= from <= mid <= to <= s.len(),
    ensures
        all_digits(s.subrange(from, to)) ==> digits_value(s.subrange(from, mid)) <= digits_value(
            s.subrange(from, to),
        ),
    decreases to - mid,
{
    if mid < to && all_digits(s.subrange(from, to)) {
        lemma_digits_value_monotone(s, from, mid, to - 1);
        assert(s.subrange(from, to).drop_last() == s.subrange(from, to - 1));
        assert forall|i: int| 0 <= i < to - 1 - from implies is_digit(
            #[trigger] s.subrange(from, to - 1)[i],
        ) by {
            assert(s.subrange(from, to - 1)[i] == s.subrange(from, to)[i]);
        }
    }
}

pub fn parse_u32_exec(s: &Vec<char>) -> (r: Option<u32>)
    ensures
        r == parse_u32(s@),
{
    let start: usize = if s.len() > 0 && s[0] == '+' {
        1
    } else {
        0
    };
    let ghost d = if s@.len() > 0 && s@[0] == '+' {
        s@.drop_first()
    } else {
        s@
    };
    assert(d == s@.subrange(start as int, s@.len() as int));
    if start >= s.len() {
        return None;
    }
    match digits_value_exec(s, start, s.len(), 4294967295u128) {
        Some(v) => Some(v as u32),
        None => None,
    }
}

pub fn parse_i32_exec(s: &Vec<char>) -> (r: Option<i32>)
    ensures
        r == parse_i32(s@),
{
    let neg = s.len() > 0 && s[0] == '-';
    let start: usize = if s.len() > 0 && (s[0] == '+' || s[0] == '-') {
        1
    } else {
        0
    };
    let ghost d = if s@.len() > 0 && (s@[0] == '+' || s@[0] == '-') {
        s@.drop_first()
    } else {
        s@
    };
    assert(d == s@.subrange(start as int, s@.len() as int));
    if start >= s.len() {
        return None;
    }
    let limit: u128 = if neg {
        2147483648u128
    } else {
        2147483647u128
    };
    match digits_value_exec(s, start, s.len(), limit) {
        Some(v) => {
            if neg {
                Some((0i64 - (v as i64)) as i32)
            } else {
                Some(v as i32)
            }
        },
        None => None,
    }
}

/// `i64::from_str`: an optional sign, then one or more ASCII digits whose
/// signed value fits in `i64`.
pub open spec fn parse_i64(s: Seq<char>) -> Option<i64> {
    let neg = s.len() > 0 && s[0] == '-';
    let d = if s.len() > 0 && (s[0] == '+' || s[0] == '-') {
        s.drop_first()
    } else {
        s
    };
    let v: int = if neg {
        -(digits_value(d) as int)
    } else {
        digits_value(d) as int
    };
    if d.len() > 0 && all_digits(d) && i64::MIN <= v <= i64::MAX {
        Some(v as i64)
    } else {
        None
    }
}

pub fn parse_i64_exec(s: &Vec<char>) -> (r: Option<i64>)
    ensures
        r == parse_i64(s@),
{
    let neg = s.len() > 0 && s[0] == '-';
    let start: usize = if s.len() > 0 && (s[0] == '+' || s[0] == '-') {
        1
    } else {
        0
    };
    let ghost d = if s@.len() > 0 && (s@[0] == '+' || s@[0] == '-') {
        s@.drop_first()
    } else {
        s@
    };
    assert(d == s@.subrange(start as int, s@.len() as int));
    if start >= s.len() {
        return None;
    }
    let limit: u128 = if neg {
        9223372036854775808u128
    } else {
        9223372036854775807u128
    };
    match digits_value_exec(s, start, s.len(), limit) {
        Some(v) => {
            if neg {
                if v == 9223372036854775808u128 {
                    Some(i64::MIN)
                } else {
                    Some(0i64 - (v as i64))
                }
            } else {
                Some(v as i64)
            }
        },
        None => None,
    }
}


pub proof fn lemma_decimal_digits(n: nat)
    ensures
        decimal(n).len() >= 1,
        all_digits(decimal(n)),
        digits_value(decimal(n)) == n,
    decreases n,
{
    if n < 10 {
        let e = decimal(n);
        assert(e.drop_last() =~= Seq::<char>::empty());
        assert(digits_value(e.drop_last()) == 0);
        assert((e.last() as int) == ('0' as int) + n);
        assert(digits_value(e) == digits_value(e.drop_last()) * 10 + ((e.last() as int) - ('0' as int)) as nat);
    } else {
        lemma_decimal_digits(n / 10);
        let d = decimal(n / 10);
        let e = decimal(n);
        assert(e.drop_last() == d);
        assert((e.last() as int) == ('0' as int) + (n % 10));
        assert((n / 10) * 10 + n % 10 == n);
        assert(digits_value(e) == digits_value(e.drop_last()) * 10 + ((e.last() as int) - ('0' as int)) as nat);
        assert forall|i: int| 0 <= i < e.len() implies is_digit(#[trigger] e[i]) by {
            if i < d.len() {
                assert(e[i] == d[i]);
            }
        }
    }
}

pub proof fn lemma_parse_u32_decimal(n: u32)
    ensures
        parse_u32(decimal(n as nat)) == Some(n),
{
    lemma_decimal_digits(n as nat);
    assert(is_digit(decimal(n as nat)[0]));
}

/// A non-empty trim starts and ends with a non-whitespace character.
pub proof fn lemma_trim_ends(s: Seq<char>)
    ensures
        trim(s).len() <= s.len(),
        trim(s).len() > 0 ==> !is_ws(trim(s)[0]) && !is_ws(trim(s)[trim(s).len() - 1]),
{
    lemma_first_non_ws(s, 0);
    let u = trim_start(s);
    lemma_end_non_ws(u, u.len() as int);
}

/// A text that neither starts nor ends with whitespace is its own trim.
pub proof fn lemma_trim_no_ws_ends(t: Seq<char>)
    requires
        t.len() > 0,
        !is_ws(t[0]),
        !is_ws(t[t.len() - 1]),
    ensures
        trim(t) == t,
{
    assert(first_non_ws(t, 0) == 0);
    assert(t.skip(0) =~= t);
    assert(end_non_ws(t, t.len() as int) == t.len());
    assert(t.take(t.len() as int) =~= t);
}


/// Lexicographic order of character sequences by code point, the order
/// `str`'s comparison gives (UTF-8 byte order follows code points).
pub open spec fn seq_lt(a: Seq<char>, b: Seq<char>) -> bool
    decreases a.len(),
{
    if a.len() == 0 {
        b.len() > 0
    } else if b.len() == 0 {
        false
    } else if a[0] != b[0] {
        (a[0] as u32) < (b[0] as u32)
    } else {
        seq_lt(a.drop_first(), b.drop_first())
    }
}

/// Distinct characters have distinct code points.
pub proof fn lemma_char_u32_injective(a: char, b: char)
    ensures
        a != b ==> (a as u32) != (b as u32),
{
    vstd::utf8::char_u32_cast(a, a as u32);
    vstd::utf8::char_u32_cast(b, b as u32);
}

/// `seq_lt` is asymmetric.
pub proof fn lemma_seq_lt_asym(a: Seq<char>, b: Seq<char>)
    ensures
        seq_lt(a, b) ==> !seq_lt(b, a),
    decreases a.len(),
{
    if a.len() > 0 && b.len() > 0 && a[0] == b[0] {
        lemma_seq_lt_asym(a.drop_first(), b.drop_first());
    }
}

/// `seq_lt` splits: whatever lies strictly between two sequences in the
/// order lies strictly above the first or strictly below the second.
pub proof fn lemma_seq_lt_split(a: Seq<char>, b: Seq<char>, c: Seq<char>)
    ensures
        seq_lt(a, c) ==> seq_lt(a, b) || seq_lt(b, c),
    decreases a.len(),
{
    if a.len() > 0 && b.len() > 0 && c.len() > 0 {
        lemma_char_u32_injective(a[0], b[0]);
        lemma_char_u32_injective(b[0], c[0]);
        lemma_char_u32_injective(a[0], c[0]);
        if a[0] == c[0] && b[0] == a[0] {
            lemma_seq_lt_split(a.drop_first(), b.drop_first(), c.drop_first());
        }
    }
}

/// `seq_lt` is total on distinct sequences.
pub proof fn lemma_seq_lt_total(a: Seq<char>, b: Seq<char>)
    ensures
        a != b ==> seq_lt(a, b) || seq_lt(b, a),
    decreases a.len(),
{
    if a.len() > 0 && b.len() > 0 {
        lemma_char_u32_injective(a[0], b[0]);
    }
    if a.len() > 0 && b.len() > 0 && a[0] == b[0] {
        lemma_seq_lt_total(a.drop_first(), b.drop_first());
        if a.drop_first() == b.drop_first() {
            assert(a =~= seq![a[0]] + a.drop_first());
            assert(b =~= seq![b[0]] + b.drop_first());
        }
    } else if a.len() == 0 && b.len() == 0 {
        assert(a =~= b);
    }
}

/// Lexicographic order of pairs of character sequences.
pub open spec fn pair_lt(a: (Seq<char>, Seq<char>), b: (Seq<char>, Seq<char>)) -> bool {
    seq_lt(a.0, b.0) || (a.0 == b.0 && seq_lt(a.1, b.1))
}

pub proof fn lemma_pair_lt_asym(a: (Seq<char>, Seq<char>), b: (Seq<char>, Seq<char>))
    ensures
        pair_lt(a, b) ==> !pair_lt(b, a),
{
    lemma_seq_lt_asym(a.0, b.0);
    lemma_seq_lt_asym(a.1, b.1);
    lemma_seq_lt_asym(b.0, a.0);
}

pub proof fn lemma_pair_lt_split(
    a: (Seq<char>, Seq<char>),
    b: (Seq<char>, Seq<char>),
    c: (Seq<char>, Seq<char>),
)
    ensures
        pair_lt(a, c) ==> pair_lt(a, b) || pair_lt(b, c),
{
    lemma_seq_lt_split(a.0, b.0, c.0);
    lemma_seq_lt_split(a.1, b.1, c.1);
    lemma_seq_lt_total(a.0, b.0);
}

/// Whether `a` sorts strictly before `b`.
pub fn seq_lt_exec(a: &Vec<char>, b: &Vec<char>) -> (r: bool)
    ensures
        r == seq_lt(a@, b@),
{
    let mut i: usize = 0;
    assert(a@.skip(0) =~= a@);
    assert(b@.skip(0) =~= b@);
    while i < a.len() && i < b.len()
        invariant
            i <= a@.len(),
            i <= b@.len(),
            seq_lt(a@, b@) == seq_lt(a@.skip(i as int), b@.skip(i as int)),
        decreases a@.len() - i,
    {
        let ghost sa = a@.skip(i as int);
        let ghost sb = b@.skip(i as int);
        assert(sa[0] == a@[i as int]);
        assert(sb[0] == b@[i as int]);
        if a[i] != b[i] {
            return (a[i] as u32) < (b[i] as u32);
        }
        assert(sa.drop_first() =~= a@.skip(i + 1));
        assert(sb.drop_first() =~= b@.skip(i + 1));
        i = i + 1;
    }
    i < b.len()
}

/// `str::strip_prefix`.
pub open spec fn strip_prefix(s: Seq<char>, p: Seq<char>) -> Option<Seq<char>> {
    if starts_with(s, p) {
        Some(s.skip(p.len() as int))
    } else {
        None
    }
}

/// `str::strip_suffix`.
pub open spec fn strip_suffix(s: Seq<char>, p: Seq<char>) -> Option<Seq<char>> {
    if ends_with(s, p) {
        Some(s.take(s.len() - p.len()))
    } else {
        None
    }
}

pub fn strip_prefix_exec(s: &Vec<char>, p: &Vec<char>) -> (r: Option<Vec<char>>)
    ensures
        match strip_prefix(s@, p@) {
            Some(t) => r matches Some(v) && v@ == t,
            None => r is None,
        },
{
    if starts_with_exec(s, p) {
        Some(slice_of(s, p.len(), s.len()))
    } else {
        None
    }
}

pub fn strip_suffix_exec(s: &Vec<char>, p: &Vec<char>) -> (r: Option<Vec<char>>)
    ensures
        match strip_suffix(s@, p@) {
            Some(t) => r matches Some(v) && v@ == t,
            None => r is None,
        },
{
    if ends_with_exec(s, p) {
        Some(slice_of(s, 0, s.len() - p.len()))
    } else {
        None
    }
}

/// Convert a vector of character vectors into strings.
pub fn strings_of(v: &Vec<Vec<char>>) -> (r: Vec<String>)
    ensures
        r@.len() == v@.len(),
        forall|k: int| 0 <= k < r@.len() ==> #[trigger] r@[k]@ == v@[k]@,
{
    let mut r: Vec<String> = Vec::new();
    let mut i: usize = 0;
    while i < v.len()
        invariant
            i <= v@.len(),
            r@.len() == i,
            forall|k: int| 0 <= k < i ==> #[trigger] r@[k]@ == v@[k]@,
        decreases v@.len() - i,
    {
        r.push(string_of(&v[i]));
        i = i + 1;
    }
    r
}

/// A copy of a vector of strings, element by element.
pub fn copy_strings(v: &Vec<String>) -> (r: Vec<String>)
    ensures
        string_views(r@) == string_views(v@),
{
    let mut r: Vec<String> = Vec::new();
    let mut i: usize = 0;
    while i < v.len()
        invariant
            i <= v@.len(),
            string_views(r@) == string_views(v@).take(i as int),
        decreases v@.len() - i,
    {
        let ghost old_r = string_views(r@);
        r.push(string_of(&chars_of(v[i].as_str())));
        assert(string_views(r@) =~= old_r.push(v@[i as int]@));
        assert(string_views(r@) =~= string_views(v@).take(i + 1));
        i = i + 1;
    }
    assert(string_views(v@).take(v@.len() as int) =~= string_views(v@));
    r
}

/// `e` inserted into `s` after every entry that does not sort after it.
pub open spec fn insert_sorted_seq(s: Seq<Seq<char>>, e: Seq<char>) -> Seq<Seq<char>>
    decreases s.len(),
{
    if s.len() == 0 {
        seq![e]
    } else if seq_lt(e, s.last()) {
        insert_sorted_seq(s.drop_last(), e).push(s.last())
    } else {
        s.push(e)
    }
}

/// The stable sort of `s` in code-point order.
pub open spec fn sorted_seqs(s: Seq<Seq<char>>) -> Seq<Seq<char>>
    decreases s.len(),
{
    if s.len() == 0 {
        Seq::empty()
    } else {
        insert_sorted_seq(sorted_seqs(s.drop_last()), s.last())
    }
}

/// Sort strings in code-point order, equal ones keeping their order.
pub fn sort_strings(v: &Vec<String>) -> (r: Vec<String>)
    ensures
        string_views(r@) == sorted_seqs(string_views(v@)),
{
    let ghost sv = string_views(v@);
    let mut out: Vec<String> = Vec::new();
    let mut i: usize = 0;
    while i < v.len()
        invariant
            i <= v@.len(),
            sv == string_views(v@),
            string_views(out@) == sorted_seqs(sv.take(i as int)),
        decreases v@.len() - i,
    {
        assert(sv.take(i + 1).drop_last() =~= sv.take(i as int));
        assert(sv.take(i + 1).last() == v@[i as int]@);
        let e = chars_of(v[i].as_str());
        let ghost s = string_views(out@);
        let mut p = out.len();
        assert(s.take(p as int) =~= s);
        assert(s.skip(p as int) =~= Seq::<Seq<char>>::empty());
        loop
            invariant
                p <= out@.len(),
                s == string_views(out@),
                insert_sorted_seq(s, e@) == insert_sorted_seq(s.take(p as int), e@) + s.skip(
                    p as int,
                ),
            ensures
                p <= out@.len(),
                insert_sorted_seq(s, e@) == insert_sorted_seq(s.take(p as int), e@) + s.skip(
                    p as int,
                ),
                p == 0 || !seq_lt(e@, s[p - 1]),
            decreases p,
        {
            if p == 0 {
                break;
            }
            let q = p - 1;
            assert(s[q as int] == out@[q as int]@);
            if !seq_lt_exec(&e, &chars_of(out[q].as_str())) {
                break;
            }
            let ghost t = s.take(p as int);
            assert(t.last() == s[q as int]);
            assert(t.drop_last() =~= s.take(q as int));
            assert(insert_sorted_seq(s.take(q as int), e@).push(s[q as int]) + s.skip(p as int)
                =~= insert_sorted_seq(s.take(q as int), e@) + s.skip(q as int));
            p = q;
        }
        proof {
            let t = s.take(p as int);
            if p > 0 {
                assert(t.last() == s[p - 1]);
            }
            assert(insert_sorted_seq(t, e@) =~= t.push(e@));
        }
        out.insert(p, string_of(&e));
        assert(string_views(out@) =~= s.take(p as int).push(e@) + s.skip(p as int));
        i = i + 1;
    }
    assert(sv.take(sv.len() as int) =~= sv);
    out
}

pub open spec fn pair_views(v: Seq<(String, String)>) -> Seq<(Seq<char>, Seq<char>)> {
    v.map_values(|p: (String, String)| (p.0@, p.1@))
}

/// `e` inserted into `s` after every pair whose key does not sort after
/// its key.
pub open spec fn insert_pair_by_key(s: Seq<(Seq<char>, Seq<char>)>, e: (Seq<char>, Seq<char>)) -> Seq<
    (Seq<char>, Seq<char>),
>
    decreases s.len(),
{
    if s.len() == 0 {
        seq![e]
    } else if seq_lt(e.0, s.last().0) {
        insert_pair_by_key(s.drop_last(), e).push(s.last())
    } else {
        s.push(e)
    }
}

/// The stable sort of pairs by their first component.
pub open spec fn sorted_pairs(s: Seq<(Seq<char>, Seq<char>)>) -> Seq<(Seq<char>, Seq<char>)>
    decreases s.len(),
{
    if s.len() == 0 {
        Seq::empty()
    } else {
        insert_pair_by_key(sorted_pairs(s.drop_last()), s.last())
    }
}

/// Sort string pairs by their first component, ties keeping their order.
pub fn sort_pairs_by_key(v: &Vec<(String, String)>) -> (r: Vec<(String, String)>)
    ensures
        pair_views(r@) == sorted_pairs(pair_views(v@)),
{
    let ghost sv = pair_views(v@);
    let mut out: Vec<(String, String)> = Vec::new();
    let mut i: usize = 0;
    while i < v.len()
        invariant
            i <= v@.len(),
            sv == pair_views(v@),
            pair_views(out@) == sorted_pairs(sv.take(i as int)),
        decreases v@.len() - i,
    {
        assert(sv.take(i + 1).drop_last() =~= sv.take(i as int));
        assert(sv.take(i + 1).last() == (v@[i as int].0@, v@[i as int].1@));
        let k = chars_of(v[i].0.as_str());
        let m = chars_of(v[i].1.as_str());
        let ghost e = (k@, m@);
        let ghost s = pair_views(out@);
        let mut p = out.len();
        assert(s.take(p as int) =~= s);
        assert(s.skip(p as int) =~= Seq::<(Seq<char>, Seq<char>)>::empty());
        loop
            invariant
                p <= out@.len(),
                s == pair_views(out@),
                e == (k@, m@),
                insert_pair_by_key(s, e) == insert_pair_by_key(s.take(p as int), e) + s.skip(
                    p as int,
                ),
            ensures
                p <= out@.len(),
                insert_pair_by_key(s, e) == insert_pair_by_key(s.take(p as int), e) + s.skip(
                    p as int,
                ),
                p == 0 || !seq_lt(e.0, s[p - 1].0),
            decreases p,
        {
            if p == 0 {
                break;
            }
            let q = p - 1;
            assert(s[q as int].0 == out@[q as int].0@);
            if !seq_lt_exec(&k, &chars_of(out[q].0.as_str())) {
                break;
            }
            let ghost t = s.take(p as int);
            assert(t.last() == s[q as int]);
            assert(t.drop_last() =~= s.take(q as int));
            assert(insert_pair_by_key(s.take(q as int), e).push(s[q as int]) + s.skip(p as int)
                =~= insert_pair_by_key(s.take(q as int), e) + s.skip(q as int));
            p = q;
        }
        proof {
            let t = s.take(p as int);
            if p > 0 {
                assert(t.last() == s[p - 1]);
            }
            assert(insert_pair_by_key(t, e) =~= t.push(e));
        }
        out.insert(p, (string_of(&k), string_of(&m)));
        assert(pair_views(out@) =~= s.take(p as int).push(e) + s.skip(p as int));
        i = i + 1;
    }
    assert(sv.take(sv.len() as int) =~= sv);
    out
}

/// Convert a vector of strings into character vectors.
pub fn char_vecs_of(v: &Vec<String>) -> (r: Vec<Vec<char>>)
    ensures
        r@.len() == v@.len(),
        forall|k: int| 0 <= k < r@.len() ==> #[trigger] r@[k]@ == v@[k]@,
{
    let mut r: Vec<Vec<char>> = Vec::new();
    let mut i: usize = 0;
    while i < v.len()
        invariant
            i <= v@.len(),
            r@.len() == i,
            forall|k: int| 0 <= k < i ==> #[trigger] r@[k]@ == v@[k]@,
        decreases v@.len() - i,
    {
        r.push(chars_of(v[i].as_str()));
        i = i + 1;
    }
    r
}

/// The character views of a sequence of character vectors.
pub open spec fn views(v: Seq<Vec<char>>) -> Seq<Seq<char>> {
    v.map_values(|x: Vec<char>| x@)
}

/// The character views of a sequence of strings.
pub open spec fn string_views(v: Seq<String>) -> Seq<Seq<char>> {
    v.map_values(|x: String| x@)
}

/// Indices `i < n` satisfying `p`, in increasing order.
pub open spec fn indices_where(n: int, p: spec_fn(int) -> bool) -> Seq<int>
    decreases n,
{
    if n <= 0 {
        Seq::empty()
    } else if p(n - 1) {
        indices_where(n - 1, p).push(n - 1)
    } else {
        indices_where(n - 1, p)
    }
}

pub proof fn lemma_indices_where(n: int, p: spec_fn(int) -> bool)
    ensures
        forall|k: int|
            0 <= k < indices_where(n, p).len() ==> 0 <= #[trigger] indices_where(n, p)[k] < n && p(
                indices_where(n, p)[k],
            ),
        forall|k: int, m: int|
            0 <= k < m < indices_where(n, p).len() ==> indices_where(n, p)[k] < indices_where(
                n,
                p,
            )[m],
        forall|i: int| 0 <= i < n && p(i) ==> indices_where(n, p).contains(i),
    decreases n,
{
    if n > 0 {
        lemma_indices_where(n - 1, p);
        let prev = indices_where(n - 1, p);
        assert forall|i: int| 0 <= i < n && p(i) implies indices_where(n, p).contains(i) by {
            if i < n - 1 {
                assert(prev.contains(i));
                let k = choose|k: int| 0 <= k < prev.len() && prev[k] == i;
                assert(indices_where(n, p)[k] == prev[k]);
            } else {
                assert(indices_where(n, p)[prev.len() as int] == i);
            }
        }
    }
}

/// Sequence `s` with position `idx` removed.
pub open spec fn remove_at<A>(s: Seq<A>, idx: int) -> Seq<A> {
    s.take(idx) + s.skip(idx + 1)
}

/// Drop the element at `idx`.
pub fn remove_line(lines: &Vec<Vec<char>>, idx: usize) -> (r: Vec<Vec<char>>)
    requires
        idx < lines@.len(),
    ensures
        views(r@) == remove_at(views(lines@), idx as int),
{
    let mut r: Vec<Vec<char>> = Vec::new();
    let mut i: usize = 0;
    while i < lines.len()
        invariant
            i <= lines@.len(),
            idx < lines@.len(),
            views(r@) == (if i <= idx {
                views(lines@).take(i as int)
            } else {
                views(lines@).take(idx as int) + views(lines@).subrange(idx + 1, i as int)
            }),
        decreases lines@.len() - i,
    {
        if i != idx {
            r.push(lines[i].clone());
        }
        proof {
            let vl = views(lines@);
            if i < idx {
                assert(vl.take(i + 1) =~= vl.take(i as int).push(vl[i as int]));
            } else if i == idx {
                assert(vl.take(idx as int) + vl.subrange(idx + 1, i + 1) =~= vl.take(idx as int));
            } else {
                assert(vl.take(idx as int) + vl.subrange(idx + 1, i + 1) =~= (vl.take(idx as int)
                    + vl.subrange(idx + 1, i as int)).push(vl[i as int]));
            }
        }
        i = i + 1;
    }
    proof {
        let vl = views(lines@);
        assert(vl.subrange(idx + 1, lines@.len() as int) =~= vl.skip(idx + 1));
    }
    r
}

/// Replace the element at `idx`.
pub fn replace_line(lines: &Vec<Vec<char>>, idx: usize, line: Vec<char>) -> (r: Vec<Vec<char>>)
    requires
        idx < lines@.len(),
    ensures
        views(r@) == views(lines@).update(idx as int, line@),
{
    let mut r: Vec<Vec<char>> = Vec::new();
    let mut i: usize = 0;
    let ghost target = views(lines@).update(idx as int, line@);
    while i < lines.len()
        invariant
            i <= lines@.len(),
            idx < lines@.len(),
            target == views(lines@).update(idx as int, line@),
            views(r@) == target.take(i as int),
        decreases lines@.len() - i,
    {
        if i == idx {
            r.push(line.clone());
        } else {
            r.push(lines[i].clone());
        }
        assert(target.take(i + 1) =~= target.take(i as int).push(target[i as int]));
        i = i + 1;
    }
    assert(target.take(lines@.len() as int) =~= target);
    r
}

} // verus!

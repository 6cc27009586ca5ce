//! Slugs: the filename stems and wikilink targets derived from titles.

use vstd::prelude::*;

use crate::text::{
    chars_of, decimal, decimal_u64, eq_exec, is_alphanumeric, join, join_exec, lowercase_vec,
    push_all, rfind, rfind_exec, slice_of, split_ws, split_ws_exec, string_of,
    unicode_alphanumeric, unicode_lowercase,
};

verus! {

/// Maximum number of words kept from the source text.
pub const SLUG_MAX_WORDS: usize = 6;

/// Hard character cap on a slug.
pub const SLUG_MAX_CHARS: usize = 50;

/// Floor on what backing off to a word boundary may leave.
pub const SLUG_MIN_AFTER_RETREAT: usize = 25;

/// Bound on the disambiguation counter.
pub const SLUG_COLLISION_LIMIT: usize = 1000;

/// A character a slug keeps: alphanumeric, and its own lower case.
pub open spec fn word_char(d: char) -> bool {
    unicode_alphanumeric(d) && unicode_lowercase(seq![d]) == seq![d]
}

/// The characters of `s` a slug keeps, in order.
pub open spec fn kept_lower(s: Seq<char>) -> Seq<char>
    decreases s.len(),
{
    if s.len() == 0 {
        Seq::empty()
    } else if word_char(s.last()) {
        kept_lower(s.drop_last()).push(s.last())
    } else {
        kept_lower(s.drop_last())
    }
}

/// What one character of the text becomes: an alphanumeric its Unicode
/// lower case (what of it is alphanumeric and its own lower case), any
/// other character a space.
pub open spec fn slug_piece(c: char) -> Seq<char> {
    if unicode_alphanumeric(c) {
        kept_lower(unicode_lowercase(seq![c]))
    } else {
        seq![' ']
    }
}

/// The text with every character replaced by its piece.
pub open spec fn slug_clean(s: Seq<char>) -> Seq<char>
    decreases s.len(),
{
    if s.len() == 0 {
        Seq::empty()
    } else {
        slug_clean(s.drop_last()) + slug_piece(s.last())
    }
}

/// Every character of a cleaned text is a space or one a slug keeps.
pub proof fn lemma_clean_chars(s: Seq<char>)
    ensures
        forall|k: int|
            0 <= k < slug_clean(s).len() ==> #[trigger] slug_clean(s)[k] == ' ' || word_char(
                slug_clean(s)[k],
            ),
    decreases s.len(),
{
    if s.len() > 0 {
        lemma_clean_chars(s.drop_last());
        let a = slug_clean(s.drop_last());
        let c = s.last();
        if unicode_alphanumeric(c) {
            lemma_kept_chars(unicode_lowercase(seq![c]));
        }
        let p = slug_piece(c);
        assert forall|k: int| 0 <= k < slug_clean(s).len() implies #[trigger] slug_clean(s)[k]
            == ' ' || word_char(slug_clean(s)[k]) by {
            if k < a.len() {
                assert(slug_clean(s)[k] == a[k]);
            } else {
                assert(slug_clean(s)[k] == p[k - a.len()]);
            }
        }
    }
}

proof fn lemma_kept_chars(s: Seq<char>)
    ensures
        forall|k: int| 0 <= k < kept_lower(s).len() ==> word_char(#[trigger] kept_lower(s)[k]),
    decreases s.len(),
{
    if s.len() > 0 {
        let a = kept_lower(s.drop_last());
        lemma_kept_chars(s.drop_last());
        if word_char(s.last()) {
            assert forall|k: int| 0 <= k < kept_lower(s).len() implies word_char(
                #[trigger] kept_lower(s)[k],
            ) by {
                if k < a.len() {
                    assert(kept_lower(s)[k] == a[k]);
                }
            }
        }
    }
}

/// The first (up to six) words of the cleaned text.
pub open spec fn slug_words(s: Seq<char>) -> Seq<Seq<char>> {
    let w = split_ws(slug_clean(s));
    if w.len() > SLUG_MAX_WORDS {
        w.take(SLUG_MAX_WORDS as int)
    } else {
        w
    }
}

/// The slug of `s`: its first words joined by `-`, `untitled` when there
/// are none. Over 50 characters it is cut at 50, backing off to the last
/// `-` when the cut splits a word and at least 25 characters would remain.
pub open spec fn slugify_spec(s: Seq<char>) -> Seq<char> {
    let words = slug_words(s);
    if words.len() == 0 {
        "untitled"@
    } else {
        let full = join(words, seq!['-']);
        if full.len() <= SLUG_MAX_CHARS {
            full
        } else {
            let cut = full.take(SLUG_MAX_CHARS as int);
            if full[SLUG_MAX_CHARS as int] == '-' {
                cut
            } else {
                match rfind(cut, seq!['-']) {
                    Some(sep) => if sep >= SLUG_MIN_AFTER_RETREAT {
                        cut.take(sep)
                    } else {
                        cut
                    },
                    None => cut,
                }
            }
        }
    }
}

fn slug_clean_exec(s: &Vec<char>) -> (r: Vec<char>)
    ensures
        r@ == slug_clean(s@),
{
    let mut r: Vec<char> = Vec::new();
    let mut i: usize = 0;
    while i < s.len()
        invariant
            i <= s@.len(),
            r@ == slug_clean(s@.take(i as int)),
        decreases s@.len() - i,
    {
        let c = s[i];
        let ghost before = r@;
        assert(s@.take(i + 1).drop_last() =~= s@.take(i as int));
        assert(s@.take(i + 1).last() == c);
        if is_alphanumeric(c) {
            let one = vec![c];
            assert(one@ =~= seq![c]);
            let low = lowercase_vec(&one);
            let mut j: usize = 0;
            while j < low.len()
                invariant
                    j <= low@.len(),
                    low@ == unicode_lowercase(seq![c]),
                    r@ == before + kept_lower(low@.take(j as int)),
                decreases low@.len() - j,
            {
                let d = low[j];
                assert(low@.take(j + 1).drop_last() =~= low@.take(j as int));
                assert(low@.take(j + 1).last() == d);
                let single = vec![d];
                assert(single@ =~= seq![d]);
                let own = lowercase_vec(&single);
                if is_alphanumeric(d) && eq_exec(&own, &single) {
                    r.push(d);
                    assert(r@ =~= before + kept_lower(low@.take(j + 1)));
                }
                j = j + 1;
            }
            assert(low@.take(low@.len() as int) =~= low@);
        } else {
            r.push(' ');
            assert(r@ =~= before + seq![' ']);
        }
        i = i + 1;
    }
    assert(s@.take(s@.len() as int) == s@);
    r
}

/// Build a slug from the first words of `text`: alphanumerics in their
/// Unicode lower case joined by `-`, capped at six words and fifty characters, `untitled` when
/// the text holds no alphanumerics.
pub fn slugify(text: &str) -> (r: String)
    ensures
        r@ == slugify_spec(text@),
{
    let v = chars_of(text);
    let cleaned = slug_clean_exec(&v);
    let all_words = split_ws_exec(&cleaned);
    let ghost w = split_ws(slug_clean(v@));
    let mut words: Vec<Vec<char>> = Vec::new();
    let mut i: usize = 0;
    while i < all_words.len() && i < SLUG_MAX_WORDS
        invariant
            i <= all_words@.len(),
            i <= SLUG_MAX_WORDS,
            all_words@.len() == w.len(),
            forall|k: int| 0 <= k < all_words@.len() ==> #[trigger] all_words@[k]@ == w[k],
            words@.len() == i,
            forall|k: int| 0 <= k < i ==> #[trigger] words@[k]@ == w[k],
        decreases all_words@.len() - i,
    {
        words.push(all_words[i].clone());
        i = i + 1;
    }
    proof {
        assert(words@.map_values(|x: Vec<char>| x@) =~= slug_words(v@));
    }
    if words.len() == 0 {
        return "untitled".to_owned();
    }
    let full = join_exec(&words, &chars_of("-"));
    proof {
        reveal_strlit("-");
        assert("-"@ =~= seq!['-']);
    }
    if full.len() <= SLUG_MAX_CHARS {
        return string_of(&full);
    }
    let cut = slice_of(&full, 0, SLUG_MAX_CHARS);
    assert(cut@ == full@.take(SLUG_MAX_CHARS as int));
    if full[SLUG_MAX_CHARS] == '-' {
        return string_of(&cut);
    }
    let dash = chars_of("-");
    proof {
        crate::text::lemma_rfind_upto(cut@, dash@, cut@.len() - dash@.len());
    }
    match rfind_exec(&cut, &dash) {
        Some(sep) => {
            if sep >= SLUG_MIN_AFTER_RETREAT {
                let kept = slice_of(&cut, 0, sep);
                assert(kept@ == cut@.take(sep as int));
                string_of(&kept)
            } else {
                string_of(&cut)
            }
        },
        None => string_of(&cut),
    }
}

/// Whether `s` appears in `taken`.
pub open spec fn is_taken(taken: Seq<String>, s: Seq<char>) -> bool {
    exists|i: int| 0 <= i < taken.len() && #[trigger] taken[i]@ == s
}

fn is_taken_exec(taken: &Vec<String>, s: &Vec<char>) -> (b: bool)
    ensures
        b == is_taken(taken@, s@),
{
    let mut i: usize = 0;
    while i < taken.len()
        invariant
            i <= taken@.len(),
            forall|k: int| 0 <= k < i ==> #[trigger] taken@[k]@ != s@,
        decreases taken@.len() - i,
    {
        if eq_exec(&chars_of(taken[i].as_str()), s) {
            return true;
        }
        i = i + 1;
    }
    false
}

/// The candidate stem `base-n`.
pub open spec fn numbered(base: Seq<char>, n: int) -> Seq<char> {
    base + seq!['-'] + decimal(n as nat)
}

/// The first free numbered stem `base-n` with `n` in `from..limit`.
pub open spec fn first_free(taken: Seq<String>, base: Seq<char>, from: int) -> Option<Seq<char>>
    decreases SLUG_COLLISION_LIMIT - from,
{
    if from < 2 || from >= SLUG_COLLISION_LIMIT {
        None
    } else if !is_taken(taken, numbered(base, from)) {
        Some(numbered(base, from))
    } else {
        first_free(taken, base, from + 1)
    }
}

/// Return a stem unique against `taken`: `base` if it's free, else the first
/// free of `base-2`, `base-3`, … below the collision limit; `None` when that
/// whole range is taken.
pub fn disambiguate_slug(base: &str, taken: &Vec<String>) -> (r: Option<String>)
    ensures
        !is_taken(taken@, base@) ==> (r matches Some(s) && s@ == base@),
        is_taken(taken@, base@) ==> match first_free(taken@, base@, 2) {
            Some(s) => (r matches Some(t) && t@ == s),
            None => r is None,
        },
{
    let b = chars_of(base);
    if !is_taken_exec(taken, &b) {
        return Some(base.to_owned());
    }
    let mut n: usize = 2;
    while n < SLUG_COLLISION_LIMIT
        invariant
            2 <= n <= SLUG_COLLISION_LIMIT,
            b@ == base@,
            is_taken(taken@, b@),
            first_free(taken@, b@, 2) == first_free(taken@, b@, n as int),
        decreases SLUG_COLLISION_LIMIT - n,
    {
        let mut cand = b.clone();
        cand.push('-');
        push_all(&mut cand, &decimal_u64(n as u64));
        assert(cand@ == numbered(b@, n as int));
        if !is_taken_exec(taken, &cand) {
            return Some(string_of(&cand));
        }
        n = n + 1;
    }
    None
}

} // verus!

//! The shape of every slug: a usable file name of at most six words that
//! ends on a word, and that slugifies to itself.

use vstd::prelude::*;

use crate::slug::{
    kept_lower, lemma_clean_chars, slug_clean, slug_piece, slug_words, slugify_spec, word_char,
    SLUG_MAX_CHARS, SLUG_MAX_WORDS,
};
use crate::text::{
    is_ws, join, lemma_rfind_upto, occurs_at, rfind, split_ws, unicode_alphanumeric, words_acc,
};

verus! {

/// Text of characters a slug keeps: no whitespace and, when `nodash`, no `-`.
spec fn solid(s: Seq<char>, nodash: bool) -> bool {
    forall|k: int|
        0 <= k < s.len() ==> !is_ws(#[trigger] s[k]) && word_char(s[k]) && (nodash ==> s[k]
            != '-')
}

/// Every character of `s` is `-` or one a slug keeps: an alphanumeric that
/// is its own lower case.
pub open spec fn slug_chars(s: Seq<char>) -> bool {
    forall|k: int| 0 <= k < s.len() ==> #[trigger] s[k] == '-' || word_char(s[k])
}

/// The words of a text of spaces and kept characters are non-empty runs of
/// kept characters; when the text holds no `-`, neither do its words.
proof fn lemma_words_solid(s: Seq<char>, cur: Seq<char>, nodash: bool)
    requires
        solid(cur, nodash),
        forall|k: int| 0 <= k < s.len() ==> #[trigger] s[k] == ' ' || word_char(s[k]),
        nodash ==> forall|k: int| 0 <= k < s.len() ==> #[trigger] s[k] != '-',
    ensures
        forall|i: int|
            0 <= i < words_acc(s, cur).len() ==> (#[trigger] words_acc(s, cur)[i]).len() > 0
                && solid(words_acc(s, cur)[i], nodash),
    decreases s.len(),
{
    if s.len() > 0 {
        let rest = s.drop_first();
        assert forall|k: int| 0 <= k < rest.len() implies #[trigger] rest[k] == ' ' || word_char(
            rest[k],
        ) by {
            assert(rest[k] == s[k + 1]);
        }
        assert(nodash ==> forall|k: int| 0 <= k < rest.len() ==> #[trigger] rest[k] != '-') by {
            if nodash {
                assert forall|k: int| 0 <= k < rest.len() implies #[trigger] rest[k] != '-' by {
                    assert(rest[k] == s[k + 1]);
                }
            }
        }
        if is_ws(s[0]) {
            lemma_words_solid(rest, Seq::empty(), nodash);
            let head: Seq<Seq<char>> = if cur.len() > 0 {
                seq![cur]
            } else {
                Seq::empty()
            };
            let tail = words_acc(rest, Seq::empty());
            assert(words_acc(s, cur) == head + tail);
            assert forall|i: int| 0 <= i < words_acc(s, cur).len() implies (#[trigger] words_acc(
                s,
                cur,
            )[i]).len() > 0 && solid(words_acc(s, cur)[i], nodash) by {
                if i < head.len() {
                    assert(words_acc(s, cur)[i] == cur);
                } else {
                    assert(words_acc(s, cur)[i] == tail[i - head.len()]);
                }
            }
        } else {
            let c2 = cur.push(s[0]);
            assert(nodash ==> s[0] != '-');
            assert(s[0] == ' ' || word_char(s[0]));
            assert(word_char(s[0]));
            assert(words_acc(s, cur) == words_acc(rest, c2));
            assert(solid(c2, nodash)) by {
                assert forall|k: int| 0 <= k < c2.len() implies !is_ws(#[trigger] c2[k]) && (nodash
                    ==> c2[k] != '-') by {
                    if k < cur.len() {
                        assert(c2[k] == cur[k]);
                    }
                }
            }
            lemma_words_solid(rest, c2, nodash);
        }
    } else if cur.len() > 0 {
        assert(words_acc(s, cur) == seq![cur]);
    }
}

/// A text well formed as a slug: non-empty, no whitespace, and (when
/// `nodash`) neither starting nor ending with `-` nor holding `--`.
pub open spec fn slug_shaped(s: Seq<char>, nodash: bool) -> bool {
    &&& s.len() > 0
    &&& forall|k: int| 0 <= k < s.len() ==> !is_ws(#[trigger] s[k])
    &&& nodash ==> s[0] != '-' && s[s.len() - 1] != '-' && forall|k: int|
        0 <= k < s.len() - 1 ==> !(#[trigger] s[k] == '-' && s[k + 1] == '-')
}

/// Solid words joined by `-` are shaped as a slug.
proof fn lemma_join_shaped(ws: Seq<Seq<char>>, nodash: bool)
    requires
        ws.len() > 0,
        forall|i: int| 0 <= i < ws.len() ==> (#[trigger] ws[i]).len() > 0 && solid(ws[i], nodash),
    ensures
        slug_shaped(join(ws, seq!['-']), nodash),
        slug_chars(join(ws, seq!['-'])),
    decreases ws.len(),
{
    let w0 = ws[0];
    assert(w0.len() > 0 && solid(w0, nodash));
    if ws.len() == 1 {
        assert(join(ws, seq!['-']) == w0);
    } else {
        let rest = ws.drop_first();
        assert forall|i: int| 0 <= i < rest.len() implies (#[trigger] rest[i]).len() > 0 && solid(
            rest[i],
            nodash,
        ) by {
            assert(rest[i] == ws[i + 1]);
        }
        lemma_join_shaped(rest, nodash);
        let jr = join(rest, seq!['-']);
        let j = join(ws, seq!['-']);
        assert(j == w0 + seq!['-'] + jr);
        let n = w0.len() as int;
        assert forall|k: int| 0 <= k < j.len() implies !is_ws(#[trigger] j[k]) && (j[k] == '-'
            || word_char(j[k])) by {
            if k < n {
                assert(j[k] == w0[k]);
            } else if k > n {
                assert(j[k] == jr[k - n - 1]);
            }
        }
        if nodash {
            assert(j[0] == w0[0]);
            assert(j[j.len() - 1] == jr[jr.len() - 1]);
            assert forall|k: int| 0 <= k < j.len() - 1 implies !(#[trigger] j[k] == '-' && j[k + 1]
                == '-') by {
                if k < n - 1 {
                    assert(j[k] == w0[k]);
                } else if k == n - 1 {
                    assert(j[k] == w0[n - 1]);
                } else if k == n {
                    assert(j[k + 1] == jr[0]);
                } else {
                    assert(j[k] == jr[k - n - 1] && j[k + 1] == jr[k - n]);
                }
            }
        }
    }
}

/// A slug is never empty, never longer than the cap and never holds
/// whitespace, so it always makes a file name. Given that `-` is not
/// alphanumeric (as `char::is_alphanumeric` reports), it also starts and
/// ends on a word character and never holds two dashes in a row: every
/// cut of an over-long slug ends on a word. Unless it is `untitled`, every
/// character of a slug is `-` or an alphanumeric that is its own lower case.
pub proof fn lemma_slug_shape(text: Seq<char>)
    ensures
        slugify_spec(text).len() <= SLUG_MAX_CHARS,
        slugify_spec(text) == "untitled"@ || slug_chars(slugify_spec(text)),
        slug_shaped(slugify_spec(text), false),
        !unicode_alphanumeric('-') ==> slug_shaped(slugify_spec(text), true),
{
    let nodash = !unicode_alphanumeric('-');
    let cleaned = slug_clean(text);
    lemma_clean_chars(text);
    assert(nodash ==> forall|k: int| 0 <= k < cleaned.len() ==> #[trigger] cleaned[k] != '-') by {
        if nodash {
            assert forall|k: int| 0 <= k < cleaned.len() implies #[trigger] cleaned[k] != '-' by {
                assert(cleaned[k] == ' ' || word_char(cleaned[k]));
            }
        }
    }
    assert forall|k: int| 0 <= k < cleaned.len() implies #[trigger] cleaned[k] == ' ' || word_char(
        cleaned[k],
    ) by {
        assert(cleaned[k] == slug_clean(text)[k]);
    }
    lemma_words_solid(cleaned, Seq::empty(), nodash);
    lemma_words_solid(cleaned, Seq::empty(), false);
    let all = split_ws(cleaned);
    let words = slug_words(text);
    assert forall|i: int| 0 <= i < words.len() implies (#[trigger] words[i]).len() > 0 && solid(
        words[i],
        nodash,
    ) && solid(words[i], false) by {
        assert(words[i] == all[i]);
    }
    if words.len() == 0 {
        reveal_strlit("untitled");
        assert(slugify_spec(text) == "untitled"@);
    } else {
        lemma_join_shaped(words, nodash);
        lemma_join_shaped(words, false);
        let full = join(words, seq!['-']);
        let m = SLUG_MAX_CHARS as int;
        if full.len() > m {
            let cut = full.take(m);
            assert forall|k: int| 0 <= k < cut.len() implies !is_ws(#[trigger] cut[k]) && (cut[k]
                == '-' || word_char(cut[k])) by {
                assert(cut[k] == full[k]);
            }
            if full[m] != '-' {
                lemma_rfind_upto(cut, seq!['-'], cut.len() - 1);
                match rfind(cut, seq!['-']) {
                    Some(sep) => {
                        if sep >= 25 {
                            let kept = cut.take(sep);
                            assert(cut.subrange(sep, sep + 1) == seq!['-']);
                            assert(cut[sep] == cut.subrange(sep, sep + 1)[0]);
                            assert(full[sep] == '-');
                            assert(kept[sep - 1] == full[sep - 1]);
                            assert(kept[0] == full[0]);
                            assert forall|k: int| 0 <= k < kept.len() implies !is_ws(
                                #[trigger] kept[k],
                            ) && (kept[k] == '-' || word_char(kept[k])) by {
                                assert(kept[k] == full[k]);
                            }
                            if nodash {
                                assert(!(full[sep - 1] == '-' && full[sep] == '-'));
                                assert forall|k: int| 0 <= k < kept.len() - 1 implies !(
                                #[trigger] kept[k] == '-' && kept[k + 1] == '-') by {
                                    assert(kept[k] == full[k] && kept[k + 1] == full[k + 1]);
                                }
                            }
                        } else {
                            if cut[m - 1] == '-' {
                                assert(cut.subrange(m - 1, m) =~= seq!['-']);
                                assert(occurs_at(cut, seq!['-'], m - 1));
                            }
                            assert(cut[m - 1] == full[m - 1]);
                            assert(cut[0] == full[0]);
                            if nodash {
                                assert forall|k: int| 0 <= k < cut.len() - 1 implies !(
                                #[trigger] cut[k] == '-' && cut[k + 1] == '-') by {
                                    assert(cut[k] == full[k] && cut[k + 1] == full[k + 1]);
                                }
                            }
                        }
                    },
                    None => {
                        if cut[m - 1] == '-' {
                            assert(cut.subrange(m - 1, m) =~= seq!['-']);
                            assert(occurs_at(cut, seq!['-'], m - 1));
                        }
                        assert(cut[m - 1] == full[m - 1]);
                        assert(cut[0] == full[0]);
                        if nodash {
                            assert forall|k: int| 0 <= k < cut.len() - 1 implies !(
                            #[trigger] cut[k] == '-' && cut[k + 1] == '-') by {
                                assert(cut[k] == full[k] && cut[k + 1] == full[k + 1]);
                            }
                        }
                    },
                }
            } else {
                assert(cut[m - 1] == full[m - 1]);
                assert(cut[0] == full[0]);
                if nodash {
                    assert(!(full[m - 1] == '-' && full[m] == '-'));
                    assert forall|k: int| 0 <= k < cut.len() - 1 implies !(#[trigger] cut[k] == '-'
                        && cut[k + 1] == '-') by {
                        assert(cut[k] == full[k] && cut[k + 1] == full[k + 1]);
                    }
                }
            }
        }
    }
}

/// Non-empty pieces of kept characters, none of them `-`.
spec fn pieces_ok(ps: Seq<Seq<char>>) -> bool {
    forall|i: int| 0 <= i < ps.len() ==> (#[trigger] ps[i]).len() > 0 && solid(ps[i], true)
}

/// A non-empty prefix of joined pieces that does not end on `-` is itself
/// joined pieces: whole pieces, then a non-empty start of the next.
proof fn lemma_prefix_pieces(ws: Seq<Seq<char>>, p: Seq<char>) -> (qs: Seq<Seq<char>>)
    requires
        ws.len() > 0,
        pieces_ok(ws),
        0 < p.len() <= join(ws, seq!['-']).len(),
        p == join(ws, seq!['-']).take(p.len() as int),
        p.last() != '-',
    ensures
        1 <= qs.len() <= ws.len(),
        pieces_ok(qs),
        join(qs, seq!['-']) == p,
    decreases ws.len(),
{
    let w0 = ws[0];
    let n = w0.len() as int;
    if ws.len() == 1 {
        assert(join(ws, seq!['-']) == w0);
        let qs = seq![p];
        assert forall|k: int| 0 <= k < p.len() implies !is_ws(#[trigger] p[k]) && word_char(p[k])
            && p[k] != '-' by {
            assert(p[k] == w0[k]);
        }
        assert(join(qs, seq!['-']) == p);
        qs
    } else {
        let rest = ws.drop_first();
        let jr = join(rest, seq!['-']);
        let j = join(ws, seq!['-']);
        assert(j == w0 + seq!['-'] + jr);
        if p.len() <= n {
            let qs = seq![p];
            assert forall|k: int| 0 <= k < p.len() implies !is_ws(#[trigger] p[k]) && word_char(
                p[k],
            ) && p[k] != '-' by {
                assert(p[k] == j[k]);
                assert(j[k] == w0[k]);
            }
            assert(join(qs, seq!['-']) == p);
            qs
        } else {
            assert(p[n] == j[n]);
            if p.len() == n + 1 {
                assert(p.last() == p[n]);
            }
            let p2 = p.skip(n + 1);
            assert forall|i: int| 0 <= i < rest.len() implies (#[trigger] rest[i]).len() > 0
                && solid(rest[i], true) by {
                assert(rest[i] == ws[i + 1]);
            }
            assert(jr.take(p2.len() as int) =~= p2) by {
                assert forall|k: int| 0 <= k < p2.len() implies jr[k] == p2[k] by {
                    assert(p2[k] == p[n + 1 + k]);
                    assert(p[n + 1 + k] == j[n + 1 + k]);
                }
            }
            assert(p2.last() == p.last());
            let qs2 = lemma_prefix_pieces(rest, p2);
            let qs = seq![w0] + qs2;
            assert(qs.drop_first() =~= qs2);
            assert(p =~= w0 + seq!['-'] + p2) by {
                assert forall|k: int| 0 <= k < p.len() implies p[k] == (w0 + seq!['-'] + p2)[k] by {
                    assert(p[k] == j[k]);
                }
            }
            assert forall|i: int| 0 <= i < qs.len() implies (#[trigger] qs[i]).len() > 0 && solid(
                qs[i],
                true,
            ) by {
                if i > 0 {
                    assert(qs[i] == qs2[i - 1]);
                }
            }
            qs
        }
    }
}

/// Each `-` of `s` as a space, every other character kept.
spec fn dash_to_space(s: Seq<char>) -> Seq<char> {
    Seq::new(s.len(), |i: int| if s[i] == '-' { ' ' } else { s[i] })
}

/// Cleaning a text of kept characters and dashes turns each dash into a
/// space and keeps the rest.
proof fn lemma_clean_slug_text(s: Seq<char>)
    requires
        !unicode_alphanumeric('-'),
        forall|k: int| 0 <= k < s.len() ==> #[trigger] s[k] == '-' || word_char(s[k]),
    ensures
        slug_clean(s) == dash_to_space(s),
    decreases s.len(),
{
    if s.len() > 0 {
        let a = s.drop_last();
        assert forall|k: int| 0 <= k < a.len() implies #[trigger] a[k] == '-' || word_char(a[k]) by {
            assert(a[k] == s[k]);
        }
        lemma_clean_slug_text(a);
        let c = s.last();
        assert(s[s.len() - 1] == c);
        if c == '-' {
            assert(slug_piece(c) == seq![' ']);
        } else {
            assert(word_char(c));
            assert(seq![c].drop_last() =~= Seq::<char>::empty());
            assert(kept_lower(Seq::<char>::empty()) == Seq::<char>::empty());
            assert(kept_lower(seq![c]) =~= seq![c]);
            assert(slug_piece(c) == seq![c]);
        }
        assert(slug_clean(s) =~= dash_to_space(s));
    }
}

/// Joined by `-`, pieces without dashes turn into the same pieces joined
/// by spaces.
proof fn lemma_dash_join(ps: Seq<Seq<char>>)
    requires
        ps.len() > 0,
        pieces_ok(ps),
    ensures
        dash_to_space(join(ps, seq!['-'])) == join(ps, seq![' ']),
        forall|k: int|
            0 <= k < join(ps, seq!['-']).len() ==> #[trigger] join(ps, seq!['-'])[k] == '-'
                || word_char(join(ps, seq!['-'])[k]),
    decreases ps.len(),
{
    let p0 = ps[0];
    let j = join(ps, seq!['-']);
    if ps.len() == 1 {
        assert(j == p0);
        assert(join(ps, seq![' ']) == p0);
        assert(dash_to_space(p0) =~= p0);
    } else {
        let rest = ps.drop_first();
        assert forall|i: int| 0 <= i < rest.len() implies (#[trigger] rest[i]).len() > 0 && solid(
            rest[i],
            true,
        ) by {
            assert(rest[i] == ps[i + 1]);
        }
        lemma_dash_join(rest);
        let jr = join(rest, seq!['-']);
        assert(j == p0 + seq!['-'] + jr);
        assert(join(ps, seq![' ']) == p0 + seq![' '] + join(rest, seq![' ']));
        let n = p0.len() as int;
        assert forall|k: int| 0 <= k < j.len() implies #[trigger] j[k] == '-' || word_char(j[k]) by {
            if k < n {
                assert(j[k] == p0[k]);
            } else if k > n {
                assert(j[k] == jr[k - n - 1]);
            }
        }
        assert(dash_to_space(j) =~= p0 + seq![' '] + dash_to_space(jr)) by {
            assert forall|k: int| 0 <= k < j.len() implies dash_to_space(j)[k] == (p0 + seq![' ']
                + dash_to_space(jr))[k] by {
                if k < n {
                    assert(j[k] == p0[k]);
                } else if k > n {
                    assert(j[k] == jr[k - n - 1]);
                }
            }
        }
    }
}

/// The words of a piece followed by more text: the piece extends the word
/// being read.
proof fn lemma_words_piece(p: Seq<char>, tail: Seq<char>, cur: Seq<char>)
    requires
        forall|k: int| 0 <= k < p.len() ==> !is_ws(#[trigger] p[k]),
    ensures
        words_acc(p + tail, cur) == words_acc(tail, cur + p),
    decreases p.len(),
{
    if p.len() > 0 {
        let s = p + tail;
        assert(s[0] == p[0]);
        assert(s.drop_first() =~= p.drop_first() + tail);
        assert forall|k: int| 0 <= k < p.drop_first().len() implies !is_ws(
            #[trigger] p.drop_first()[k],
        ) by {
            assert(p.drop_first()[k] == p[k + 1]);
        }
        lemma_words_piece(p.drop_first(), tail, cur.push(p[0]));
        assert(cur.push(p[0]) + p.drop_first() =~= cur + p);
    } else {
        assert(p + tail =~= tail);
        assert(cur + p =~= cur);
    }
}

/// Pieces without whitespace joined by single spaces split back into the
/// same pieces.
proof fn lemma_split_join(ps: Seq<Seq<char>>)
    requires
        ps.len() > 0,
        pieces_ok(ps),
    ensures
        split_ws(join(ps, seq![' '])) == ps,
    decreases ps.len(),
{
    let p0 = ps[0];
    assert(p0.len() > 0 && solid(p0, true));
    let e = Seq::<char>::empty();
    assert(e + p0 =~= p0);
    if ps.len() == 1 {
        assert(join(ps, seq![' ']) == p0);
        lemma_words_piece(p0, e, e);
        assert(p0 + e =~= p0);
        assert(words_acc(e, p0) == seq![p0]);
        assert(seq![p0] =~= ps);
    } else {
        let rest = ps.drop_first();
        assert forall|i: int| 0 <= i < rest.len() implies (#[trigger] rest[i]).len() > 0 && solid(
            rest[i],
            true,
        ) by {
            assert(rest[i] == ps[i + 1]);
        }
        lemma_split_join(rest);
        let jr = join(rest, seq![' ']);
        let tail = seq![' '] + jr;
        assert(join(ps, seq![' ']) == p0 + seq![' '] + jr);
        assert(p0 + seq![' '] + jr =~= p0 + tail);
        lemma_words_piece(p0, tail, e);
        assert(tail[0] == ' ');
        assert(tail.drop_first() =~= jr);
        assert(words_acc(tail, p0) == seq![p0] + words_acc(jr, e));
        assert(seq![p0] + rest =~= ps);
    }
}

/// A slug whose pieces are joined by `-` slugifies to itself.
proof fn lemma_joined_slug_fixed(ps: Seq<Seq<char>>)
    requires
        !unicode_alphanumeric('-'),
        1 <= ps.len() <= SLUG_MAX_WORDS,
        pieces_ok(ps),
        join(ps, seq!['-']).len() <= SLUG_MAX_CHARS,
    ensures
        slugify_spec(join(ps, seq!['-'])) == join(ps, seq!['-']),
{
    let s = join(ps, seq!['-']);
    lemma_dash_join(ps);
    lemma_clean_slug_text(s);
    lemma_split_join(ps);
    assert(split_ws(slug_clean(s)) == ps);
    assert(slug_words(s) == ps);
}

/// A slug of a text with words is its pieces joined by `-`: at most six,
/// each non-empty and made of kept characters other than `-`.
proof fn lemma_slug_pieces(text: Seq<char>) -> (ps: Seq<Seq<char>>)
    requires
        !unicode_alphanumeric('-'),
        slug_words(text).len() > 0,
    ensures
        1 <= ps.len() <= SLUG_MAX_WORDS,
        pieces_ok(ps),
        join(ps, seq!['-']) == slugify_spec(text),
{
    let s = slugify_spec(text);
    lemma_slug_shape(text);
    let cleaned = slug_clean(text);
    lemma_clean_chars(text);
    assert forall|k: int| 0 <= k < cleaned.len() implies #[trigger] cleaned[k] == ' ' || word_char(
        cleaned[k],
    ) by {
        assert(cleaned[k] == slug_clean(text)[k]);
    }
    assert forall|k: int| 0 <= k < cleaned.len() implies #[trigger] cleaned[k] != '-' by {
        assert(cleaned[k] == ' ' || word_char(cleaned[k]));
    }
    lemma_words_solid(cleaned, Seq::empty(), true);
    let all = split_ws(cleaned);
    let words = slug_words(text);
    assert forall|i: int| 0 <= i < words.len() implies (#[trigger] words[i]).len() > 0 && solid(
        words[i],
        true,
    ) by {
        assert(words[i] == all[i]);
    }
    let full = join(words, seq!['-']);
    lemma_join_shaped(words, true);
    let m = SLUG_MAX_CHARS as int;
    // The slug is a prefix of the joined words.
    assert(s.len() <= full.len() && s == full.take(s.len() as int)) by {
        if full.len() <= m {
            assert(full.take(full.len() as int) =~= full);
        } else {
            let cut = full.take(m);
            if full[m] != '-' {
                lemma_rfind_upto(cut, seq!['-'], cut.len() - 1);
                match rfind(cut, seq!['-']) {
                    Some(sep) => {
                        if sep >= 25 {
                            assert(cut.take(sep) =~= full.take(sep));
                        }
                    },
                    None => {},
                }
            }
        }
    }
    assert(s.last() == s[s.len() - 1]);
    let ps = lemma_prefix_pieces(words, s);
    assert(ps.len() <= SLUG_MAX_WORDS) by {
        if split_ws(cleaned).len() > SLUG_MAX_WORDS {
            assert(words.len() == SLUG_MAX_WORDS);
        }
    }
    ps
}

/// A slug of a slug is the same slug. Stated given what
/// `char::is_alphanumeric` and `str::to_lowercase` report of the
/// characters involved: `-` is not alphanumeric, and each letter of
/// `untitled` is alphanumeric and its own lower case.
pub proof fn lemma_slug_idempotent(text: Seq<char>)
    requires
        !unicode_alphanumeric('-'),
        forall|k: int| 0 <= k < 8 ==> word_char(#[trigger] "untitled"@[k]),
    ensures
        slugify_spec(slugify_spec(text)) == slugify_spec(text),
{
    reveal_strlit("untitled");
    if slug_words(text).len() == 0 {
        let u = "untitled"@;
        assert(slugify_spec(text) == u);
        let ps = seq![u];
        assert(join(ps, seq!['-']) == u);
        assert forall|i: int| 0 <= i < ps.len() implies (#[trigger] ps[i]).len() > 0 && solid(
            ps[i],
            true,
        ) by {
            assert(ps[i] == u);
            assert forall|k: int| 0 <= k < u.len() implies !is_ws(#[trigger] u[k]) && word_char(
                u[k],
            ) && u[k] != '-' by {
                assert(word_char(u[k]));
            }
        }
        lemma_joined_slug_fixed(ps);
    } else {
        let ps = lemma_slug_pieces(text);
        lemma_slug_shape(text);
        lemma_joined_slug_fixed(ps);
    }
}

/// How many `-` characters `s` holds.
pub open spec fn dash_count(s: Seq<char>) -> nat
    decreases s.len(),
{
    if s.len() == 0 {
        0
    } else {
        dash_count(s.drop_last()) + if s.last() == '-' {
            1nat
        } else {
            0nat
        }
    }
}

proof fn lemma_dash_count_concat(a: Seq<char>, b: Seq<char>)
    ensures
        dash_count(a + b) == dash_count(a) + dash_count(b),
    decreases b.len(),
{
    if b.len() == 0 {
        assert(a + b =~= a);
    } else {
        assert((a + b).drop_last() =~= a + b.drop_last());
        assert((a + b).last() == b.last());
        lemma_dash_count_concat(a, b.drop_last());
    }
}

proof fn lemma_dash_count_none(a: Seq<char>)
    requires
        forall|k: int| 0 <= k < a.len() ==> #[trigger] a[k] != '-',
    ensures
        dash_count(a) == 0,
    decreases a.len(),
{
    if a.len() > 0 {
        assert(a[a.len() - 1] == a.last());
        lemma_dash_count_none(a.drop_last());
    }
}

/// Pieces without `-` joined by `-` hold one dash fewer than pieces.
proof fn lemma_dash_count_join(ps: Seq<Seq<char>>)
    requires
        ps.len() > 0,
        pieces_ok(ps),
    ensures
        dash_count(join(ps, seq!['-'])) == ps.len() - 1,
    decreases ps.len(),
{
    let p0 = ps[0];
    assert(p0.len() > 0 && solid(p0, true));
    lemma_dash_count_none(p0);
    if ps.len() > 1 {
        let rest = ps.drop_first();
        assert forall|i: int| 0 <= i < rest.len() implies (#[trigger] rest[i]).len() > 0 && solid(
            rest[i],
            true,
        ) by {
            assert(rest[i] == ps[i + 1]);
        }
        lemma_dash_count_join(rest);
        let jr = join(rest, seq!['-']);
        assert(join(ps, seq!['-']) == p0 + seq!['-'] + jr);
        lemma_dash_count_concat(p0 + seq!['-'], jr);
        lemma_dash_count_concat(p0, seq!['-']);
        assert(seq!['-'].drop_last() =~= Seq::<char>::empty());
        assert(seq!['-'].last() == '-');
        assert(dash_count(Seq::<char>::empty()) == 0);
        assert(dash_count(seq!['-']) == 1);
    } else {
        assert(join(ps, seq!['-']) == p0);
    }
}

/// A slug holds at most six words: given that `-` is not alphanumeric (as
/// `char::is_alphanumeric` reports), it holds at most five dashes.
pub proof fn lemma_slug_word_bound(text: Seq<char>)
    requires
        !unicode_alphanumeric('-'),
    ensures
        dash_count(slugify_spec(text)) < SLUG_MAX_WORDS,
{
    if slug_words(text).len() == 0 {
        reveal_strlit("untitled");
        let u = "untitled"@;
        assert(slugify_spec(text) == u);
        lemma_dash_count_none(u);
    } else {
        let ps = lemma_slug_pieces(text);
        lemma_dash_count_join(ps);
    }
}

} // verus!

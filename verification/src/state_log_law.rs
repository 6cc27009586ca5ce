//! A logged state change reads back as the change that was logged.

use vstd::prelude::*;

use crate::context::{keyed_line, split_once, state_changes_from, state_header};
use crate::projects::state::{flatten_spec, state_change_entry};
use crate::text::{
    end_non_ws, find, find_char_from, first_non_ws, has_char, is_ws, join, lemma_find_char_from,
    lemma_find_from, lines, occurs_at, split_char, split_ws, strip_cr,
    strip_prefix, trim, trim_end, trim_start, words_acc,
};

verus! {

/// No character of `s` is whitespace.
pub open spec fn no_ws(s: Seq<char>) -> bool {
    forall|k: int| 0 <= k < s.len() ==> !is_ws(#[trigger] s[k])
}

/// The words of a text are non-empty and hold no whitespace.
proof fn lemma_words_plain(s: Seq<char>, cur: Seq<char>)
    requires
        no_ws(cur),
    ensures
        forall|i: int|
            0 <= i < words_acc(s, cur).len() ==> (#[trigger] words_acc(s, cur)[i]).len() > 0
                && no_ws(words_acc(s, cur)[i]),
    decreases s.len(),
{
    if s.len() > 0 {
        let rest = s.drop_first();
        if is_ws(s[0]) {
            lemma_words_plain(rest, Seq::empty());
            let head: Seq<Seq<char>> = if cur.len() > 0 {
                seq![cur]
            } else {
                Seq::empty()
            };
            let tail = words_acc(rest, Seq::empty());
            assert(words_acc(s, cur) == head + tail);
            assert forall|i: int| 0 <= i < words_acc(s, cur).len() implies (#[trigger] words_acc(
                s,
                cur,
            )[i]).len() > 0 && no_ws(words_acc(s, cur)[i]) by {
                if i < head.len() {
                    assert(words_acc(s, cur)[i] == cur);
                } else {
                    assert(words_acc(s, cur)[i] == tail[i - head.len()]);
                }
            }
        } else {
            let c2 = cur.push(s[0]);
            assert(words_acc(s, cur) == words_acc(rest, c2));
            assert(no_ws(c2)) by {
                assert forall|k: int| 0 <= k < c2.len() implies !is_ws(#[trigger] c2[k]) by {
                    if k < cur.len() {
                        assert(c2[k] == cur[k]);
                    }
                }
            }
            lemma_words_plain(rest, c2);
        }
    } else if cur.len() > 0 {
        assert(words_acc(s, cur) == seq![cur]);
    }
}

/// Non-empty words without whitespace joined by spaces: every character is
/// a space or no whitespace at all, and the text neither starts nor ends
/// with whitespace.
proof fn lemma_join_words(ws: Seq<Seq<char>>)
    requires
        forall|i: int| 0 <= i < ws.len() ==> (#[trigger] ws[i]).len() > 0 && no_ws(ws[i]),
    ensures
        forall|k: int|
            0 <= k < join(ws, seq![' ']).len() ==> #[trigger] join(ws, seq![' '])[k] == ' '
                || !is_ws(join(ws, seq![' '])[k]),
        join(ws, seq![' ']).len() > 0 ==> !is_ws(join(ws, seq![' '])[0]) && !is_ws(
            join(ws, seq![' '])[join(ws, seq![' ']).len() - 1],
        ),
    decreases ws.len(),
{
    if ws.len() == 1 {
        assert(join(ws, seq![' ']) == ws[0]);
    } else if ws.len() > 1 {
        let w0 = ws[0];
        let rest = ws.drop_first();
        assert forall|i: int| 0 <= i < rest.len() implies (#[trigger] rest[i]).len() > 0 && no_ws(
            rest[i],
        ) by {
            assert(rest[i] == ws[i + 1]);
        }
        lemma_join_words(rest);
        let jr = join(rest, seq![' ']);
        let j = join(ws, seq![' ']);
        assert(j == w0 + seq![' '] + jr);
        assert(w0.len() > 0 && no_ws(w0));
        let n = w0.len() as int;
        assert forall|k: int| 0 <= k < j.len() implies #[trigger] j[k] == ' ' || !is_ws(j[k]) by {
            if k < n {
                assert(j[k] == w0[k]);
            } else if k > n {
                assert(j[k] == jr[k - n - 1]);
            }
        }
        assert(j[0] == w0[0]);
        if jr.len() > 0 {
            assert(j[j.len() - 1] == jr[jr.len() - 1]);
        } else {
            assert(rest.len() > 0 && rest[0].len() > 0);
            assert(jr.len() >= rest[0].len()) by {
                if rest.len() == 1 {
                    assert(jr == rest[0]);
                } else {
                    assert(jr == rest[0] + seq![' '] + join(rest.drop_first(), seq![' ']));
                }
            }
        }
    }
}

/// A flattened body is one line: its characters are spaces or no
/// whitespace, and it neither starts nor ends with whitespace.
proof fn lemma_flatten_line(x: Seq<char>)
    ensures
        forall|k: int|
            0 <= k < flatten_spec(x).len() ==> #[trigger] flatten_spec(x)[k] == ' ' || !is_ws(
                flatten_spec(x)[k],
            ),
        flatten_spec(x).len() > 0 ==> !is_ws(flatten_spec(x)[0]) && !is_ws(
            flatten_spec(x)[flatten_spec(x).len() - 1],
        ),
{
    lemma_words_plain(x, Seq::empty());
    reveal_strlit(" ");
    assert(" "@ =~= seq![' ']);
    lemma_join_words(split_ws(x));
}

/// A text without line breaks is one piece.
proof fn lemma_split_none(a: Seq<char>)
    requires
        !has_char(a, '\n'),
    ensures
        split_char(a, '\n') == seq![a],
{
    lemma_find_char_from(a, '\n', 0);
    if find_char_from(a, '\n', 0) is Some {
        let k = find_char_from(a, '\n', 0)->0;
        assert(a[k] == '\n');
    }
}

/// Splitting at the line break that ends a first line.
proof fn lemma_split_first(a: Seq<char>, rest: Seq<char>)
    requires
        !has_char(a, '\n'),
    ensures
        split_char(a + seq!['\n'] + rest, '\n') == seq![a] + split_char(rest, '\n'),
{
    let s = a + seq!['\n'] + rest;
    lemma_find_char_from(s, '\n', 0);
    assert(s[a.len() as int] == '\n');
    if find_char_from(s, '\n', 0) is Some {
        let k = find_char_from(s, '\n', 0)->0;
        if k < a.len() {
            assert(a[k] == s[k]);
        }
    }
    assert(s.take(a.len() as int) =~= a);
    assert(s.skip(a.len() as int + 1) =~= rest);
}

/// Three lines joined by line breaks, the last one non-empty, split back
/// into those lines.
proof fn lemma_three_lines(l0: Seq<char>, l1: Seq<char>, l2: Seq<char>)
    requires
        !has_char(l0, '\n'),
        !has_char(l1, '\n'),
        !has_char(l2, '\n'),
        l2.len() > 0,
    ensures
        lines(l0 + seq!['\n'] + l1 + seq!['\n'] + l2) == seq![strip_cr(l0), strip_cr(l1), l2],
{
    let tail = l1 + seq!['\n'] + l2;
    assert(l0 + seq!['\n'] + l1 + seq!['\n'] + l2 =~= l0 + seq!['\n'] + tail);
    lemma_split_first(l0, tail);
    lemma_split_first(l1, l2);
    lemma_split_none(l2);
    let p = split_char(l0 + seq!['\n'] + tail, '\n');
    assert(p =~= seq![l0, l1, l2]);
    assert(lines(l0 + seq!['\n'] + l1 + seq!['\n'] + l2) =~= seq![strip_cr(l0), strip_cr(l1), l2]);
}

/// A text that neither starts nor ends with whitespace, behind a space,
/// trims to itself.
proof fn lemma_trim_spaced(f: Seq<char>)
    requires
        f.len() > 0 ==> !is_ws(f[0]) && !is_ws(f[f.len() - 1]),
    ensures
        trim(seq![' '] + f) == f,
{
    let t = seq![' '] + f;
    if f.len() > 0 {
        assert(t[1] == f[0]);
        assert(first_non_ws(t, 1) == 1);
        assert(first_non_ws(t, 0) == 1);
        assert(t.skip(1) =~= f);
        assert(end_non_ws(f, f.len() as int) == f.len());
        assert(f.take(f.len() as int) =~= f);
    } else {
        assert(first_non_ws(t, 1) == 1);
        assert(first_non_ws(t, 0) == 1);
        assert(t.skip(1) =~= f);
        assert(end_non_ws(f, 0) == 0);
        assert(f.take(0) =~= f);
    }
}

/// The value of an indented `key value` line whose value is one line.
proof fn lemma_keyed_value(key: Seq<char>, f: Seq<char>)
    requires
        key.len() > 0,
        !is_ws(key[0]),
        f.len() > 0 ==> !is_ws(f[0]) && !is_ws(f[f.len() - 1]),
    ensures
        strip_prefix(trim_start(seq![' ', ' '] + key + seq![' '] + f), key) == Some(seq![' '] + f),
        trim(seq![' '] + f) == f,
{
    let l = seq![' ', ' '] + key + seq![' '] + f;
    assert(l[0] == ' ' && l[1] == ' ' && l[2] == key[0]);
    assert(first_non_ws(l, 2) == 2);
    assert(first_non_ws(l, 1) == 2);
    assert(first_non_ws(l, 0) == 2);
    let t = l.skip(2);
    assert(t =~= key + (seq![' '] + f));
    assert(t.take(key.len() as int) =~= key);
    assert(t.skip(key.len() as int) =~= seq![' '] + f);
    lemma_trim_spaced(f);
}

/// The log line `- **<hm>**: ` and the entry for a state change of
/// project `slug` from `old` to `new`, read back by the state-change
/// parser, give that one change, both bodies flattened to one line. The
/// time text holds no `*` and no line break, and the slug no whitespace.
pub proof fn lemma_state_change_roundtrip(
    hm: Seq<char>,
    slug: Seq<char>,
    old: Seq<char>,
    new: Seq<char>,
)
    requires
        !has_char(hm, '*'),
        !has_char(hm, '\n'),
        no_ws(slug),
    ensures
        state_changes_from(lines("- **"@ + hm + "**: "@ + state_change_entry(slug, old, new)), 0)
            == seq![(slug, flatten_spec(old), flatten_spec(new))],
{
    reveal_strlit("- **");
    reveal_strlit("**: ");
    reveal_strlit("state on [[");
    reveal_strlit("]]\n  was: ");
    reveal_strlit("\n  now: ");
    reveal_strlit("]]");
    reveal_strlit("was:");
    reveal_strlit("now:");
    let f1 = flatten_spec(old);
    let f2 = flatten_spec(new);
    lemma_flatten_line(old);
    lemma_flatten_line(new);
    let sep = "**: "@;
    let body = "state on [["@ + slug + "]]"@;
    let rest = hm + sep + body;
    let l0 = "- **"@ + rest;
    let l1 = seq![' ', ' '] + "was:"@ + seq![' '] + f1;
    let l2 = seq![' ', ' '] + "now:"@ + seq![' '] + f2;
    let section = "- **"@ + hm + "**: "@ + state_change_entry(slug, old, new);
    assert(section =~= l0 + seq!['\n'] + l1 + seq!['\n'] + l2);
    // The lines.
    assert(!has_char(l0, '\n')) by {
        if has_char(l0, '\n') {
            let k = choose|k: int| 0 <= k < l0.len() && l0[k] == '\n';
            let h = hm.len() as int;
            if 4 <= k < 4 + h {
                assert(hm[k - 4] == l0[k]);
            } else if 4 + h + 15 <= k < 4 + h + 15 + slug.len() {
                assert(slug[k - 4 - h - 15] == l0[k]);
            }
        }
    }
    assert(!has_char(l1, '\n')) by {
        if has_char(l1, '\n') {
            let k = choose|k: int| 0 <= k < l1.len() && l1[k] == '\n';
            if k >= 7 {
                assert(f1[k - 7] == l1[k]);
            }
        }
    }
    assert(!has_char(l2, '\n')) by {
        if has_char(l2, '\n') {
            let k = choose|k: int| 0 <= k < l2.len() && l2[k] == '\n';
            if k >= 7 {
                assert(f2[k - 7] == l2[k]);
            }
        }
    }
    lemma_three_lines(l0, l1, l2);
    assert(l0.last() == ']');
    assert(strip_cr(l0) == l0);
    assert(strip_cr(l1) == l1) by {
        if f1.len() > 0 {
            assert(l1.last() == f1[f1.len() - 1]);
        } else {
            assert(l1.last() == ' ');
        }
    }
    let ls = seq![l0, l1, l2];
    assert(lines(section) == ls);
    // The header line.
    assert(end_non_ws(l0, l0.len() as int) == l0.len());
    assert(l0.take(l0.len() as int) =~= l0);
    assert(trim_end(l0) == l0);
    assert(l0.take(4) =~= "- **"@);
    assert(l0.skip(4) =~= rest);
    let h = hm.len() as int;
    assert(occurs_at(rest, sep, h)) by {
        assert(rest.subrange(h, h + 4) =~= sep);
    }
    lemma_find_from(rest, sep, 0);
    assert forall|m: int| 0 <= m < h implies !occurs_at(rest, sep, m) by {
        if occurs_at(rest, sep, m) {
            assert(rest[m] == rest.subrange(m, m + 4)[0]);
            assert(rest[m] == hm[m]);
        }
    }
    assert(find(rest, sep) == Some(h));
    assert(rest.skip(h + 4) =~= body);
    assert(split_once(rest, sep) == Some((rest.take(h), body)));
    assert(body.take(11) =~= "state on [["@);
    let sr = slug + "]]"@;
    assert(body.skip(11) =~= sr);
    assert(sr.skip(sr.len() - 2) =~= "]]"@);
    assert(sr.take(sr.len() - 2) =~= slug);
    assert(state_header(trim_end(ls[0])) == Some(slug));
    // The two indented lines.
    lemma_keyed_value("was:"@, f1);
    lemma_keyed_value("now:"@, f2);
    assert(keyed_line(ls, 1, "was:"@) == Some(f1));
    assert(keyed_line(ls, 2, "now:"@) == Some(f2));
    assert(state_changes_from(ls, 3) == Seq::<(Seq<char>, Seq<char>, Seq<char>)>::empty());
}

} // verus!

//! A periodic commitment line, as a stewardship writes it, reads back as
//! its title and next date, and still does once a note such as
//! `(overdue)` is added by hand after the date.

use vstd::prelude::*;

use crate::commitments::{em_dash_parts, first_word, periodic_line};
use crate::date::{chrono_parse_ymd, pad4, year_text, ymd_text, Date};
use crate::recurrence::Recurrence;
use crate::text::{
    decimal, end_non_ws, find_char_from, first_non_ws, has_char, is_digit, is_ws,
    lemma_decimal_digits, lemma_end_non_ws, lemma_find_char_from, lemma_first_non_ws,
    lemma_trim_ends, pad2, split_ws, strip_prefix, trim, trim_start, words_acc,
};

verus! {

/// Text with neither whitespace nor an em-dash in it.
pub(crate) open spec fn plain(s: Seq<char>) -> bool {
    forall|k: int| 0 <= k < s.len() ==> !is_ws(#[trigger] s[k]) && s[k] != '\u{2014}'
}

proof fn lemma_plain_concat(a: Seq<char>, b: Seq<char>)
    requires
        plain(a),
        plain(b),
    ensures
        plain(a + b),
{
    assert forall|k: int| 0 <= k < (a + b).len() implies !is_ws(#[trigger] (a + b)[k]) && (a
        + b)[k] != '\u{2014}' by {
        if k < a.len() {
            assert((a + b)[k] == a[k]);
        } else {
            assert((a + b)[k] == b[k - a.len()]);
        }
    }
}

proof fn lemma_decimal_plain(n: nat)
    ensures
        plain(decimal(n)),
        decimal(n).len() > 0,
{
    lemma_decimal_digits(n);
    assert forall|k: int| 0 <= k < decimal(n).len() implies !is_ws(#[trigger] decimal(n)[k])
        && decimal(n)[k] != '\u{2014}' by {
        assert(is_digit(decimal(n)[k]));
    }
}

proof fn lemma_pad2_plain(n: nat)
    ensures
        plain(pad2(n)),
        pad2(n).len() > 0,
{
    lemma_decimal_plain(n);
    if n < 10 {
        assert(decimal(n) == seq![crate::text::digit_char(n as int)]);
        assert(pad2(n) =~= seq!['0'] + decimal(n));
        lemma_plain_concat(seq!['0'], decimal(n));
    }
}

proof fn lemma_pad4_plain(n: nat)
    ensures
        plain(pad4(n)),
        pad4(n).len() > 0,
{
    lemma_decimal_plain(n);
    if n < 10 {
        lemma_plain_concat(seq!['0', '0', '0'], decimal(n));
    } else if n < 100 {
        lemma_plain_concat(seq!['0', '0'], decimal(n));
    } else if n < 1000 {
        lemma_plain_concat(seq!['0'], decimal(n));
    }
}

/// A date's `%Y-%m-%d` text has no whitespace and no em-dash.
pub(crate) proof fn lemma_ymd_plain(d: Date)
    ensures
        plain(ymd_text(d)),
        ymd_text(d).len() > 0,
{
    let y = d.year as int;
    if 0 <= y <= 9999 {
        lemma_pad4_plain(y as nat);
    } else if y > 9999 {
        lemma_decimal_plain(y as nat);
        lemma_plain_concat(seq!['+'], decimal(y as nat));
    } else {
        lemma_pad4_plain((-y) as nat);
        lemma_plain_concat(seq!['-'], pad4((-y) as nat));
    }
    lemma_pad2_plain(d.month as nat);
    lemma_pad2_plain(d.day as nat);
    let a = year_text(y) + seq!['-'];
    lemma_plain_concat(year_text(y), seq!['-']);
    lemma_plain_concat(a, pad2(d.month as nat));
    lemma_plain_concat(a + pad2(d.month as nat), seq!['-']);
    lemma_plain_concat(a + pad2(d.month as nat) + seq!['-'], pad2(d.day as nat));
}

/// No recurrence text holds an em-dash.
proof fn lemma_recurrence_text(r: Recurrence)
    ensures
        forall|k: int| 0 <= k < r.text().len() ==> #[trigger] r.text()[k] != '\u{2014}',
{
    match r {
        Recurrence::Daily => {
            reveal_strlit("daily");
        },
        Recurrence::Weekly => {
            reveal_strlit("weekly");
        },
        Recurrence::Monthly => {
            reveal_strlit("monthly");
        },
        Recurrence::Yearly => {
            reveal_strlit("yearly");
        },
        Recurrence::EveryNMonths(n) => {
            reveal_strlit("every ");
            reveal_strlit(" months");
            lemma_decimal_plain(n as nat);
            let a = "every "@;
            let b = decimal(n as nat);
            let c = " months"@;
            assert forall|k: int| 0 <= k < r.text().len() implies #[trigger] r.text()[k]
                != '\u{2014}' by {
                if k < a.len() {
                    assert(r.text()[k] == a[k]);
                } else if k < a.len() + b.len() {
                    assert(r.text()[k] == b[k - a.len()]);
                } else {
                    assert(r.text()[k] == c[k - a.len() - b.len()]);
                }
            }
        },
    }
}

/// The first word of a text that opens with the whitespace-free `w`.
proof fn lemma_words_first(w: Seq<char>, rest: Seq<char>, cur: Seq<char>)
    requires
        cur.len() + w.len() > 0,
        forall|k: int| 0 <= k < w.len() ==> !is_ws(#[trigger] w[k]),
        rest.len() == 0 || is_ws(rest[0]),
    ensures
        words_acc(w + rest, cur).len() > 0,
        words_acc(w + rest, cur)[0] == cur + w,
    decreases w.len(),
{
    if w.len() == 0 {
        assert(w + rest =~= rest);
        assert(cur + w =~= cur);
    } else {
        let s = w + rest;
        assert(s[0] == w[0]);
        assert(s.drop_first() =~= w.drop_first() + rest);
        lemma_words_first(w.drop_first(), rest, cur.push(w[0]));
        assert(cur.push(w[0]) + w.drop_first() =~= cur + w);
    }
}

proof fn lemma_find_char_at(s: Seq<char>, c: char, i: int, k: int)
    requires
        0 <= i <= k < s.len(),
        s[k] == c,
        forall|m: int| i <= m < k ==> s[m] != c,
    ensures
        find_char_from(s, c, i) == Some(k),
{
    lemma_find_char_from(s, c, i);
}

/// The trimmed title: non-empty, without whitespace at either end, and
/// without an em-dash.
proof fn lemma_title(title: Seq<char>)
    requires
        trim(title).len() > 0,
        !has_char(title, '\u{2014}'),
    ensures
        !is_ws(trim(title)[0]),
        !is_ws(trim(title)[trim(title).len() - 1]),
        forall|k: int| 0 <= k < trim(title).len() ==> #[trigger] trim(title)[k] != '\u{2014}',
{
    let t = trim(title);
    lemma_trim_ends(title);
    lemma_first_non_ws(title, 0);
    let f = first_non_ws(title, 0);
    let u = trim_start(title);
    lemma_end_non_ws(u, u.len() as int);
    assert forall|k: int| 0 <= k < t.len() implies #[trigger] t[k] != '\u{2014}' by {
        assert(t[k] == u[k]);
        assert(u[k] == title[f + k]);
    }
}

/// The text after `- ` splits at its two em-dashes into the title and a
/// space, the recurrence, and the `next:` part.
proof fn lemma_dash_parts(t: Seq<char>, rt: Seq<char>, ymd: Seq<char>, tail: Seq<char>)
    requires
        forall|k: int| 0 <= k < t.len() ==> #[trigger] t[k] != '\u{2014}',
        forall|k: int| 0 <= k < rt.len() ==> #[trigger] rt[k] != '\u{2014}',
    ensures
        em_dash_parts(t + " \u{2014} "@ + rt + " \u{2014} next: "@ + ymd + tail) == Some(
            (
                t + seq![' '],
                seq![' '] + rt + seq![' '],
                seq![' '] + (seq!['n', 'e', 'x', 't', ':', ' '] + ymd + tail),
            ),
        ),
{
    reveal_strlit(" \u{2014} ");
    reveal_strlit(" \u{2014} next: ");
    let rest = t + " \u{2014} "@ + rt + " \u{2014} next: "@ + ymd + tail;
    let i = t.len() as int + 1;
    let j = t.len() as int + 3 + rt.len() as int + 1;
    assert(rest[i] == '\u{2014}');
    assert(rest[j] == '\u{2014}');
    assert forall|m: int| 0 <= m < i implies rest[m] != '\u{2014}' by {
        if m < t.len() {
            assert(rest[m] == t[m]);
        }
    }
    assert forall|m: int| i + 1 <= m < j implies rest[m] != '\u{2014}' by {
        if i + 2 <= m < i + 2 + rt.len() {
            assert(rest[m] == rt[m - i - 2]);
        }
    }
    lemma_find_char_at(rest, '\u{2014}', 0, i);
    lemma_find_char_at(rest, '\u{2014}', i + 1, j);
    assert(rest.take(i) =~= t + seq![' ']);
    assert(rest.subrange(i + 1, j) =~= seq![' '] + rt + seq![' ']);
    assert(rest.skip(j + 1) =~= seq![' '] + (seq!['n', 'e', 'x', 't', ':', ' '] + ymd + tail));
}

/// A title followed by one space trims back to the title.
proof fn lemma_trim_title(t: Seq<char>)
    requires
        t.len() > 0,
        !is_ws(t[0]),
        !is_ws(t[t.len() - 1]),
    ensures
        trim(t + seq![' ']) == t,
{
    let p0 = t + seq![' '];
    lemma_first_non_ws(p0, 0);
    assert(p0[0] == t[0]);
    assert(first_non_ws(p0, 0) == 0);
    assert(trim_start(p0) =~= p0);
    lemma_end_non_ws(p0, p0.len() as int);
    assert(p0[t.len() - 1] == t[t.len() - 1]);
    assert(end_non_ws(p0, p0.len() as int) == t.len());
    assert(trim(p0) =~= t);
}

/// The `next:` part reads as the date: its first word after `next:` is the
/// date text.
proof fn lemma_next_part(ymd: Seq<char>, tail: Seq<char>)
    requires
        plain(ymd),
        ymd.len() > 0,
        tail.len() > 0,
        is_ws(tail[0]),
    ensures
        ({
            let p2 = seq![' '] + (seq!['n', 'e', 'x', 't', ':', ' '] + ymd + tail);
            &&& strip_prefix(trim(p2), "next:"@) is Some
            &&& first_word(trim(strip_prefix(trim(p2), "next:"@)->0)) == ymd
        }),
{
    reveal_strlit("next:");
    let q = seq!['n', 'e', 'x', 't', ':', ' '] + ymd + tail;
    let p2 = seq![' '] + q;
    lemma_first_non_ws(p2, 0);
    assert(p2[1] == 'n');
    assert(first_non_ws(p2, 0) == 1);
    assert(trim_start(p2) =~= q);
    let q0 = 6 + ymd.len() as int;
    lemma_end_non_ws(q, q.len() as int);
    let e = end_non_ws(q, q.len() as int);
    assert(q[q0 - 1] == ymd[ymd.len() - 1]);
    assert(e >= q0);
    let tq = q.take(e);
    assert(trim(p2) == tq);
    assert(tq.take(5) =~= "next:"@);
    let after = tq.skip(5);
    assert(strip_prefix(tq, "next:"@) == Some(after));
    let n2 = q.subrange(q0, e);
    let w = ymd + n2;
    assert(after =~= seq![' '] + w);
    lemma_first_non_ws(after, 0);
    assert(after[1] == ymd[0]);
    assert(first_non_ws(after, 0) == 1);
    assert(trim_start(after) =~= w);
    lemma_end_non_ws(w, w.len() as int);
    assert(w[w.len() - 1] == q[e - 1]);
    assert(end_non_ws(w, w.len() as int) == w.len());
    assert(trim(after) =~= w);
    assert(n2.len() == 0 || is_ws(n2[0])) by {
        if n2.len() > 0 {
            assert(n2[0] == tail[0]);
        }
    }
    assert forall|k: int| 0 <= k < ymd.len() implies !is_ws(#[trigger] ymd[k]) by {}
    lemma_words_first(ymd, n2, Seq::empty());
    assert(Seq::<char>::empty() + ymd =~= ymd);
    assert(split_ws(w) == words_acc(w, Seq::empty()));
}

/// A line whose date is followed by text that opens with whitespace reads
/// back as its title and date.
#[verifier::spinoff_prover]
proof fn lemma_line_with_tail(title: Seq<char>, r: Recurrence, d: Date, tail: Seq<char>)
    requires
        trim(title).len() > 0,
        !has_char(title, '\u{2014}'),
        chrono_parse_ymd(ymd_text(d)) == Some(d),
        tail.len() > 0,
        is_ws(tail[0]),
    ensures
        periodic_line(
            "- "@ + trim(title) + " \u{2014} "@ + r.text() + " \u{2014} next: "@ + ymd_text(d) + tail,
        ) == Some((trim(title), d)),
{
    reveal_strlit("- ");
    let t = trim(title);
    let rt = r.text();
    let ymd = ymd_text(d);
    lemma_title(title);
    lemma_ymd_plain(d);
    lemma_recurrence_text(r);
    let rest = t + " \u{2014} "@ + rt + " \u{2014} next: "@ + ymd + tail;
    let line = "- "@ + t + " \u{2014} "@ + rt + " \u{2014} next: "@ + ymd + tail;
    assert(line =~= "- "@ + rest);
    lemma_first_non_ws(line, 0);
    assert(line[0] == '-');
    assert(trim_start(line) =~= line);
    assert(line.take(2) =~= "- "@);
    assert(line.skip(2) =~= rest);
    assert(strip_prefix(trim_start(line), "- "@) == Some(rest));
    lemma_dash_parts(t, rt, ymd, tail);
    lemma_trim_title(t);
    lemma_next_part(ymd, tail);
}

/// A periodic commitment line as written reads back as its title and next
/// date, with or without a note added by hand after the date (one that
/// opens with whitespace, such as ` (overdue)`). The title holds no
/// em-dash, the line's own separator, and the date is one that `%Y-%m-%d`
/// parsing reads back from its text.
pub proof fn lemma_periodic_line_round_trip(
    title: Seq<char>,
    r: Recurrence,
    d: Date,
    note: Seq<char>,
)
    requires
        trim(title).len() > 0,
        !has_char(title, '\u{2014}'),
        chrono_parse_ymd(ymd_text(d)) == Some(d),
        note.len() == 0 || is_ws(note[0]),
    ensures
        periodic_line(
            "- "@ + trim(title) + " \u{2014} "@ + r.text() + " \u{2014} next: "@ + ymd_text(d)
                + "\n"@,
        ) == Some((trim(title), d)),
        periodic_line(
            "- "@ + trim(title) + " \u{2014} "@ + r.text() + " \u{2014} next: "@ + ymd_text(d)
                + note + "\n"@,
        ) == Some((trim(title), d)),
{
    reveal_strlit("\n");
    let nl = "\n"@;
    assert(nl[0] == '\n');
    lemma_line_with_tail(title, r, d, nl);
    let tail = note + nl;
    assert(is_ws(tail[0])) by {
        if note.len() > 0 {
            assert(tail[0] == note[0]);
        }
    }
    lemma_line_with_tail(title, r, d, tail);
    let pre = "- "@ + trim(title) + " \u{2014} "@ + r.text() + " \u{2014} next: "@ + ymd_text(d);
    assert(pre + note + nl =~= pre + tail);
}

} // verus!

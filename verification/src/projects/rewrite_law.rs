//! Rewriting a frontmatter field twice: the last value written wins, and
//! the same value twice changes nothing more than once.

use vstd::prelude::*;

use crate::projects::{
    field_line, fm_close, fm_open, frontmatter_close, has_field_from, is_field_line, lemma_line_end,
    line_end, rewrite_lines_from,
};
use crate::text::{
    find_char_from, find_from, has_char, is_ws, lemma_find_char_from, lemma_find_from, occurs_at,
    starts_with, trim_start,
};

verus! {

proof fn lemma_find_char_shift(p: Seq<char>, q: Seq<char>, c: char, j: int)
    requires
        0 <= j,
    ensures
        find_char_from(p + q, c, p.len() + j) == match find_char_from(q, c, j) {
            Some(x) => Some(x + p.len()),
            None => None::<int>,
        },
    decreases q.len() - j,
{
    if j < q.len() {
        assert((p + q)[p.len() + j] == q[j]);
        if q[j] != c {
            lemma_find_char_shift(p, q, c, j + 1);
        }
    }
}

/// Rewriting the lines of `p + q` from inside `q` is rewriting `q`.
proof fn lemma_rewrite_shift(p: Seq<char>, q: Seq<char>, j: int, f: Seq<char>, v: Seq<char>)
    requires
        0 <= j,
    ensures
        rewrite_lines_from(p + q, p.len() + j, f, v) == rewrite_lines_from(q, j, f, v),
        has_field_from(p + q, p.len() + j, f) == has_field_from(q, j, f),
    decreases q.len() - j,
{
    if j < q.len() {
        lemma_find_char_shift(p, q, '\n', j);
        lemma_line_end(q, j);
        lemma_line_end(p + q, p.len() + j);
        let e = line_end(q, j);
        assert(line_end(p + q, p.len() + j) == p.len() + e);
        assert((p + q).subrange(p.len() + j, p.len() + e) =~= q.subrange(j, e));
        lemma_rewrite_shift(p, q, e, f, v);
    }
}

/// A line: text with no line break, then a line break.
pub open spec fn is_line(l: Seq<char>) -> bool {
    l.len() > 0 && l.last() == '\n' && !has_char(l.drop_last(), '\n')
}

pub(crate) proof fn lemma_first_line(l: Seq<char>, rest: Seq<char>)
    requires
        is_line(l),
    ensures
        line_end(l + rest, 0) == l.len(),
        (l + rest).subrange(0, l.len() as int) == l,
{
    let s = l + rest;
    lemma_find_char_from(s, '\n', 0);
    assert(s[l.len() - 1] == '\n');
    if find_char_from(s, '\n', 0) is Some {
        let k = find_char_from(s, '\n', 0)->0;
        if k < l.len() - 1 {
            assert(l.drop_last()[k] == '\n');
        }
    }
    assert(s.subrange(0, l.len() as int) =~= l);
}

/// No closing marker `\n---` lies wholly inside `s` from `from` on.
pub open spec fn close_free(s: Seq<char>, from: int) -> bool {
    forall|m: int| from <= m && m + 4 <= s.len() ==> !occurs_at(s, fm_close(), m)
}

pub open spec fn dashes() -> Seq<char> {
    seq!['-', '-', '-']
}

/// A field name the rewrite can find again in its own output: it holds no
/// line break and does not open with `---`, whose line would close the
/// block.
pub open spec fn rewritable_field(f: Seq<char>) -> bool {
    !has_char(f, '\n') && !starts_with(f, dashes())
}

/// A name some line can assign: empty, or opening with a character other
/// than whitespace.
spec fn assignable(f: Seq<char>) -> bool {
    f.len() == 0 || !is_ws(f[0])
}

/// Only an assignable name is assigned by a line.
proof fn lemma_assignable(s: Seq<char>, i: int, f: Seq<char>)
    requires
        0 <= i,
        has_field_from(s, i, f),
    ensures
        assignable(f),
    decreases s.len() - i,
{
    lemma_line_end(s, i);
    let e = line_end(s, i);
    let line = s.subrange(i, e);
    if is_field_line(line, f) {
        if f.len() > 0 {
            crate::text::lemma_first_non_ws(line, 0);
            let t = trim_start(line);
            let n = crate::text::first_non_ws(line, 0);
            if starts_with(t, f.push(':')) {
                assert(t[0] == t.take(f.len() as int + 1)[0]);
            } else {
                assert(t[0] == t.take(f.len() as int + 2)[0]);
            }
            assert(t[0] == line[n]);
        }
    } else {
        lemma_assignable(s, e, f);
    }
}

proof fn lemma_field_line_is_line(f: Seq<char>, v: Seq<char>)
    requires
        rewritable_field(f),
        assignable(f),
        !has_char(v, '\n'),
    ensures
        is_line(field_line(f, v)),
        !starts_with(field_line(f, v), dashes()),
        is_field_line(field_line(f, v), f),
{
    let l = field_line(f, v);
    assert(l.drop_last() =~= f + seq![':', ' '] + v);
    assert forall|i: int| 0 <= i < l.drop_last().len() implies l.drop_last()[i] != '\n' by {
        if i < f.len() {
            assert(l.drop_last()[i] == f[i]);
        } else if i >= f.len() + 2 {
            assert(l.drop_last()[i] == v[i - f.len() - 2]);
        }
    }
    if f.len() > 0 {
        assert(l[0] == f[0]);
    } else {
        assert(l[0] == ':');
    }
    assert(crate::text::first_non_ws(l, 0) == 0);
    assert(trim_start(l) =~= l);
    assert(l.take(f.len() as int + 1) =~= f.push(':'));
    if starts_with(l, dashes()) {
        if f.len() >= 3 {
            assert(f.take(3) =~= l.take(3)) by {
                assert forall|k: int| 0 <= k < 3 implies f.take(3)[k] == l.take(3)[k] by {
                    assert(l[k] == f[k]);
                }
            }
        } else {
            let n = f.len() as int;
            assert(l[n] == ':');
            assert(l.take(3)[n] == l[n]);
        }
    }
}

pub(crate) proof fn lemma_concat_close_free(l2: Seq<char>, re: Seq<char>)
    requires
        is_line(l2),
        close_free(re, 0),
        !starts_with(re, dashes()),
    ensures
        close_free(l2 + re, 0),
{
    let r = l2 + re;
    assert forall|m: int| 0 <= m && m + 4 <= r.len() implies !occurs_at(r, fm_close(), m) by {
        if occurs_at(r, fm_close(), m) {
            assert(r.subrange(m, m + 4) == fm_close());
            assert(r[m] == r.subrange(m, m + 4)[0]);
            if m < l2.len() - 1 {
                assert(r[m] == l2.drop_last()[m]);
            } else if m == l2.len() - 1 {
                assert(re.take(3) =~= dashes()) by {
                    assert forall|k: int| 0 <= k < 3 implies re[k] == dashes()[k] by {
                        assert(r[m + 1 + k] == re[k]);
                        assert(r.subrange(m, m + 4)[1 + k] == r[m + 1 + k]);
                    }
                }
            } else {
                let m2 = m - l2.len();
                assert forall|k: int| 0 <= k < 4 implies re.subrange(m2, m2 + 4)[k]
                    == fm_close()[k] by {
                    assert(re[m2 + k] == r[m + k]);
                    assert(r.subrange(m, m + 4)[k] == r[m + k]);
                }
                assert(re.subrange(m2, m2 + 4) =~= fm_close());
                assert(occurs_at(re, fm_close(), m2));
            }
        }
    }
}

pub(crate) proof fn lemma_concat_dashes(l2: Seq<char>, re: Seq<char>)
    requires
        is_line(l2),
        starts_with(l2 + re, dashes()),
    ensures
        l2.len() >= 4,
        l2[0] == '-',
        starts_with(l2, dashes()),
{
    let r = l2 + re;
    assert(r.take(3) == dashes());
    assert(r[0] == '-' && r[1] == '-' && r[2] == '-') by {
        assert(r[0] == r.take(3)[0] && r[1] == r.take(3)[1] && r[2] == r.take(3)[2]);
    }
    if l2.len() <= 3 {
        assert(r[l2.len() - 1] == l2.last());
    }
    assert(l2.take(3) =~= dashes()) by {
        assert(r[0] == l2[0] && r[1] == l2[1] && r[2] == l2[2]);
    }
}

pub(crate) proof fn lemma_dashes_after_line(s: Seq<char>, i: int, e: int)
    requires
        0 <= i < e < s.len(),
        s[e - 1] == '\n',
        close_free(s, i),
    ensures
        !starts_with(s.skip(e), dashes()),
{
    if starts_with(s.skip(e), dashes()) {
        assert(s.skip(e).take(3) == dashes());
        assert forall|k: int| 0 <= k < 4 implies s.subrange(e - 1, e + 3)[k] == fm_close()[k] by {
            if k > 0 {
                assert(s.skip(e).take(3)[k - 1] == s[e + k - 1]);
            }
        }
        assert(s.subrange(e - 1, e + 3) =~= fm_close());
        assert(occurs_at(s, fm_close(), e - 1));
    }
}

#[verifier::rlimit(40)]
proof fn lemma_rewrite_lines(s: Seq<char>, i: int, f: Seq<char>, v: Seq<char>, w: Seq<char>)
    requires
        s.len() > 0,
        s.last() == '\n',
        0 <= i <= s.len(),
        rewritable_field(f),
        assignable(f),
        !has_char(v, '\n'),
        close_free(s, i),
    ensures
        ({
            let r = rewrite_lines_from(s, i, f, v);
            &&& rewrite_lines_from(r, 0, f, w) == rewrite_lines_from(s, i, f, w)
            &&& has_field_from(s, i, f) ==> has_field_from(r, 0, f)
            &&& close_free(r, 0)
            &&& i < s.len() ==> r.len() > 0 && r.last() == '\n'
            &&& (i < s.len() && starts_with(r, dashes())) ==> starts_with(s.skip(i), dashes())
        }),
    decreases s.len() - i,
{
    if i < s.len() {
        lemma_line_end(s, i);
        let e = line_end(s, i);
        let line = s.subrange(i, e);
        assert(s[e - 1] == '\n');
        assert(is_line(line)) by {
            assert forall|k: int| 0 <= k < line.drop_last().len() implies line.drop_last()[k]
                != '\n' by {
                assert(line.drop_last()[k] == s[i + k]);
            }
        }
        lemma_field_line_is_line(f, v);
        let field = is_field_line(line, f);
        let l2 = if field {
            field_line(f, v)
        } else {
            line
        };
        assert(close_free(s, e));
        lemma_rewrite_lines(s, e, f, v, w);
        let re = rewrite_lines_from(s, e, f, v);
        let r = rewrite_lines_from(s, i, f, v);
        assert(r == l2 + re);
        lemma_first_line(l2, re);
        lemma_rewrite_shift(l2, re, 0, f, w);
        lemma_rewrite_shift(l2, re, 0, f, v);
        assert(is_field_line(l2, f) == field);
        if e < s.len() {
            lemma_dashes_after_line(s, i, e);
        } else {
            assert(re.len() == 0);
        }
        lemma_concat_close_free(l2, re);
        if starts_with(r, dashes()) {
            lemma_concat_dashes(l2, re);
            if !field {
                assert(s.skip(i).take(3) =~= dashes()) by {
                    assert forall|k: int| 0 <= k < 3 implies s.skip(i)[k] == dashes()[k] by {
                        assert(line[k] == s[i + k]);
                        assert(l2.take(3)[k] == l2[k]);
                    }
                }
            }
        }
        assert(r.last() == '\n') by {
            if re.len() > 0 {
                assert(r.last() == re.last());
            } else {
                assert(r =~= l2);
            }
        }
    }
}

/// The note that rewriting a field of `raw` to `v` gives.
pub open spec fn rewritten(raw: Seq<char>, f: Seq<char>, v: Seq<char>) -> Seq<char> {
    let k = frontmatter_close(raw)->0;
    raw.take(4) + rewrite_lines_from(raw.subrange(4, k + 1), 0, f, v) + raw.skip(k + 1)
}

/// After one rewrite to `v` the note still has its block, with the field
/// in it, and rewriting that to `w` is rewriting the first note to `w`.
proof fn lemma_rewrite_twice(raw: Seq<char>, f: Seq<char>, v: Seq<char>, w: Seq<char>)
    requires
        rewritable_field(f),
        !has_char(v, '\n'),
        frontmatter_close(raw) is Some,
        has_field_from(raw.subrange(4, frontmatter_close(raw)->0 + 1), 0, f),
    ensures
        ({
            let once = rewritten(raw, f, v);
            &&& frontmatter_close(once) is Some
            &&& has_field_from(once.subrange(4, frontmatter_close(once)->0 + 1), 0, f)
            &&& rewritten(once, f, w) == rewritten(raw, f, w)
        }),
{
    let k = frontmatter_close(raw)->0;
    lemma_find_from(raw, fm_close(), 4);
    assert(occurs_at(raw, fm_close(), k));
    assert(raw.subrange(k, k + 4) == fm_close());
    assert(raw[k] == raw.subrange(k, k + 4)[0]);
    let yaml = raw.subrange(4, k + 1);
    assert(yaml.last() == '\n');
    assert(close_free(yaml, 0)) by {
        assert forall|m: int| 0 <= m && m + 4 <= yaml.len() implies !occurs_at(yaml, fm_close(), m) by {
            if occurs_at(yaml, fm_close(), m) {
                assert(raw.subrange(4 + m, 4 + m + 4) =~= yaml.subrange(m, m + 4));
                assert(occurs_at(raw, fm_close(), 4 + m));
            }
        }
    }
    lemma_assignable(yaml, 0, f);
    lemma_rewrite_lines(yaml, 0, f, v, w);
    let r = rewrite_lines_from(yaml, 0, f, v);
    let tail = raw.skip(k + 1);
    let once = raw.take(4) + r + tail;
    let kk = 3 + r.len() as int;
    assert(tail.take(3) =~= dashes()) by {
        assert forall|j: int| 0 <= j < 3 implies tail[j] == dashes()[j] by {
            assert(tail[j] == raw[k + 1 + j]);
            assert(raw.subrange(k, k + 4)[1 + j] == raw[k + 1 + j]);
        }
    }
    assert(starts_with(once, fm_open())) by {
        assert(once.take(4) =~= raw.take(4));
    }
    assert(once[kk] == '\n') by {
        assert(once[kk] == r[r.len() - 1]);
    }
    assert(occurs_at(once, fm_close(), kk)) by {
        assert forall|j: int| 0 <= j < 4 implies once.subrange(kk, kk + 4)[j] == fm_close()[j] by {
            if j > 0 {
                assert(once[kk + j] == tail[j - 1]);
            }
        }
        assert(once.subrange(kk, kk + 4) =~= fm_close());
    }
    assert forall|m: int| 4 <= m < kk implies !occurs_at(once, fm_close(), m) by {
        if occurs_at(once, fm_close(), m) {
            assert(once.subrange(m, m + 4) == fm_close());
            if m + 4 <= 4 + r.len() {
                assert forall|j: int| 0 <= j < 4 implies r.subrange(m - 4, m)[j] == fm_close()[j] by {
                    assert(once[m + j] == r[m - 4 + j]);
                    assert(once.subrange(m, m + 4)[j] == once[m + j]);
                }
                assert(r.subrange(m - 4, m) =~= fm_close());
                assert(occurs_at(r, fm_close(), m - 4));
            } else {
                let off = kk - m;
                assert(1 <= off <= 3);
                assert(once.subrange(m, m + 4)[off] == once[kk]);
            }
        }
    }
    lemma_find_from(once, fm_close(), 4);
    assert(frontmatter_close(once) == Some(kk));
    assert(once.subrange(4, kk + 1) =~= r);
    assert(once.skip(kk + 1) =~= tail);
    assert(once.take(4) =~= raw.take(4));
    assert(once.take(4) + r + tail =~= once);
}


/// Rewriting a field of a note's frontmatter twice with the same value
/// gives what rewriting it once gave: the second rewrite finds the same
/// block, the field still in it, and changes nothing. Neither the field
/// name nor the value holds a line break, and the name does not open with
/// `---`.
pub proof fn lemma_rewrite_field_idempotent(raw: Seq<char>, f: Seq<char>, v: Seq<char>)
    requires
        rewritable_field(f),
        !has_char(v, '\n'),
        frontmatter_close(raw) is Some,
        has_field_from(raw.subrange(4, frontmatter_close(raw)->0 + 1), 0, f),
    ensures
        ({
            let once = rewritten(raw, f, v);
            &&& frontmatter_close(once) is Some
            &&& has_field_from(once.subrange(4, frontmatter_close(once)->0 + 1), 0, f)
            &&& rewritten(once, f, v) == once
        }),
{
    lemma_rewrite_twice(raw, f, v, v);
}

/// Rewriting a field of a note's frontmatter to `v` and then to `w` gives
/// what rewriting it to `w` at once gives: the last write wins. Neither
/// the field name nor the first value holds a line break, and the name
/// does not open with `---`.
pub proof fn lemma_rewrite_field_last_wins(raw: Seq<char>, f: Seq<char>, v: Seq<char>, w: Seq<char>)
    requires
        rewritable_field(f),
        !has_char(v, '\n'),
        frontmatter_close(raw) is Some,
        has_field_from(raw.subrange(4, frontmatter_close(raw)->0 + 1), 0, f),
    ensures
        ({
            let once = rewritten(raw, f, v);
            &&& frontmatter_close(once) is Some
            &&& has_field_from(once.subrange(4, frontmatter_close(once)->0 + 1), 0, f)
            &&& rewritten(once, f, w) == rewritten(raw, f, w)
        }),
{
    lemma_rewrite_twice(raw, f, v, w);
}

} // verus!

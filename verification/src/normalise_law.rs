//! Normalising a note twice changes nothing more than normalising it once:
//! the reordered block splits into the same lines and key groups, now in
//! canonical order, so a second pass finds nothing to move.

use vstd::prelude::*;

use crate::normalise::{
    assemble_from, bucket, bucket_text, groups_of, lemma_position_bound, lines_from, reorder_spec,
    reordered_yaml, top_level_key,
};
use crate::projects::rewrite_law::{
    close_free, dashes, is_line, lemma_concat_close_free, lemma_concat_dashes,
    lemma_dashes_after_line,
};
use crate::projects::{fm_close, fm_open, frontmatter_close, lemma_line_end, line_end};
use crate::text::{find_char_from, lemma_find_char_from, lemma_find_from, occurs_at, starts_with};
use vstd::seq_lib::lemma_flatten_concat;

verus! {

broadcast use Seq::lemma_flatten_push;

/// Splitting a block that ends in a line break gives lines that join back
/// into the block.
proof fn lemma_lines_split(s: Seq<char>, i: int)
    requires
        0 <= i <= s.len(),
        s.len() > 0,
        s.last() == '\n',
    ensures
        lines_from(s, i).flatten() == s.subrange(i, s.len() as int),
        forall|t: int| 0 <= t < lines_from(s, i).len() ==> is_line(#[trigger] lines_from(s, i)[t]),
    decreases s.len() - i,
{
    if i < s.len() {
        lemma_line_end(s, i);
        let e = line_end(s, i);
        let line = s.subrange(i, e);
        assert(is_line(line)) by {
            assert(line.last() == s[e - 1]);
            assert forall|k: int| 0 <= k < line.drop_last().len() implies line.drop_last()[k]
                != '\n' by {
                assert(line.drop_last()[k] == s[i + k]);
            }
        }
        lemma_lines_split(s, e);
        let rest = lines_from(s, e);
        assert(lines_from(s, i) == seq![line] + rest);
        assert((seq![line] + rest).drop_first() =~= rest);
        assert(s.subrange(i, s.len() as int) =~= line + s.subrange(e, s.len() as int));
        assert forall|t: int| 0 <= t < lines_from(s, i).len() implies is_line(
            #[trigger] lines_from(s, i)[t],
        ) by {
            if t > 0 {
                assert(lines_from(s, i)[t] == rest[t - 1]);
            }
        }
    } else {
        assert(s.subrange(i, s.len() as int) =~= Seq::<char>::empty());
    }
}

/// In a block with no closing marker, no line after the first opens with
/// three dashes.
proof fn lemma_lines_dashfree(s: Seq<char>, i: int)
    requires
        0 <= i <= s.len(),
        s.len() > 0,
        s.last() == '\n',
        close_free(s, i),
    ensures
        forall|t: int|
            1 <= t < lines_from(s, i).len() ==> !starts_with(#[trigger] lines_from(s, i)[t], dashes()),
    decreases s.len() - i,
{
    if i < s.len() {
        lemma_line_end(s, i);
        let e = line_end(s, i);
        let rest = lines_from(s, e);
        assert(lines_from(s, i) == seq![s.subrange(i, e)] + rest);
        if e < s.len() {
            lemma_dashes_after_line(s, i, e);
            lemma_line_end(s, e);
            let e2 = line_end(s, e);
            let next = s.subrange(e, e2);
            assert(rest[0] == next);
            if starts_with(next, dashes()) {
                assert(s.skip(e).take(3) =~= next.take(3));
            }
            lemma_lines_dashfree(s, e);
        }
        assert forall|t: int| 1 <= t < lines_from(s, i).len() implies !starts_with(
            #[trigger] lines_from(s, i)[t],
            dashes(),
        ) by {
            assert(lines_from(s, i)[t] == rest[t - 1]);
        }
    }
}

/// Lines joined and split again are the same lines.
proof fn lemma_lines_of_flat(ls: Seq<Seq<char>>, s: Seq<char>, i: int)
    requires
        0 <= i <= s.len(),
        s.subrange(i, s.len() as int) == ls.flatten(),
        forall|t: int| 0 <= t < ls.len() ==> is_line(#[trigger] ls[t]),
    ensures
        lines_from(s, i) == ls,
    decreases ls.len(),
{
    if ls.len() == 0 {
        assert(s.subrange(i, s.len() as int).len() == 0);
    } else {
        let l = ls[0];
        let rest = ls.drop_first();
        assert(is_line(l));
        assert(ls.flatten() == l + rest.flatten());
        let n = l.len() as int;
        assert forall|m: int| 0 <= m < n implies s[i + m] == l[m] by {
            assert(s.subrange(i, s.len() as int)[m] == s[i + m]);
        }
        lemma_find_char_from(s, '\n', i);
        assert(s[i + n - 1] == '\n');
        match find_char_from(s, '\n', i) {
            Some(k) => {
                if k < i + n - 1 {
                    assert(l.drop_last()[k - i] == l[k - i]);
                }
                assert(k == i + n - 1);
            },
            None => {},
        }
        assert(line_end(s, i) == i + n);
        assert(s.subrange(i, i + n) =~= l);
        assert(s.subrange(i + n, s.len() as int) =~= rest.flatten()) by {
            let whole = s.subrange(i, s.len() as int);
            assert(whole == l + rest.flatten());
            assert forall|m: int| 0 <= m < rest.flatten().len() implies s.subrange(
                i + n,
                s.len() as int,
            )[m] == rest.flatten()[m] by {
                assert(whole[n + m] == s[i + n + m]);
                assert((l + rest.flatten())[n + m] == rest.flatten()[m]);
            }
        }
        lemma_lines_of_flat(rest, s, i + n);
        assert(lines_from(s, i) == seq![l] + rest);
        assert(seq![l] + rest =~= ls);
    }
}

/// Lines whose later members never open with three dashes join into a
/// text with no closing marker inside it.
proof fn lemma_lines_close_free(ls: Seq<Seq<char>>)
    requires
        forall|t: int| 0 <= t < ls.len() ==> is_line(#[trigger] ls[t]),
        forall|t: int| 1 <= t < ls.len() ==> !starts_with(#[trigger] ls[t], dashes()),
    ensures
        close_free(ls.flatten(), 0),
    decreases ls.len(),
{
    if ls.len() > 0 {
        let rest = ls.drop_first();
        assert forall|t: int| 1 <= t < rest.len() implies !starts_with(#[trigger] rest[t], dashes()) by {
            assert(rest[t] == ls[t + 1]);
        }
        assert forall|t: int| 0 <= t < rest.len() implies is_line(#[trigger] rest[t]) by {
            assert(rest[t] == ls[t + 1]);
        }
        lemma_lines_close_free(rest);
        let re = rest.flatten();
        if rest.len() > 0 {
            assert(re == rest[0] + rest.drop_first().flatten());
            if starts_with(re, dashes()) {
                lemma_concat_dashes(rest[0], rest.drop_first().flatten());
                assert(rest[0] == ls[1]);
            }
        }
        assert(ls.flatten() == ls[0] + re);
        lemma_concat_close_free(ls[0], re);
    }
}

/// Lines join into a text that ends with a line break, when there is one.
proof fn lemma_lines_end(ls: Seq<Seq<char>>)
    requires
        ls.len() > 0,
        forall|t: int| 0 <= t < ls.len() ==> is_line(#[trigger] ls[t]),
    ensures
        ls.flatten().len() > 0,
        ls.flatten().last() == '\n',
{
    assert(ls =~= ls.drop_last().push(ls.last()));
    assert(ls.flatten() == ls.drop_last().flatten() + ls.last());
    assert(is_line(ls[ls.len() - 1]));
}

/// A note whose block is `r` and whose text after the block opens with
/// three dashes closes its block right after `r`.
proof fn lemma_close_at(once: Seq<char>, r: Seq<char>, rest: Seq<char>)
    requires
        once == fm_open() + r + rest,
        r.len() > 0,
        r.last() == '\n',
        close_free(r, 0),
        starts_with(rest, dashes()),
    ensures
        frontmatter_close(once) == Some(3 + r.len() as int),
        once.subrange(4, 4 + r.len() as int) == r,
        once.skip(4 + r.len() as int) == rest,
{
    let kk = 3 + r.len() as int;
    assert(starts_with(once, fm_open())) by {
        assert(once.take(4) =~= fm_open());
    }
    assert(once[kk] == '\n') by {
        assert(once[kk] == r[r.len() - 1]);
    }
    assert(rest.take(3) == dashes());
    assert(occurs_at(once, fm_close(), kk)) by {
        assert forall|j: int| 0 <= j < 4 implies once.subrange(kk, kk + 4)[j] == fm_close()[j] by {
            if j > 0 {
                assert(once[kk + j] == rest[j - 1]);
                assert(rest.take(3)[j - 1] == rest[j - 1]);
            }
        }
        assert(once.subrange(kk, kk + 4) =~= fm_close());
    }
    assert forall|m: int| 4 <= m < kk implies !occurs_at(once, fm_close(), m) by {
        if occurs_at(once, fm_close(), m) {
            assert(once.subrange(m, m + 4) == fm_close());
            if m + 4 <= 4 + r.len() {
                assert forall|j: int| 0 <= j < 4 implies r.subrange(m - 4, m)[j] == fm_close()[j] by {
                    assert(once[m + j] == r[m - 4 + j]);
                    assert(once.subrange(m, m + 4)[j] == once[m + j]);
                }
                assert(r.subrange(m - 4, m) =~= fm_close());
                assert(occurs_at(r, fm_close(), m - 4));
            } else {
                let off = kk - m;
                assert(1 <= off <= 3);
                assert(once.subrange(m, m + 4)[off] == once[kk]);
            }
        }
    }
    lemma_find_from(once, fm_close(), 4);
    assert(once.subrange(4, kk + 1) =~= r);
    assert(once.skip(kk + 1) =~= rest);
}

/// The lines of `ls` gathered into key groups, each group kept as its
/// lines: the grouping `groups_of` makes, before each group is joined.
spec fn line_groups(ls: Seq<Seq<char>>) -> Seq<Seq<Seq<char>>>
    decreases ls.len(),
{
    if ls.len() == 0 {
        Seq::empty()
    } else {
        let prev = line_groups(ls.drop_last());
        let l = ls.last();
        match top_level_key(l) {
            Some(_) => prev.push(seq![l]),
            None => if prev.len() > 0 {
                prev.drop_last().push(prev.last().push(l))
            } else {
                prev.push(seq![l])
            },
        }
    }
}

/// A group as `groups_of` records it: the key of its first line, and its
/// text.
spec fn group_pair(g: Seq<Seq<char>>) -> (Option<Seq<char>>, Seq<char>) {
    (top_level_key(g[0]), g.flatten())
}

spec fn pairs(gs: Seq<Seq<Seq<char>>>) -> Seq<(Option<Seq<char>>, Seq<char>)> {
    gs.map_values(|g: Seq<Seq<char>>| group_pair(g))
}

/// Groups as the grouping makes them: none empty, only a group's first
/// line assigns a key, and only the first group may lack one.
spec fn well_grouped(gs: Seq<Seq<Seq<char>>>) -> bool {
    &&& forall|i: int| 0 <= i < gs.len() ==> (#[trigger] gs[i]).len() > 0
    &&& forall|i: int, j: int|
        0 <= i < gs.len() && 1 <= j < gs[i].len() ==> top_level_key(#[trigger] gs[i][j]) is None
    &&& forall|i: int| 1 <= i < gs.len() ==> top_level_key((#[trigger] gs[i])[0]) is Some
}

proof fn lemma_line_groups(ls: Seq<Seq<char>>)
    ensures
        groups_of(ls) == pairs(line_groups(ls)),
        line_groups(ls).flatten() == ls,
        well_grouped(line_groups(ls)),
        ls.len() > 0 ==> line_groups(ls).len() > 0 && line_groups(ls)[0][0] == ls[0],
    decreases ls.len(),
{
    if ls.len() > 0 {
        let ls0 = ls.drop_last();
        lemma_line_groups(ls0);
        let g0 = line_groups(ls0);
        let l = ls.last();
        let g = line_groups(ls);
        assert(ls =~= ls0.push(l));
        assert(seq![l].flatten() == l) by {
            assert(seq![l].drop_first() =~= Seq::<Seq<char>>::empty());
            assert(seq![l].flatten() == l + Seq::<Seq<char>>::empty().flatten());
        }
        match top_level_key(l) {
            Some(k) => {
                assert(g == g0.push(seq![l]));
                assert(pairs(g) =~= pairs(g0).push((Some(k), l)));
                assert(g.flatten() == g0.flatten() + seq![l]);
                assert forall|i: int, j: int|
                    0 <= i < g.len() && 1 <= j < g[i].len() implies top_level_key(
                    #[trigger] g[i][j],
                ) is None by {
                    assert(i < g0.len());
                    assert(g[i] == g0[i]);
                }
                if ls0.len() > 0 {
                    assert(g[0] == g0[0]);
                }
            },
            None => {
                if g0.len() > 0 {
                    let last = g0.last();
                    assert(last.len() > 0);
                    assert(g == g0.drop_last().push(last.push(l)));
                    assert(last.push(l)[0] == last[0]);
                    assert(pairs(g) =~= pairs(g0).drop_last().push(
                        (pairs(g0).last().0, pairs(g0).last().1 + l),
                    ));
                    assert(g0 =~= g0.drop_last().push(last));
                    assert(g0.flatten() == g0.drop_last().flatten() + last);
                    assert(g.flatten() == g0.drop_last().flatten() + last.push(l));
                    assert(last.push(l).flatten() == last.flatten() + l);
                    assert(g.flatten() =~= ls);
                    assert forall|i: int| 0 <= i < g.len() implies (#[trigger] g[i]).len() > 0 by {
                        if i < g.len() - 1 {
                            assert(g[i] == g0[i]);
                        }
                    }
                    assert forall|i: int, j: int|
                        0 <= i < g.len() && 1 <= j < g[i].len() implies top_level_key(
                        #[trigger] g[i][j],
                    ) is None by {
                        if i < g.len() - 1 {
                            assert(g[i] == g0[i]);
                        } else if j < last.len() {
                            assert(g[i][j] == g0[i][j]);
                        }
                    }
                    assert forall|i: int| 1 <= i < g.len() implies top_level_key(
                        (#[trigger] g[i])[0],
                    ) is Some by {
                        if i < g.len() - 1 {
                            assert(g[i] == g0[i]);
                        } else {
                            assert(g[i][0] == g0[i][0]);
                        }
                    }
                    assert(g[0][0] == g0[0][0]);
                } else {
                    assert(ls0.len() == 0);
                    assert(g == seq![seq![l]]);
                    assert(pairs(g) =~= seq![(None::<Seq<char>>, l)]);
                    assert(groups_of(ls) == groups_of(ls0).push((None::<Seq<char>>, l)));
                    assert(groups_of(ls0) =~= Seq::<(Option<Seq<char>>, Seq<char>)>::empty());
                    assert(g.flatten() == g0.flatten() + seq![l]);
                }
            },
        }
    }
}

/// The lines of the groups keep, after the first, whatever the lines of
/// `ls` after the first have.
proof fn lemma_line_groups_lines(ls: Seq<Seq<char>>, p: spec_fn(Seq<char>) -> bool)
    requires
        forall|t: int| 1 <= t < ls.len() ==> p(#[trigger] ls[t]),
    ensures
        forall|i: int, j: int|
            0 <= i < line_groups(ls).len() && 0 <= j < line_groups(ls)[i].len() && (i > 0 || j > 0)
                ==> p(#[trigger] line_groups(ls)[i][j]),
    decreases ls.len(),
{
    if ls.len() > 0 {
        let ls0 = ls.drop_last();
        assert forall|t: int| 1 <= t < ls0.len() implies p(#[trigger] ls0[t]) by {
            assert(ls0[t] == ls[t]);
        }
        lemma_line_groups_lines(ls0, p);
        lemma_line_groups(ls0);
        let g0 = line_groups(ls0);
        let l = ls.last();
        let g = line_groups(ls);
        assert forall|i: int, j: int|
            0 <= i < g.len() && 0 <= j < g[i].len() && (i > 0 || j > 0) implies p(
            #[trigger] g[i][j],
        ) by {
            match top_level_key(l) {
                Some(_) => {
                    if i < g0.len() {
                        assert(g[i] == g0[i]);
                    } else {
                        assert(g[i] == seq![l]);
                        assert(ls0.len() > 0);
                        assert(l == ls[ls.len() - 1]);
                    }
                },
                None => {
                    if g0.len() > 0 {
                        if i < g0.len() - 1 {
                            assert(g[i] == g0[i]);
                        } else if j < g0.last().len() {
                            assert(g[i] == g0.last().push(l));
                            assert(g[i][j] == g0[i][j]);
                        } else {
                            assert(g[i] == g0.last().push(l));
                            assert(ls0.len() > 0);
                            assert(l == ls[ls.len() - 1]);
                        }
                    } else {
                        assert(g == seq![seq![l]]);
                    }
                },
            }
        }
    }
}

/// Joining the first `m` lines of a group onto lines that already form
/// groups adds just that group.
proof fn lemma_group_prefix(ps: Seq<Seq<char>>, g: Seq<Seq<char>>, m: int)
    requires
        1 <= m <= g.len(),
        forall|j: int| 1 <= j < g.len() ==> top_level_key(#[trigger] g[j]) is None,
        top_level_key(g[0]) is Some || ps.len() == 0,
    ensures
        line_groups(ps + g.take(m)) == line_groups(ps).push(g.take(m)),
    decreases m,
{
    let x = ps + g.take(m);
    assert(x.drop_last() =~= ps + g.take(m - 1));
    assert(x.last() == g[m - 1]);
    if m == 1 {
        assert(x.drop_last() =~= ps);
        assert(g.take(1) =~= seq![g[0]]);
        if top_level_key(g[0]) is None {
            assert(line_groups(ps) =~= Seq::<Seq<Seq<char>>>::empty());
        }
    } else {
        lemma_group_prefix(ps, g, m - 1);
        let prev = line_groups(ps).push(g.take(m - 1));
        assert(top_level_key(g[m - 1]) is None);
        assert(prev.drop_last() =~= line_groups(ps));
        assert(g.take(m - 1).push(g[m - 1]) =~= g.take(m));
    }
}

/// Groups joined into lines and grouped again are the same groups.
proof fn lemma_flat_groups(gs: Seq<Seq<Seq<char>>>)
    requires
        well_grouped(gs),
    ensures
        line_groups(gs.flatten()) == gs,
    decreases gs.len(),
{
    if gs.len() > 0 {
        let g0 = gs.drop_last();
        let g = gs.last();
        assert(well_grouped(g0)) by {
            assert forall|i: int| 0 <= i < g0.len() implies (#[trigger] g0[i]).len() > 0 by {
                assert(g0[i] == gs[i]);
            }
            assert forall|i: int, j: int|
                0 <= i < g0.len() && 1 <= j < g0[i].len() implies top_level_key(
                #[trigger] g0[i][j],
            ) is None by {
                assert(g0[i] == gs[i]);
            }
            assert forall|i: int| 1 <= i < g0.len() implies top_level_key(
                (#[trigger] g0[i])[0],
            ) is Some by {
                assert(g0[i] == gs[i]);
            }
        }
        lemma_flat_groups(g0);
        assert(gs =~= g0.push(g));
        assert(gs.flatten() == g0.flatten() + g);
        assert(g.len() > 0);
        assert forall|j: int| 1 <= j < g.len() implies top_level_key(#[trigger] g[j]) is None by {
            assert(g[j] == gs[gs.len() - 1][j]);
        }
        if gs.len() == 1 {
            assert(g0.flatten() =~= Seq::<Seq<char>>::empty());
        } else {
            assert(top_level_key(gs[gs.len() - 1][0]) is Some);
        }
        lemma_group_prefix(g0.flatten(), g, g.len() as int);
        assert(g.take(g.len() as int) =~= g);
    }
}

spec fn group_bucket(g: Seq<Seq<char>>, order: Seq<Seq<char>>) -> int {
    bucket(group_pair(g), order)
}

/// The groups of bucket `b`, in their order.
spec fn in_bucket(gs: Seq<Seq<Seq<char>>>, order: Seq<Seq<char>>, b: int) -> Seq<Seq<Seq<char>>>
    decreases gs.len(),
{
    if gs.len() == 0 {
        Seq::empty()
    } else {
        in_bucket(gs.drop_last(), order, b) + if group_bucket(gs.last(), order) == b {
            seq![gs.last()]
        } else {
            Seq::empty()
        }
    }
}

/// The groups of buckets `c` up to `e`, bucket by bucket.
spec fn span(gs: Seq<Seq<Seq<char>>>, order: Seq<Seq<char>>, c: int, e: int) -> Seq<
    Seq<Seq<char>>,
>
    decreases e - c,
{
    if c < 0 || c >= e {
        Seq::empty()
    } else {
        in_bucket(gs, order, c) + span(gs, order, c + 1, e)
    }
}

proof fn lemma_group_bucket(g: Seq<Seq<char>>, order: Seq<Seq<char>>)
    ensures
        0 <= group_bucket(g, order) <= order.len() + 1,
        group_bucket(g, order) == 0 <==> top_level_key(g[0]) is None,
{
    if let Some(k) = top_level_key(g[0]) {
        lemma_position_bound(order, k);
    }
}

proof fn lemma_flatten2_concat(x: Seq<Seq<Seq<char>>>, y: Seq<Seq<Seq<char>>>)
    ensures
        (x + y).flatten().flatten() == x.flatten().flatten() + y.flatten().flatten(),
{
    lemma_flatten_concat(x, y);
    lemma_flatten_concat(x.flatten(), y.flatten());
}

proof fn lemma_bucket_text(gs: Seq<Seq<Seq<char>>>, order: Seq<Seq<char>>, b: int)
    ensures
        bucket_text(pairs(gs), order, b) == in_bucket(gs, order, b).flatten().flatten(),
    decreases gs.len(),
{
    if gs.len() > 0 {
        let g = gs.last();
        lemma_bucket_text(gs.drop_last(), order, b);
        assert(pairs(gs).drop_last() =~= pairs(gs.drop_last()));
        assert(pairs(gs).last() == group_pair(g));
        let x: Seq<Seq<Seq<char>>> = if group_bucket(g, order) == b {
            seq![g]
        } else {
            Seq::empty()
        };
        lemma_flatten2_concat(in_bucket(gs.drop_last(), order, b), x);
        if group_bucket(g, order) == b {
            assert(x.flatten() == g) by {
                assert(x.drop_first() =~= Seq::<Seq<Seq<char>>>::empty());
                assert(x.flatten() == g + Seq::<Seq<Seq<char>>>::empty().flatten());
                assert(g + Seq::<Seq<char>>::empty() =~= g);
            }
        } else {
            assert(x.flatten() =~= Seq::<Seq<char>>::empty());
            assert(x.flatten().flatten() =~= Seq::<char>::empty());
        }
    }
}

proof fn lemma_assemble(gs: Seq<Seq<Seq<char>>>, order: Seq<Seq<char>>, c: int)
    ensures
        assemble_from(pairs(gs), order, c) == span(gs, order, c, order.len() + 2 as int).flatten().flatten(),
    decreases order.len() + 2 - c,
{
    if c < 0 || c > order.len() + 1 {
        assert(span(gs, order, c, order.len() + 2 as int) =~= Seq::<Seq<Seq<char>>>::empty());
        assert(Seq::<Seq<Seq<char>>>::empty().flatten() =~= Seq::<Seq<char>>::empty());
        assert(Seq::<Seq<char>>::empty().flatten() =~= Seq::<char>::empty());
    } else {
        lemma_assemble(gs, order, c + 1);
        lemma_bucket_text(gs, order, c);
        lemma_flatten2_concat(in_bucket(gs, order, c), span(gs, order, c + 1, order.len() + 2 as int));
    }
}

proof fn lemma_in_bucket_concat(
    x: Seq<Seq<Seq<char>>>,
    y: Seq<Seq<Seq<char>>>,
    order: Seq<Seq<char>>,
    b: int,
)
    ensures
        in_bucket(x + y, order, b) == in_bucket(x, order, b) + in_bucket(y, order, b),
    decreases y.len(),
{
    if y.len() == 0 {
        assert(x + y =~= x);
        assert(in_bucket(x, order, b) + in_bucket(y, order, b) =~= in_bucket(x, order, b));
    } else {
        lemma_in_bucket_concat(x, y.drop_last(), order, b);
        assert((x + y).drop_last() =~= x + y.drop_last());
        assert((x + y).last() == y.last());
    }
}

proof fn lemma_in_bucket_single(g: Seq<Seq<char>>, order: Seq<Seq<char>>, b: int)
    ensures
        in_bucket(seq![g], order, b) == if group_bucket(g, order) == b {
            seq![g]
        } else {
            Seq::<Seq<Seq<char>>>::empty()
        },
{
    assert(seq![g].drop_last() =~= Seq::<Seq<Seq<char>>>::empty());
    assert(in_bucket(Seq::<Seq<Seq<char>>>::empty(), order, b) =~= Seq::<Seq<Seq<char>>>::empty());
    if group_bucket(g, order) == b {
        assert(Seq::<Seq<Seq<char>>>::empty() + seq![g] =~= seq![g]);
    } else {
        assert(Seq::<Seq<Seq<char>>>::empty() + Seq::<Seq<Seq<char>>>::empty() =~= Seq::<
            Seq<Seq<char>>,
        >::empty());
    }
}

proof fn lemma_in_bucket_twice(gs: Seq<Seq<Seq<char>>>, order: Seq<Seq<char>>, c: int, b: int)
    ensures
        in_bucket(in_bucket(gs, order, c), order, b) == if b == c {
            in_bucket(gs, order, c)
        } else {
            Seq::<Seq<Seq<char>>>::empty()
        },
    decreases gs.len(),
{
    if gs.len() > 0 {
        let g = gs.last();
        lemma_in_bucket_twice(gs.drop_last(), order, c, b);
        let x: Seq<Seq<Seq<char>>> = if group_bucket(g, order) == c {
            seq![g]
        } else {
            Seq::empty()
        };
        lemma_in_bucket_concat(in_bucket(gs.drop_last(), order, c), x, order, b);
        if group_bucket(g, order) == c {
            lemma_in_bucket_single(g, order, b);
        } else {
            assert(in_bucket(x, order, b) =~= Seq::<Seq<Seq<char>>>::empty());
        }
        if b != c {
            assert(Seq::<Seq<Seq<char>>>::empty() + Seq::<Seq<Seq<char>>>::empty() =~= Seq::<
                Seq<Seq<char>>,
            >::empty());
        } else if group_bucket(g, order) != c {
            assert(in_bucket(gs, order, c) =~= in_bucket(gs.drop_last(), order, c));
        }
    }
}

proof fn lemma_in_bucket_span(
    gs: Seq<Seq<Seq<char>>>,
    order: Seq<Seq<char>>,
    c: int,
    e: int,
    b: int,
)
    ensures
        in_bucket(span(gs, order, c, e), order, b) == if 0 <= c && c <= b < e {
            in_bucket(gs, order, b)
        } else {
            Seq::<Seq<Seq<char>>>::empty()
        },
    decreases e - c,
{
    if c < 0 || c >= e {
        assert(span(gs, order, c, e) =~= Seq::<Seq<Seq<char>>>::empty());
    } else {
        lemma_in_bucket_span(gs, order, c + 1, e, b);
        lemma_in_bucket_concat(in_bucket(gs, order, c), span(gs, order, c + 1, e), order, b);
        lemma_in_bucket_twice(gs, order, c, b);
        let em = Seq::<Seq<Seq<char>>>::empty();
        if b == c {
            assert(in_bucket(gs, order, b) + em =~= in_bucket(gs, order, b));
        } else if c < b && b < e {
            assert(em + in_bucket(gs, order, b) =~= in_bucket(gs, order, b));
        } else {
            assert(em + em =~= em);
        }
    }
}

/// Taking buckets `c..e` of the groups of buckets `0..e0` takes buckets
/// `c..min(e, e0)`.
proof fn lemma_span_span(
    gs: Seq<Seq<Seq<char>>>,
    order: Seq<Seq<char>>,
    e0: int,
    c: int,
    e: int,
)
    requires
        0 <= c,
    ensures
        span(span(gs, order, 0, e0), order, c, e) == span(
            gs,
            order,
            c,
            if e < e0 {
                e
            } else {
                e0
            },
        ),
    decreases e - c,
{
    let m = if e < e0 {
        e
    } else {
        e0
    };
    if c >= e {
        assert(span(gs, order, c, m) =~= Seq::<Seq<Seq<char>>>::empty());
    } else {
        lemma_span_span(gs, order, e0, c + 1, e);
        lemma_in_bucket_span(gs, order, 0, e0, c);
        if c < e0 {
            assert(span(gs, order, c, m) == in_bucket(gs, order, c) + span(gs, order, c + 1, m));
        } else {
            assert(span(gs, order, c + 1, m) =~= Seq::<Seq<Seq<char>>>::empty());
            assert(span(gs, order, c, m) =~= Seq::<Seq<Seq<char>>>::empty());
            assert(Seq::<Seq<Seq<char>>>::empty() + Seq::<Seq<Seq<char>>>::empty() =~= Seq::<
                Seq<Seq<char>>,
            >::empty());
        }
    }
}

proof fn lemma_span_split(gs: Seq<Seq<Seq<char>>>, order: Seq<Seq<char>>, c: int, m: int, e: int)
    requires
        0 <= c <= m <= e,
    ensures
        span(gs, order, c, e) == span(gs, order, c, m) + span(gs, order, m, e),
    decreases m - c,
{
    if c == m {
        assert(span(gs, order, c, m) =~= Seq::<Seq<Seq<char>>>::empty());
        assert(span(gs, order, c, m) + span(gs, order, m, e) =~= span(gs, order, m, e));
    } else {
        lemma_span_split(gs, order, c + 1, m, e);
        assert(in_bucket(gs, order, c) + (span(gs, order, c + 1, m) + span(gs, order, m, e))
            =~= (in_bucket(gs, order, c) + span(gs, order, c + 1, m)) + span(gs, order, m, e));
    }
}

/// A group outside buckets `c..e` plays no part in them.
proof fn lemma_span_without(
    g: Seq<Seq<char>>,
    rest: Seq<Seq<Seq<char>>>,
    order: Seq<Seq<char>>,
    c: int,
    e: int,
)
    requires
        !(c <= group_bucket(g, order) < e),
    ensures
        span(seq![g] + rest, order, c, e) == span(rest, order, c, e),
    decreases e - c,
{
    if 0 <= c < e {
        lemma_span_without(g, rest, order, c + 1, e);
        lemma_in_bucket_concat(seq![g], rest, order, c);
        lemma_in_bucket_single(g, order, c);
        assert(Seq::<Seq<Seq<char>>>::empty() + in_bucket(rest, order, c) =~= in_bucket(
            rest,
            order,
            c,
        ));
    }
}

proof fn lemma_in_bucket_keeps(
    gs: Seq<Seq<Seq<char>>>,
    order: Seq<Seq<char>>,
    b: int,
    p: spec_fn(Seq<Seq<char>>) -> bool,
)
    requires
        forall|i: int| 0 <= i < gs.len() ==> p(#[trigger] gs[i]),
    ensures
        forall|i: int|
            0 <= i < in_bucket(gs, order, b).len() ==> p(#[trigger] in_bucket(gs, order, b)[i])
                && group_bucket(in_bucket(gs, order, b)[i], order) == b,
    decreases gs.len(),
{
    if gs.len() > 0 {
        let g0 = gs.drop_last();
        assert forall|i: int| 0 <= i < g0.len() implies p(#[trigger] g0[i]) by {
            assert(g0[i] == gs[i]);
        }
        lemma_in_bucket_keeps(g0, order, b, p);
        assert(p(gs[gs.len() - 1]));
        let a = in_bucket(g0, order, b);
        let r = in_bucket(gs, order, b);
        assert forall|i: int| 0 <= i < r.len() implies p(#[trigger] r[i]) && group_bucket(
            r[i],
            order,
        ) == b by {
            if i < a.len() {
                assert(r[i] == a[i]);
            } else {
                assert(r[i] == gs.last());
            }
        }
    }
}

proof fn lemma_span_keeps(
    gs: Seq<Seq<Seq<char>>>,
    order: Seq<Seq<char>>,
    c: int,
    e: int,
    p: spec_fn(Seq<Seq<char>>) -> bool,
)
    requires
        forall|i: int| 0 <= i < gs.len() ==> p(#[trigger] gs[i]),
    ensures
        forall|i: int|
            0 <= i < span(gs, order, c, e).len() ==> p(#[trigger] span(gs, order, c, e)[i]) && c
                <= group_bucket(span(gs, order, c, e)[i], order) < e,
    decreases e - c,
{
    if 0 <= c < e {
        lemma_span_keeps(gs, order, c + 1, e, p);
        lemma_in_bucket_keeps(gs, order, c, p);
        let a = in_bucket(gs, order, c);
        let r = span(gs, order, c, e);
        assert forall|i: int| 0 <= i < r.len() implies p(#[trigger] r[i]) && c <= group_bucket(
            r[i],
            order,
        ) < e by {
            if i < a.len() {
                assert(r[i] == a[i]);
            } else {
                assert(r[i] == span(gs, order, c + 1, e)[i - a.len()]);
            }
        }
    }
}

/// At most one group, the first, lacks a key, so bucket 0 holds at most one.
proof fn lemma_bucket_zero(gs: Seq<Seq<Seq<char>>>, order: Seq<Seq<char>>)
    requires
        forall|i: int| 1 <= i < gs.len() ==> top_level_key((#[trigger] gs[i])[0]) is Some,
    ensures
        in_bucket(gs, order, 0).len() <= 1,
    decreases gs.len(),
{
    if gs.len() > 1 {
        let g0 = gs.drop_last();
        assert forall|i: int| 1 <= i < g0.len() implies top_level_key((#[trigger] g0[i])[0]) is Some by {
            assert(g0[i] == gs[i]);
        }
        lemma_bucket_zero(g0, order);
        lemma_group_bucket(gs.last(), order);
        assert(top_level_key(gs[gs.len() - 1][0]) is Some);
        assert(group_bucket(gs.last(), order) != 0);
        assert(in_bucket(gs, order, 0) =~= in_bucket(g0, order, 0));
    } else if gs.len() == 1 {
        assert(gs.drop_last() =~= Seq::<Seq<Seq<char>>>::empty());
        assert(in_bucket(gs.drop_last(), order, 0) =~= Seq::<Seq<Seq<char>>>::empty());
    }
}

/// The groups of buckets `0..e` are still grouped as the grouping makes
/// them.
proof fn lemma_span_well_grouped(gs: Seq<Seq<Seq<char>>>, order: Seq<Seq<char>>, e: int)
    requires
        well_grouped(gs),
    ensures
        well_grouped(span(gs, order, 0, e)),
{
    let y = span(gs, order, 0, e);
    let p1 = |g: Seq<Seq<char>>| g.len() > 0;
    let p2 = |g: Seq<Seq<char>>| forall|j: int| 1 <= j < g.len() ==> top_level_key(#[trigger] g[j]) is None;
    assert forall|i: int| 0 <= i < gs.len() implies p1(#[trigger] gs[i]) by {}
    assert forall|i: int| 0 <= i < gs.len() implies p2(#[trigger] gs[i]) by {
        assert forall|j: int| 1 <= j < gs[i].len() implies top_level_key(#[trigger] gs[i][j]) is None by {}
    }
    lemma_span_keeps(gs, order, 0, e, p1);
    lemma_span_keeps(gs, order, 0, e, p2);
    if e > 0 {
        lemma_bucket_zero(gs, order);
        let z = in_bucket(gs, order, 0);
        let s1 = span(gs, order, 1, e);
        lemma_span_keeps(gs, order, 1, e, p1);
        assert forall|i: int| 1 <= i < y.len() implies top_level_key((#[trigger] y[i])[0]) is Some by {
            assert(y[i] == s1[i - z.len()]);
            lemma_group_bucket(s1[i - z.len()], order);
        }
    }
    assert forall|i: int| 0 <= i < y.len() implies (#[trigger] y[i]).len() > 0 by {
        assert(p1(y[i]));
    }
    assert forall|i: int, j: int|
        0 <= i < y.len() && 1 <= j < y[i].len() implies top_level_key(#[trigger] y[i][j]) is None by {
        assert(p2(y[i]));
    }
}

proof fn lemma_flatten_all<A>(r: Seq<Seq<A>>, p: spec_fn(A) -> bool)
    requires
        forall|i: int, j: int| 0 <= i < r.len() && 0 <= j < r[i].len() ==> p(#[trigger] r[i][j]),
    ensures
        forall|t: int| 0 <= t < r.flatten().len() ==> p(#[trigger] r.flatten()[t]),
    decreases r.len(),
{
    if r.len() > 0 {
        let rest = r.drop_first();
        assert forall|i: int, j: int| 0 <= i < rest.len() && 0 <= j < rest[i].len() implies p(
            #[trigger] rest[i][j],
        ) by {
            assert(rest[i] == r[i + 1]);
        }
        lemma_flatten_all(rest, p);
        assert(r.flatten() == r[0] + rest.flatten());
        assert forall|t: int| 0 <= t < r.flatten().len() implies p(#[trigger] r.flatten()[t]) by {
            if t < r[0].len() {
                assert(r.flatten()[t] == r[0][t]);
            } else {
                assert(r.flatten()[t] == rest.flatten()[t - r[0].len()]);
            }
        }
    }
}

spec fn lines_ok(g: Seq<Seq<char>>) -> bool {
    forall|j: int| 0 <= j < g.len() ==> is_line(#[trigger] g[j])
}

spec fn dash_free(g: Seq<Seq<char>>) -> bool {
    forall|j: int| 0 <= j < g.len() ==> !starts_with(#[trigger] g[j], dashes())
}

/// Groups made of lines join into lines; groups free of dashed lines join
/// into lines free of them.
proof fn lemma_groups_flatten(r: Seq<Seq<Seq<char>>>, dashfree: bool)
    requires
        forall|i: int| 0 <= i < r.len() ==> lines_ok(#[trigger] r[i]),
        dashfree ==> forall|i: int| 0 <= i < r.len() ==> dash_free(#[trigger] r[i]),
    ensures
        forall|t: int| 0 <= t < r.flatten().len() ==> is_line(#[trigger] r.flatten()[t]),
        dashfree ==> forall|t: int|
            0 <= t < r.flatten().len() ==> !starts_with(#[trigger] r.flatten()[t], dashes()),
{
    assert forall|i: int, j: int| 0 <= i < r.len() && 0 <= j < r[i].len() implies is_line(
        #[trigger] r[i][j],
    ) by {
        assert(lines_ok(r[i]));
    }
    lemma_flatten_all(r, |l: Seq<char>| is_line(l));
    if dashfree {
        assert forall|i: int, j: int| 0 <= i < r.len() && 0 <= j < r[i].len() implies !starts_with(
            #[trigger] r[i][j],
            dashes(),
        ) by {
            assert(dash_free(r[i]));
        }
        lemma_flatten_all(r, |l: Seq<char>| !starts_with(l, dashes()));
    }
}

/// Normalising a note whose frontmatter block was just reordered finds
/// the block already in order and changes nothing: the normalisation pass
/// is idempotent.
#[verifier::spinoff_prover]
#[verifier::rlimit(60)]
pub proof fn lemma_normalise_idempotent(raw: Seq<char>, order: Seq<Seq<char>>)
    requires
        reorder_spec(raw, order) is Some,
    ensures
        reorder_spec(reorder_spec(raw, order)->0, order) is None,
{
    let k = frontmatter_close(raw)->0;
    lemma_find_from(raw, fm_close(), 4);
    assert(occurs_at(raw, fm_close(), k));
    assert(raw.subrange(k, k + 4) == fm_close());
    assert(raw[k] == raw.subrange(k, k + 4)[0]);
    let yaml = raw.subrange(4, k + 1);
    assert(yaml.last() == '\n');
    assert(close_free(yaml, 0)) by {
        assert forall|m: int| 0 <= m && m + 4 <= yaml.len() implies !occurs_at(yaml, fm_close(), m) by {
            if occurs_at(yaml, fm_close(), m) {
                assert(raw.subrange(4 + m, 4 + m + 4) =~= yaml.subrange(m, m + 4));
                assert(occurs_at(raw, fm_close(), 4 + m));
            }
        }
    }
    let mm: int = order.len() + 2 as int;
    let ls = lines_from(yaml, 0);
    lemma_lines_split(yaml, 0);
    assert(yaml.subrange(0, yaml.len() as int) =~= yaml);
    lemma_lines_dashfree(yaml, 0);
    lemma_line_groups(ls);
    let gs = line_groups(ls);
    assert(ls.len() > 0) by {
        if ls.len() == 0 {
            assert(ls.flatten() =~= Seq::<char>::empty());
        }
    }
    assert forall|t: int| 1 <= t < ls.len() implies (|l: Seq<char>| is_line(l))(#[trigger] ls[t]) by {}
    lemma_line_groups_lines(ls, |l: Seq<char>| is_line(l));
    assert forall|t: int| 1 <= t < ls.len() implies (|l: Seq<char>| !starts_with(l, dashes()))(
        #[trigger] ls[t],
    ) by {}
    lemma_line_groups_lines(ls, |l: Seq<char>| !starts_with(l, dashes()));
    assert(is_line(ls[0]));
    assert forall|i: int| 0 <= i < gs.len() implies lines_ok(#[trigger] gs[i]) by {
        assert forall|j: int| 0 <= j < gs[i].len() implies is_line(#[trigger] gs[i][j]) by {
            if i == 0 && j == 0 {
                assert(gs[0][0] == ls[0]);
            } else {
                assert((|l: Seq<char>| is_line(l))(gs[i][j]));
            }
        }
    }
    let g0 = gs[0];
    let g1 = gs.drop_first();
    assert(gs =~= seq![g0] + g1);
    assert(g0.len() > 0);
    assert forall|i: int| 0 <= i < g1.len() implies lines_ok(#[trigger] g1[i]) && dash_free(g1[i])
        && g1[i].len() > 0 by {
        assert(g1[i] == gs[i + 1]);
        assert(lines_ok(gs[i + 1]));
        assert forall|j: int| 0 <= j < g1[i].len() implies !starts_with(#[trigger] g1[i][j], dashes()) by {
            assert((|l: Seq<char>| !starts_with(l, dashes()))(gs[i + 1][j]));
        }
    }
    assert forall|j: int| 1 <= j < g0.len() implies !starts_with(#[trigger] g0[j], dashes()) by {
        assert((|l: Seq<char>| !starts_with(l, dashes()))(gs[0][j]));
    }
    let b0 = group_bucket(g0, order);
    lemma_group_bucket(g0, order);

    // The reordered block: buckets before b0, then g0 and the rest.
    lemma_assemble(gs, order, 0);
    assert(groups_of(ls) == pairs(gs));
    let all = span(gs, order, 0, mm);
    let new_yaml = all.flatten().flatten();
    assert(reordered_yaml(yaml, order) == new_yaml);
    let tail = raw.skip(k + 1);
    let once = raw.take(4) + new_yaml + tail;
    assert(reorder_spec(raw, order) == Some(once));
    assert(raw.take(4) =~= fm_open());
    assert(tail.take(3) =~= dashes()) by {
        assert forall|j: int| 0 <= j < 3 implies tail[j] == dashes()[j] by {
            assert(tail[j] == raw[k + 1 + j]);
            assert(raw.subrange(k, k + 4)[1 + j] == raw[k + 1 + j]);
        }
    }
    let a = span(gs, order, 0, b0);
    let bb = span(gs, order, b0, mm);
    lemma_span_split(gs, order, 0, b0, mm);
    lemma_span_without(g0, g1, order, 0, b0);
    lemma_span_without(g0, g1, order, b0 + 1, mm);
    lemma_in_bucket_concat(seq![g0], g1, order, b0);
    lemma_in_bucket_single(g0, order, b0);
    let c = in_bucket(g1, order, b0) + span(g1, order, b0 + 1, mm);
    assert(bb == in_bucket(gs, order, b0) + span(gs, order, b0 + 1, mm));
    assert(bb =~= seq![g0] + c);
    let pgood = |g: Seq<Seq<char>>| lines_ok(g) && dash_free(g) && g.len() > 0;
    lemma_span_keeps(g1, order, 0, b0, pgood);
    lemma_in_bucket_keeps(g1, order, b0, pgood);
    lemma_span_keeps(g1, order, b0 + 1, mm, pgood);
    assert forall|i: int| 0 <= i < c.len() implies pgood(#[trigger] c[i]) by {
        if i < in_bucket(g1, order, b0).len() {
            assert(c[i] == in_bucket(g1, order, b0)[i]);
        } else {
            assert(c[i] == span(g1, order, b0 + 1, mm)[i - in_bucket(g1, order, b0).len()]);
        }
    }
    assert forall|i: int| 0 <= i < a.len() implies pgood(#[trigger] a[i]) by {}
    lemma_groups_flatten(a, true);
    lemma_groups_flatten(c, true);
    let la = a.flatten();
    let lc = c.flatten();
    let lb = bb.flatten();
    assert(lb == g0 + lc) by {
        assert((seq![g0] + c).drop_first() =~= c);
    }
    lemma_flatten_concat(a, bb);
    assert(all.flatten() == la + lb);
    let dashed = starts_with(g0[0], dashes());
    let e = if dashed && a.len() > 0 {
        b0
    } else {
        mm
    };
    let y = span(gs, order, 0, e);
    let yaml2 = y.flatten().flatten();
    let lines2 = y.flatten();
    assert forall|t: int| 0 <= t < lb.len() implies is_line(#[trigger] lb[t]) && (t > 0 || !dashed
        ==> !starts_with(lb[t], dashes())) by {
        if t < g0.len() {
            assert(lb[t] == g0[t]);
            assert(lines_ok(gs[0]));
        } else {
            assert(lb[t] == lc[t - g0.len()]);
        }
    }
    if e == mm {
        assert(y == all);
        assert forall|t: int| 0 <= t < lines2.len() implies is_line(#[trigger] lines2[t]) && (t
            >= 1 ==> !starts_with(lines2[t], dashes())) by {
            if t < la.len() {
                assert(lines2[t] == la[t]);
            } else {
                assert(lines2[t] == lb[t - la.len()]);
                if t == la.len() && t >= 1 {
                    assert(la.len() > 0);
                    assert(a.len() > 0) by {
                        if a.len() == 0 {
                            assert(a.flatten() =~= Seq::<Seq<char>>::empty());
                        }
                    }
                }
            }
        }
        lemma_lines_close_free(lines2);
        assert(lines2.len() > 0) by {
            assert(lb.len() >= g0.len());
        }
        lemma_lines_end(lines2);
        assert(once =~= fm_open() + yaml2 + tail);
        lemma_close_at(once, yaml2, tail);
    } else {
        assert(y == a);
        assert(a[0].len() > 0 && la == a[0] + a.drop_first().flatten()) by {
            assert(pgood(a[0]));
        }
        lemma_lines_close_free(la);
        lemma_lines_end(la);
        let rest = lb.flatten() + tail;
        lemma_flatten_concat(la, lb);
        assert(lb.flatten() == lb[0] + lb.drop_first().flatten());
        assert(lb[0] == g0[0]);
        assert(rest.take(3) =~= dashes()) by {
            assert(g0[0].take(3) == dashes());
            assert forall|j: int| 0 <= j < 3 implies rest[j] == dashes()[j] by {
                assert(rest[j] == g0[0][j]);
                assert(g0[0].take(3)[j] == g0[0][j]);
            }
        }
        assert(once =~= fm_open() + yaml2 + rest);
        lemma_close_at(once, yaml2, rest);
    }
    // The second pass sees `yaml2`, whose groups are already in bucket order.
    let k2 = frontmatter_close(once)->0;
    assert(once.subrange(4, k2 + 1) == yaml2);
    lemma_span_well_grouped(gs, order, e);
    lemma_span_keeps(gs, order, 0, e, |g: Seq<Seq<char>>| lines_ok(g));
    assert forall|i: int| 0 <= i < y.len() implies lines_ok(#[trigger] y[i]) by {
        assert((|g: Seq<Seq<char>>| lines_ok(g))(y[i]));
    }
    lemma_groups_flatten(y, false);
    assert(yaml2.subrange(0, yaml2.len() as int) =~= yaml2);
    lemma_lines_of_flat(lines2, yaml2, 0);
    lemma_flat_groups(y);
    lemma_line_groups(lines2);
    lemma_assemble(y, order, 0);
    lemma_span_span(gs, order, e, 0, mm);
    assert(reordered_yaml(yaml2, order) == yaml2);
}

} // verus!

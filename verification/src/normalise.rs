//! Frontmatter normalisation: reordering a note's frontmatter keys into
//! the canonical order of its type, line by line, without touching any
//! value.

use vstd::prelude::*;

use crate::projects::{fm_close, fm_open, frontmatter_close, lemma_line_end, line_end};
use crate::text::{
    chars_of, eq_exec, find_char_from, find_char_from_exec, find_from, find_from_exec, has_char,
    has_char_exec, is_whitespace, is_ws, lemma_find_char_from, lemma_find_from, occurs_at,
    push_all, slice_of, starts_with, starts_with_exec, string_of, string_views, trim_end,
    trim_end_of, views,
};

verus! {

/// The key a YAML line assigns at the top level: the text before its
/// first `:`, trailing space dropped, when the line is not indented, has
/// a `:`, and the key is non-empty and holds no whitespace.
pub open spec fn top_level_key(line: Seq<char>) -> Option<Seq<char>> {
    if line.len() > 0 && is_ws(line[0]) {
        None
    } else {
        match find_char_from(line, ':', 0) {
            Some(i) => {
                let key = trim_end(line.take(i));
                if key.len() == 0 || (exists|k: int| 0 <= k < key.len() && is_ws(#[trigger] key[k])) {
                    None
                } else {
                    Some(key)
                }
            },
            None => None,
        }
    }
}

fn top_level_key_exec(line: &Vec<char>) -> (r: Option<Vec<char>>)
    ensures
        match top_level_key(line@) {
            Some(k) => r matches Some(v) && v@ == k,
            None => r is None,
        },
{
    if line.len() > 0 && is_whitespace(line[0]) {
        return None;
    }
    let i = match find_char_from_exec(line, ':', 0) {
        Some(i) => i,
        None => {
            return None;
        },
    };
    proof {
        lemma_find_char_from(line@, ':', 0);
    }
    let n = line.len();
    assert(i < n);
    let head = slice_of(line, 0, i);
    assert(head@ == line@.take(i as int));
    let key = trim_end_of(&head);
    if key.len() == 0 {
        return None;
    }
    let mut k: usize = 0;
    while k < key.len()
        invariant
            k <= key@.len(),
            key@ == trim_end(line@.take(i as int)),
            find_char_from(line@, ':', 0) == Some(i as int),
            !(line@.len() > 0 && is_ws(line@[0])),
            forall|j: int| 0 <= j < k ==> !is_ws(#[trigger] key@[j]),
        decreases key@.len() - k,
    {
        if is_whitespace(key[k]) {
            assert(is_ws(key@[k as int]));
            return None;
        }
        k = k + 1;
    }
    Some(key)
}

/// The top-level key a line assigns.
pub fn top_level_key_of(line: &str) -> (r: Option<String>)
    ensures
        match top_level_key(line@) {
            Some(k) => r matches Some(v) && v@ == k,
            None => r is None,
        },
{
    match top_level_key_exec(&chars_of(line)) {
        Some(v) => Some(string_of(&v)),
        None => None,
    }
}

/// The lines of `s` from `i` on, each with its newline.
pub open spec fn lines_from(s: Seq<char>, i: int) -> Seq<Seq<char>>
    decreases s.len() - i,
{
    if i < 0 || i >= s.len() {
        Seq::empty()
    } else {
        proof {
            lemma_line_end(s, i);
        }
        seq![s.subrange(i, line_end(s, i))] + lines_from(s, line_end(s, i))
    }
}

/// The key groups of a YAML block: each top-level key line opens a group,
/// and every other line joins the group before it (lines before any key
/// form a keyless group).
pub open spec fn groups_of(ls: Seq<Seq<char>>) -> Seq<(Option<Seq<char>>, Seq<char>)>
    decreases ls.len(),
{
    if ls.len() == 0 {
        Seq::empty()
    } else {
        let prev = groups_of(ls.drop_last());
        let l = ls.last();
        match top_level_key(l) {
            Some(k) => prev.push((Some(k), l)),
            None => if prev.len() > 0 {
                prev.drop_last().push((prev.last().0, prev.last().1 + l))
            } else {
                prev.push((None, l))
            },
        }
    }
}

/// Index of the first occurrence of `k` in `order`, or its length.
pub open spec fn position_in(order: Seq<Seq<char>>, k: Seq<char>) -> int
    decreases order.len(),
{
    if order.len() == 0 {
        0
    } else if order[0] == k {
        0
    } else {
        1 + position_in(order.drop_first(), k)
    }
}

/// Where a group goes: the keyless preamble first, then the keys in the
/// canonical order, then every other key.
pub open spec fn bucket(g: (Option<Seq<char>>, Seq<char>), order: Seq<Seq<char>>) -> int {
    match g.0 {
        None => 0,
        Some(k) => 1 + position_in(order, k),
    }
}

/// The text of the groups in bucket `b`, in their original order.
pub open spec fn bucket_text(gs: Seq<(Option<Seq<char>>, Seq<char>)>, order: Seq<Seq<char>>, b: int) -> Seq<
    char,
>
    decreases gs.len(),
{
    if gs.len() == 0 {
        Seq::empty()
    } else {
        bucket_text(gs.drop_last(), order, b) + if bucket(gs.last(), order) == b {
            gs.last().1
        } else {
            Seq::empty()
        }
    }
}

/// The groups reassembled bucket by bucket, from bucket `b` on.
pub open spec fn assemble_from(gs: Seq<(Option<Seq<char>>, Seq<char>)>, order: Seq<Seq<char>>, b: int) -> Seq<
    char,
>
    decreases order.len() + 2 - b,
{
    if b < 0 || b > order.len() + 1 {
        Seq::empty()
    } else {
        bucket_text(gs, order, b) + assemble_from(gs, order, b + 1)
    }
}

/// The frontmatter block of `raw` with its keys in `order`.
pub open spec fn reordered_yaml(yaml: Seq<char>, order: Seq<Seq<char>>) -> Seq<char> {
    assemble_from(groups_of(lines_from(yaml, 0)), order, 0)
}

/// What normalisation makes of a note: `None` when it has no frontmatter
/// block or the block is already in order; otherwise the note with the
/// block's key groups reordered and everything else unchanged.
pub open spec fn reorder_spec(raw: Seq<char>, order: Seq<Seq<char>>) -> Option<Seq<char>> {
    match frontmatter_close(raw) {
        Some(k) => {
            let yaml = raw.subrange(4, k + 1);
            let new_yaml = reordered_yaml(yaml, order);
            if new_yaml == yaml {
                None
            } else {
                Some(raw.take(4) + new_yaml + raw.skip(k + 1))
            }
        },
        None => None,
    }
}

/// A key group of the block, as the scan collects it.
struct Group {
    key: Option<Vec<char>>,
    text: Vec<char>,
}

spec fn group_views(v: Seq<Group>) -> Seq<(Option<Seq<char>>, Seq<char>)> {
    v.map_values(
        |g: Group|
            (
                match g.key {
                    Some(k) => Some(k@),
                    None => None,
                },
                g.text@,
            ),
    )
}

fn position_in_exec(order: &Vec<Vec<char>>, k: &Vec<char>) -> (r: usize)
    ensures
        r == position_in(views(order@), k@),
{
    let ghost ov = views(order@);
    assert(ov.skip(0) =~= ov);
    let mut i: usize = 0;
    while i < order.len()
        invariant
            i <= order@.len(),
            ov == views(order@),
            position_in(ov, k@) == i + position_in(ov.skip(i as int), k@),
        decreases order@.len() - i,
    {
        let ghost rest = ov.skip(i as int);
        assert(rest[0] == order@[i as int]@);
        assert(rest.drop_first() =~= ov.skip(i + 1));
        if eq_exec(&order[i], k) {
            return i;
        }
        i = i + 1;
    }
    i
}

fn reorder_exec(raw: &Vec<char>, order: &Vec<Vec<char>>) -> (r: Option<Vec<char>>)
    ensures
        match reorder_spec(raw@, views(order@)) {
            Some(t) => r matches Some(v) && v@ == t,
            None => r is None,
        },
{
    let open = chars_of("---\n");
    let close = vec!['\n', '-', '-', '-'];
    proof {
        reveal_strlit("---\n");
    }
    assert(open@ =~= fm_open());
    assert(close@ =~= fm_close());
    if !starts_with_exec(raw, &open) {
        return None;
    }
    let k = match find_from_exec(raw, &close, 4) {
        Some(k) => k,
        None => {
            return None;
        },
    };
    proof {
        lemma_find_from(raw@, close@, 4);
        assert(occurs_at(raw@, close@, k as int));
    }
    let n = raw.len();
    assert(k + 4 <= n);
    let yaml = slice_of(raw, 4, k + 1);
    let ghost yv = yaml@;
    // Split into lines and group them.
    let mut groups: Vec<Group> = Vec::new();
    let mut i: usize = 0;
    assert(lines_from(yv, 0) =~= Seq::<Seq<char>>::empty() + lines_from(yv, 0));
    let ghost mut seen: Seq<Seq<char>> = Seq::empty();
    while i < yaml.len()
        invariant
            i <= yaml@.len(),
            yv == yaml@,
            seen + lines_from(yv, i as int) == lines_from(yv, 0),
            group_views(groups@) == groups_of(seen),
        decreases yaml@.len() - i,
    {
        proof {
            lemma_line_end(yv, i as int);
        }
        let e = match find_char_from_exec(&yaml, '\n', i) {
            Some(j) => j + 1,
            None => yaml.len(),
        };
        let line = slice_of(&yaml, i, e);
        let ghost gv = group_views(groups@);
        proof {
            assert(seen.push(line@) + lines_from(yv, e as int) =~= seen + lines_from(yv, i as int));
            assert(seen.push(line@).drop_last() =~= seen);
        }
        match top_level_key_exec(&line) {
            Some(key) => {
                let ghost kv = key@;
                groups.push(Group { key: Some(key), text: line });
                assert(group_views(groups@) =~= gv.push((Some(kv), yv.subrange(i as int, e as int))));
            },
            None => {
                if groups.len() > 0 {
                    let mut last = groups.pop().unwrap();
                    let ghost lk = gv.last().0;
                    let ghost lt = gv.last().1;
                    assert(group_views(groups@) =~= gv.drop_last());
                    push_all(&mut last.text, &line);
                    groups.push(last);
                    assert(group_views(groups@) =~= gv.drop_last().push((lk, lt + line@)));
                } else {
                    let ghost lv = line@;
                    groups.push(Group { key: None, text: line });
                    assert(group_views(groups@) =~= gv.push((None, lv)));
                }
            },
        }
        proof {
            seen = seen.push(yv.subrange(i as int, e as int));
        }
        i = e;
    }
    assert(lines_from(yv, i as int) =~= Seq::<Seq<char>>::empty());
    assert(seen =~= lines_from(yv, 0));
    let ghost gs = group_views(groups@);
    let ghost ov = views(order@);
    // The bucket of each group.
    let mut buckets: Vec<u128> = Vec::new();
    let mut g: usize = 0;
    while g < groups.len()
        invariant
            g <= groups@.len(),
            gs == group_views(groups@),
            ov == views(order@),
            buckets@.len() == g,
            forall|j: int| 0 <= j < g ==> buckets@[j] == bucket(#[trigger] gs[j], ov),
        decreases groups@.len() - g,
    {
        let b = match &groups[g].key {
            None => 0,
            Some(key) => {
                let p = position_in_exec(order, key);
                proof {
                    lemma_position_bound(ov, key@);
                }
                assert(p <= order@.len());
                p as u128 + 1
            },
        };
        buckets.push(b);
        g = g + 1;
    }
    // Reassemble bucket by bucket.
    let mut new_yaml: Vec<char> = Vec::new();
    let last_bucket: u128 = order.len() as u128 + 1;
    let mut b: u128 = 0;
    while b <= last_bucket
        invariant
            last_bucket <= usize::MAX + 1,
            b <= last_bucket + 1,
            last_bucket == ov.len() + 1,
            gs == group_views(groups@),
            ov == views(order@),
            buckets@.len() == groups@.len(),
            forall|j: int| 0 <= j < groups@.len() ==> buckets@[j] == bucket(#[trigger] gs[j], ov),
            new_yaml@ + assemble_from(gs, ov, b as int) == assemble_from(gs, ov, 0),
        decreases last_bucket + 1 - b,
    {
        let ghost before = new_yaml@;
        let mut j: usize = 0;
        while j < groups.len()
            invariant
                j <= groups@.len(),
                gs == group_views(groups@),
                buckets@.len() == groups@.len(),
                forall|m: int| 0 <= m < groups@.len() ==> buckets@[m] == bucket(#[trigger] gs[m], ov),
                new_yaml@ == before + bucket_text(gs.take(j as int), ov, b as int),
            decreases groups@.len() - j,
        {
            assert(gs.take(j + 1).drop_last() =~= gs.take(j as int));
            assert(gs.take(j + 1).last() == gs[j as int]);
            assert(gs[j as int].1 == groups@[j as int].text@);
            if buckets[j] == b {
                push_all(&mut new_yaml, &groups[j].text);
            }
            j = j + 1;
        }
        assert(gs.take(gs.len() as int) =~= gs);
        proof {
            assert(assemble_from(gs, ov, b as int) == bucket_text(gs, ov, b as int)
                + assemble_from(gs, ov, b + 1));
        }
        b = b + 1;
    }
    assert(assemble_from(gs, ov, b as int) =~= Seq::<char>::empty());
    if eq_exec(&new_yaml, &yaml) {
        return None;
    }
    let mut result = open;
    push_all(&mut result, &new_yaml);
    let tail = slice_of(raw, k + 1, raw.len());
    push_all(&mut result, &tail);
    assert(raw@.take(4) =~= fm_open());
    assert(tail@ == raw@.skip(k + 1));
    Some(result)
}

pub(crate) proof fn lemma_position_bound(order: Seq<Seq<char>>, k: Seq<char>)
    ensures
        0 <= position_in(order, k) <= order.len(),
    decreases order.len(),
{
    if order.len() > 0 && order[0] != k {
        lemma_position_bound(order.drop_first(), k);
    }
}

/// Reorder a note's frontmatter keys into `order`: the keyless preamble
/// first, then the listed keys in that order, then any other key in its
/// original order, each key moving with its continuation lines. `None`
/// when the note has no frontmatter block or is already in order.
pub fn reorder_frontmatter(raw: &str, order: &Vec<String>) -> (r: Option<String>)
    ensures
        match reorder_spec(raw@, string_views(order@)) {
            Some(t) => r matches Some(s) && s@ == t,
            None => r is None,
        },
{
    let mut ov: Vec<Vec<char>> = Vec::new();
    let mut i: usize = 0;
    while i < order.len()
        invariant
            i <= order@.len(),
            views(ov@) == string_views(order@).take(i as int),
        decreases order@.len() - i,
    {
        let c = chars_of(order[i].as_str());
        let ghost old_v = views(ov@);
        ov.push(c);
        assert(views(ov@) =~= old_v.push(order@[i as int]@));
        assert(views(ov@) =~= string_views(order@).take(i + 1));
        i = i + 1;
    }
    assert(string_views(order@).take(order@.len() as int) =~= string_views(order@));
    match reorder_exec(&chars_of(raw), &ov) {
        Some(v) => Some(string_of(&v)),
        None => None,
    }
}

/// The top-level keys of a list of lines, in order.
pub open spec fn keys_of(ls: Seq<Seq<char>>) -> Seq<Seq<char>>
    decreases ls.len(),
{
    if ls.len() == 0 {
        Seq::empty()
    } else {
        match top_level_key(ls.last()) {
            Some(k) => keys_of(ls.drop_last()).push(k),
            None => keys_of(ls.drop_last()),
        }
    }
}

/// The keys of a template's frontmatter block, in the order they appear;
/// none when it has no block.
pub open spec fn key_order_spec(raw: Seq<char>) -> Seq<Seq<char>> {
    match frontmatter_close(raw) {
        Some(k) => keys_of(lines_from(raw.subrange(4, k + 1), 0)),
        None => Seq::empty(),
    }
}

/// The canonical key order a template defines.
pub fn frontmatter_key_order(raw: &str) -> (r: Vec<String>)
    ensures
        string_views(r@) == key_order_spec(raw@),
{
    let s = chars_of(raw);
    let open = chars_of("---\n");
    let close = vec!['\n', '-', '-', '-'];
    proof {
        reveal_strlit("---\n");
    }
    assert(open@ =~= fm_open());
    assert(close@ =~= fm_close());
    if !starts_with_exec(&s, &open) {
        return Vec::new();
    }
    let k = match find_from_exec(&s, &close, 4) {
        Some(k) => k,
        None => {
            return Vec::new();
        },
    };
    proof {
        lemma_find_from(s@, close@, 4);
        assert(occurs_at(s@, close@, k as int));
    }
    let n = s.len();
    assert(k + 4 <= n);
    let yaml = slice_of(&s, 4, k + 1);
    let ghost yv = yaml@;
    let mut out: Vec<String> = Vec::new();
    let ghost mut seen: Seq<Seq<char>> = Seq::empty();
    let mut i: usize = 0;
    assert(lines_from(yv, 0) =~= Seq::<Seq<char>>::empty() + lines_from(yv, 0));
    while i < yaml.len()
        invariant
            i <= yaml@.len(),
            yv == yaml@,
            seen + lines_from(yv, i as int) == lines_from(yv, 0),
            string_views(out@) == keys_of(seen),
        decreases yaml@.len() - i,
    {
        proof {
            lemma_line_end(yv, i as int);
        }
        let e = match find_char_from_exec(&yaml, '\n', i) {
            Some(j) => j + 1,
            None => yaml.len(),
        };
        let line = slice_of(&yaml, i, e);
        proof {
            assert(seen.push(line@) + lines_from(yv, e as int) =~= seen + lines_from(yv, i as int));
            assert(seen.push(line@).drop_last() =~= seen);
        }
        let ghost ov = string_views(out@);
        if let Some(key) = top_level_key_exec(&line) {
            out.push(string_of(&key));
            assert(string_views(out@) =~= ov.push(key@));
        }
        proof {
            seen = seen.push(line@);
        }
        i = e;
    }
    assert(lines_from(yv, i as int) =~= Seq::<Seq<char>>::empty());
    assert(seen =~= lines_from(yv, 0));
    out
}

/// What a normalisation pass did.
#[derive(Debug, Default, Clone)]
pub struct NormaliseReport {
    /// Notes of a known type that were examined.
    pub checked: usize,
    /// Notes of an unknown type, left to lint.
    pub skipped: usize,
    /// Notes whose frontmatter was (or would be) reordered.
    pub changed: Vec<String>,
    /// Notes that could not be read, with the reason.
    pub errors: Vec<(String, String)>,
}

} // verus!

//! Daily orientation: the `## Active Habits` line grammar of stewardship
//! dashboards and the scan for habits declared lapsed.

use vstd::prelude::*;

use crate::commitments::StewardshipSection;
use crate::text::{
    ascii_lower_seq, ascii_lower_vec, chars_of, eq_exec, find_char_from, find_char_from_exec,
    lemma_find_char_from, lines, lines_exec, seq_lt, seq_lt_exec, slice_of, split_char,
    split_char_exec, string_of, strip_prefix, strip_prefix_exec, trim, trim_of, trim_start,
    trim_start_of, views,
};

verus! {

/// Days ahead that orientation looks for commitments.
pub const ORIENTATION_LOOKAHEAD_DAYS: i64 = 2;

/// Heading of the habit section of a stewardship dashboard.
pub const ACTIVE_HABITS_SECTION: &'static str = "Active Habits";

/// A well-formed `## Active Habits` bullet `- {habit} — {status}`: its
/// trimmed body and its trimmed status (everything after the first em
/// dash). Both sides of the dash must hold text.
pub open spec fn habit_line(line: Seq<char>) -> Option<(Seq<char>, Seq<char>)> {
    match strip_prefix(trim_start(line), "- "@) {
        Some(rest) => {
            let body = trim(rest);
            match find_char_from(body, '\u{2014}', 0) {
                Some(i) => {
                    let habit = body.take(i);
                    let status = body.skip(i + 1);
                    if trim(habit).len() == 0 || trim(status).len() == 0 {
                        None
                    } else {
                        Some((body, trim(status)))
                    }
                },
                None => None,
            }
        },
        None => None,
    }
}

/// A well-formed habit bullet, decomposed.
pub struct HabitLine {
    /// The bullet's trimmed body.
    pub body: String,
    /// The trimmed status after the first em dash.
    pub status: String,
}

/// Decompose an `## Active Habits` bullet; `None` off the grammar.
pub fn parse_habit_line(line: &str) -> (r: Option<HabitLine>)
    ensures
        match habit_line(line@) {
            Some((body, status)) => r matches Some(h) && h.body@ == body && h.status@ == status,
            None => r is None,
        },
{
    let t = trim_start_of(&chars_of(line));
    let rest = match strip_prefix_exec(&t, &chars_of("- ")) {
        Some(r) => r,
        None => {
            return None;
        },
    };
    let body = trim_of(&rest);
    let i = match find_char_from_exec(&body, '\u{2014}', 0) {
        Some(i) => i,
        None => {
            return None;
        },
    };
    proof {
        lemma_find_char_from(body@, '\u{2014}', 0);
    }
    let n = body.len();
    assert(i < n);
    let habit = slice_of(&body, 0, i);
    let status = slice_of(&body, i + 1, body.len());
    assert(habit@ == body@.take(i as int));
    assert(status@ == body@.skip(i + 1));
    let status_t = trim_of(&status);
    if trim_of(&habit).len() == 0 || status_t.len() == 0 {
        return None;
    }
    Some(HabitLine { body: string_of(&body), status: string_of(&status_t) })
}

/// A status segment declaring a lapse: once trimmed, its first six
/// characters read `lapsed`, ASCII case aside.
pub open spec fn lapsed_segment(seg: Seq<char>) -> bool {
    let t = trim(seg);
    t.len() >= 6 && ascii_lower_seq(t.take(6)) == "lapsed"@
}

pub open spec fn any_lapsed(segs: Seq<Seq<char>>) -> bool {
    exists|k: int| 0 <= k < segs.len() && lapsed_segment(#[trigger] segs[k])
}

/// The body of a habit line whose status has an em-dash-separated segment
/// declaring a lapse.
pub open spec fn lapsed_habit_line(line: Seq<char>) -> Option<Seq<char>> {
    match habit_line(line) {
        Some((body, status)) => if any_lapsed(split_char(status, '\u{2014}')) {
            Some(body)
        } else {
            None
        },
        None => None,
    }
}

/// The full text of a habit line that declares a lapse.
pub fn parse_lapsed_habit_line(line: &str) -> (r: Option<String>)
    ensures
        match lapsed_habit_line(line@) {
            Some(b) => r matches Some(s) && s@ == b,
            None => r is None,
        },
{
    let h = match parse_habit_line(line) {
        Some(h) => h,
        None => {
            return None;
        },
    };
    let segs = split_char_exec(&chars_of(h.status.as_str()), '\u{2014}');
    let ghost sv = split_char(h.status@, '\u{2014}');
    let lapsed_word = chars_of("lapsed");
    let mut found = false;
    let mut k: usize = 0;
    while k < segs.len()
        invariant
            k <= segs@.len(),
            segs@.len() == sv.len(),
            forall|m: int| 0 <= m < segs@.len() ==> #[trigger] segs@[m]@ == sv[m],
            lapsed_word@ == "lapsed"@,
            found == (exists|m: int| 0 <= m < k && lapsed_segment(#[trigger] sv[m])),
        decreases segs@.len() - k,
    {
        let t = trim_of(&segs[k]);
        assert(t@ == trim(sv[k as int]));
        if t.len() >= 6 {
            let head = slice_of(&t, 0, 6);
            assert(head@ == t@.take(6));
            if eq_exec(&ascii_lower_vec(&head), &lapsed_word) {
                found = true;
            }
        }
        k = k + 1;
    }
    if found {
        Some(h.body)
    } else {
        None
    }
}

/// A stewardship habit whose dashboard line declares a lapse.
#[derive(Debug, Clone, PartialEq, Eq)]
pub struct LapsedHabit {
    /// Slug of the owning stewardship.
    pub stewardship: String,
    /// The habit line's text.
    pub detail: String,
}

/// Order of the lapsed-habit list: by stewardship, then by detail.
pub open spec fn lapsed_lt(a: (Seq<char>, Seq<char>), b: (Seq<char>, Seq<char>)) -> bool {
    seq_lt(a.0, b.0) || (a.0 == b.0 && seq_lt(a.1, b.1))
}

pub open spec fn insert_lapsed(s: Seq<(Seq<char>, Seq<char>)>, e: (Seq<char>, Seq<char>)) -> Seq<
    (Seq<char>, Seq<char>),
>
    decreases s.len(),
{
    if s.len() == 0 {
        seq![e]
    } else if lapsed_lt(e, s.last()) {
        insert_lapsed(s.drop_last(), e).push(s.last())
    } else {
        s.push(e)
    }
}

pub open spec fn sort_lapsed(s: Seq<(Seq<char>, Seq<char>)>) -> Seq<(Seq<char>, Seq<char>)>
    decreases s.len(),
{
    if s.len() == 0 {
        Seq::empty()
    } else {
        insert_lapsed(sort_lapsed(s.drop_last()), s.last())
    }
}

/// The lapsed lines of a list of lines, each paired with `slug`.
pub open spec fn lapsed_in(slug: Seq<char>, ls: Seq<Seq<char>>) -> Seq<(Seq<char>, Seq<char>)>
    decreases ls.len(),
{
    if ls.len() == 0 {
        Seq::empty()
    } else {
        match lapsed_habit_line(ls.last()) {
            Some(d) => lapsed_in(slug, ls.drop_last()).push((slug, d)),
            None => lapsed_in(slug, ls.drop_last()),
        }
    }
}

/// Every lapsed habit of every dashboard, in source order.
pub open spec fn all_lapsed(s: Seq<StewardshipSection>) -> Seq<(Seq<char>, Seq<char>)>
    decreases s.len(),
{
    if s.len() == 0 {
        Seq::empty()
    } else {
        all_lapsed(s.drop_last()) + lapsed_in(s.last().slug@, lines(s.last().section@))
    }
}

pub open spec fn lapsed_views(v: Seq<LapsedHabit>) -> Seq<(Seq<char>, Seq<char>)> {
    v.map_values(|h: LapsedHabit| (h.stewardship@, h.detail@))
}

fn insert_lapsed_exec(v: &mut Vec<LapsedHabit>, e: LapsedHabit)
    ensures
        lapsed_views(final(v)@) == insert_lapsed(lapsed_views(old(v)@), (e.stewardship@, e.detail@)),
{
    let ghost s = lapsed_views(v@);
    let ghost ev = (e.stewardship@, e.detail@);
    let es = chars_of(e.stewardship.as_str());
    let ed = chars_of(e.detail.as_str());
    let mut p = v.len();
    assert(s.take(p as int) =~= s);
    assert(s.skip(p as int) =~= Seq::<(Seq<char>, Seq<char>)>::empty());
    loop
        invariant
            p <= v@.len(),
            s == lapsed_views(v@),
            es@ == ev.0,
            ed@ == ev.1,
            insert_lapsed(s, ev) == insert_lapsed(s.take(p as int), ev) + s.skip(p as int),
        ensures
            p <= v@.len(),
            insert_lapsed(s, ev) == insert_lapsed(s.take(p as int), ev) + s.skip(p as int),
            p == 0 || !lapsed_lt(ev, s[p - 1]),
        decreases p,
    {
        if p == 0 {
            break;
        }
        let q = p - 1;
        let vs = chars_of(v[q].stewardship.as_str());
        let vd = chars_of(v[q].detail.as_str());
        assert(s[q as int] == (vs@, vd@));
        let less = seq_lt_exec(&es, &vs) || (eq_exec(&es, &vs) && seq_lt_exec(&ed, &vd));
        if !less {
            break;
        }
        let ghost t = s.take(p as int);
        assert(t.last() == s[q as int]);
        assert(t.drop_last() =~= s.take(q as int));
        assert(insert_lapsed(s.take(q as int), ev).push(s[q as int]) + s.skip(p as int)
            =~= insert_lapsed(s.take(q as int), ev) + s.skip(q as int));
        p = q;
    }
    proof {
        let t = s.take(p as int);
        if p > 0 {
            assert(t.last() == s[p - 1]);
        }
        assert(insert_lapsed(t, ev) =~= t.push(ev));
    }
    v.insert(p, e);
    assert(lapsed_views(v@) =~= s.take(p as int).push(ev) + s.skip(p as int));
}

/// Scan the `## Active Habits` sections of the stewardship dashboards
/// for habits declared lapsed, sorted by stewardship then by line.
pub fn collect_lapsed_habits(sections: &Vec<StewardshipSection>) -> (r: Vec<LapsedHabit>)
    ensures
        lapsed_views(r@) == sort_lapsed(all_lapsed(sections@)),
{
    let mut out: Vec<LapsedHabit> = Vec::new();
    let ghost mut acc: Seq<(Seq<char>, Seq<char>)> = Seq::empty();
    let mut s: usize = 0;
    while s < sections.len()
        invariant
            s <= sections@.len(),
            acc == all_lapsed(sections@.take(s as int)),
            lapsed_views(out@) == sort_lapsed(acc),
        decreases sections@.len() - s,
    {
        let st = &sections[s];
        assert(sections@.take(s + 1).drop_last() =~= sections@.take(s as int));
        assert(sections@.take(s + 1).last() == *st);
        let ls = lines_exec(&chars_of(st.section.as_str()));
        let ghost lv = views(ls@);
        assert(lv =~= lines(st.section@));
        let ghost base = acc;
        let mut k: usize = 0;
        while k < ls.len()
            invariant
                k <= ls@.len(),
                lv == views(ls@),
                acc == base + lapsed_in(st.slug@, lv.take(k as int)),
                lapsed_views(out@) == sort_lapsed(acc),
            decreases ls@.len() - k,
        {
            assert(lv.take(k + 1).drop_last() =~= lv.take(k as int));
            assert(lv.take(k + 1).last() == ls@[k as int]@);
            let line = string_of(&ls[k]);
            if let Some(detail) = parse_lapsed_habit_line(line.as_str()) {
                let h = LapsedHabit {
                    stewardship: string_of(&chars_of(st.slug.as_str())),
                    detail,
                };
                let ghost hv = (h.stewardship@, h.detail@);
                insert_lapsed_exec(&mut out, h);
                proof {
                    assert(acc.push(hv).drop_last() =~= acc);
                    acc = acc.push(hv);
                    assert(acc == base + lapsed_in(st.slug@, lv.take(k + 1)));
                }
            }
            k = k + 1;
        }
        assert(lv.take(lv.len() as int) =~= lv);
        s = s + 1;
    }
    assert(sections@.take(sections@.len() as int) =~= sections@);
    out
}


/// A habit line is reported lapsed exactly when it is well formed and some
/// em-dash-separated segment of its status, whichever one, reads `lapsed`
/// (ASCII case aside) once trimmed; the report is the line's body.
pub proof fn lemma_lapsed_any_segment(line: Seq<char>, k: int)
    ensures
        (habit_line(line) matches Some((body, status)) && 0 <= k < split_char(status, '\u{2014}').len()
            && trim(split_char(status, '\u{2014}')[k]).len() >= 6 && ascii_lower_seq(
            trim(split_char(status, '\u{2014}')[k]).take(6),
        ) == "lapsed"@) ==> lapsed_habit_line(line) == Some(habit_line(line)->Some_0.0),
        (habit_line(line) matches Some((body, status)) && forall|j: int|
            0 <= j < split_char(status, '\u{2014}').len() ==> !(trim(
                #[trigger] split_char(status, '\u{2014}')[j],
            ).len() >= 6 && ascii_lower_seq(trim(split_char(status, '\u{2014}')[j]).take(6))
                == "lapsed"@)) ==> lapsed_habit_line(line) is None,
        habit_line(line) is None ==> lapsed_habit_line(line) is None,
{
    if let Some((body, status)) = habit_line(line) {
        let segs = split_char(status, '\u{2014}');
        if 0 <= k < segs.len() && lapsed_segment(segs[k]) {
            assert(any_lapsed(segs));
        }
    }
}


/// No entry is ordered before one that precedes it.
pub open spec fn lapsed_sorted(s: Seq<(Seq<char>, Seq<char>)>) -> bool {
    forall|i: int, j: int| 0 <= i < j < s.len() ==> !lapsed_lt(#[trigger] s[j], #[trigger] s[i])
}

proof fn lemma_insert_lapsed_sorted(s: Seq<(Seq<char>, Seq<char>)>, e: (Seq<char>, Seq<char>))
    requires
        lapsed_sorted(s),
    ensures
        lapsed_sorted(insert_lapsed(s, e)),
        insert_lapsed(s, e).to_multiset() == s.to_multiset().insert(e),
    decreases s.len(),
{
    broadcast use vstd::seq_lib::group_to_multiset_ensures;

    if s.len() == 0 {
        assert(seq![e] =~= Seq::<(Seq<char>, Seq<char>)>::empty().push(e));
    } else if lapsed_lt(e, s.last()) {
        let t = s.drop_last();
        lemma_insert_lapsed_sorted(t, e);
        let u = insert_lapsed(t, e);
        let r = u.push(s.last());
        assert forall|i: int, j: int| 0 <= i < j < r.len() implies !lapsed_lt(
            #[trigger] r[j],
            #[trigger] r[i],
        ) by {
            if j == r.len() - 1 {
                if u[i] == e {
                    crate::text::lemma_pair_lt_asym(e, s.last());
                } else {
                    assert(u.to_multiset().count(u[i]) > 0);
                    assert(t.to_multiset().count(u[i]) > 0);
                    assert(t.contains(u[i]));
                    let k = choose|k: int| 0 <= k < t.len() && t[k] == u[i];
                    assert(s[k] == t[k]);
                }
            } else {
                assert(u[j] == r[j] && u[i] == r[i]);
            }
        }
        assert(s =~= t.push(s.last()));
    } else {
        let r = s.push(e);
        assert forall|i: int, j: int| 0 <= i < j < r.len() implies !lapsed_lt(
            #[trigger] r[j],
            #[trigger] r[i],
        ) by {
            if j == s.len() {
                crate::text::lemma_pair_lt_split(e, s.last(), s[i]);
                if i < s.len() - 1 {
                    assert(!lapsed_lt(s[s.len() - 1], s[i]));
                }
            } else {
                assert(s[j] == r[j] && s[i] == r[i]);
            }
        }
    }
}

proof fn lemma_sort_lapsed(s: Seq<(Seq<char>, Seq<char>)>)
    ensures
        lapsed_sorted(sort_lapsed(s)),
        sort_lapsed(s).to_multiset() == s.to_multiset(),
    decreases s.len(),
{
    broadcast use vstd::seq_lib::group_to_multiset_ensures;

    if s.len() > 0 {
        lemma_sort_lapsed(s.drop_last());
        lemma_insert_lapsed_sorted(sort_lapsed(s.drop_last()), s.last());
        assert(s =~= s.drop_last().push(s.last()));
    }
}

/// A line of a dashboard section reports the pair.
pub open spec fn reported_by(sections: Seq<StewardshipSection>, x: (Seq<char>, Seq<char>)) -> bool {
    exists|j: int, l: int|
        0 <= j < sections.len() && 0 <= l < lines(sections[j].section@).len() && sections[j].slug@
            == x.0 && lapsed_habit_line(#[trigger] lines(sections[j].section@)[l]) == Some(x.1)
}

proof fn lemma_lapsed_in_members(slug: Seq<char>, ls: Seq<Seq<char>>)
    ensures
        forall|k: int|
            0 <= k < lapsed_in(slug, ls).len() ==> (#[trigger] lapsed_in(slug, ls)[k]).0 == slug
                && exists|l: int|
                0 <= l < ls.len() && lapsed_habit_line(#[trigger] ls[l]) == Some(
                    lapsed_in(slug, ls)[k].1,
                ),
        forall|l: int|
            0 <= l < ls.len() && (#[trigger] lapsed_habit_line(ls[l])) is Some ==> lapsed_in(
                slug,
                ls,
            ).contains((slug, lapsed_habit_line(ls[l])->Some_0)),
    decreases ls.len(),
{
    if ls.len() > 0 {
        let t = ls.drop_last();
        lemma_lapsed_in_members(slug, t);
        let a = lapsed_in(slug, t);
        let c = lapsed_in(slug, ls);
        assert forall|k: int| 0 <= k < c.len() implies (#[trigger] c[k]).0 == slug && exists|l: int|
            0 <= l < ls.len() && lapsed_habit_line(#[trigger] ls[l]) == Some(c[k].1) by {
            if k < a.len() {
                assert(c[k] == a[k]);
                let l = choose|l: int| 0 <= l < t.len() && lapsed_habit_line(#[trigger] t[l]) == Some(a[k].1);
                assert(ls[l] == t[l]);
            } else {
                assert(ls[ls.len() - 1] == ls.last());
            }
        }
        assert forall|l: int| 0 <= l < ls.len() && (#[trigger] lapsed_habit_line(ls[l])) is Some implies c.contains(
            (slug, lapsed_habit_line(ls[l])->Some_0),
        ) by {
            let x = (slug, lapsed_habit_line(ls[l])->Some_0);
            if l < ls.len() - 1 {
                assert(t[l] == ls[l]);
                let k = choose|k: int| 0 <= k < a.len() && a[k] == x;
                if lapsed_habit_line(ls.last()) is Some {
                    assert(c[k] == a[k]);
                } else {
                    assert(c[k] == a[k]);
                }
            } else {
                assert(ls[l] == ls.last());
                assert(c[a.len() as int] == x);
            }
        }
    }
}

proof fn lemma_all_lapsed_members(sections: Seq<StewardshipSection>)
    ensures
        forall|k: int|
            0 <= k < all_lapsed(sections).len() ==> reported_by(sections, #[trigger] all_lapsed(sections)[k]),
        forall|j: int, l: int|
            0 <= j < sections.len() && 0 <= l < lines(sections[j].section@).len() && (
            #[trigger] lapsed_habit_line(lines(sections[j].section@)[l])) is Some ==> all_lapsed(
                sections,
            ).contains((sections[j].slug@, lapsed_habit_line(lines(sections[j].section@)[l])->Some_0)),
    decreases sections.len(),
{
    if sections.len() > 0 {
        let t = sections.drop_last();
        let last = sections.last();
        let ls = lines(last.section@);
        lemma_all_lapsed_members(t);
        lemma_lapsed_in_members(last.slug@, ls);
        let a = all_lapsed(t);
        let b = lapsed_in(last.slug@, ls);
        let c = all_lapsed(sections);
        assert(c == a + b);
        assert forall|k: int| 0 <= k < c.len() implies reported_by(sections, #[trigger] c[k]) by {
            if k < a.len() {
                assert(c[k] == a[k]);
                assert(reported_by(t, a[k]));
                let (j, l) = choose|j: int, l: int|
                    0 <= j < t.len() && 0 <= l < lines(t[j].section@).len() && t[j].slug@ == a[k].0
                        && lapsed_habit_line(#[trigger] lines(t[j].section@)[l]) == Some(a[k].1);
                assert(sections[j] == t[j]);
                assert(lapsed_habit_line(lines(sections[j].section@)[l]) == Some(c[k].1));
            } else {
                assert(c[k] == b[k - a.len()]);
                let l = choose|l: int| 0 <= l < ls.len() && lapsed_habit_line(#[trigger] ls[l]) == Some(b[k - a.len()].1);
                let j = sections.len() - 1;
                assert(sections[j] == last);
                assert(lapsed_habit_line(lines(sections[j].section@)[l]) == Some(c[k].1));
            }
        }
        assert forall|j: int, l: int|
            0 <= j < sections.len() && 0 <= l < lines(sections[j].section@).len() && (
            #[trigger] lapsed_habit_line(lines(sections[j].section@)[l])) is Some implies c.contains(
            (sections[j].slug@, lapsed_habit_line(lines(sections[j].section@)[l])->Some_0),
        ) by {
            let x = (sections[j].slug@, lapsed_habit_line(lines(sections[j].section@)[l])->Some_0);
            if j < sections.len() - 1 {
                assert(t[j] == sections[j]);
                let k = choose|k: int| 0 <= k < a.len() && a[k] == x;
                assert(c[k] == a[k]);
            } else {
                assert(sections[j] == last);
                let k = choose|k: int| 0 <= k < b.len() && b[k] == x;
                assert(c[a.len() + k] == b[k]);
            }
        }
    }
}

/// The lapsed-habit report is sorted by stewardship, then by line; every
/// entry is a lapsed line of that stewardship's dashboard, and every
/// lapsed line of every dashboard is reported.
pub proof fn lemma_lapsed_report(sections: Seq<StewardshipSection>)
    ensures
        ({
            let r = sort_lapsed(all_lapsed(sections));
            &&& lapsed_sorted(r)
            &&& forall|k: int| 0 <= k < r.len() ==> reported_by(sections, #[trigger] r[k])
            &&& forall|j: int, l: int|
                0 <= j < sections.len() && 0 <= l < lines(sections[j].section@).len() && (
                #[trigger] lapsed_habit_line(lines(sections[j].section@)[l])) is Some ==> r.contains(
                    (sections[j].slug@, lapsed_habit_line(lines(sections[j].section@)[l])->Some_0),
                )
        }),
{
    broadcast use vstd::seq_lib::group_to_multiset_ensures;

    let all = all_lapsed(sections);
    lemma_sort_lapsed(all);
    lemma_all_lapsed_members(sections);
    let r = sort_lapsed(all);
    assert forall|k: int| 0 <= k < r.len() implies reported_by(sections, #[trigger] r[k]) by {
        assert(r.to_multiset().count(r[k]) > 0);
        assert(all.to_multiset().count(r[k]) > 0);
        assert(all.contains(r[k]));
        let j = choose|j: int| 0 <= j < all.len() && all[j] == r[k];
        assert(reported_by(sections, all[j]));
    }
    assert forall|x: (Seq<char>, Seq<char>)| all.contains(x) implies r.contains(x) by {
        assert(all.to_multiset().count(x) > 0);
        assert(r.to_multiset().count(x) > 0);
    }
}

} // verus!

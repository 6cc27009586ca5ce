//! A milestone bullet, as a project map is given it, reads back as an open
//! milestone under the title it was added with.

use vstd::prelude::*;

use crate::date::Date;
use crate::periodic_law::{lemma_ymd_plain, plain};
use crate::projects::milestones::{
    milestone_bullet, milestone_date_text, milestone_keyword, open_milestone_title,
    strip_target_suffix,
};
use crate::text::{
    contains, end_non_ws, find, is_ws, lemma_end_non_ws, lemma_find_from, lemma_first_non_ws,
    lemma_rfind_upto, lemma_trim_ends, lemma_trim_no_ws_ends, occurs_at, rfind, trim, trim_end,
    trim_start,
};

verus! {

proof fn lemma_occurs_char(s: Seq<char>, p: Seq<char>, m: int, j: int)
    requires
        occurs_at(s, p, m),
        0 <= j < p.len(),
    ensures
        s[m + j] == p[j],
{
    assert(s.subrange(m, m + p.len())[j] == s[m + j]);
}

/// The text after the check box: the title, then ` — <keyword>: <date>`.
spec fn after_box(t: Seq<char>, kw: Seq<char>, date: Seq<char>) -> Seq<char> {
    t + " \u{2014} "@ + kw + ": "@ + date
}

/// In that text, a separator ` — <word>:` occurs after the title only
/// where the title ends, and only for the keyword the bullet carries.
proof fn lemma_separator_at(
    t: Seq<char>,
    kw: Seq<char>,
    date: Seq<char>,
    word: Seq<char>,
    m: int,
)
    requires
        kw == "hard"@ || kw == "target"@,
        word == "hard"@ || word == "target"@,
        plain(date),
        m >= t.len() - 2,
        occurs_at(after_box(t, kw, date), " \u{2014} "@ + word + ":"@, m),
    ensures
        m == t.len(),
        word == kw,
{
    reveal_strlit(" \u{2014} ");
    reveal_strlit("hard");
    reveal_strlit("target");
    reveal_strlit(":");
    reveal_strlit(": ");
    let s = after_box(t, kw, date);
    let p = " \u{2014} "@ + word + ":"@;
    let n = t.len() as int;
    lemma_occurs_char(s, p, m, 1);
    assert(p[1] == '\u{2014}');
    // The only em-dash past the title's last two characters is the
    // bullet's own separator.
    if m + 1 != n + 1 {
        if m + 1 < n {
            assert(s[m + 1] == t[m + 1]);
            lemma_occurs_char(s, p, m, 0);
            lemma_occurs_char(s, p, m, 2);
            assert(s[m + 2] == if m + 2 < n { t[m + 2] } else { ' ' });
            if m + 2 == n {
                lemma_occurs_char(s, p, m, 3);
                assert(s[m + 3] == '\u{2014}');
            }
        } else if m + 1 == n {
            assert(s[m + 1] == ' ');
        } else if m + 1 < n + 3 + kw.len() {
            assert(s[m + 1] == kw[m + 1 - n - 3]);
        } else if m + 1 < n + 5 + kw.len() {
            assert(s[m + 1] == (": "@)[m + 1 - n - 3 - kw.len()]);
        } else {
            assert(s[m + 1] == date[m + 1 - n - 5 - kw.len()]);
        }
    }
    assert(m == n);
    // The keywords differ in their first letter.
    lemma_occurs_char(s, p, m, 3);
    assert(p[3] == word[0]);
    assert(s[n + 3] == kw[0]);
    if word != kw {
        assert(word[0] != kw[0]);
    }
}

/// A separator occurring wholly inside the title occurs in the title.
proof fn lemma_separator_in_title(t: Seq<char>, kw: Seq<char>, date: Seq<char>, word: Seq<char>, m: int)
    requires
        occurs_at(after_box(t, kw, date), " \u{2014} "@ + word + ":"@, m),
        m + (" \u{2014} "@ + word + ":"@).len() <= t.len(),
    ensures
        occurs_at(t, " \u{2014} "@ + word + ":"@, m),
{
    let s = after_box(t, kw, date);
    let p = " \u{2014} "@ + word + ":"@;
    assert(s.subrange(m, m + p.len()) =~= t.subrange(m, m + p.len()));
}

/// The dates a milestone carries hold no whitespace and no em-dash.
proof fn lemma_date_plain(target: Option<Date>)
    ensures
        plain(milestone_date_text(target)),
        milestone_date_text(target).len() > 0,
{
    reveal_strlit("TBD");
    match target {
        Some(d) => {
            lemma_ymd_plain(d);
        },
        None => {
            let date = milestone_date_text(target);
            assert forall|k: int| 0 <= k < date.len() implies !is_ws(#[trigger] date[k])
                && date[k] != '\u{2014}' by {}
        },
    }
}

/// The bullet's title is what the suffix strip leaves of the text after
/// its check box.
proof fn lemma_box_stripped(t: Seq<char>, kw: Seq<char>, date: Seq<char>)
    requires
        t.len() > 0,
        !is_ws(t[0]),
        plain(date),
        date.len() > 0,
    ensures
        open_milestone_title(milestone_bullet(t, kw, date)) == Some(
            strip_target_suffix(after_box(t, kw, date)),
        ),
{
    reveal_strlit("- [ ] ");
    let line = milestone_bullet(t, kw, date);
    let rest = after_box(t, kw, date);
    assert(line =~= "- [ ] "@ + rest);
    lemma_first_non_ws(line, 0);
    assert(line[0] == '-');
    assert(trim_start(line) =~= line);
    assert(line.take(6) =~= "- [ ] "@);
    assert(line.skip(6) =~= rest);
    assert(rest[0] == t[0]);
    assert(rest[rest.len() - 1] == date[date.len() - 1]);
    lemma_trim_no_ws_ends(rest);
}

/// The separator of the bullet's own keyword last occurs right after the
/// title.
proof fn lemma_own_separator(t: Seq<char>, kw: Seq<char>, date: Seq<char>)
    requires
        kw == "hard"@ || kw == "target"@,
        plain(date),
    ensures
        rfind(after_box(t, kw, date), " \u{2014} "@ + kw + ":"@) == Some(t.len() as int),
{
    let rest = after_box(t, kw, date);
    let own = " \u{2014} "@ + kw + ":"@;
    let n = t.len() as int;
    reveal_strlit(": ");
    reveal_strlit(":");
    assert(rest.subrange(n, n + own.len()) =~= own);
    assert(occurs_at(rest, own, n));
    lemma_rfind_upto(rest, own, rest.len() - own.len());
    match rfind(rest, own) {
        Some(k) => {
            if k > n {
                lemma_separator_at(t, kw, date, kw, k);
            }
        },
        None => {
            assert(!occurs_at(rest, own, n));
        },
    }
}

/// A soft or undated bullet whose title holds no ` — hard:` holds none at
/// all.
proof fn lemma_no_hard_separator(t: Seq<char>, date: Seq<char>)
    requires
        plain(date),
        !contains(t, " \u{2014} hard:"@),
    ensures
        rfind(after_box(t, "target"@, date), " \u{2014} hard:"@) is None,
{
    reveal_strlit(" \u{2014} ");
    reveal_strlit(" \u{2014} hard:");
    reveal_strlit("hard");
    reveal_strlit("target");
    reveal_strlit(":");
    let rest = after_box(t, "target"@, date);
    let hard = " \u{2014} "@ + "hard"@ + ":"@;
    assert(hard =~= " \u{2014} hard:"@);
    assert(hard =~= seq![' ', '\u{2014}', ' ', 'h', 'a', 'r', 'd', ':']);
    assert(find(t, hard) is None);
    let n = t.len() as int;
    lemma_find_from(t, hard, 0);
    lemma_rfind_upto(rest, hard, rest.len() - hard.len());
    if let Some(k) = rfind(rest, hard) {
        if k + hard.len() <= n {
            lemma_separator_in_title(t, "target"@, date, "hard"@, k);
        } else if k >= n - 2 {
            lemma_separator_at(t, "target"@, date, "hard"@, k);
        } else {
            // Straddling the title's end would put the bullet's space and
            // em-dash inside the word `hard:`.
            let j = n - k;
            assert(j == 3 || j == 4 || j == 5 || j == 6 || j == 7);
            lemma_occurs_char(rest, hard, k, j);
            assert(rest[n] == ' ');
            assert(hard[j] != ' ');
        }
    }
}

/// A milestone bullet as added reads back, as an open milestone, with the
/// title it was added under. The title is non-empty once trimmed, and an
/// undated or soft milestone's title does not itself hold ` — hard:`,
/// which would be taken for the bullet's separator.
pub proof fn lemma_milestone_round_trip(title: Seq<char>, target: Option<Date>, is_hard: bool)
    requires
        trim(title).len() > 0,
        is_hard || !contains(trim(title), " \u{2014} hard:"@),
    ensures
        open_milestone_title(
            milestone_bullet(trim(title), milestone_keyword(is_hard), milestone_date_text(target)),
        ) == Some(trim(title)),
{
    reveal_strlit("hard");
    reveal_strlit("target");
    reveal_strlit(" \u{2014} ");
    reveal_strlit(":");
    reveal_strlit(" \u{2014} hard:");
    reveal_strlit(" \u{2014} target:");
    let t = trim(title);
    let kw = milestone_keyword(is_hard);
    let date = milestone_date_text(target);
    lemma_date_plain(target);
    lemma_trim_ends(title);
    lemma_box_stripped(t, kw, date);
    let rest = after_box(t, kw, date);
    let n = t.len() as int;
    lemma_own_separator(t, kw, date);
    if is_hard {
        assert(" \u{2014} "@ + kw + ":"@ =~= " \u{2014} hard:"@);
    } else {
        lemma_no_hard_separator(t, date);
        assert(" \u{2014} "@ + kw + ":"@ =~= " \u{2014} target:"@);
    }
    assert(rest.take(n) =~= t);
    lemma_end_non_ws(t, n);
    if end_non_ws(t, n) < n {
        assert(is_ws(t[n - 1]));
    }
    assert(trim_end(t) =~= t);
}

} // verus!

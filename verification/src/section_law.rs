//! Every writable section of a journal note parses back from its own
//! heading, whatever the heading's ASCII case.

use vstd::prelude::*;

use crate::journal::{section_key, section_key_of, DailySection, MonthlySection, WeeklySection};
use crate::text::{ascii_lower, ascii_lower_seq, is_ws, lemma_trim_no_ws_ends, trim};

verus! {

/// A text that lowers to the same text as `h`, where `h` neither starts nor
/// ends with whitespace and lowers without whitespace at its ends, is its
/// own trim.
proof fn lemma_same_case_trims(t: Seq<char>, h: Seq<char>)
    requires
        h.len() > 0,
        ascii_lower_seq(t) == ascii_lower_seq(h),
        !is_ws(ascii_lower_seq(h)[0]),
        !is_ws(ascii_lower_seq(h)[h.len() - 1]),
    ensures
        trim(t) == t,
{
    assert(ascii_lower_seq(t).len() == t.len());
    assert(ascii_lower_seq(t)[0] == ascii_lower(t[0]));
    assert(ascii_lower_seq(t)[t.len() - 1] == ascii_lower(t[t.len() - 1]));
    lemma_trim_no_ws_ends(t);
}

/// Reducing a concatenation reduces each part.
proof fn lemma_key_concat(a: Seq<char>, b: Seq<char>)
    ensures
        section_key_of(a + b) == section_key_of(a) + section_key_of(b),
    decreases b.len(),
{
    if b.len() == 0 {
        assert(a + b =~= a);
        assert(section_key_of(a) + section_key_of(b) =~= section_key_of(a));
    } else {
        assert((a + b).drop_last() =~= a + b.drop_last());
        assert((a + b).last() == b.last());
        lemma_key_concat(a, b.drop_last());
        let c = b.last();
        if c == '\'' {
        } else if c == '-' || c == '_' {
            assert(section_key_of(a) + section_key_of(b.drop_last()).push(' ') =~= (section_key_of(a)
                + section_key_of(b.drop_last())).push(' '));
        } else {
            assert(section_key_of(a) + section_key_of(b.drop_last()).push(c) =~= (section_key_of(a)
                + section_key_of(b.drop_last())).push(c));
        }
    }
}

/// Text without apostrophes, dashes or underscores reduces to itself.
proof fn lemma_key_plain(a: Seq<char>)
    requires
        forall|k: int| 0 <= k < a.len() ==> #[trigger] a[k] != '\'' && a[k] != '-' && a[k] != '_',
    ensures
        section_key_of(a) == a,
    decreases a.len(),
{
    if a.len() > 0 {
        assert(a[a.len() - 1] == a.last());
        lemma_key_plain(a.drop_last());
        assert(a.drop_last().push(a.last()) =~= a);
    }
}

/// A daily section's heading parses back to the section, in any ASCII
/// case, and names neither history section (`Logs`, `Notes`).
pub proof fn lemma_daily_heading_roundtrip(s: DailySection, t: Seq<char>)
    requires
        ascii_lower_seq(t) == ascii_lower_seq(s.heading_spec()),
    ensures
        DailySection::parse_spec(ascii_lower_seq(trim(s.heading_spec()))) == Some(s),
        DailySection::parse_spec(ascii_lower_seq(trim(t))) == Some(s),
        s.heading_spec() != "Logs"@,
        s.heading_spec() != "Notes"@,
{
    reveal_strlit("Standup");
    reveal_strlit("Intention");
    reveal_strlit("Agenda");
    reveal_strlit("Meeting");
    reveal_strlit("standup");
    reveal_strlit("intention");
    reveal_strlit("agenda");
    reveal_strlit("meeting");
    reveal_strlit("Logs");
    reveal_strlit("Notes");
    let h = s.heading_spec();
    let l = ascii_lower_seq(h);
    match s {
        DailySection::Standup => {
            assert(l =~= "standup"@);
        },
        DailySection::Intention => {
            assert(l =~= "intention"@);
        },
        DailySection::Agenda => {
            assert(l =~= "agenda"@);
        },
        DailySection::Meeting => {
            assert(l =~= "meeting"@);
        },
    }
    lemma_same_case_trims(h, h);
    lemma_same_case_trims(t, h);
    if s.heading_spec() == "Logs"@ {
        assert(h.len() == 4);
    }
    if s.heading_spec() == "Notes"@ {
        assert(h.len() == 5);
    }
}

/// A weekly section's heading parses back to the section, in any ASCII
/// case.
pub proof fn lemma_weekly_heading_roundtrip(s: WeeklySection, t: Seq<char>)
    requires
        ascii_lower_seq(t) == ascii_lower_seq(s.heading_spec()),
    ensures
        WeeklySection::parse_spec(section_key(s.heading_spec())) == Some(s),
        WeeklySection::parse_spec(section_key(t)) == Some(s),
{
    reveal_strlit("Wins");
    reveal_strlit("Challenges");
    reveal_strlit("One Improvement");
    reveal_strlit("This Week's Goal");
    reveal_strlit("wins");
    reveal_strlit("challenges");
    reveal_strlit("one improvement");
    reveal_strlit("this weeks goal");
    reveal_strlit("next weeks focus");
    let h = s.heading_spec();
    let l = ascii_lower_seq(h);
    match s {
        WeeklySection::Wins => {
            assert(l =~= "wins"@);
            lemma_key_plain(l);
        },
        WeeklySection::Challenges => {
            assert(l =~= "challenges"@);
            lemma_key_plain(l);
        },
        WeeklySection::OneImprovement => {
            assert(l =~= "one improvement"@);
            lemma_key_plain(l);
            assert(l[0] != "this weeks goal"@[0]);
            assert(l[0] != "next weeks focus"@[0]);
        },
        WeeklySection::ThisWeeksGoal => {
            let a = seq!['t', 'h', 'i', 's', ' ', 'w', 'e', 'e', 'k'];
            let b = seq!['s', ' ', 'g', 'o', 'a', 'l'];
            assert(l =~= a + seq!['\''] + b);
            lemma_key_plain(a);
            lemma_key_plain(b);
            lemma_key_concat(a + seq!['\''], b);
            lemma_key_concat(a, seq!['\'']);
            assert(section_key_of(seq!['\'']) =~= Seq::<char>::empty()) by {
                assert(seq!['\''].drop_last() =~= Seq::<char>::empty());
                assert(seq!['\''].last() == '\'');
                assert(section_key_of(Seq::<char>::empty()) == Seq::<char>::empty());
            }
            assert(section_key_of(l) =~= "this weeks goal"@);
            assert("this weeks goal"@[0] != "one improvement"@[0]);
        },
    }
    assert(WeeklySection::parse_spec(section_key_of(l)) == Some(s));
    lemma_same_case_trims(h, h);
    lemma_same_case_trims(t, h);
}

/// A monthly section's heading parses back to the section, in any ASCII
/// case.
pub proof fn lemma_monthly_heading_roundtrip(s: MonthlySection, t: Seq<char>)
    requires
        ascii_lower_seq(t) == ascii_lower_seq(s.heading_spec()),
    ensures
        MonthlySection::parse_spec(section_key(s.heading_spec())) == Some(s),
        MonthlySection::parse_spec(section_key(t)) == Some(s),
{
    reveal_strlit("Wins");
    reveal_strlit("Themes");
    reveal_strlit("Next Month's Focus");
    reveal_strlit("wins");
    reveal_strlit("themes");
    reveal_strlit("next months focus");
    let h = s.heading_spec();
    let l = ascii_lower_seq(h);
    match s {
        MonthlySection::Wins => {
            assert(l =~= "wins"@);
            lemma_key_plain(l);
        },
        MonthlySection::Themes => {
            assert(l =~= "themes"@);
            lemma_key_plain(l);
        },
        MonthlySection::NextMonthsFocus => {
            let a = seq!['n', 'e', 'x', 't', ' ', 'm', 'o', 'n', 't', 'h'];
            let b = seq!['s', ' ', 'f', 'o', 'c', 'u', 's'];
            assert(l =~= a + seq!['\''] + b);
            lemma_key_plain(a);
            lemma_key_plain(b);
            lemma_key_concat(a + seq!['\''], b);
            lemma_key_concat(a, seq!['\'']);
            assert(section_key_of(seq!['\'']) =~= Seq::<char>::empty()) by {
                assert(seq!['\''].drop_last() =~= Seq::<char>::empty());
                assert(seq!['\''].last() == '\'');
                assert(section_key_of(Seq::<char>::empty()) == Seq::<char>::empty());
            }
            assert(section_key_of(l) =~= "next months focus"@);
        },
    }
    lemma_same_case_trims(h, h);
    lemma_same_case_trims(t, h);
}

} // verus!

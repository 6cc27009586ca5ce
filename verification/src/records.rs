//! The order of a tracking note's records.
//!
//! Records are read in document order. A record may carry an `at` time;
//! the records are put in time order only when every one of them has an
//! `at` that parses, and then stably, so records sharing a time keep their
//! document order. A partial or unparseable set stays in document order.

use vstd::prelude::*;

use crate::date::{chrono_time_of_day, time_of_day};
use crate::text::{chars_of, string_of, trim, trim_of};

verus! {

/// The formats a record's `at` is read in, tried in turn: 24-hour with and
/// without seconds, then 12-hour with a meridiem.
pub open spec fn record_formats() -> Seq<Seq<char>> {
    seq![
        seq!['%', 'H', ':', '%', 'M'],
        seq!['%', 'H', ':', '%', 'M', ':', '%', 'S'],
        seq!['%', 'I', ':', '%', 'M', ' ', '%', 'p'],
        seq!['%', 'I', ':', '%', 'M', ':', '%', 'S', ' ', '%', 'p'],
    ]
}

/// The time the first format from the `i`-th on reads in `s`.
pub open spec fn record_time_from(s: Seq<char>, i: int) -> Option<(u32, u32)>
    decreases 4 - i,
{
    if i < 0 || i >= 4 {
        None
    } else {
        match chrono_time_of_day(s, record_formats()[i]) {
            Some(t) => Some(t),
            None => record_time_from(s, i + 1),
        }
    }
}

/// The time a record's `at` names: its trimmed text, read in the first
/// format that accepts it.
pub open spec fn record_time(raw: Seq<char>) -> Option<(u32, u32)> {
    record_time_from(trim(raw), 0)
}

/// Parse a record's `at` field, as seconds past midnight and the
/// nanosecond within the second.
pub fn parse_record_time(raw: &str) -> (r: Option<(u32, u32)>)
    ensures
        r == record_time(raw@),
{
    let text = string_of(&trim_of(&chars_of(raw)));
    let formats = vec![
        string_of(&vec!['%', 'H', ':', '%', 'M']),
        string_of(&vec!['%', 'H', ':', '%', 'M', ':', '%', 'S']),
        string_of(&vec!['%', 'I', ':', '%', 'M', ' ', '%', 'p']),
        string_of(&vec!['%', 'I', ':', '%', 'M', ':', '%', 'S', ' ', '%', 'p']),
    ];
    assert(formats@[0]@ =~= record_formats()[0]);
    assert(formats@[1]@ =~= record_formats()[1]);
    assert(formats@[2]@ =~= record_formats()[2]);
    assert(formats@[3]@ =~= record_formats()[3]);
    let mut i: usize = 0;
    while i < 4
        invariant
            i <= 4,
            formats@.len() == 4,
            text@ == trim(raw@),
            forall|j: int| 0 <= j < 4 ==> (#[trigger] formats@[j])@ == record_formats()[j],
            record_time(raw@) == record_time_from(text@, i as int),
        decreases 4 - i,
    {
        if let Some(t) = time_of_day(text.as_str(), formats[i].as_str()) {
            return Some(t);
        }
        i = i + 1;
    }
    None
}

/// Whether every record has a time.
pub open spec fn all_timed(ts: Seq<Option<(u32, u32)>>) -> bool {
    forall|i: int| 0 <= i < ts.len() ==> (#[trigger] ts[i]) is Some
}

/// Record `i` goes before record `j`: an earlier time, or the same time
/// and earlier in the document.
pub open spec fn goes_before(ts: Seq<Option<(u32, u32)>>, i: int, j: int) -> bool {
    let a = ts[i]->0;
    let b = ts[j]->0;
    a.0 < b.0 || (a.0 == b.0 && (a.1 < b.1 || (a.1 == b.1 && i < j)))
}

fn goes_before_exec(ts: &Vec<Option<(u32, u32)>>, i: usize, j: usize) -> (b: bool)
    requires
        i < ts.len(),
        j < ts.len(),
        ts@[i as int] is Some,
        ts@[j as int] is Some,
    ensures
        b == goes_before(ts@, i as int, j as int),
{
    let a = ts[i].unwrap();
    let c = ts[j].unwrap();
    a.0 < c.0 || (a.0 == c.0 && (a.1 < c.1 || (a.1 == c.1 && i < j)))
}

/// The order to read records in, given each record's time (`None` where
/// it has no `at` or one that does not parse), as indices into the
/// records: every record, by time and then by position, when each has a
/// time; otherwise every record where it stands.
pub fn record_order(times: &Vec<Option<(u32, u32)>>) -> (r: Vec<usize>)
    ensures
        r.len() == times.len(),
        forall|a: int| 0 <= a < r.len() ==> r[a] < times.len(),
        all_timed(times@) ==> forall|a: int, b: int|
            0 <= a < b < r.len() ==> goes_before(times@, r[a] as int, r[b] as int),
        !all_timed(times@) ==> forall|a: int| 0 <= a < r.len() ==> r[a] == a,
{
    let n = times.len();
    let mut timed = true;
    let mut i: usize = 0;
    while i < n
        invariant
            i <= n,
            n == times.len(),
            timed <==> forall|j: int| 0 <= j < i ==> (#[trigger] times@[j]) is Some,
        decreases n - i,
    {
        if times[i].is_none() {
            timed = false;
        }
        i = i + 1;
    }
    let mut r: Vec<usize> = Vec::new();
    if !timed {
        let mut k: usize = 0;
        while k < n
            invariant
                k <= n,
                n == times.len(),
                r.len() == k,
                forall|a: int| 0 <= a < k ==> r[a] == a,
            decreases n - k,
        {
            r.push(k);
            k = k + 1;
        }
        return r;
    }
    let mut k: usize = 0;
    while k < n
        invariant
            k <= n,
            n == times.len(),
            all_timed(times@),
            r.len() == k,
            forall|a: int| 0 <= a < r.len() ==> r[a] < k,
            forall|a: int, b: int|
                0 <= a < b < r.len() ==> goes_before(times@, r[a] as int, r[b] as int),
        decreases n - k,
    {
        let mut p: usize = 0;
        while p < r.len()
            invariant
                p <= r.len(),
                k < n,
                n == times.len(),
                all_timed(times@),
                r.len() == k,
                forall|a: int| 0 <= a < r.len() ==> r[a] < k,
                forall|a: int| 0 <= a < p ==> goes_before(times@, r[a] as int, k as int),
            ensures
                p <= r.len(),
                forall|a: int| 0 <= a < p ==> goes_before(times@, r[a] as int, k as int),
                p < r.len() ==> goes_before(times@, k as int, r[p as int] as int),
            decreases r.len() - p,
        {
            assert(times@[k as int] is Some && times@[r[p as int] as int] is Some);
            if goes_before_exec(times, k, r[p]) {
                break;
            }
            p = p + 1;
        }
        let ghost old_r = r@;
        r.insert(p, k);
        assert forall|a: int, b: int| 0 <= a < b < r.len() implies goes_before(
            times@,
            r[a] as int,
            r[b] as int,
        ) by {
            if b < p {
                assert(r[a] == old_r[a] && r[b] == old_r[b]);
            } else if b == p {
                assert(r[a] == old_r[a]);
            } else if a == p {
                assert(r[b] == old_r[b - 1]);
                assert(goes_before(times@, k as int, old_r[p as int] as int));
                if b - 1 > p {
                    assert(goes_before(times@, old_r[p as int] as int, old_r[b - 1] as int));
                }
            } else if a < p {
                assert(r[a] == old_r[a] && r[b] == old_r[b - 1]);
            } else {
                assert(r[a] == old_r[a - 1] && r[b] == old_r[b - 1]);
            }
        }
        k = k + 1;
    }
    r
}

} // verus!

//! The " — available …: a, b, c" suffix of a slug-not-found error, which
//! names the valid slugs so a caller can correct itself.

use vstd::prelude::*;

use crate::text::{
    chars_of, join, join_exec, pair_views, push_all, sort_pairs_by_key, sorted_pairs, string_of,
};

verus! {

/// The displays of `items`, sorted by key, comma-joined after
/// ` — available <label>: `; empty when there are no items.
pub open spec fn slugs_hint(items: Seq<(Seq<char>, Seq<char>)>, label: Seq<char>) -> Seq<char> {
    if items.len() == 0 {
        Seq::empty()
    } else {
        " \u{2014} available "@ + label + ": "@ + join(
            sorted_pairs(items).map_values(|p: (Seq<char>, Seq<char>)| p.1),
            ", "@,
        )
    }
}

/// Build the hint from `(sort key, display)` pairs, one per note.
pub fn available_slugs_hint(items: &Vec<(String, String)>, label: &str) -> (r: String)
    ensures
        r@ == slugs_hint(pair_views(items@), label@),
{
    if items.len() == 0 {
        return String::new();
    }
    let sorted = sort_pairs_by_key(items);
    let ghost sp = sorted_pairs(pair_views(items@));
    let mut shown: Vec<Vec<char>> = Vec::new();
    let mut i: usize = 0;
    while i < sorted.len()
        invariant
            i <= sorted@.len(),
            pair_views(sorted@) == sp,
            shown@.len() == i,
            forall|k: int| 0 <= k < i ==> #[trigger] shown@[k]@ == sp[k].1,
        decreases sorted@.len() - i,
    {
        assert(sp[i as int].1 == sorted@[i as int].1@);
        shown.push(chars_of(sorted[i].1.as_str()));
        i = i + 1;
    }
    assert(shown@.map_values(|v: Vec<char>| v@) =~= sp.map_values(
        |p: (Seq<char>, Seq<char>)| p.1,
    ));
    let mut v = chars_of(" \u{2014} available ");
    push_all(&mut v, &chars_of(label));
    push_all(&mut v, &chars_of(": "));
    push_all(&mut v, &join_exec(&shown, &chars_of(", ")));
    string_of(&v)
}

} // verus!

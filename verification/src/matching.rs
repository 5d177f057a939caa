//! Prefix matching: which entries of a menu are still possible once some
//! characters have been typed.

use crate::model::{EntryV, Menu};
use crate::text::{is_prefix, starts_with};
use vstd::prelude::*;

verus! {

/// The entries among the first `n` whose trigger starts with `buffer`, by
/// index and in menu order.
pub open spec fn matching_upto(entries: Seq<EntryV>, buffer: Seq<char>, n: int) -> Seq<int>
    decreases n,
{
    if n <= 0 {
        Seq::empty()
    } else if is_prefix(buffer, entries[n - 1].trigger) {
        matching_upto(entries, buffer, n - 1).push(n - 1)
    } else {
        matching_upto(entries, buffer, n - 1)
    }
}

/// The entries of a menu whose trigger starts with `buffer`, by index and in
/// menu order.
pub open spec fn matching(entries: Seq<EntryV>, buffer: Seq<char>) -> Seq<int> {
    matching_upto(entries, buffer, entries.len() as int)
}

/// Positions held in machine integers, read as mathematical ones.
pub open spec fn indices(v: Seq<usize>) -> Seq<int> {
    v.map_values(|i: usize| i as int)
}

/// What `matching_upto` holds: exactly the matching indices below `n`, each
/// once, in rising order.
proof fn lemma_matching_upto(entries: Seq<EntryV>, buffer: Seq<char>, n: int)
    requires
        0 <= n <= entries.len(),
    ensures
        matching_upto(entries, buffer, n).len() <= n,
        forall|k: int|
            0 <= k < matching_upto(entries, buffer, n).len() ==> {
                let i = #[trigger] matching_upto(entries, buffer, n)[k];
                0 <= i < n && is_prefix(buffer, entries[i].trigger)
            },
        forall|k: int, l: int|
            0 <= k < l < matching_upto(entries, buffer, n).len() ==> matching_upto(
                entries,
                buffer,
                n,
            )[k] < matching_upto(entries, buffer, n)[l],
        forall|i: int|
            0 <= i < n && is_prefix(buffer, #[trigger] entries[i].trigger) ==> matching_upto(
                entries,
                buffer,
                n,
            ).contains(i),
    decreases n,
{
    if n > 0 {
        lemma_matching_upto(entries, buffer, n - 1);
        let prev = matching_upto(entries, buffer, n - 1);
        let cur = matching_upto(entries, buffer, n);
        assert forall|i: int|
            0 <= i < n && is_prefix(buffer, #[trigger] entries[i].trigger) implies cur.contains(
            i,
        ) by {
            if i < n - 1 {
                let k = choose|k: int| 0 <= k < prev.len() && prev[k] == i;
                assert(cur[k] == i);
            } else {
                assert(cur[cur.len() - 1] == i);
            }
        }
    }
}

/// The filtered view of a menu is an order-preserving selection of its
/// entries, fixed by the menu and the buffer alone: every index in it is a
/// matching entry, the indices rise strictly, and no matching entry is left
/// out.
pub proof fn lemma_matching_selects_in_order(entries: Seq<EntryV>, buffer: Seq<char>)
    ensures
        matching(entries, buffer).len() <= entries.len(),
        forall|k: int|
            0 <= k < matching(entries, buffer).len() ==> {
                let i = #[trigger] matching(entries, buffer)[k];
                0 <= i < entries.len() && is_prefix(buffer, entries[i].trigger)
            },
        forall|k: int, l: int|
            0 <= k < l < matching(entries, buffer).len() ==> matching(entries, buffer)[k] < matching(
                entries,
                buffer,
            )[l],
        forall|i: int|
            0 <= i < entries.len() && is_prefix(buffer, #[trigger] entries[i].trigger) ==> matching(
                entries,
                buffer,
            ).contains(i),
{
    lemma_matching_upto(entries, buffer, entries.len() as int);
}

/// With nothing typed, every entry is visible.
pub proof fn lemma_matching_empty_buffer(entries: Seq<EntryV>)
    ensures
        matching(entries, Seq::empty()) == Seq::new(entries.len(), |i: int| i),
{
    lemma_all_match_upto(entries, entries.len() as int);
}

proof fn lemma_all_match_upto(entries: Seq<EntryV>, n: int)
    requires
        0 <= n <= entries.len(),
    ensures
        matching_upto(entries, Seq::empty(), n) == Seq::new(n as nat, |i: int| i),
    decreases n,
{
    if n > 0 {
        lemma_all_match_upto(entries, n - 1);
        assert(entries[n - 1].trigger.subrange(0, 0) =~= Seq::<char>::empty());
        assert(Seq::new((n - 1) as nat, |i: int| i).push(n - 1) =~= Seq::new(n as nat, |i: int| i));
    } else {
        assert(matching_upto(entries, Seq::empty(), n) =~= Seq::new(n as nat, |i: int| i));
    }
}

/// The entries of `menu` whose trigger starts with `buffer`, by index and in
/// menu order. The comparison is exact, character by character.
pub fn matching_entries(menu: &Menu, buffer: &[char]) -> (r: Vec<usize>)
    ensures
        indices(r@) == matching(menu@, buffer@),
{
    let mut r: Vec<usize> = Vec::new();
    let mut i: usize = 0;
    assert(indices(r@) =~= matching_upto(menu@, buffer@, 0));
    while i < menu.entries.len()
        invariant
            i <= menu.entries.len(),
            menu@.len() == menu.entries@.len(),
            indices(r@) == matching_upto(menu@, buffer@, i as int),
        decreases menu.entries.len() - i,
    {
        assert(menu@[i as int] == menu.entries@[i as int]@);
        if starts_with(menu.entries[i].trigger.as_slice(), buffer) {
            let ghost before = r@;
            r.push(i);
            assert(indices(r@) =~= indices(before).push(i as int));
        }
        i += 1;
    }
    r
}

} // verus!

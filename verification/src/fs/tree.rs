//! The way from an entry up to the root.

use crate::fs::entry::EntryModel;
use crate::fs::inner::ROOT_INO;
use vstd::prelude::*;

verus! {

/// Whether an entry is reached from another one by going up, at least once and
/// at most `steps` times. The way ends at the root.
pub open spec fn climbs_to(entries: Map<u64, EntryModel>, ino: u64, ancestor: u64, steps: nat) -> bool
    decreases steps,
{
    &&& steps > 0
    &&& ino != ROOT_INO
    &&& entries.contains_key(ino)
    &&& (entries[ino].parent == ancestor || climbs_to(entries, entries[ino].parent, ancestor, (steps - 1) as nat))
}

/// Whether an entry lies somewhere below another one.
pub open spec fn descends(entries: Map<u64, EntryModel>, ino: u64, ancestor: u64) -> bool {
    exists|steps: nat| climbs_to(entries, ino, ancestor, steps)
}

/// The entry that is reached by going up a number of times.
spec fn up(entries: Map<u64, EntryModel>, ino: u64, steps: nat) -> u64
    decreases steps,
{
    if steps == 0 {
        ino
    } else {
        entries[up(entries, ino, (steps - 1) as nat)].parent
    }
}

proof fn lemma_up_shift(entries: Map<u64, EntryModel>, ino: u64, steps: nat)
    ensures
        up(entries, entries[ino].parent, steps) == up(entries, ino, steps + 1),
    decreases steps,
{
    reveal_with_fuel(up, 2);
    if steps > 0 {
        lemma_up_shift(entries, ino, (steps - 1) as nat);
    }
}

proof fn lemma_more_steps(entries: Map<u64, EntryModel>, ino: u64, ancestor: u64, fewer: nat, more: nat)
    requires
        climbs_to(entries, ino, ancestor, fewer),
        fewer <= more,
    ensures
        climbs_to(entries, ino, ancestor, more),
    decreases fewer,
{
    if entries[ino].parent != ancestor {
        lemma_more_steps(entries, entries[ino].parent, ancestor, (fewer - 1) as nat, (more - 1) as nat);
    }
}

/// Walking up part of the way splits the way in two.
proof fn lemma_split_way(entries: Map<u64, EntryModel>, ino: u64, ancestor: u64, steps: nat, part: nat)
    requires
        part < steps,
        climbs_to(entries, ino, ancestor, steps),
        forall|k: nat| #![trigger up(entries, ino, k)] 1 <= k <= part ==> up(entries, ino, k) != ancestor,
    ensures
        climbs_to(entries, up(entries, ino, part), ancestor, (steps - part) as nat),
    decreases part,
{
    if part > 0 {
        let next = entries[ino].parent;
        assert(up(entries, ino, 1) == next) by {
            reveal_with_fuel(up, 2);
        }
        assert forall|k: nat| #![trigger up(entries, next, k)] 1 <= k <= part - 1 implies up(entries, next, k)
            != ancestor by {
            lemma_up_shift(entries, ino, k);
            assert(up(entries, ino, k + 1) != ancestor);
        }
        lemma_split_way(entries, next, ancestor, (steps - 1) as nat, (part - 1) as nat);
        lemma_up_shift(entries, ino, (part - 1) as nat);
    }
}

/// Two ways join to one.
proof fn lemma_join_ways(entries: Map<u64, EntryModel>, ino: u64, ancestor: u64, steps: nat, part: nat, rest: nat)
    requires
        part < steps,
        climbs_to(entries, ino, ancestor, steps),
        climbs_to(entries, up(entries, ino, part), ancestor, rest),
    ensures
        climbs_to(entries, ino, ancestor, part + rest),
    decreases part,
{
    if part > 0 {
        let next = entries[ino].parent;
        if next != ancestor {
            lemma_up_shift(entries, ino, (part - 1) as nat);
            lemma_join_ways(entries, next, ancestor, (steps - 1) as nat, (part - 1) as nat, rest);
        }
    }
}

/// Where an ancestor is reached at all, it is reached within as many steps as
/// there are entries.
pub proof fn lemma_steps_bounded(entries: Map<u64, EntryModel>, ino: u64, ancestor: u64, steps: nat)
    requires
        entries.dom().finite(),
        climbs_to(entries, ino, ancestor, steps),
    ensures
        climbs_to(entries, ino, ancestor, entries.dom().len()),
    decreases steps,
{
    let count = entries.dom().len();
    if steps <= count {
        lemma_more_steps(entries, ino, ancestor, steps, count);
    } else if climbs_to(entries, ino, ancestor, (steps - 1) as nat) {
        lemma_steps_bounded(entries, ino, ancestor, (steps - 1) as nat);
    } else {
        let way = Seq::new(steps, |k: int| up(entries, ino, k as nat));
        assert forall|k: nat| #![trigger up(entries, ino, k)] 1 <= k < steps implies up(entries, ino, k) != ancestor by {
            if up(entries, ino, k) == ancestor {
                lemma_reached_early(entries, ino, ancestor, steps, k);
                lemma_more_steps(entries, ino, ancestor, k, (steps - 1) as nat);
            }
        }
        assert forall|k: int| 0 <= k < steps implies entries.contains_key(#[trigger] way[k]) by {
            lemma_split_way(entries, ino, ancestor, steps, k as nat);
        }
        assert(way.no_duplicates()) by {
            assert forall|i: int, j: int| 0 <= i < j < steps implies way[i] != way[j] by {
                if way[i] == way[j] {
                    lemma_split_way(entries, ino, ancestor, steps, j as nat);
                    lemma_join_ways(entries, ino, ancestor, steps, i as nat, (steps - j) as nat);
                    lemma_more_steps(entries, ino, ancestor, (i + (steps - j)) as nat, (steps - 1) as nat);
                }
            }
        }
        way.unique_seq_to_set();
        assert(way.to_set().subset_of(entries.dom())) by {
            assert forall|x: u64| way.to_set().contains(x) implies entries.dom().contains(x) by {
                let k = choose|k: int| 0 <= k < way.len() && way[k] == x;
                assert(entries.contains_key(way[k]));
            }
        }
        vstd::set_lib::lemma_len_subset(way.to_set(), entries.dom());
    }
}

/// An ancestor that is met on the way is reached in that many steps.
proof fn lemma_reached_early(entries: Map<u64, EntryModel>, ino: u64, ancestor: u64, steps: nat, k: nat)
    requires
        1 <= k < steps,
        climbs_to(entries, ino, ancestor, steps),
        up(entries, ino, k) == ancestor,
    ensures
        climbs_to(entries, ino, ancestor, k),
    decreases k,
{
    let next = entries[ino].parent;
    if next != ancestor {
        assert(k != 1) by {
            reveal_with_fuel(up, 2);
        }
        lemma_up_shift(entries, ino, (k - 1) as nat);
        lemma_reached_early(entries, next, ancestor, (steps - 1) as nat, (k - 1) as nat);
    }
}

/// Whether no entry lies below itself.
pub open spec fn acyclic(entries: Map<u64, EntryModel>) -> bool {
    forall|i: u64| !descends(entries, i, i)
}

/// Whether entries are the same as others but for the parent of one of them.
pub open spec fn differ_in_parent(
    before: Map<u64, EntryModel>,
    after: Map<u64, EntryModel>,
    ino: u64,
    new_parent: u64,
) -> bool {
    &&& after.contains_key(ino)
    &&& after[ino].parent == new_parent
    &&& forall|i: u64| #[trigger]
        after.contains_key(i) && i != ino ==> before.contains_key(i) && before[i].parent == after[i].parent
}

/// What lies below something lies below all that this lies below.
proof fn lemma_descends_further(entries: Map<u64, EntryModel>, a: u64, b: u64, c: u64, n: nat)
    requires
        climbs_to(entries, a, b, n),
        descends(entries, b, c),
    ensures
        descends(entries, a, c),
    decreases n,
{
    let next = entries[a].parent;
    if next != b {
        lemma_descends_further(entries, next, b, c, (n - 1) as nat);
    }
    let m = choose|m: nat| climbs_to(entries, next, c, m);
    assert(climbs_to(entries, a, c, m + 1));
}

/// A way up in the changed entries is one in the entries before, or it leads
/// through the entry that changed its parent.
proof fn lemma_way_before_or_through(
    before: Map<u64, EntryModel>,
    after: Map<u64, EntryModel>,
    ino: u64,
    new_parent: u64,
    x: u64,
    a: u64,
    n: nat,
)
    requires
        differ_in_parent(before, after, ino, new_parent),
        climbs_to(after, x, a, n),
    ensures
        descends(before, x, a) || {
            &&& x == ino || descends(before, x, ino)
            &&& new_parent == a || climbs_to(after, new_parent, a, (n - 1) as nat)
        },
    decreases n,
{
    if x != ino {
        let next = after[x].parent;
        assert(before[x].parent == next);
        if next == a {
            assert(climbs_to(before, x, a, 1));
        } else {
            assert(n >= 2) by {
                reveal_with_fuel(climbs_to, 2);
            }
            lemma_way_before_or_through(before, after, ino, new_parent, next, a, (n - 1) as nat);
            if descends(before, next, a) {
                let m = choose|m: nat| climbs_to(before, next, a, m);
                assert(climbs_to(before, x, a, m + 1));
            } else {
                if next == ino {
                    assert(climbs_to(before, x, ino, 1));
                } else {
                    let m = choose|m: nat| climbs_to(before, next, ino, m);
                    assert(climbs_to(before, x, ino, m + 1));
                }
                if new_parent != a {
                    lemma_more_steps(after, new_parent, a, (n - 2) as nat, (n - 1) as nat);
                }
            }
        }
    }
}

/// Moving an entry to a parent that is neither the entry itself nor below it
/// leaves no entry below itself.
pub proof fn law_moving_keeps_the_tree_acyclic(
    before: Map<u64, EntryModel>,
    after: Map<u64, EntryModel>,
    ino: u64,
    new_parent: u64,
)
    requires
        acyclic(before),
        differ_in_parent(before, after, ino, new_parent),
        new_parent != ino,
        !descends(before, new_parent, ino),
    ensures
        acyclic(after),
{
    assert forall|i: u64| !descends(after, i, i) by {
        if descends(after, i, i) {
            let n = choose|n: nat| climbs_to(after, i, i, n);
            lemma_way_before_or_through(before, after, ino, new_parent, i, i, n);
            assert(!descends(before, i, i));
            if new_parent != i {
                lemma_way_before_or_through(before, after, ino, new_parent, new_parent, i, (n - 1) as nat);
                assert(descends(before, new_parent, i));
                if i != ino {
                    let m = choose|m: nat| climbs_to(before, new_parent, i, m);
                    lemma_descends_further(before, new_parent, i, ino, m);
                }
            }
        }
    }
}

/// A new entry that nothing lies in yet leaves no entry below itself.
pub proof fn law_creating_keeps_the_tree_acyclic(entries: Map<u64, EntryModel>, ino: u64, entry: EntryModel)
    requires
        acyclic(entries),
        entry.parent != ino,
        forall|i: u64| #[trigger] entries.contains_key(i) && i != ROOT_INO ==> entries[i].parent != ino,
    ensures
        acyclic(entries.insert(ino, entry)),
{
    if descends(entries, entry.parent, ino) {
        let n = choose|n: nat| climbs_to(entries, entry.parent, ino, n);
        lemma_nothing_below(entries, entry.parent, ino, n);
    }
    law_moving_keeps_the_tree_acyclic(entries, entries.insert(ino, entry), ino, entry.parent);
}

/// What is the parent of no entry but the root has nothing below it.
pub proof fn lemma_nothing_below(entries: Map<u64, EntryModel>, x: u64, ino: u64, n: nat)
    requires
        forall|i: u64| #[trigger] entries.contains_key(i) && i != ROOT_INO ==> entries[i].parent != ino,
    ensures
        !climbs_to(entries, x, ino, n),
    decreases n,
{
    if climbs_to(entries, x, ino, n) {
        lemma_nothing_below(entries, entries[x].parent, ino, (n - 1) as nat);
    }
}

/// Removing an entry leaves no entry below itself.
pub proof fn law_removing_keeps_the_tree_acyclic(entries: Map<u64, EntryModel>, ino: u64)
    requires
        acyclic(entries),
    ensures
        acyclic(entries.remove(ino)),
{
    assert forall|i: u64| !descends(entries.remove(ino), i, i) by {
        if descends(entries.remove(ino), i, i) {
            let n = choose|n: nat| climbs_to(entries.remove(ino), i, i, n);
            lemma_way_without(entries, ino, i, i, n);
            assert(descends(entries, i, i));
        }
    }
}

/// A way that does without an entry is a way with it.
proof fn lemma_way_without(entries: Map<u64, EntryModel>, ino: u64, x: u64, a: u64, n: nat)
    requires
        climbs_to(entries.remove(ino), x, a, n),
    ensures
        climbs_to(entries, x, a, n),
    decreases n,
{
    if entries[x].parent != a {
        lemma_way_without(entries, ino, entries[x].parent, a, (n - 1) as nat);
    }
}

} // verus!

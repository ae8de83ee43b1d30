use std::collections::VecDeque;
use vstd::prelude::*;

use crate::globals::MAX_HISTORY;
use crate::models::{MemoryAllocation, RouteCall, SystemSnapshot};

verus! {

broadcast use vstd::std_specs::vecdeque::group_vec_dequeue_axioms;

/// An entry of a history: it has a timestamp by which histories are ordered,
/// and a notion of repeating the entry before it, by which merged histories
/// drop repeated entries.
pub trait HistoryEntry: Sized {
    /// The timestamp of the entry, in seconds.
    spec fn stamp(&self) -> u64;

    /// Whether this entry repeats `previous`, so that a merge keeps only
    /// `previous`.
    spec fn repeats(&self, previous: &Self) -> bool;

    fn timestamp_of(&self) -> (t: u64)
        ensures
            t == self.stamp(),
    ;

    fn is_repeat_of(&self, previous: &Self) -> (r: bool)
        ensures
            r == self.repeats(previous),
    ;
}

impl HistoryEntry for SystemSnapshot {
    open spec fn stamp(&self) -> u64 {
        self.timestamp
    }

    /// Two snapshots taken in the same second repeat each other.
    open spec fn repeats(&self, previous: &Self) -> bool {
        self.timestamp == previous.timestamp
    }

    fn timestamp_of(&self) -> (t: u64) {
        self.timestamp
    }

    fn is_repeat_of(&self, previous: &Self) -> (r: bool) {
        self.timestamp == previous.timestamp
    }
}

impl HistoryEntry for MemoryAllocation {
    open spec fn stamp(&self) -> u64 {
        self.timestamp
    }

    /// Two memory events of the same second repeat each other.
    open spec fn repeats(&self, previous: &Self) -> bool {
        self.timestamp == previous.timestamp
    }

    fn timestamp_of(&self) -> (t: u64) {
        self.timestamp
    }

    fn is_repeat_of(&self, previous: &Self) -> (r: bool) {
        self.timestamp == previous.timestamp
    }
}

impl HistoryEntry for RouteCall {
    open spec fn stamp(&self) -> u64 {
        self.timestamp
    }

    /// Two calls of the same second to the same path with the same method
    /// repeat each other.
    open spec fn repeats(&self, previous: &Self) -> bool {
        &&& self.timestamp == previous.timestamp
        &&& self.path@ == previous.path@
        &&& self.method@ == previous.method@
    }

    fn timestamp_of(&self) -> (t: u64) {
        self.timestamp
    }

    fn is_repeat_of(&self, previous: &Self) -> (r: bool) {
        self.timestamp == previous.timestamp && self.path == previous.path && self.method
            == previous.method
    }
}

/// `sorted` with `entry` placed after every entry whose timestamp is not
/// later than its own, counting from the end.
pub open spec fn insert_by_timestamp<T: HistoryEntry>(sorted: Seq<T>, entry: T) -> Seq<T>
    decreases sorted.len(),
{
    if sorted.len() == 0 {
        seq![entry]
    } else if sorted.last().stamp() <= entry.stamp() {
        sorted.push(entry)
    } else {
        insert_by_timestamp(sorted.drop_last(), entry).push(sorted.last())
    }
}

/// `entries` inserted one after another into `acc` by timestamp.
pub open spec fn insert_all_by_timestamp<T: HistoryEntry>(acc: Seq<T>, entries: Seq<T>) -> Seq<T>
    decreases entries.len(),
{
    if entries.len() == 0 {
        acc
    } else {
        insert_by_timestamp(insert_all_by_timestamp(acc, entries.drop_last()), entries.last())
    }
}

/// `entries` ordered by timestamp; entries with equal timestamps keep their
/// order (see `lemma_sort_is_stable`).
pub open spec fn sort_by_timestamp<T: HistoryEntry>(entries: Seq<T>) -> Seq<T> {
    insert_all_by_timestamp(Seq::empty(), entries)
}

/// `entries` without the entries that repeat the entry kept before them.
pub open spec fn drop_repeats<T: HistoryEntry>(entries: Seq<T>) -> Seq<T>
    decreases entries.len(),
{
    if entries.len() == 0 {
        entries
    } else {
        let kept = drop_repeats(entries.drop_last());
        if kept.len() > 0 && entries.last().repeats(&kept.last()) {
            kept
        } else {
            kept.push(entries.last())
        }
    }
}

/// The newest `count` entries of `entries` (all of them when there are
/// fewer).
pub open spec fn newest<T>(entries: Seq<T>, count: nat) -> Seq<T> {
    if entries.len() > count {
        entries.skip(entries.len() - count)
    } else {
        entries
    }
}

/// The history that merging `loaded` with `current` gives: both together,
/// ordered by timestamp, without repeated entries, and cut to the newest
/// `MAX_HISTORY` entries.
pub open spec fn merged_history<T: HistoryEntry>(loaded: Seq<T>, current: Seq<T>) -> Seq<T> {
    newest(drop_repeats(sort_by_timestamp(loaded + current)), MAX_HISTORY as nat)
}

/// Whether the timestamps of `entries` never decrease.
pub open spec fn sorted_by_timestamp<T: HistoryEntry>(entries: Seq<T>) -> bool {
    forall|i: int, j: int|
        0 <= i <= j < entries.len() ==> #[trigger] entries[i].stamp() <= #[trigger] entries[j].stamp()
}

/// Whether no entry of `entries` repeats the one just before it.
pub open spec fn free_of_repeats<T: HistoryEntry>(entries: Seq<T>) -> bool {
    forall|i: int| 0 < i < entries.len() ==> !(#[trigger] entries[i]).repeats(&entries[i - 1])
}

/// The entries of `entries` with timestamp `t`, in their order.
pub open spec fn with_timestamp<T: HistoryEntry>(entries: Seq<T>, t: u64) -> Seq<T>
    decreases entries.len(),
{
    if entries.len() == 0 {
        entries
    } else if entries.last().stamp() == t {
        with_timestamp(entries.drop_last(), t).push(entries.last())
    } else {
        with_timestamp(entries.drop_last(), t)
    }
}

/// Where `insert_by_timestamp` places an entry with timestamp `t`.
spec fn insert_position<T: HistoryEntry>(sorted: Seq<T>, t: u64) -> int
    decreases sorted.len(),
{
    if sorted.len() == 0 {
        0
    } else if sorted.last().stamp() <= t {
        sorted.len() as int
    } else {
        insert_position(sorted.drop_last(), t)
    }
}

proof fn lemma_insert_position<T: HistoryEntry>(sorted: Seq<T>, entry: T)
    ensures
        0 <= insert_position(sorted, entry.stamp()) <= sorted.len(),
        insert_by_timestamp(sorted, entry) == sorted.insert(
            insert_position(sorted, entry.stamp()),
            entry,
        ),
    decreases sorted.len(),
{
    if sorted.len() == 0 {
        assert(sorted.insert(0, entry) =~= seq![entry]);
    } else if sorted.last().stamp() <= entry.stamp() {
        assert(sorted.insert(sorted.len() as int, entry) =~= sorted.push(entry));
    } else {
        let rest = sorted.drop_last();
        lemma_insert_position(rest, entry);
        let p = insert_position(rest, entry.stamp());
        assert(rest.insert(p, entry).push(sorted.last()) =~= sorted.insert(p, entry));
    }
}

proof fn lemma_insert_all_append<T: HistoryEntry>(acc: Seq<T>, first: Seq<T>, second: Seq<T>)
    ensures
        insert_all_by_timestamp(acc, first + second) == insert_all_by_timestamp(
            insert_all_by_timestamp(acc, first),
            second,
        ),
    decreases second.len(),
{
    if second.len() == 0 {
        assert(first + second =~= first);
    } else {
        assert((first + second).drop_last() =~= first + second.drop_last());
        lemma_insert_all_append(acc, first, second.drop_last());
    }
}

/// Places `entry` in `sorted` after every entry not later than it, counted
/// from the end.
fn insert_entry<T: HistoryEntry>(sorted: &mut VecDeque<T>, entry: T)
    ensures
        final(sorted)@ == insert_by_timestamp(old(sorted)@, entry),
{
    let t = entry.timestamp_of();
    let mut p = sorted.len();
    let ghost s = sorted@;
    assert(s.take(p as int) =~= s);
    loop
        invariant
            s == sorted@,
            p <= s.len(),
            insert_position(s, t) == insert_position(s.take(p as int), t),
        ensures
            s == sorted@,
            p <= s.len(),
            insert_position(s, t) == insert_position(s.take(p as int), t),
            p == 0 || s[p - 1].stamp() <= t,
        decreases p,
    {
        if p == 0 {
            break;
        }
        if sorted[p - 1].timestamp_of() <= t {
            break;
        }
        assert(s.take(p as int).drop_last() =~= s.take(p - 1));
        p -= 1;
    }
    proof {
        lemma_insert_position(s, entry);
        if p > 0 {
            assert(s.take(p as int).last() == s[p - 1]);
        } else {
            assert(s.take(0).len() == 0);
        }
        assert(insert_position(s, t) == p);
    }
    sorted.insert(p, entry);
}

/// Inserts every entry of `entries`, front to back, into `sorted`.
fn insert_entries<T: HistoryEntry>(sorted: &mut VecDeque<T>, entries: VecDeque<T>)
    ensures
        final(sorted)@ == insert_all_by_timestamp(old(sorted)@, entries@),
{
    let ghost start = sorted@;
    let ghost all = entries@;
    let mut rest = entries;
    let mut taken: usize = 0;
    let total = rest.len();
    while rest.len() > 0
        invariant
            all.len() == total,
            taken <= all.len(),
            rest@ == all.skip(taken as int),
            sorted@ == insert_all_by_timestamp(start, all.take(taken as int)),
        decreases rest@.len(),
    {
        let entry = rest.pop_front().unwrap();
        proof {
            assert(all.take(taken + 1).drop_last() =~= all.take(taken as int));
            assert(all.skip(taken as int)[0] == all[taken as int]);
            assert(all.skip(taken + 1) =~= all.skip(taken as int).subrange(1, all.skip(taken as int).len() as int));
        }
        insert_entry(sorted, entry);
        taken += 1;
    }
    assert(all.take(all.len() as int) =~= all);
}

/// Drops every entry that repeats the entry kept before it.
fn drop_repeated_entries<T: HistoryEntry>(entries: VecDeque<T>) -> (kept: VecDeque<T>)
    ensures
        kept@ == drop_repeats(entries@),
{
    let ghost all = entries@;
    let mut rest = entries;
    let mut kept: VecDeque<T> = VecDeque::new();
    let mut taken: usize = 0;
    let total = rest.len();
    while rest.len() > 0
        invariant
            all.len() == total,
            taken <= all.len(),
            rest@ == all.skip(taken as int),
            kept@ == drop_repeats(all.take(taken as int)),
        decreases rest@.len(),
    {
        let entry = rest.pop_front().unwrap();
        proof {
            assert(all.take(taken + 1).drop_last() =~= all.take(taken as int));
            assert(all.skip(taken as int)[0] == all[taken as int]);
            assert(all.skip(taken + 1) =~= all.skip(taken as int).subrange(1, all.skip(taken as int).len() as int));
        }
        let n = kept.len();
        if n > 0 && entry.is_repeat_of(&kept[n - 1]) {
        } else {
            kept.push_back(entry);
        }
        taken += 1;
    }
    assert(all.take(all.len() as int) =~= all);
    kept
}

/// Merges a loaded history with the current one: both together, ordered by
/// timestamp (entries of equal timestamps in their order, the loaded ones
/// first), without the entries that repeat the entry kept before them, and
/// cut to the newest `MAX_HISTORY` entries.
pub fn merge_history<T: HistoryEntry>(loaded: VecDeque<T>, current: VecDeque<T>) -> (merged:
    VecDeque<T>)
    ensures
        merged@ == merged_history(loaded@, current@),
{
    let ghost loaded_entries = loaded@;
    let ghost current_entries = current@;
    let mut sorted: VecDeque<T> = VecDeque::new();
    insert_entries(&mut sorted, loaded);
    insert_entries(&mut sorted, current);
    proof {
        lemma_insert_all_append(Seq::empty(), loaded_entries, current_entries);
    }
    let mut merged = drop_repeated_entries(sorted);
    let ghost full = merged@;
    let mut dropped: usize = 0;
    let total = merged.len();
    while merged.len() > MAX_HISTORY
        invariant
            full.len() == total,
            dropped <= full.len(),
            dropped == 0 || full.len() - dropped >= MAX_HISTORY,
            merged@ == full.skip(dropped as int),
        decreases merged@.len(),
    {
        merged.pop_front();
        assert(full.skip(dropped + 1) =~= full.skip(dropped as int).subrange(1, full.skip(dropped as int).len() as int));
        dropped += 1;
    }
    proof {
        if full.len() > MAX_HISTORY {
            assert(dropped == full.len() - MAX_HISTORY);
        } else {
            assert(full.skip(0) =~= full);
        }
    }
    merged
}


proof fn lemma_insert_position_bounds<T: HistoryEntry>(sorted: Seq<T>, t: u64)
    requires
        sorted_by_timestamp(sorted),
    ensures
        0 <= insert_position(sorted, t) <= sorted.len(),
        forall|i: int| 0 <= i < insert_position(sorted, t) ==> #[trigger] sorted[i].stamp() <= t,
        forall|i: int|
            insert_position(sorted, t) <= i < sorted.len() ==> #[trigger] sorted[i].stamp() > t,
    decreases sorted.len(),
{
    if sorted.len() > 0 {
        let rest = sorted.drop_last();
        assert(sorted_by_timestamp(rest)) by {
            assert forall|i: int, j: int|
                0 <= i <= j < rest.len() implies #[trigger] rest[i].stamp() <= #[trigger] rest[j].stamp() by {
                assert(rest[i] == sorted[i] && rest[j] == sorted[j]);
            }
        }
        lemma_insert_position_bounds(rest, t);
        if sorted.last().stamp() <= t {
            assert forall|i: int| 0 <= i < insert_position(sorted, t) implies #[trigger] sorted[i].stamp() <= t by {
                assert(sorted[i].stamp() <= sorted[sorted.len() - 1].stamp());
            }
        } else {
            assert forall|i: int| 0 <= i < insert_position(sorted, t) implies #[trigger] sorted[i].stamp() <= t by {
                assert(rest[i] == sorted[i]);
            }
            assert forall|i: int| insert_position(sorted, t) <= i < sorted.len() implies #[trigger] sorted[i].stamp() > t by {
                if i < sorted.len() - 1 {
                    assert(rest[i] == sorted[i]);
                }
            }
        }
    }
}

proof fn lemma_insert_keeps_sorted<T: HistoryEntry>(sorted: Seq<T>, entry: T)
    requires
        sorted_by_timestamp(sorted),
    ensures
        sorted_by_timestamp(insert_by_timestamp(sorted, entry)),
{
    let t = entry.stamp();
    lemma_insert_position(sorted, entry);
    lemma_insert_position_bounds(sorted, t);
    let p = insert_position(sorted, t);
    let r = sorted.insert(p, entry);
    sorted.insert_ensures(p, entry);
    assert forall|i: int, j: int| 0 <= i <= j < r.len() implies #[trigger] r[i].stamp() <= #[trigger] r[j].stamp() by {
        if i < p {
            if j < p {
                assert(r[i] == sorted[i] && r[j] == sorted[j]);
            } else if j == p {
                assert(r[i] == sorted[i]);
            } else {
                assert(r[i] == sorted[i] && r[j] == sorted[j - 1]);
            }
        } else if i == p {
            if j > p {
                assert(r[j] == sorted[j - 1]);
            }
        } else {
            assert(r[i] == sorted[i - 1] && r[j] == sorted[j - 1]);
        }
    }
}

proof fn lemma_insert_permutes<T: HistoryEntry>(sorted: Seq<T>, entry: T)
    ensures
        insert_by_timestamp(sorted, entry).to_multiset() =~= sorted.to_multiset().insert(entry),
    decreases sorted.len(),
{
    broadcast use vstd::seq_lib::to_multiset_build, vstd::multiset::group_multiset_axioms;

    if sorted.len() == 0 {
        assert(seq![entry] =~= sorted.push(entry));
    } else if sorted.last().stamp() <= entry.stamp() {
    } else {
        let rest = sorted.drop_last();
        lemma_insert_permutes(rest, entry);
        assert(rest.push(sorted.last()) =~= sorted);
    }
}

proof fn lemma_insert_with_timestamp<T: HistoryEntry>(sorted: Seq<T>, entry: T, t: u64)
    ensures
        with_timestamp(insert_by_timestamp(sorted, entry), t) =~= with_timestamp(sorted, t) + if entry.stamp() == t {
            seq![entry]
        } else {
            Seq::empty()
        },
    decreases sorted.len(),
{
    if sorted.len() == 0 {
        assert(seq![entry].drop_last() =~= sorted);
    } else if sorted.last().stamp() <= entry.stamp() {
        assert(sorted.push(entry).drop_last() =~= sorted);
    } else {
        let rest = sorted.drop_last();
        lemma_insert_with_timestamp(rest, entry, t);
        let inserted = insert_by_timestamp(rest, entry);
        assert(inserted.push(sorted.last()).drop_last() =~= inserted);
    }
}

/// Ordering by timestamp gives a sequence whose timestamps never decrease.
pub proof fn lemma_sort_is_sorted<T: HistoryEntry>(entries: Seq<T>)
    ensures
        sorted_by_timestamp(sort_by_timestamp(entries)),
    decreases entries.len(),
{
    if entries.len() > 0 {
        lemma_sort_is_sorted(entries.drop_last());
        lemma_insert_keeps_sorted(sort_by_timestamp(entries.drop_last()), entries.last());
    }
}

/// Ordering by timestamp neither adds nor loses entries: the result holds
/// each entry as many times as the input.
pub proof fn lemma_sort_is_permutation<T: HistoryEntry>(entries: Seq<T>)
    ensures
        sort_by_timestamp(entries).to_multiset() =~= entries.to_multiset(),
    decreases entries.len(),
{
    broadcast use vstd::seq_lib::to_multiset_build;

    if entries.len() == 0 {
        assert(sort_by_timestamp(entries) =~= entries);
    } else {
        lemma_sort_is_permutation(entries.drop_last());
        lemma_insert_permutes(sort_by_timestamp(entries.drop_last()), entries.last());
        assert(entries.drop_last().push(entries.last()) =~= entries);
    }
}

/// Ordering by timestamp is stable: the entries of any one timestamp come out
/// in the order in which they came in.
pub proof fn lemma_sort_is_stable<T: HistoryEntry>(entries: Seq<T>, t: u64)
    ensures
        with_timestamp(sort_by_timestamp(entries), t) == with_timestamp(entries, t),
    decreases entries.len(),
{
    if entries.len() > 0 {
        lemma_sort_is_stable(entries.drop_last(), t);
        lemma_insert_with_timestamp(sort_by_timestamp(entries.drop_last()), entries.last(), t);
    } else {
        assert(sort_by_timestamp(entries) =~= entries);
    }
}

proof fn lemma_sort_of_sorted<T: HistoryEntry>(entries: Seq<T>)
    requires
        sorted_by_timestamp(entries),
    ensures
        sort_by_timestamp(entries) == entries,
    decreases entries.len(),
{
    if entries.len() == 0 {
        assert(sort_by_timestamp(entries) =~= entries);
    } else {
        let rest = entries.drop_last();
        assert(sorted_by_timestamp(rest)) by {
            assert forall|i: int, j: int|
                0 <= i <= j < rest.len() implies #[trigger] rest[i].stamp() <= #[trigger] rest[j].stamp() by {
                assert(rest[i] == entries[i] && rest[j] == entries[j]);
            }
        }
        lemma_sort_of_sorted(rest);
        if rest.len() > 0 {
            assert(rest.last() == entries[entries.len() - 2]);
            assert(entries[entries.len() - 2].stamp() <= entries[entries.len() - 1].stamp());
        }
        assert(rest.push(entries.last()) =~= entries);
    }
}

/// No entry of the result repeats the entry just before it.
pub proof fn lemma_drop_repeats_is_free_of_repeats<T: HistoryEntry>(entries: Seq<T>)
    ensures
        free_of_repeats(drop_repeats(entries)),
    decreases entries.len(),
{
    if entries.len() > 0 {
        let kept = drop_repeats(entries.drop_last());
        lemma_drop_repeats_is_free_of_repeats(entries.drop_last());
        let result = drop_repeats(entries);
        assert forall|i: int| 0 < i < result.len() implies !(#[trigger] result[i]).repeats(&result[i - 1]) by {
            if i < kept.len() {
                assert(result[i] == kept[i] && result[i - 1] == kept[i - 1]);
            }
        }
    }
}

proof fn lemma_drop_repeats_keeps_order<T: HistoryEntry>(entries: Seq<T>)
    requires
        sorted_by_timestamp(entries),
    ensures
        sorted_by_timestamp(drop_repeats(entries)),
        drop_repeats(entries).len() > 0 ==> entries.len() > 0 && drop_repeats(entries).last().stamp()
            <= entries.last().stamp(),
        forall|x: T| drop_repeats(entries).contains(x) ==> entries.contains(x),
    decreases entries.len(),
{
    if entries.len() > 0 {
        let rest = entries.drop_last();
        assert(sorted_by_timestamp(rest)) by {
            assert forall|i: int, j: int|
                0 <= i <= j < rest.len() implies #[trigger] rest[i].stamp() <= #[trigger] rest[j].stamp() by {
                assert(rest[i] == entries[i] && rest[j] == entries[j]);
            }
        }
        lemma_drop_repeats_keeps_order(rest);
        let kept = drop_repeats(rest);
        let result = drop_repeats(entries);
        if kept.len() > 0 {
            assert(rest.last() == entries[entries.len() - 2]);
            assert(entries[entries.len() - 2].stamp() <= entries[entries.len() - 1].stamp());
        }
        assert forall|i: int, j: int| 0 <= i <= j < result.len() implies #[trigger] result[i].stamp() <= #[trigger] result[j].stamp() by {
            if j < kept.len() {
                assert(result[i] == kept[i] && result[j] == kept[j]);
            } else if i < kept.len() {
                assert(result[i] == kept[i]);
                assert(kept[i].stamp() <= kept[kept.len() - 1].stamp());
            }
        }
        assert forall|x: T| result.contains(x) implies entries.contains(x) by {
            let k = choose|k: int| 0 <= k < result.len() && result[k] == x;
            if k < kept.len() {
                assert(kept[k] == x);
                assert(kept.contains(x));
                assert(rest.contains(x));
                let m = choose|m: int| 0 <= m < rest.len() && rest[m] == x;
                assert(rest[m] == entries[m]);
                assert(entries[m] == x);
            } else {
                assert(result =~= kept.push(entries.last()));
                assert(entries[entries.len() - 1] == x);
            }
        }
    }
}

proof fn lemma_drop_repeats_of_free<T: HistoryEntry>(entries: Seq<T>)
    requires
        free_of_repeats(entries),
    ensures
        drop_repeats(entries) == entries,
    decreases entries.len(),
{
    if entries.len() > 0 {
        let rest = entries.drop_last();
        assert(free_of_repeats(rest)) by {
            assert forall|i: int| 0 < i < rest.len() implies !(#[trigger] rest[i]).repeats(&rest[i - 1]) by {
                assert(rest[i] == entries[i] && rest[i - 1] == entries[i - 1]);
            }
        }
        lemma_drop_repeats_of_free(rest);
        if rest.len() > 0 {
            assert(!entries[entries.len() - 1].repeats(&entries[entries.len() - 2]));
            assert(rest.last() == entries[entries.len() - 2]);
        }
        assert(rest.push(entries.last()) =~= entries);
    } else {
        assert(drop_repeats(entries) =~= entries);
    }
}

/// A merged history holds at most `MAX_HISTORY` entries, its timestamps never
/// decrease, no entry repeats the one before it, and every entry comes from
/// one of the two histories merged.
pub proof fn lemma_merged_history_is_ordered<T: HistoryEntry>(loaded: Seq<T>, current: Seq<T>)
    ensures
        merged_history(loaded, current).len() <= MAX_HISTORY,
        sorted_by_timestamp(merged_history(loaded, current)),
        free_of_repeats(merged_history(loaded, current)),
        forall|x: T|
            merged_history(loaded, current).contains(x) ==> loaded.contains(x) || current.contains(x),
{
    broadcast use vstd::seq_lib::group_to_multiset_ensures;

    let all = loaded + current;
    let sorted = sort_by_timestamp(all);
    let kept = drop_repeats(sorted);
    let merged = merged_history(loaded, current);
    lemma_sort_is_sorted(all);
    lemma_sort_is_permutation(all);
    lemma_drop_repeats_keeps_order(sorted);
    lemma_drop_repeats_is_free_of_repeats(sorted);
    let start = if kept.len() > MAX_HISTORY { kept.len() - MAX_HISTORY } else { 0 };
    assert(merged =~= kept.skip(start));
    assert forall|i: int, j: int| 0 <= i <= j < merged.len() implies #[trigger] merged[i].stamp() <= #[trigger] merged[j].stamp() by {
        assert(merged[i] == kept[i + start] && merged[j] == kept[j + start]);
    }
    assert forall|i: int| 0 < i < merged.len() implies !(#[trigger] merged[i]).repeats(&merged[i - 1]) by {
        assert(merged[i] == kept[i + start] && merged[i - 1] == kept[i - 1 + start]);
    }
    assert forall|x: T| merged.contains(x) implies loaded.contains(x) || current.contains(x) by {
        let k = choose|k: int| 0 <= k < merged.len() && merged[k] == x;
        assert(kept[k + start] == x);
        assert(kept.contains(x));
        assert(sorted.contains(x));
        assert(sorted.to_multiset().count(x) > 0);
        assert(all.contains(x));
        let m = choose|m: int| 0 <= m < all.len() && all[m] == x;
        if m < loaded.len() {
            assert(loaded[m] == x);
        } else {
            assert(current[m - loaded.len()] == x);
        }
    }
}

/// Merging a history into an empty one gives it back unchanged, when its
/// timestamps never decrease, no entry repeats the one before it and it is
/// not longer than `MAX_HISTORY`: a history saved and loaded again is the
/// history that was saved.
pub proof fn lemma_merge_into_empty_history<T: HistoryEntry>(loaded: Seq<T>)
    requires
        sorted_by_timestamp(loaded),
        free_of_repeats(loaded),
        loaded.len() <= MAX_HISTORY,
    ensures
        merged_history(loaded, Seq::empty()) == loaded,
{
    assert(loaded + Seq::<T>::empty() =~= loaded);
    lemma_sort_of_sorted(loaded);
    lemma_drop_repeats_of_free(loaded);
}


/// Whether an entry stamped `t` lies outside the time range
/// `[start_time, end_time)`.
pub open spec fn outside_range(t: u64, start_time: u64, end_time: u64) -> bool {
    t < start_time || t >= end_time
}

/// The entries of `entries` stamped outside `[start_time, end_time)`, in
/// their order.
pub open spec fn entries_outside<T: HistoryEntry>(entries: Seq<T>, start_time: u64, end_time: u64) -> Seq<T>
    decreases entries.len(),
{
    if entries.len() == 0 {
        entries
    } else if outside_range(entries.last().stamp(), start_time, end_time) {
        entries_outside(entries.drop_last(), start_time, end_time).push(entries.last())
    } else {
        entries_outside(entries.drop_last(), start_time, end_time)
    }
}

/// Keeps the entries stamped outside `[start_time, end_time)`.
pub fn retain_outside<T: HistoryEntry>(entries: VecDeque<T>, start_time: u64, end_time: u64) -> (kept: VecDeque<T>)
    ensures
        kept@ == entries_outside(entries@, start_time, end_time),
{
    let ghost all = entries@;
    let mut rest = entries;
    let mut kept: VecDeque<T> = VecDeque::new();
    let mut taken: usize = 0;
    let total = rest.len();
    while rest.len() > 0
        invariant
            all.len() == total,
            taken <= all.len(),
            rest@ == all.skip(taken as int),
            kept@ == entries_outside(all.take(taken as int), start_time, end_time),
        decreases rest@.len(),
    {
        let entry = rest.pop_front().unwrap();
        proof {
            assert(all.take(taken + 1).drop_last() =~= all.take(taken as int));
            assert(all.skip(taken as int)[0] == all[taken as int]);
            assert(all.skip(taken + 1) =~= all.skip(taken as int).subrange(1, all.skip(taken as int).len() as int));
        }
        let t = entry.timestamp_of();
        if t < start_time || t >= end_time {
            kept.push_back(entry);
        }
        taken += 1;
    }
    assert(all.take(all.len() as int) =~= all);
    kept
}

/// Removing a time range keeps exactly the entries stamped outside it: an
/// entry is in the result if and only if it is in the input and its
/// timestamp lies outside the range.
pub proof fn lemma_entries_outside<T: HistoryEntry>(entries: Seq<T>, start_time: u64, end_time: u64)
    ensures
        forall|x: T|
            entries_outside(entries, start_time, end_time).contains(x) <==> entries.contains(x)
                && outside_range(x.stamp(), start_time, end_time),
        entries_outside(entries, start_time, end_time).len() <= entries.len(),
    decreases entries.len(),
{
    if entries.len() > 0 {
        let rest = entries.drop_last();
        lemma_entries_outside(rest, start_time, end_time);
        let kept = entries_outside(rest, start_time, end_time);
        let result = entries_outside(entries, start_time, end_time);
        assert forall|x: T| result.contains(x) <==> entries.contains(x) && outside_range(x.stamp(), start_time, end_time) by {
            if result.contains(x) {
                let k = choose|k: int| 0 <= k < result.len() && result[k] == x;
                if k < kept.len() {
                    assert(kept[k] == x);
                    assert(kept.contains(x));
                    assert(rest.contains(x));
                    let m = choose|m: int| 0 <= m < rest.len() && rest[m] == x;
                    assert(entries[m] == rest[m]);
                } else {
                    assert(result =~= kept.push(entries.last()));
                    assert(entries[entries.len() - 1] == x);
                }
            }
            if entries.contains(x) && outside_range(x.stamp(), start_time, end_time) {
                let m = choose|m: int| 0 <= m < entries.len() && entries[m] == x;
                if m < rest.len() {
                    assert(rest[m] == x);
                    assert(rest.contains(x));
                    let k = choose|k: int| 0 <= k < kept.len() && kept[k] == x;
                    assert(result[k] == x);
                } else {
                    assert(result[result.len() - 1] == x);
                }
            }
        }
    }
}

/// In a merged history of route calls no call has the timestamp, the path
/// and the method of the call just before it.
pub proof fn lemma_merged_calls_never_repeat(loaded: Seq<RouteCall>, current: Seq<RouteCall>)
    ensures
        forall|i: int|
            0 < i < merged_history(loaded, current).len() ==> !(#[trigger] merged_history(
                loaded,
                current,
            )[i].timestamp == merged_history(loaded, current)[i - 1].timestamp
                && merged_history(loaded, current)[i].path@ == merged_history(loaded, current)[i
                - 1].path@ && merged_history(loaded, current)[i].method@ == merged_history(
                loaded,
                current,
            )[i - 1].method@),
{
    lemma_merged_history_is_ordered(loaded, current);
    let m = merged_history(loaded, current);
    assert forall|i: int| 0 < i < m.len() implies !({
        &&& (#[trigger] m[i]).timestamp == m[i - 1].timestamp
        &&& m[i].path@ == m[i - 1].path@
        &&& m[i].method@ == m[i - 1].method@
    }) by {
        assert(!m[i].repeats(&m[i - 1]));
    }
}

proof fn lemma_strictly_increasing<T: HistoryEntry>(entries: Seq<T>)
    requires
        sorted_by_timestamp(entries),
        forall|i: int| 0 < i < entries.len() ==> (#[trigger] entries[i]).stamp() != entries[i - 1].stamp(),
    ensures
        forall|i: int, j: int|
            0 <= i < j < entries.len() ==> #[trigger] entries[i].stamp() < #[trigger] entries[j].stamp(),
{
    assert forall|i: int, j: int| 0 <= i < j < entries.len() implies #[trigger] entries[i].stamp()
        < #[trigger] entries[j].stamp() by {
        assert(entries[j].stamp() != entries[j - 1].stamp());
        assert(entries[j - 1].stamp() <= entries[j].stamp());
        assert(entries[i].stamp() <= entries[j - 1].stamp());
    }
}

/// A merged history of system snapshots holds at most one snapshot per
/// second: its timestamps strictly increase.
pub proof fn lemma_merged_snapshots_one_per_second(loaded: Seq<SystemSnapshot>, current: Seq<SystemSnapshot>)
    ensures
        forall|i: int, j: int|
            0 <= i < j < merged_history(loaded, current).len() ==> #[trigger] merged_history(
                loaded,
                current,
            )[i].timestamp < #[trigger] merged_history(loaded, current)[j].timestamp,
{
    lemma_merged_history_is_ordered(loaded, current);
    let m = merged_history(loaded, current);
    assert forall|i: int| 0 < i < m.len() implies (#[trigger] m[i]).stamp() != m[i - 1].stamp() by {
        assert(!m[i].repeats(&m[i - 1]));
    }
    lemma_strictly_increasing(m);
    assert forall|i: int, j: int| 0 <= i < j < m.len() implies #[trigger] m[i].timestamp
        < #[trigger] m[j].timestamp by {
        assert(m[i].stamp() < m[j].stamp());
    }
}

/// A merged history of memory events holds at most one event per second:
/// its timestamps strictly increase.
pub proof fn lemma_merged_events_one_per_second(loaded: Seq<MemoryAllocation>, current: Seq<MemoryAllocation>)
    ensures
        forall|i: int, j: int|
            0 <= i < j < merged_history(loaded, current).len() ==> #[trigger] merged_history(
                loaded,
                current,
            )[i].timestamp < #[trigger] merged_history(loaded, current)[j].timestamp,
{
    lemma_merged_history_is_ordered(loaded, current);
    let m = merged_history(loaded, current);
    assert forall|i: int| 0 < i < m.len() implies (#[trigger] m[i]).stamp() != m[i - 1].stamp() by {
        assert(!m[i].repeats(&m[i - 1]));
    }
    lemma_strictly_increasing(m);
    assert forall|i: int, j: int| 0 <= i < j < m.len() implies #[trigger] m[i].timestamp
        < #[trigger] m[j].timestamp by {
        assert(m[i].stamp() < m[j].stamp());
    }
}

/// Whether entries repeat each other exactly when they share a timestamp.
pub open spec fn repeats_by_timestamp<T: HistoryEntry>() -> bool {
    forall|x: T, y: T| #[trigger] x.repeats(&y) <==> x.stamp() == y.stamp()
}

proof fn lemma_with_timestamp_absent<T: HistoryEntry>(entries: Seq<T>, t: u64)
    requires
        forall|i: int| 0 <= i < entries.len() ==> (#[trigger] entries[i]).stamp() != t,
    ensures
        with_timestamp(entries, t).len() == 0,
    decreases entries.len(),
{
    if entries.len() > 0 {
        let rest = entries.drop_last();
        assert forall|i: int| 0 <= i < rest.len() implies (#[trigger] rest[i]).stamp() != t by {
            assert(rest[i] == entries[i]);
        }
        lemma_with_timestamp_absent(rest, t);
        assert(entries[entries.len() - 1].stamp() != t);
    }
}

proof fn lemma_drop_repeats_keeps_first<T: HistoryEntry>(entries: Seq<T>)
    requires
        sorted_by_timestamp(entries),
        repeats_by_timestamp::<T>(),
    ensures
        entries.len() > 0 ==> drop_repeats(entries).len() > 0 && drop_repeats(entries).last().stamp()
            == entries.last().stamp(),
        forall|k: int|
            0 <= k < drop_repeats(entries).len() ==> with_timestamp(
                entries,
                (#[trigger] drop_repeats(entries)[k]).stamp(),
            ).len() > 0 && drop_repeats(entries)[k] == with_timestamp(
                entries,
                drop_repeats(entries)[k].stamp(),
            )[0],
    decreases entries.len(),
{
    if entries.len() > 0 {
        let rest = entries.drop_last();
        let last = entries.last();
        let t = last.stamp();
        assert(sorted_by_timestamp(rest)) by {
            assert forall|i: int, j: int|
                0 <= i <= j < rest.len() implies #[trigger] rest[i].stamp() <= #[trigger] rest[j].stamp() by {
                assert(rest[i] == entries[i] && rest[j] == entries[j]);
            }
        }
        lemma_drop_repeats_keeps_first(rest);
        lemma_drop_repeats_keeps_order(rest);
        let kept = drop_repeats(rest);
        let result = drop_repeats(entries);
        if kept.len() > 0 && last.repeats(&kept.last()) {
            assert(result == kept);
            assert(kept.last().stamp() == t);
            assert(rest.last() == entries[entries.len() - 2]);
            assert forall|k: int| 0 <= k < result.len() implies with_timestamp(
                entries,
                (#[trigger] result[k]).stamp(),
            ).len() > 0 && result[k] == with_timestamp(entries, result[k].stamp())[0] by {
                let u = result[k].stamp();
                assert(kept[k] == result[k]);
                assert(with_timestamp(rest, u).len() > 0);
                assert(rest.push(last) =~= entries);
                assert(entries.drop_last() == rest);
            }
        } else {
            assert(result == kept.push(last));
            if kept.len() > 0 {
                assert(rest.last() == entries[entries.len() - 2]);
                assert(kept.last().stamp() != t);
                assert(rest.last().stamp() <= t);
                assert forall|i: int| 0 <= i < rest.len() implies (#[trigger] rest[i]).stamp() != t by {
                    assert(rest[i] == entries[i]);
                    assert(entries[i].stamp() <= entries[entries.len() - 2].stamp());
                }
                lemma_with_timestamp_absent(rest, t);
            } else {
                assert(rest.len() == 0);
                lemma_with_timestamp_absent(rest, t);
            }
            assert(with_timestamp(entries, t) =~= with_timestamp(rest, t).push(last));
            assert forall|k: int| 0 <= k < result.len() implies with_timestamp(
                entries,
                (#[trigger] result[k]).stamp(),
            ).len() > 0 && result[k] == with_timestamp(entries, result[k].stamp())[0] by {
                if k < kept.len() {
                    let u = result[k].stamp();
                    assert(kept[k] == result[k]);
                    assert(kept[k].stamp() <= kept[kept.len() - 1].stamp());
                    assert(u != t);
                    assert(with_timestamp(entries, u) == with_timestamp(rest, u));
                } else {
                    assert(result[k] == last);
                }
            }
        }
    }
}

proof fn lemma_merged_keeps_first<T: HistoryEntry>(loaded: Seq<T>, current: Seq<T>)
    requires
        repeats_by_timestamp::<T>(),
    ensures
        forall|k: int|
            0 <= k < merged_history(loaded, current).len() ==> with_timestamp(
                loaded + current,
                (#[trigger] merged_history(loaded, current)[k]).stamp(),
            ).len() > 0 && merged_history(loaded, current)[k] == with_timestamp(
                loaded + current,
                merged_history(loaded, current)[k].stamp(),
            )[0],
{
    let all = loaded + current;
    let sorted = sort_by_timestamp(all);
    let kept = drop_repeats(sorted);
    let m = merged_history(loaded, current);
    lemma_sort_is_sorted(all);
    lemma_drop_repeats_keeps_first(sorted);
    let start = if kept.len() > MAX_HISTORY { kept.len() - MAX_HISTORY } else { 0 };
    assert(m =~= kept.skip(start));
    assert forall|k: int| 0 <= k < m.len() implies with_timestamp(all, (#[trigger] m[k]).stamp()).len()
        > 0 && m[k] == with_timestamp(all, m[k].stamp())[0] by {
        assert(m[k] == kept[k + start]);
        lemma_sort_is_stable(all, m[k].stamp());
    }
}

/// Of the snapshots of one second, a merge keeps the first that the loaded
/// and then the current history hold: every snapshot of a merged history is
/// the first snapshot of its second in the loaded history followed by the
/// current one.
pub proof fn lemma_merged_snapshots_keep_first(loaded: Seq<SystemSnapshot>, current: Seq<SystemSnapshot>)
    ensures
        forall|k: int|
            0 <= k < merged_history(loaded, current).len() ==> with_timestamp(
                loaded + current,
                (#[trigger] merged_history(loaded, current)[k]).timestamp,
            ).len() > 0 && merged_history(loaded, current)[k] == with_timestamp(
                loaded + current,
                merged_history(loaded, current)[k].timestamp,
            )[0],
{
    lemma_merged_keeps_first(loaded, current);
    let m = merged_history(loaded, current);
    assert forall|k: int| 0 <= k < m.len() implies with_timestamp(loaded + current, (#[trigger] m[k]).timestamp).len()
        > 0 && m[k] == with_timestamp(loaded + current, m[k].timestamp)[0] by {
        assert(m[k].stamp() == m[k].timestamp);
    }
}

/// Of the memory events of one second, a merge keeps the first that the
/// loaded and then the current history hold.
pub proof fn lemma_merged_events_keep_first(loaded: Seq<MemoryAllocation>, current: Seq<MemoryAllocation>)
    ensures
        forall|k: int|
            0 <= k < merged_history(loaded, current).len() ==> with_timestamp(
                loaded + current,
                (#[trigger] merged_history(loaded, current)[k]).timestamp,
            ).len() > 0 && merged_history(loaded, current)[k] == with_timestamp(
                loaded + current,
                merged_history(loaded, current)[k].timestamp,
            )[0],
{
    lemma_merged_keeps_first(loaded, current);
    let m = merged_history(loaded, current);
    assert forall|k: int| 0 <= k < m.len() implies with_timestamp(loaded + current, (#[trigger] m[k]).timestamp).len()
        > 0 && m[k] == with_timestamp(loaded + current, m[k].timestamp)[0] by {
        assert(m[k].stamp() == m[k].timestamp);
    }
}

} // verus!

use std::collections::VecDeque;
use vstd::prelude::*;

use crate::memory_stats::{categories_unique, empty_memory_stats, MemoryStats};
use crate::history::newest;
use crate::models::{MemoryAllocation, RouteCall, SystemSnapshot};
use crate::route_stats::{RouteStats, RouteStatsView};
use crate::tracking_allocator::TrackingAllocator;

verus! {

broadcast use vstd::std_specs::vecdeque::group_vec_dequeue_axioms;

/// Largest number of entries a history keeps.
pub const MAX_HISTORY: usize = 1000;

/// The history after one more entry: when it already holds `MAX_HISTORY`
/// entries or more, its oldest entry leaves first.
pub open spec fn history_pushed<T>(history: Seq<T>, item: T) -> Seq<T> {
    if history.len() >= MAX_HISTORY {
        history.drop_first().push(item)
    } else {
        history.push(item)
    }
}

/// The newest `count` entries of `history`, newest first.
pub open spec fn recent<T>(history: Seq<T>, count: nat) -> Seq<T> {
    let n = if history.len() < count {
        history.len()
    } else {
        count
    };
    Seq::new(n, |i: int| history[history.len() - 1 - i])
}

/// Appends `item` to a history, dropping the oldest entry when the history
/// is full.
pub fn add_to_deque<T>(deque: &mut VecDeque<T>, item: T)
    ensures
        final(deque)@ == history_pushed(old(deque)@, item),
{
    if deque.len() >= MAX_HISTORY {
        deque.pop_front();
    }
    deque.push_back(item);
}

/// Copies of the newest `count` entries of a history, newest first.
pub fn get_recent_from_deque<T: Clone>(deque: &VecDeque<T>, count: usize) -> (items: Vec<T>)
    ensures
        items@.len() == recent(deque@, count as nat).len(),
        forall|i: int|
            0 <= i < items@.len() ==> cloned::<T>(recent(deque@, count as nat)[i], #[trigger] items@[i]),
{
    let mut items: Vec<T> = Vec::new();
    let length = deque.len();
    let ghost wanted = recent(deque@, count as nat);
    while items.len() < count && items.len() < length
        invariant
            length == deque@.len(),
            items@.len() <= wanted.len(),
            wanted == recent(deque@, count as nat),
            forall|i: int| 0 <= i < items@.len() ==> cloned::<T>(wanted[i], #[trigger] items@[i]),
        decreases length - items@.len(),
    {
        let i = items.len();
        let item = deque[length - 1 - i].clone();
        items.push(item);
    }
    items
}


/// The statistics table as a map from route keys to statistics; a key listed
/// twice maps to its last entry.
pub open spec fn stats_map(table: Seq<(String, RouteStats)>) -> Map<Seq<char>, RouteStatsView>
    decreases table.len(),
{
    if table.len() == 0 {
        Map::empty()
    } else {
        stats_map(table.drop_last()).insert(table.last().0@, table.last().1@)
    }
}

/// Whether no route key is listed twice in the statistics table.
pub open spec fn keys_unique(table: Seq<(String, RouteStats)>) -> bool {
    forall|i: int, j: int|
        0 <= i < j < table.len() ==> #[trigger] table[i].0@ != #[trigger] table[j].0@
}

/// The set of names in a list of names.
pub open spec fn name_set(names: Seq<String>) -> Set<Seq<char>> {
    Set::new(|name: Seq<char>| exists|i: int| 0 <= i < names.len() && names[i]@ == name)
}

/// Whether no name is listed twice.
pub open spec fn names_unique(names: Seq<String>) -> bool {
    forall|i: int, j: int| 0 <= i < j < names.len() ==> #[trigger] names[i]@ != #[trigger] names[j]@
}

/// Everything that the metrics keep: the histories of system snapshots,
/// route calls and memory events, the statistics of each route (by route
/// key), the memory statistics, the blacklist of route keys that are not
/// tracked, and the allocator counters whose allocations the size categories
/// of the memory statistics already count.
#[derive(Debug, PartialEq)]
pub struct MetricsStore {
    pub system_snapshots: VecDeque<SystemSnapshot>,
    pub route_calls: VecDeque<RouteCall>,
    pub route_stats: Vec<(String, RouteStats)>,
    pub memory_events: VecDeque<MemoryAllocation>,
    pub memory_stats: MemoryStats,
    pub blacklist: Vec<String>,
    pub counted_allocations: TrackingAllocator,
}

impl MetricsStore {
    /// Whether the store is well formed: no history is longer than
    /// `MAX_HISTORY`, no route key has two statistics, no name is
    /// blacklisted twice, and no size category is listed twice.
    pub open spec fn wf(&self) -> bool {
        &&& self.system_snapshots@.len() <= MAX_HISTORY
        &&& self.route_calls@.len() <= MAX_HISTORY
        &&& self.memory_events@.len() <= MAX_HISTORY
        &&& keys_unique(self.route_stats@)
        &&& names_unique(self.blacklist@)
        &&& categories_unique(self.memory_stats.allocation_sizes@)
    }

    /// The statistics of each route key.
    pub open spec fn stats(&self) -> Map<Seq<char>, RouteStatsView> {
        stats_map(self.route_stats@)
    }

    /// The blacklisted route keys.
    pub open spec fn blacklisted(&self) -> Set<Seq<char>> {
        name_set(self.blacklist@)
    }

    /// A store with nothing recorded.
    pub fn new() -> (store: Self)
        ensures
            store.wf(),
            store.system_snapshots@ == Seq::<SystemSnapshot>::empty(),
            store.route_calls@ == Seq::<RouteCall>::empty(),
            store.route_stats@ == Seq::<(String, RouteStats)>::empty(),
            store.memory_events@ == Seq::<MemoryAllocation>::empty(),
            store.memory_stats@ == empty_memory_stats(),
            store.blacklist@ == Seq::<String>::empty(),
            store.counted_allocations.small_allocations == 0,
            store.counted_allocations.medium_allocations == 0,
            store.counted_allocations.large_allocations == 0,
    {
        MetricsStore {
            system_snapshots: VecDeque::with_capacity(MAX_HISTORY),
            route_calls: VecDeque::with_capacity(MAX_HISTORY),
            route_stats: Vec::new(),
            memory_events: VecDeque::with_capacity(MAX_HISTORY),
            memory_stats: MemoryStats::default(),
            blacklist: Vec::new(),
            counted_allocations: TrackingAllocator::new(),
        }
    }
}

/// The history of system snapshots.
pub fn system_snapshots(store: &MetricsStore) -> (history: &VecDeque<SystemSnapshot>)
    ensures
        history@ == store.system_snapshots@,
{
    &store.system_snapshots
}

/// The history of route calls.
pub fn route_calls(store: &MetricsStore) -> (history: &VecDeque<RouteCall>)
    ensures
        history@ == store.route_calls@,
{
    &store.route_calls
}

/// The statistics table, one entry per route key.
pub fn route_stats(store: &MetricsStore) -> (table: &Vec<(String, RouteStats)>)
    ensures
        table@ == store.route_stats@,
{
    &store.route_stats
}

/// The history of memory events.
pub fn memory_events(store: &MetricsStore) -> (history: &VecDeque<MemoryAllocation>)
    ensures
        history@ == store.memory_events@,
{
    &store.memory_events
}

/// The memory statistics.
pub fn memory_stats(store: &MetricsStore) -> (stats: &MemoryStats)
    ensures
        stats@ == store.memory_stats@,
{
    &store.memory_stats
}

/// The blacklisted route keys.
pub fn blacklist(store: &MetricsStore) -> (names: &Vec<String>)
    ensures
        names@ == store.blacklist@,
{
    &store.blacklist
}

pub(crate) proof fn lemma_stats_map_lookup(table: Seq<(String, RouteStats)>, j: int)
    requires
        keys_unique(table),
        0 <= j < table.len(),
    ensures
        stats_map(table).contains_key(table[j].0@),
        stats_map(table)[table[j].0@] == table[j].1@,
    decreases table.len(),
{
    if j < table.len() - 1 {
        let rest = table.drop_last();
        assert(keys_unique(rest)) by {
            assert forall|a: int, b: int| 0 <= a < b < rest.len() implies #[trigger] rest[a].0@ != #[trigger] rest[b].0@ by {
                assert(rest[a] == table[a] && rest[b] == table[b]);
            }
        }
        assert(rest[j] == table[j]);
        lemma_stats_map_lookup(rest, j);
        assert(table[j].0@ != table[table.len() - 1].0@);
    }
}

pub(crate) proof fn lemma_stats_map_domain(table: Seq<(String, RouteStats)>, key: Seq<char>)
    ensures
        stats_map(table).contains_key(key) <==> exists|j: int| 0 <= j < table.len() && table[j].0@ == key,
    decreases table.len(),
{
    if table.len() > 0 {
        let rest = table.drop_last();
        lemma_stats_map_domain(rest, key);
        if stats_map(table).contains_key(key) {
            if key != table.last().0@ {
                let j = choose|j: int| 0 <= j < rest.len() && rest[j].0@ == key;
                assert(table[j] == rest[j]);
            } else {
                assert(table[table.len() - 1].0@ == key);
            }
        }
        if exists|j: int| 0 <= j < table.len() && table[j].0@ == key {
            let j = choose|j: int| 0 <= j < table.len() && table[j].0@ == key;
            if j < table.len() - 1 {
                assert(rest[j] == table[j]);
            }
        }
    }
}

pub(crate) proof fn lemma_stats_map_update(table: Seq<(String, RouteStats)>, j: int, entry: (String, RouteStats))
    requires
        keys_unique(table),
        0 <= j < table.len(),
        entry.0@ == table[j].0@,
    ensures
        keys_unique(table.update(j, entry)),
        stats_map(table.update(j, entry)) == stats_map(table).insert(entry.0@, entry.1@),
    decreases table.len(),
{
    let updated = table.update(j, entry);
    assert forall|a: int, b: int| 0 <= a < b < updated.len() implies #[trigger] updated[a].0@ != #[trigger] updated[b].0@ by {
        assert(table[a].0@ != table[b].0@);
    }
    let rest = table.drop_last();
    assert(keys_unique(rest)) by {
        assert forall|a: int, b: int| 0 <= a < b < rest.len() implies #[trigger] rest[a].0@ != #[trigger] rest[b].0@ by {
            assert(rest[a] == table[a] && rest[b] == table[b]);
        }
    }
    if j < table.len() - 1 {
        assert(updated.drop_last() =~= rest.update(j, entry));
        lemma_stats_map_update(rest, j, entry);
        assert(table[j].0@ != table[table.len() - 1].0@);
        assert(stats_map(updated) =~= stats_map(table).insert(entry.0@, entry.1@));
    } else {
        assert(updated.drop_last() =~= rest);
        lemma_stats_map_domain(rest, entry.0@);
        if stats_map(rest).contains_key(entry.0@) {
            let k = choose|k: int| 0 <= k < rest.len() && rest[k].0@ == entry.0@;
            assert(table[k].0@ == table[j].0@);
        }
        assert(stats_map(updated) =~= stats_map(table).insert(entry.0@, entry.1@));
    }
}

pub(crate) proof fn lemma_stats_map_push(table: Seq<(String, RouteStats)>, entry: (String, RouteStats))
    requires
        keys_unique(table),
        !stats_map(table).contains_key(entry.0@),
    ensures
        keys_unique(table.push(entry)),
        stats_map(table.push(entry)) == stats_map(table).insert(entry.0@, entry.1@),
{
    lemma_stats_map_domain(table, entry.0@);
    let pushed = table.push(entry);
    assert(pushed.drop_last() =~= table);
    assert forall|a: int, b: int| 0 <= a < b < pushed.len() implies #[trigger] pushed[a].0@ != #[trigger] pushed[b].0@ by {
        if b == table.len() {
            assert(pushed[a] == table[a]);
        } else {
            assert(pushed[a] == table[a] && pushed[b] == table[b]);
        }
    }
}

/// Index of the first entry of `table` keyed `key`.
pub(crate) fn find_key<V>(table: &Vec<(String, V)>, key: &String) -> (found: Option<usize>)
    ensures
        match found {
            Some(j) => {
                &&& j < table@.len()
                &&& table@[j as int].0@ == key@
                &&& forall|k: int| 0 <= k < j ==> table@[k].0@ != key@
            },
            None => forall|j: int| 0 <= j < table@.len() ==> table@[j].0@ != key@,
        },
{
    let mut j: usize = 0;
    while j < table.len()
        invariant
            j <= table@.len(),
            forall|k: int| 0 <= k < j ==> table@[k].0@ != key@,
        decreases table@.len() - j,
    {
        if table[j].0 == *key {
            return Some(j);
        }
        j += 1;
    }
    None
}

/// Index of `name` in a list of names.
pub(crate) fn find_name(names: &Vec<String>, name: &String) -> (found: Option<usize>)
    ensures
        match found {
            Some(j) => j < names@.len() && names@[j as int]@ == name@,
            None => !name_set(names@).contains(name@),
        },
{
    let mut j: usize = 0;
    while j < names.len()
        invariant
            j <= names@.len(),
            forall|k: int| 0 <= k < j ==> names@[k]@ != name@,
        decreases names@.len() - j,
    {
        if names[j] == *name {
            return Some(j);
        }
        j += 1;
    }
    None
}


/// Appending to a history that holds at most `MAX_HISTORY` entries keeps it
/// so: the result is the newest `MAX_HISTORY` entries of the history followed
/// by the new one, which comes last.
pub proof fn lemma_history_keeps_newest<T>(history: Seq<T>, item: T)
    requires
        history.len() <= MAX_HISTORY,
    ensures
        history_pushed(history, item).len() <= MAX_HISTORY,
        history_pushed(history, item) == newest(history.push(item), MAX_HISTORY as nat),
        history_pushed(history, item).last() == item,
{
    if history.len() >= MAX_HISTORY {
        assert(history.drop_first().push(item) =~= history.push(item).skip(1));
    }
}

/// The newest entries come first: the first of them is the last entry of
/// the history, and there are as many as asked for, or the whole history.
pub proof fn lemma_recent_newest_first<T>(history: Seq<T>, count: nat)
    ensures
        recent(history, count).len() == if history.len() < count {
            history.len()
        } else {
            count
        },
        history.len() > 0 && count > 0 ==> recent(history, count)[0] == history.last(),
{
}

} // verus!

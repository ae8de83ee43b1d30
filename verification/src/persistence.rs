use std::collections::VecDeque;
use vstd::prelude::*;

use crate::blacklist::merge_names;
use crate::globals::{
    find_key, keys_unique, lemma_stats_map_domain, lemma_stats_map_lookup, lemma_stats_map_push,
    lemma_stats_map_update, name_set, stats_map, MetricsStore,
};
use crate::history::{
    entries_outside, free_of_repeats, lemma_merge_into_empty_history, merge_history, merged_history,
    retain_outside, sorted_by_timestamp,
};
use crate::memory_stats::{
    empty_memory_stats, lemma_merge_into_empty_memory_stats, memory_stats_merge_fits,
    memory_stats_merged, MemoryStats, MemoryStatsView,
};
use crate::metrics::{clone_table, lemma_same_table_same_map, same_table, stats_or_empty};
use crate::models::{MemoryAllocation, PersistentMetricsData, RouteCall, SystemSnapshot};
use crate::route_stats::{RouteStats, RouteStatsView};

verus! {

broadcast use vstd::std_specs::vecdeque::group_vec_dequeue_axioms;

impl PersistentMetricsData {
    /// Everything that the store holds, to be saved.
    pub fn collect(store: &MetricsStore) -> (data: Self)
        ensures
            data.system_snapshots@ == store.system_snapshots@,
            data.route_calls@ == store.route_calls@,
            same_table(store.route_stats@, data.route_stats@),
            data.memory_events@ == store.memory_events@,
            data.memory_stats@ == store.memory_stats@,
            data.blacklist@ == store.blacklist@,
    {
        let system_snapshots = store.system_snapshots.clone();
        assert(system_snapshots@ =~= store.system_snapshots@);
        let route_calls = store.route_calls.clone();
        assert(route_calls@ =~= store.route_calls@);
        let memory_events = store.memory_events.clone();
        assert(memory_events@ =~= store.memory_events@);
        let blacklist = store.blacklist.clone();
        assert(blacklist@ =~= store.blacklist@);
        PersistentMetricsData {
            system_snapshots,
            route_calls,
            route_stats: clone_table(&store.route_stats),
            memory_events,
            memory_stats: store.memory_stats.clone(),
            blacklist,
        }
    }
}


/// The statistics of each route key after the loaded entries are merged in
/// one after another: each entry's statistics merge into those of its key
/// (or into those of a route with no call, for a new key).
pub open spec fn stats_merged_all(
    stats: Map<Seq<char>, RouteStatsView>,
    loaded: Seq<(String, RouteStats)>,
) -> Map<Seq<char>, RouteStatsView>
    decreases loaded.len(),
{
    if loaded.len() == 0 {
        stats
    } else {
        let before = stats_merged_all(stats, loaded.drop_last());
        let key = loaded.last().0@;
        before.insert(key, stats_or_empty(before, key).merged(loaded.last().1@))
    }
}

/// Whether each of the merges of `stats_merged_all` fits the integer types
/// of the statistics.
pub open spec fn stats_merge_fits_all(
    stats: Map<Seq<char>, RouteStatsView>,
    loaded: Seq<(String, RouteStats)>,
) -> bool
    decreases loaded.len(),
{
    if loaded.len() == 0 {
        true
    } else {
        &&& stats_merge_fits_all(stats, loaded.drop_last())
        &&& stats_or_empty(stats_merged_all(stats, loaded.drop_last()), loaded.last().0@).merge_fits(
            loaded.last().1@,
        )
    }
}

/// Whether merging `loaded` into the store fits the integer types of the
/// statistics (`merge_loaded_metrics` asks for it).
pub open spec fn merge_fits(store: &MetricsStore, loaded: &PersistentMetricsData) -> bool {
    &&& stats_merge_fits_all(store.stats(), loaded.route_stats@)
    &&& memory_stats_merge_fits(store.memory_stats@, loaded.memory_stats@)
}

proof fn lemma_merge_fits_prefix(
    stats: Map<Seq<char>, RouteStatsView>,
    loaded: Seq<(String, RouteStats)>,
    n: int,
)
    requires
        0 <= n <= loaded.len(),
        stats_merge_fits_all(stats, loaded),
    ensures
        stats_merge_fits_all(stats, loaded.take(n)),
    decreases loaded.len() - n,
{
    if n < loaded.len() {
        lemma_merge_fits_prefix(stats, loaded, n + 1);
        assert(loaded.take(n + 1).drop_last() =~= loaded.take(n));
    } else {
        assert(loaded.take(n) =~= loaded);
    }
}

/// Merges loaded statistics entries, one after another, into a table.
fn merge_stats_table(table: &mut Vec<(String, RouteStats)>, loaded: &Vec<(String, RouteStats)>)
    requires
        keys_unique(old(table)@),
        stats_merge_fits_all(stats_map(old(table)@), loaded@),
    ensures
        keys_unique(final(table)@),
        stats_map(final(table)@) == stats_merged_all(stats_map(old(table)@), loaded@),
{
    let ghost start = stats_map(table@);
    let mut i: usize = 0;
    while i < loaded.len()
        invariant
            i <= loaded@.len(),
            keys_unique(table@),
            stats_merge_fits_all(start, loaded@),
            stats_map(table@) == stats_merged_all(start, loaded@.take(i as int)),
        decreases loaded@.len() - i,
    {
        proof {
            lemma_merge_fits_prefix(start, loaded@, i + 1);
            assert(loaded@.take(i + 1).drop_last() =~= loaded@.take(i as int));
            assert(loaded@.take(i + 1).last() == loaded@[i as int]);
        }
        let key = &loaded[i].0;
        let incoming = loaded[i].1.clone();
        match find_key(table, key) {
            Some(j) => {
                proof {
                    lemma_stats_map_lookup(table@, j as int);
                }
                let ghost before = table@;
                let (name, mut stats) = table.remove(j);
                stats.merge_loaded(incoming);
                table.insert(j, (name, stats));
                proof {
                    assert(table@ =~= before.update(j as int, (name, stats)));
                    lemma_stats_map_update(before, j as int, (name, stats));
                }
            },
            None => {
                proof {
                    lemma_stats_map_domain(table@, key@);
                }
                let mut stats = RouteStats::default();
                stats.merge_loaded(incoming);
                let name = key.clone();
                proof {
                    lemma_stats_map_push(table@, (name, stats));
                }
                table.push((name, stats));
            },
        }
        i += 1;
    }
    assert(loaded@.take(loaded@.len() as int) =~= loaded@);
}

/// Whether the loaded statistics entries can be merged into the table
/// within the integer types of the statistics.
fn can_merge_stats_table(table: &Vec<(String, RouteStats)>, loaded: &Vec<(String, RouteStats)>) -> (fits: bool)
    requires
        keys_unique(table@),
    ensures
        fits == stats_merge_fits_all(stats_map(table@), loaded@),
{
    let ghost start = stats_map(table@);
    let mut trial = clone_table(table);
    proof {
        lemma_same_table_same_map(table@, trial@);
    }
    let mut i: usize = 0;
    while i < loaded.len()
        invariant
            i <= loaded@.len(),
            keys_unique(trial@),
            start == stats_map(table@),
            stats_merge_fits_all(start, loaded@.take(i as int)),
            stats_map(trial@) == stats_merged_all(start, loaded@.take(i as int)),
        decreases loaded@.len() - i,
    {
        proof {
            assert(loaded@.take(i + 1).drop_last() =~= loaded@.take(i as int));
            assert(loaded@.take(i + 1).last() == loaded@[i as int]);
        }
        let key = &loaded[i].0;
        let incoming = loaded[i].1.clone();
        match find_key(&trial, key) {
            Some(j) => {
                proof {
                    lemma_stats_map_lookup(trial@, j as int);
                }
                if !trial[j].1.can_merge(&incoming) {
                    proof {
                        let prefix = loaded@.take(i + 1);
                        assert(stats_or_empty(stats_merged_all(start, prefix.drop_last()), prefix.last().0@)
                            == trial@[j as int].1@);
                        assert(!stats_merge_fits_all(start, prefix));
                        if stats_merge_fits_all(start, loaded@) {
                            lemma_merge_fits_prefix(start, loaded@, i + 1);
                        }
                    }
                    return false;
                }
                let ghost before = trial@;
                let (name, mut stats) = trial.remove(j);
                stats.merge_loaded(incoming);
                trial.insert(j, (name, stats));
                proof {
                    assert(trial@ =~= before.update(j as int, (name, stats)));
                    lemma_stats_map_update(before, j as int, (name, stats));
                }
            },
            None => {
                proof {
                    lemma_stats_map_domain(trial@, key@);
                }
                let mut stats = RouteStats::default();
                if !stats.can_merge(&incoming) {
                    proof {
                        if stats_merge_fits_all(start, loaded@) {
                            lemma_merge_fits_prefix(start, loaded@, i + 1);
                        }
                    }
                    return false;
                }
                stats.merge_loaded(incoming);
                let name = key.clone();
                proof {
                    lemma_stats_map_push(trial@, (name, stats));
                }
                trial.push((name, stats));
            },
        }
        i += 1;
    }
    assert(loaded@.take(loaded@.len() as int) =~= loaded@);
    true
}

/// Whether `loaded` can be merged into the store (`merge_loaded_metrics`
/// asks for it).
pub fn can_merge_loaded_metrics(store: &MetricsStore, loaded: &PersistentMetricsData) -> (fits: bool)
    requires
        store.wf(),
    ensures
        fits == merge_fits(store, loaded),
{
    can_merge_stats_table(&store.route_stats, &loaded.route_stats)
        && store.memory_stats.can_merge(&loaded.memory_stats)
}

/// Merges metrics loaded from storage into the store: each history becomes
/// the merge of the loaded one with the current one (ordered by timestamp,
/// without repeated entries, the newest `MAX_HISTORY` kept); the loaded
/// statistics of each route merge into the current ones; the memory
/// statistics take the larger peak and the sum of each size category; and
/// the blacklist takes in the loaded names.
pub fn merge_loaded_metrics(store: &mut MetricsStore, loaded: PersistentMetricsData)
    requires
        old(store).wf(),
        merge_fits(old(store), &loaded),
    ensures
        final(store).wf(),
        final(store).system_snapshots@ == merged_history(
            loaded.system_snapshots@,
            old(store).system_snapshots@,
        ),
        final(store).route_calls@ == merged_history(loaded.route_calls@, old(store).route_calls@),
        final(store).memory_events@ == merged_history(
            loaded.memory_events@,
            old(store).memory_events@,
        ),
        final(store).stats() == stats_merged_all(old(store).stats(), loaded.route_stats@),
        memory_stats_merged(old(store).memory_stats@, loaded.memory_stats@, final(store).memory_stats@),
        final(store).blacklisted() == old(store).blacklisted().union(name_set(loaded.blacklist@)),
        final(store).counted_allocations == old(store).counted_allocations,
        forall|i: int, j: int|
            0 <= i < j < final(store).system_snapshots@.len()
                ==> #[trigger] final(store).system_snapshots@[i].timestamp
                < #[trigger] final(store).system_snapshots@[j].timestamp,
        forall|i: int, j: int|
            0 <= i < j < final(store).memory_events@.len()
                ==> #[trigger] final(store).memory_events@[i].timestamp
                < #[trigger] final(store).memory_events@[j].timestamp,
        forall|i: int|
            0 < i < final(store).route_calls@.len() ==> !(#[trigger] final(store).route_calls@[i].timestamp
                == final(store).route_calls@[i - 1].timestamp && final(store).route_calls@[i].path@
                == final(store).route_calls@[i - 1].path@ && final(store).route_calls@[i].method@
                == final(store).route_calls@[i - 1].method@),
{
    proof {
        crate::history::lemma_merged_history_is_ordered(loaded.system_snapshots@, old(store).system_snapshots@);
        crate::history::lemma_merged_history_is_ordered(loaded.route_calls@, old(store).route_calls@);
        crate::history::lemma_merged_history_is_ordered(loaded.memory_events@, old(store).memory_events@);
        crate::history::lemma_merged_snapshots_one_per_second(loaded.system_snapshots@, old(store).system_snapshots@);
        crate::history::lemma_merged_events_one_per_second(loaded.memory_events@, old(store).memory_events@);
        crate::history::lemma_merged_calls_never_repeat(loaded.route_calls@, old(store).route_calls@);
    }
    let PersistentMetricsData {
        system_snapshots,
        route_calls,
        route_stats,
        memory_events,
        memory_stats,
        blacklist,
    } = loaded;
    let mut current_snapshots: VecDeque<SystemSnapshot> = VecDeque::new();
    std::mem::swap(&mut current_snapshots, &mut store.system_snapshots);
    store.system_snapshots = merge_history(system_snapshots, current_snapshots);
    let mut current_calls: VecDeque<RouteCall> = VecDeque::new();
    std::mem::swap(&mut current_calls, &mut store.route_calls);
    store.route_calls = merge_history(route_calls, current_calls);
    let mut current_events: VecDeque<MemoryAllocation> = VecDeque::new();
    std::mem::swap(&mut current_events, &mut store.memory_events);
    store.memory_events = merge_history(memory_events, current_events);
    merge_stats_table(&mut store.route_stats, &route_stats);
    store.memory_stats.merge_loaded(&memory_stats);
    merge_names(&mut store.blacklist, &blacklist);
}


impl PersistentMetricsData {
    /// Removes from the three histories every entry stamped within
    /// `[start_time, end_time)`.
    pub fn delete_time_range(&mut self, start_time: u64, end_time: u64)
        ensures
            final(self).system_snapshots@ == entries_outside(old(self).system_snapshots@, start_time, end_time),
            final(self).route_calls@ == entries_outside(old(self).route_calls@, start_time, end_time),
            final(self).memory_events@ == entries_outside(old(self).memory_events@, start_time, end_time),
            final(self).route_stats@ == old(self).route_stats@,
            final(self).memory_stats@ == old(self).memory_stats@,
            final(self).blacklist@ == old(self).blacklist@,
    {
        let mut snapshots: VecDeque<SystemSnapshot> = VecDeque::new();
        std::mem::swap(&mut snapshots, &mut self.system_snapshots);
        self.system_snapshots = retain_outside(snapshots, start_time, end_time);
        let mut calls: VecDeque<RouteCall> = VecDeque::new();
        std::mem::swap(&mut calls, &mut self.route_calls);
        self.route_calls = retain_outside(calls, start_time, end_time);
        let mut events: VecDeque<MemoryAllocation> = VecDeque::new();
        std::mem::swap(&mut events, &mut self.memory_events);
        self.memory_events = retain_outside(events, start_time, end_time);
    }
}

/// Replaces the histories, the route statistics and the memory statistics of
/// the store with metrics reloaded from storage; the blacklist takes in the
/// reloaded names.
pub fn reload_metrics(store: &mut MetricsStore, reloaded: PersistentMetricsData)
    requires
        old(store).wf(),
        stats_merge_fits_all(Map::empty(), reloaded.route_stats@),
        memory_stats_merge_fits(empty_memory_stats(), reloaded.memory_stats@),
    ensures
        final(store).wf(),
        final(store).system_snapshots@ == merged_history(reloaded.system_snapshots@, Seq::empty()),
        final(store).route_calls@ == merged_history(reloaded.route_calls@, Seq::empty()),
        final(store).memory_events@ == merged_history(reloaded.memory_events@, Seq::empty()),
        final(store).stats() == stats_merged_all(Map::empty(), reloaded.route_stats@),
        memory_stats_merged(empty_memory_stats(), reloaded.memory_stats@, final(store).memory_stats@),
        final(store).blacklisted() == old(store).blacklisted().union(name_set(reloaded.blacklist@)),
        final(store).counted_allocations == old(store).counted_allocations,
{
    store.system_snapshots.clear();
    store.route_calls.clear();
    store.memory_events.clear();
    store.route_stats = Vec::new();
    store.memory_stats = MemoryStats::default();
    proof {
        assert(stats_map(store.route_stats@) =~= Map::<Seq<char>, RouteStatsView>::empty());
    }
    merge_loaded_metrics(store, reloaded);
}


proof fn lemma_merge_table_into_empty(table: Seq<(String, RouteStats)>)
    requires
        keys_unique(table),
        forall|k: int| 0 <= k < table.len() ==> (#[trigger] table[k].1@).sliding_sums_current(),
    ensures
        stats_merge_fits_all(Map::empty(), table),
        stats_merged_all(Map::empty(), table) == stats_map(table),
    decreases table.len(),
{
    if table.len() > 0 {
        let rest = table.drop_last();
        assert(keys_unique(rest)) by {
            assert forall|a: int, b: int| 0 <= a < b < rest.len() implies #[trigger] rest[a].0@ != #[trigger] rest[b].0@ by {
                assert(rest[a] == table[a] && rest[b] == table[b]);
            }
        }
        assert forall|k: int| 0 <= k < rest.len() implies (#[trigger] rest[k].1@).sliding_sums_current() by {
            assert(rest[k] == table[k]);
            assert(table[k].1@.sliding_sums_current());
        }
        lemma_merge_table_into_empty(rest);
        let key = table.last().0@;
        lemma_stats_map_domain(rest, key);
        if stats_map(rest).contains_key(key) {
            let j = choose|j: int| 0 <= j < rest.len() && rest[j].0@ == key;
            assert(table[j].0@ != table[table.len() - 1].0@);
        }
        assert(table[table.len() - 1].1@.sliding_sums_current());
        crate::route_stats::lemma_merge_into_empty_stats(table.last().1@);
    }
}

/// Metrics saved from a store and reloaded into a fresh store come back as
/// they were: the histories (when their timestamps never decrease and no
/// entry repeats the one before it), the statistics of every route (when
/// their sliding sums are current), the peak and the size list of the
/// memory statistics, and the blacklist; and the reload fits.
pub proof fn lemma_saved_metrics_reload_unchanged(store: MetricsStore, saved: PersistentMetricsData)
    requires
        store.wf(),
        saved.system_snapshots@ == store.system_snapshots@,
        saved.route_calls@ == store.route_calls@,
        same_table(store.route_stats@, saved.route_stats@),
        saved.memory_events@ == store.memory_events@,
        saved.memory_stats@ == store.memory_stats@,
        saved.blacklist@ == store.blacklist@,
        sorted_by_timestamp(store.system_snapshots@),
        free_of_repeats(store.system_snapshots@),
        sorted_by_timestamp(store.route_calls@),
        free_of_repeats(store.route_calls@),
        sorted_by_timestamp(store.memory_events@),
        free_of_repeats(store.memory_events@),
        forall|k: int|
            0 <= k < store.route_stats@.len() ==> (#[trigger] store.route_stats@[k].1@).sliding_sums_current(),
    ensures
        stats_merge_fits_all(Map::empty(), saved.route_stats@),
        memory_stats_merge_fits(empty_memory_stats(), saved.memory_stats@),
        merged_history(saved.system_snapshots@, Seq::empty()) == store.system_snapshots@,
        merged_history(saved.route_calls@, Seq::empty()) == store.route_calls@,
        merged_history(saved.memory_events@, Seq::empty()) == store.memory_events@,
        stats_merged_all(Map::empty(), saved.route_stats@) == store.stats(),
        forall|merged: MemoryStatsView|
            memory_stats_merged(empty_memory_stats(), saved.memory_stats@, merged) ==> merged.peak_memory
                == store.memory_stats.peak_memory && merged.allocation_sizes
                == store.memory_stats.allocation_sizes@,
        name_set(Seq::<String>::empty()).union(name_set(saved.blacklist@)) == store.blacklisted(),
{
    lemma_merge_into_empty_history(store.system_snapshots@);
    lemma_merge_into_empty_history(store.route_calls@);
    lemma_merge_into_empty_history(store.memory_events@);
    lemma_same_table_same_map(store.route_stats@, saved.route_stats@);
    assert forall|k: int| 0 <= k < saved.route_stats@.len() implies (#[trigger] saved.route_stats@[k].1@).sliding_sums_current() by {
        assert(store.route_stats@[k].1@.sliding_sums_current());
        assert(store.route_stats@[k].0@ == saved.route_stats@[k].0@);
        assert(store.route_stats@[k].1@ == saved.route_stats@[k].1@);
    }
    lemma_merge_table_into_empty(saved.route_stats@);
    lemma_merge_into_empty_memory_stats(saved.memory_stats@);
    assert(name_set(Seq::<String>::empty()).union(name_set(saved.blacklist@)) =~= store.blacklisted());
}

} // verus!

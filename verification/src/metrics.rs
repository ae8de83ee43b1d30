use vstd::prelude::*;
use vstd::string::*;

use crate::globals::{
    add_to_deque, find_name, find_key, get_recent_from_deque, history_pushed, keys_unique,
    lemma_stats_map_domain, lemma_stats_map_lookup, lemma_stats_map_push, lemma_stats_map_update,
    recent, stats_map, MetricsStore,
};
use crate::memory_stats::{
    categories_unique, count_category, listed_categories, size_count, sizes_merged, MemoryStats,
};
use crate::models::{MemoryAllocation, RealtimeMetricsData, RouteCall, SystemSnapshot};
use crate::route_stats::{empty_route_stats, RouteStats, RouteStatsView};
use crate::tracking_allocator::TrackingAllocator;

verus! {

broadcast use vstd::std_specs::vecdeque::group_vec_dequeue_axioms;

/// The route key of a request: its method, a space, and its path.
pub open spec fn route_key_of(method: Seq<char>, path: Seq<char>) -> Seq<char> {
    method + seq![' '] + path
}

/// The statistics of `key` in `stats`, or those of a route with no call.
pub open spec fn stats_or_empty(stats: Map<Seq<char>, RouteStatsView>, key: Seq<char>) -> RouteStatsView {
    if stats.contains_key(key) {
        stats[key]
    } else {
        empty_route_stats()
    }
}

/// The route key of a request with `method` to `path`.
pub fn route_key(method: &String, path: &String) -> (key: String)
    ensures
        key@ == route_key_of(method@, path@),
{
    let mut key = method.clone();
    key.append(" ");
    key.append(path.as_str());
    proof {
        reveal_strlit(" ");
    }
    key
}

/// Whether calls under route key `key` go untracked.
pub fn is_blacklisted(store: &MetricsStore, key: &String) -> (listed: bool)
    ensures
        listed == store.blacklisted().contains(key@),
{
    match find_name(&store.blacklist, key) {
        Some(j) => {
            assert(store.blacklist@[j as int]@ == key@);
            true
        },
        None => false,
    }
}

/// Whether a call can be recorded within the integer types of the
/// statistics of its route (`record_route_call` asks for it).
pub open spec fn route_call_fits(
    store: &MetricsStore,
    method: Seq<char>,
    path: Seq<char>,
    duration_ms: u64,
    status_code: u16,
    allocated: usize,
    deallocated: usize,
) -> bool {
    &&& allocated <= isize::MAX
    &&& deallocated <= isize::MAX
    &&& stats_or_empty(store.stats(), route_key_of(method, path)).call_fits(
        duration_ms,
        (allocated - deallocated) as isize,
        status_code < 400,
    )
}

/// Whether a call with these figures can be recorded (`record_route_call`
/// asks for it).
pub fn can_record_route_call(
    store: &MetricsStore,
    method: &String,
    path: &String,
    duration_ms: u64,
    status_code: u16,
    allocated: usize,
    deallocated: usize,
) -> (fits: bool)
    requires
        store.wf(),
    ensures
        fits == route_call_fits(store, method@, path@, duration_ms, status_code, allocated, deallocated),
{
    if allocated > isize::MAX as usize || deallocated > isize::MAX as usize {
        return false;
    }
    let memory_delta_bytes = allocated as isize - deallocated as isize;
    let key = route_key(method, path);
    let is_success = status_code < 400;
    match find_key(&store.route_stats, &key) {
        Some(j) => {
            proof {
                lemma_stats_map_lookup(store.route_stats@, j as int);
            }
            store.route_stats[j].1.can_add_call(duration_ms, memory_delta_bytes, is_success)
        },
        None => {
            proof {
                lemma_stats_map_domain(store.route_stats@, key@);
            }
            let empty = RouteStats::default();
            empty.can_add_call(duration_ms, memory_delta_bytes, is_success)
        },
    }
}

/// Records a call to `path` with `method`, made at `timestamp`, that took
/// `duration_ms`, answered `status_code`, and allocated and freed the given
/// numbers of bytes: the call joins the history of route calls, and the
/// statistics of its route key count it, as a success when the status is
/// below 400.
pub fn record_route_call(
    store: &mut MetricsStore,
    method: String,
    path: String,
    timestamp: u64,
    duration_ms: u64,
    status_code: u16,
    allocated: usize,
    deallocated: usize,
)
    requires
        old(store).wf(),
        route_call_fits(old(store), method@, path@, duration_ms, status_code, allocated, deallocated),
    ensures
        final(store).wf(),
        final(store).stats() == old(store).stats().insert(
            route_key_of(method@, path@),
            stats_or_empty(old(store).stats(), route_key_of(method@, path@)).call_added(
                duration_ms,
                (allocated - deallocated) as isize,
                status_code < 400,
            ),
        ),
        final(store).route_calls@ == history_pushed(
            old(store).route_calls@,
            (RouteCall {
                path,
                method,
                timestamp,
                duration_ms: Some(duration_ms),
                status_code: Some(status_code),
                memory_delta_bytes: Some((allocated - deallocated) as isize),
            }),
        ),
        final(store).system_snapshots@ == old(store).system_snapshots@,
        final(store).memory_events@ == old(store).memory_events@,
        final(store).memory_stats@ == old(store).memory_stats@,
        final(store).blacklist@ == old(store).blacklist@,
        final(store).counted_allocations == old(store).counted_allocations,
{
    let memory_delta_bytes = allocated as isize - deallocated as isize;
    let is_success = status_code < 400;
    let key = route_key(&method, &path);
    match find_key(&store.route_stats, &key) {
        Some(j) => {
            proof {
                lemma_stats_map_lookup(store.route_stats@, j as int);
            }
            let ghost before = store.route_stats@;
            let (name, mut stats) = store.route_stats.remove(j);
            stats.add_call(duration_ms, memory_delta_bytes, is_success);
            store.route_stats.insert(j, (name, stats));
            proof {
                assert(store.route_stats@ =~= before.update(j as int, (name, stats)));
                lemma_stats_map_update(before, j as int, (name, stats));
            }
        },
        None => {
            proof {
                lemma_stats_map_domain(store.route_stats@, key@);
            }
            let mut stats = RouteStats::default();
            stats.add_call(duration_ms, memory_delta_bytes, is_success);
            proof {
                lemma_stats_map_push(store.route_stats@, (key, stats));
            }
            store.route_stats.push((key, stats));
        },
    }
    let route_call = RouteCall {
        path,
        method,
        timestamp,
        duration_ms: Some(duration_ms),
        status_code: Some(status_code),
        memory_delta_bytes: Some(memory_delta_bytes),
    };
    add_to_deque(&mut store.route_calls, route_call);
}


/// How many of the newest route calls and memory events a dashboard update
/// carries.
pub const RECENT_ENTRIES: usize = 50;

/// Whether two statistics tables list the same keys with the same
/// statistics, in the same order.
pub open spec fn same_table(a: Seq<(String, RouteStats)>, b: Seq<(String, RouteStats)>) -> bool {
    &&& a.len() == b.len()
    &&& forall|k: int| 0 <= k < a.len() ==> #[trigger] a[k].0@ == b[k].0@ && a[k].1@ == b[k].1@
}

/// Whether `refreshed` lists the keys of `table` in its order, each with its
/// statistics and their sliding sums taken anew.
pub open spec fn table_refreshed(table: Seq<(String, RouteStats)>, refreshed: Seq<(String, RouteStats)>) -> bool {
    &&& refreshed.len() == table.len()
    &&& forall|k: int|
        0 <= k < table.len() ==> #[trigger] refreshed[k].0@ == table[k].0@ && refreshed[k].1@
            == table[k].1@.with_sliding_sums()
}

pub(crate) proof fn lemma_same_table_same_map(a: Seq<(String, RouteStats)>, b: Seq<(String, RouteStats)>)
    requires
        same_table(a, b),
    ensures
        stats_map(a) == stats_map(b),
        keys_unique(a) ==> keys_unique(b),
    decreases a.len(),
{
    if a.len() > 0 {
        assert(same_table(a.drop_last(), b.drop_last())) by {
            assert forall|k: int| 0 <= k < a.drop_last().len() implies #[trigger] a.drop_last()[k].0@
                == b.drop_last()[k].0@ && a.drop_last()[k].1@ == b.drop_last()[k].1@ by {
                assert(a[k].0@ == b[k].0@);
            }
        }
        lemma_same_table_same_map(a.drop_last(), b.drop_last());
        assert(a[a.len() - 1].0@ == b[b.len() - 1].0@);
    }
    if keys_unique(a) {
        assert forall|i: int, j: int| 0 <= i < j < b.len() implies #[trigger] b[i].0@ != #[trigger] b[j].0@ by {
            assert(a[i].0@ == b[i].0@ && a[j].0@ == b[j].0@);
        }
    }
}

/// A copy of a statistics table.
pub(crate) fn clone_table(table: &Vec<(String, RouteStats)>) -> (copy: Vec<(String, RouteStats)>)
    ensures
        same_table(table@, copy@),
{
    let mut copy: Vec<(String, RouteStats)> = Vec::new();
    let mut i: usize = 0;
    while i < table.len()
        invariant
            i <= table@.len(),
            copy@.len() == i,
            forall|k: int| 0 <= k < i ==> #[trigger] copy@[k].0@ == table@[k].0@ && copy@[k].1@ == table@[k].1@,
        decreases table@.len() - i,
    {
        let entry = (table[i].0.clone(), table[i].1.clone());
        let ghost before = copy@;
        copy.push(entry);
        assert forall|k: int| 0 <= k < i + 1 implies #[trigger] copy@[k].0@ == table@[k].0@ && copy@[k].1@ == table@[k].1@ by {
            if k < i {
                assert(copy@[k] == before[k]);
            }
        }
        i += 1;
    }
    copy
}

/// A snapshot of the machine readings and the allocator counters at
/// `timestamp`. `process` holds the CPU load (as `f32` bits) and the memory
/// of this process, when the machine reported the process; without it both
/// are 0 (the bits of `0.0f32` are 0).
pub fn collect_system_snapshot(
    timestamp: u64,
    cpu_usage_bits: u32,
    memory_usage: u64,
    process: Option<(u32, u64)>,
    counters: &TrackingAllocator,
) -> (snapshot: SystemSnapshot)
    ensures
        snapshot.timestamp == timestamp,
        snapshot.cpu_usage_bits == cpu_usage_bits,
        snapshot.memory_usage == memory_usage,
        snapshot.process_cpu_usage_bits == match process {
            Some(p) => p.0,
            None => 0,
        },
        snapshot.process_memory_usage == match process {
            Some(p) => p.1,
            None => 0,
        },
        snapshot.allocations == counters.allocated_bytes,
        snapshot.deallocations == counters.deallocated_bytes,
        snapshot.current_memory == counters.current_memory_bytes,
        snapshot.peak_memory == counters.peak_memory_bytes,
{
    let (process_cpu_usage_bits, process_memory_usage) = match process {
        Some(p) => p,
        None => (0, 0),
    };
    SystemSnapshot {
        timestamp,
        cpu_usage_bits,
        memory_usage,
        process_cpu_usage_bits,
        process_memory_usage,
        allocations: counters.allocated_bytes,
        deallocations: counters.deallocated_bytes,
        current_memory: counters.current_memory_bytes,
        peak_memory: counters.peak_memory_bytes,
    }
}

/// Whether `after` is `before` with the call recorded as `record_route_call`
/// records it.
pub open spec fn route_call_recorded(
    before: &MetricsStore,
    after: &MetricsStore,
    method: String,
    path: String,
    timestamp: u64,
    duration_ms: u64,
    status_code: u16,
    allocated: usize,
    deallocated: usize,
) -> bool {
    &&& after.stats() == before.stats().insert(
        route_key_of(method@, path@),
        stats_or_empty(before.stats(), route_key_of(method@, path@)).call_added(
            duration_ms,
            (allocated - deallocated) as isize,
            status_code < 400,
        ),
    )
    &&& after.route_calls@ == history_pushed(
        before.route_calls@,
        (RouteCall {
            path,
            method,
            timestamp,
            duration_ms: Some(duration_ms),
            status_code: Some(status_code),
            memory_delta_bytes: Some((allocated - deallocated) as isize),
        }),
    )
    &&& after.system_snapshots@ == before.system_snapshots@
    &&& after.memory_events@ == before.memory_events@
    &&& after.memory_stats@ == before.memory_stats@
    &&& after.blacklist@ == before.blacklist@
    &&& after.counted_allocations == before.counted_allocations
}

/// Whether `after` holds everything that `before` holds.
pub open spec fn store_unchanged(before: &MetricsStore, after: &MetricsStore) -> bool {
    &&& after.system_snapshots@ == before.system_snapshots@
    &&& after.route_calls@ == before.route_calls@
    &&& after.route_stats@ == before.route_stats@
    &&& after.memory_events@ == before.memory_events@
    &&& after.memory_stats@ == before.memory_stats@
    &&& after.blacklist@ == before.blacklist@
    &&& after.counted_allocations == before.counted_allocations
}

/// Tracks a call unless its route key is blacklisted: the call of a
/// blacklisted route key leaves the store unchanged, and any other call is
/// recorded as `record_route_call` records it. Whether the call was recorded.
pub fn track_route_call(
    store: &mut MetricsStore,
    method: String,
    path: String,
    timestamp: u64,
    duration_ms: u64,
    status_code: u16,
    allocated: usize,
    deallocated: usize,
) -> (recorded: bool)
    requires
        old(store).wf(),
        !old(store).blacklisted().contains(route_key_of(method@, path@)) ==> route_call_fits(
            old(store),
            method@,
            path@,
            duration_ms,
            status_code,
            allocated,
            deallocated,
        ),
    ensures
        final(store).wf(),
        recorded == !old(store).blacklisted().contains(route_key_of(method@, path@)),
        !recorded ==> store_unchanged(old(store), final(store)),
        recorded ==> route_call_recorded(
            old(store),
            final(store),
            method,
            path,
            timestamp,
            duration_ms,
            status_code,
            allocated,
            deallocated,
        ),
{
    let key = route_key(&method, &path);
    if is_blacklisted(store, &key) {
        return false;
    }
    record_route_call(store, method, path, timestamp, duration_ms, status_code, allocated, deallocated);
    true
}

/// The allocations counted by a category counter since it read `before`
/// (none when it reads less).
pub open spec fn allocations_since(now: usize, before: usize) -> usize {
    if now >= before {
        (now - before) as usize
    } else {
        0
    }
}

/// Whether `sizes` lists the small, medium and large size categories, in this
/// order, with the allocations that `counters` counted in each since
/// `counted`.
pub open spec fn category_additions(
    sizes: Seq<(String, usize)>,
    counters: TrackingAllocator,
    counted: TrackingAllocator,
) -> bool {
    &&& sizes.len() == 3
    &&& sizes[0].0@ == "small"@
    &&& sizes[0].1 == allocations_since(counters.small_allocations, counted.small_allocations)
    &&& sizes[1].0@ == "medium"@
    &&& sizes[1].1 == allocations_since(counters.medium_allocations, counted.medium_allocations)
    &&& sizes[2].0@ == "large"@
    &&& sizes[2].1 == allocations_since(counters.large_allocations, counted.large_allocations)
}

/// The allocations that `counters` counted in size category `category`
/// since `counted` (none for a category other than small, medium, large).
pub open spec fn category_addition(
    category: Seq<char>,
    counters: TrackingAllocator,
    counted: TrackingAllocator,
) -> int {
    if category == "small"@ {
        allocations_since(counters.small_allocations, counted.small_allocations) as int
    } else if category == "medium"@ {
        allocations_since(counters.medium_allocations, counted.medium_allocations) as int
    } else if category == "large"@ {
        allocations_since(counters.large_allocations, counted.large_allocations) as int
    } else {
        0
    }
}

/// Whether adding the new allocations of `counters` to the size categories
/// of the store keeps each count within `usize`
/// (`update_memory_stats_and_events` asks for it).
pub open spec fn category_update_fits(store: &MetricsStore, counters: TrackingAllocator) -> bool {
    forall|category: Seq<char>|
        category_addition(category, counters, store.counted_allocations) > 0 ==> #[trigger] size_count(
            store.memory_stats.allocation_sizes@,
            category,
        ) + category_addition(category, counters, store.counted_allocations) <= usize::MAX
}

proof fn lemma_category_names()
    ensures
        "small"@ != "medium"@,
        "small"@ != "large"@,
        "medium"@ != "large"@,
{
    reveal_strlit("small");
    reveal_strlit("medium");
    reveal_strlit("large");
    assert("small"@[0] != "medium"@[0]);
    assert("small"@[0] != "large"@[0]);
    assert("medium"@[0] != "large"@[0]);
}

proof fn lemma_category_additions_count(
    sizes: Seq<(String, usize)>,
    counters: TrackingAllocator,
    counted: TrackingAllocator,
    category: Seq<char>,
)
    requires
        category_additions(sizes, counters, counted),
    ensures
        size_count(sizes, category) == category_addition(category, counters, counted),
        categories_unique(sizes),
        listed_categories(sizes) == set!["small"@, "medium"@, "large"@],
{
    lemma_category_names();
    let two = sizes.drop_last();
    let one = two.drop_last();
    let zero = one.drop_last();
    assert(zero =~= Seq::<(String, usize)>::empty());
    assert(two.last() == sizes[1]);
    assert(one.last() == sizes[0]);
    assert(size_count(zero, category) == 0);
    assert(size_count(one, category) == size_count(zero, category) + if sizes[0].0@ == category {
        sizes[0].1 as int
    } else {
        0
    });
    assert(size_count(two, category) == size_count(one, category) + if sizes[1].0@ == category {
        sizes[1].1 as int
    } else {
        0
    });
    assert(size_count(sizes, category) == size_count(two, category) + if sizes[2].0@ == category {
        sizes[2].1 as int
    } else {
        0
    });
    assert forall|i: int, j: int| 0 <= i < j < sizes.len() implies #[trigger] sizes[i].0@ != #[trigger] sizes[j].0@ by {}
    assert forall|c: Seq<char>| listed_categories(sizes).contains(c) <==> set!["small"@, "medium"@, "large"@].contains(c) by {
        if c == "small"@ {
            assert(sizes[0].0@ == c);
        }
        if c == "medium"@ {
            assert(sizes[1].0@ == c);
        }
        if c == "large"@ {
            assert(sizes[2].0@ == c);
        }
    }
    assert(listed_categories(sizes) =~= set!["small"@, "medium"@, "large"@]);
}

/// Whether the new allocations of `counters` can be added to the size
/// categories of the store (`update_memory_stats_and_events` asks for it).
pub fn can_update_memory_stats(store: &MetricsStore, counters: &TrackingAllocator) -> (fits: bool)
    ensures
        fits == category_update_fits(store, *counters),
{
    let additions = new_category_additions(store, counters);
    let mut i: usize = 0;
    while i < 3
        invariant
            i <= 3,
            category_additions(additions@, *counters, store.counted_allocations),
            forall|k: int|
                0 <= k < i ==> (#[trigger] additions@[k]).1 > 0 ==> size_count(
                    store.memory_stats.allocation_sizes@,
                    additions@[k].0@,
                ) + additions@[k].1 <= usize::MAX,
        decreases 3 - i,
    {
        let count = additions[i].1;
        if count > 0 {
            let present = count_category(&store.memory_stats.allocation_sizes, &additions[i].0);
            if present > (usize::MAX - count) as u128 {
                proof {
                    lemma_category_additions_count(
                        additions@,
                        *counters,
                        store.counted_allocations,
                        additions@[i as int].0@,
                    );
                }
                return false;
            }
        }
        i += 1;
    }
    proof {
        assert forall|category: Seq<char>|
            category_addition(category, *counters, store.counted_allocations) > 0 implies #[trigger] size_count(
                store.memory_stats.allocation_sizes@,
                category,
            ) + category_addition(category, *counters, store.counted_allocations) <= usize::MAX by {
            lemma_category_additions_count(additions@, *counters, store.counted_allocations, category);
            lemma_category_names();
            if category == "small"@ {
                assert(additions@[0].1 > 0);
            } else if category == "medium"@ {
                assert(additions@[1].1 > 0);
            } else {
                assert(additions@[2].1 > 0);
            }
        }
    }
    true
}

/// The small, medium and large size categories with the allocations that
/// `counters` counted in each since the store last recorded them.
fn new_category_additions(store: &MetricsStore, counters: &TrackingAllocator) -> (additions: Vec<
    (String, usize),
>)
    ensures
        category_additions(additions@, *counters, store.counted_allocations),
{
    let mut additions: Vec<(String, usize)> = Vec::new();
    additions.push(
        (
            String::from_str("small"),
            counters.small_allocations.saturating_sub(store.counted_allocations.small_allocations),
        ),
    );
    additions.push(
        (
            String::from_str("medium"),
            counters.medium_allocations.saturating_sub(store.counted_allocations.medium_allocations),
        ),
    );
    additions.push(
        (
            String::from_str("large"),
            counters.large_allocations.saturating_sub(store.counted_allocations.large_allocations),
        ),
    );
    additions
}

/// Records the current allocator counters in the memory statistics, adds to
/// each of the small, medium and large size categories the allocations
/// counted in it since the last such update (categories merged in from
/// storage keep their counts), and adds a periodic memory event of size 0 at
/// `timestamp` to the history of memory events.
pub fn update_memory_stats_and_events(store: &mut MetricsStore, counters: &TrackingAllocator, timestamp: u64)
    requires
        old(store).wf(),
        category_update_fits(old(store), *counters),
    ensures
        final(store).wf(),
        final(store).memory_stats.total_allocations == counters.allocated_bytes,
        final(store).memory_stats.total_deallocations == counters.deallocated_bytes,
        final(store).memory_stats.current_memory == counters.current_memory_bytes,
        final(store).memory_stats.peak_memory == counters.peak_memory_bytes,
        exists|additions: Seq<(String, usize)>|
            category_additions(additions, *counters, old(store).counted_allocations)
                && final(store).memory_stats.allocation_sizes@ == sizes_merged(
                old(store).memory_stats.allocation_sizes@,
                additions,
            ),
        forall|category: Seq<char>|
            #[trigger] size_count(final(store).memory_stats.allocation_sizes@, category) == size_count(
                old(store).memory_stats.allocation_sizes@,
                category,
            ) + category_addition(category, *counters, old(store).counted_allocations),
        listed_categories(final(store).memory_stats.allocation_sizes@) == listed_categories(
            old(store).memory_stats.allocation_sizes@,
        ).union(set!["small"@, "medium"@, "large"@]),
        final(store).counted_allocations == *counters,
        final(store).memory_events@ == history_pushed(old(store).memory_events@, final(store).memory_events@.last()),
        final(store).memory_events@.last().size == 0,
        final(store).memory_events@.last().timestamp == timestamp,
        final(store).memory_events@.last().stack_trace.is_none(),
        final(store).memory_events@.last().allocation_type@ == "periodic_update"@,
        final(store).system_snapshots@ == old(store).system_snapshots@,
        final(store).route_calls@ == old(store).route_calls@,
        final(store).route_stats@ == old(store).route_stats@,
        final(store).blacklist@ == old(store).blacklist@,
{
    let additions = new_category_additions(store, counters);
    let ghost added = additions@;
    let addition = MemoryStats {
        total_allocations: 0,
        total_deallocations: 0,
        current_memory: 0,
        peak_memory: 0,
        allocation_sizes: additions,
    };
    proof {
        assert forall|category: Seq<char>|
            size_count(addition@.allocation_sizes, category) > 0 implies #[trigger] size_count(
                store.memory_stats@.allocation_sizes,
                category,
            ) + size_count(addition@.allocation_sizes, category) <= usize::MAX by {
            lemma_category_additions_count(added, *counters, store.counted_allocations, category);
        }
    }
    store.memory_stats.merge_loaded(&addition);
    proof {
        assert forall|category: Seq<char>|
            #[trigger] size_count(store.memory_stats.allocation_sizes@, category) == size_count(
                old(store).memory_stats.allocation_sizes@,
                category,
            ) + category_addition(category, *counters, old(store).counted_allocations) by {
            lemma_category_additions_count(added, *counters, old(store).counted_allocations, category);
        }
        lemma_category_additions_count(added, *counters, old(store).counted_allocations, "small"@);
    }
    store.memory_stats.total_allocations = counters.allocated_bytes;
    store.memory_stats.total_deallocations = counters.deallocated_bytes;
    store.memory_stats.current_memory = counters.current_memory_bytes;
    store.memory_stats.peak_memory = counters.peak_memory_bytes;
    store.counted_allocations = *counters;
    let event = MemoryAllocation {
        size: 0,
        timestamp,
        stack_trace: None,
        allocation_type: String::from_str("periodic_update"),
    };
    add_to_deque(&mut store.memory_events, event);
}

/// The data of a dashboard update: `snapshot` joins the history of system
/// snapshots, and the update carries it, the newest `RECENT_ENTRIES` route
/// calls and memory events (newest first), each route's statistics with
/// their sliding sums taken anew, the memory statistics and the blacklist.
pub fn collect_realtime_metrics(store: &mut MetricsStore, snapshot: SystemSnapshot) -> (metrics:
    RealtimeMetricsData)
    requires
        old(store).wf(),
    ensures
        final(store).wf(),
        final(store).system_snapshots@ == history_pushed(old(store).system_snapshots@, snapshot),
        final(store).route_calls@ == old(store).route_calls@,
        final(store).route_stats@ == old(store).route_stats@,
        final(store).memory_events@ == old(store).memory_events@,
        final(store).memory_stats@ == old(store).memory_stats@,
        final(store).blacklist@ == old(store).blacklist@,
        final(store).counted_allocations == old(store).counted_allocations,
        metrics.system_snapshot == snapshot,
        metrics.recent_route_calls@ == recent(old(store).route_calls@, RECENT_ENTRIES as nat),
        table_refreshed(old(store).route_stats@, metrics.route_stats@),
        metrics.recent_memory_events@ == recent(old(store).memory_events@, RECENT_ENTRIES as nat),
        metrics.memory_stats@ == old(store).memory_stats@,
        metrics.blacklist@ == old(store).blacklist@,
{
    add_to_deque(&mut store.system_snapshots, snapshot);
    let mut route_stats: Vec<(String, RouteStats)> = Vec::new();
    let mut i: usize = 0;
    while i < store.route_stats.len()
        invariant
            i <= store.route_stats@.len(),
            route_stats@.len() == i,
            forall|k: int|
                0 <= k < i ==> #[trigger] route_stats@[k].0@ == store.route_stats@[k].0@
                    && route_stats@[k].1@ == store.route_stats@[k].1@.with_sliding_sums(),
        decreases store.route_stats@.len() - i,
    {
        let mut stats = store.route_stats[i].1.clone();
        stats.update_sliding_averages();
        let ghost before = route_stats@;
        route_stats.push((store.route_stats[i].0.clone(), stats));
        assert forall|k: int| 0 <= k < i + 1 implies #[trigger] route_stats@[k].0@ == store.route_stats@[k].0@
            && route_stats@[k].1@ == store.route_stats@[k].1@.with_sliding_sums() by {
            if k < i {
                assert(route_stats@[k] == before[k]);
            }
        }
        i += 1;
    }
    let recent_route_calls = get_recent_from_deque(&store.route_calls, RECENT_ENTRIES);
    assert(recent_route_calls@ =~= recent(store.route_calls@, RECENT_ENTRIES as nat));
    let recent_memory_events = get_recent_from_deque(&store.memory_events, RECENT_ENTRIES);
    assert(recent_memory_events@ =~= recent(store.memory_events@, RECENT_ENTRIES as nat));
    let blacklist = store.blacklist.clone();
    assert(blacklist@ =~= store.blacklist@);
    RealtimeMetricsData {
        system_snapshot: snapshot,
        recent_route_calls,
        route_stats,
        recent_memory_events,
        memory_stats: store.memory_stats.clone(),
        blacklist,
    }
}

} // verus!

use std::collections::VecDeque;

use dashboard::globals::{
    blacklist, memory_events, memory_stats, route_calls, route_stats, system_snapshots,
    MetricsStore, MAX_HISTORY,
};
use dashboard::blacklist::{add_blacklist_item, remove_blacklist_item};
use dashboard::metrics::{
    can_update_memory_stats,
    can_record_route_call, collect_realtime_metrics, collect_system_snapshot, is_blacklisted,
    record_route_call, route_key, track_route_call, update_memory_stats_and_events,
    RECENT_ENTRIES,
};
use dashboard::persistence::{can_merge_loaded_metrics, merge_loaded_metrics, reload_metrics};
use dashboard::models::{PersistentMetricsData, SystemSnapshot};
use dashboard::route_stats::RouteStats;
use dashboard::tracking_allocator::TrackingAllocator;

fn stats_of<'a>(store: &'a MetricsStore, key: &str) -> Option<&'a RouteStats> {
    route_stats(store).iter().find(|(k, _)| k == key).map(|(_, s)| s)
}

fn record(store: &mut MetricsStore, method: &str, path: &str, ts: u64, duration: u64, status: u16) {
    record_route_call(store, method.to_string(), path.to_string(), ts, duration, status, 300, 100);
}

fn snapshot(timestamp: u64) -> SystemSnapshot {
    collect_system_snapshot(timestamp, 0, 0, None, &TrackingAllocator::new())
}

#[test]
fn route_key_joins_method_and_path() {
    let key = route_key(&"GET".to_string(), &"/users".to_string());
    assert_eq!(key, "GET /users");
}

#[test]
fn record_route_call_updates_stats_and_history() {
    let mut store = MetricsStore::new();
    record(&mut store, "GET", "/a", 10, 5, 200);
    record(&mut store, "GET", "/a", 11, 15, 404);
    record(&mut store, "POST", "/a", 12, 7, 500);
    let stats = stats_of(&store, "GET /a").unwrap();
    assert_eq!(stats.total_calls, 2);
    assert_eq!(stats.success_count, 1);
    assert_eq!(stats.error_count, 1);
    assert_eq!(stats.total_duration_ms, 20);
    assert_eq!(stats.total_memory_delta_bytes, 400);
    assert_eq!(stats_of(&store, "POST /a").unwrap().error_count, 1);
    assert_eq!(route_stats(&store).len(), 2);
    let calls = route_calls(&store);
    assert_eq!(calls.len(), 3);
    assert_eq!(calls[1].status_code, Some(404));
    assert_eq!(calls[1].memory_delta_bytes, Some(200));
    assert_eq!(calls[2].method, "POST");
}

#[test]
fn status_399_is_success_and_400_is_error() {
    let mut store = MetricsStore::new();
    record(&mut store, "GET", "/s", 1, 1, 399);
    record(&mut store, "GET", "/s", 2, 1, 400);
    let stats = stats_of(&store, "GET /s").unwrap();
    assert_eq!(stats.success_count, 1);
    assert_eq!(stats.error_count, 1);
}

#[test]
fn memory_delta_can_be_negative() {
    let mut store = MetricsStore::new();
    record_route_call(&mut store, "GET".into(), "/m".into(), 1, 1, 200, 10, 50);
    assert_eq!(route_calls(&store)[0].memory_delta_bytes, Some(-40));
    assert_eq!(stats_of(&store, "GET /m").unwrap().min_memory_delta_bytes, -40);
}

#[test]
fn can_record_route_call_refuses_overflow() {
    let mut store = MetricsStore::new();
    let method = "GET".to_string();
    let path = "/o".to_string();
    assert!(can_record_route_call(&store, &method, &path, 1, 200, 10, 0));
    assert!(!can_record_route_call(&store, &method, &path, 1, 200, usize::MAX, 0));
    record_route_call(&mut store, method.clone(), path.clone(), 1, 1, 200, isize::MAX as usize, 0);
    assert!(!can_record_route_call(&store, &method, &path, 1, 200, 1, 0));
    assert!(can_record_route_call(&store, &method, &path, 1, 200, 0, 1));
}

#[test]
fn route_call_history_is_bounded() {
    let mut store = MetricsStore::new();
    for i in 0..(MAX_HISTORY as u64 + 10) {
        record(&mut store, "GET", "/b", i, 1, 200);
    }
    assert_eq!(route_calls(&store).len(), MAX_HISTORY);
    assert_eq!(route_calls(&store)[0].timestamp, 10);
    assert_eq!(stats_of(&store, "GET /b").unwrap().total_calls, MAX_HISTORY + 10);
}

#[test]
fn blacklist_add_and_remove() {
    let mut store = MetricsStore::new();
    let key = "GET /health".to_string();
    assert!(!is_blacklisted(&store, &key));
    assert!(add_blacklist_item(&mut store, key.clone()));
    assert!(is_blacklisted(&store, &key));
    assert!(!add_blacklist_item(&mut store, key.clone()));
    assert_eq!(blacklist(&store).len(), 1);
    assert!(remove_blacklist_item(&mut store, &key));
    assert!(!is_blacklisted(&store, &key));
    assert!(!remove_blacklist_item(&mut store, &key));
    assert!(blacklist(&store).is_empty());
}

#[test]
fn update_memory_stats_and_events_records_counters() {
    let mut store = MetricsStore::new();
    let mut counters = TrackingAllocator::new();
    counters.record_alloc(500);
    counters.record_dealloc(200);
    update_memory_stats_and_events(&mut store, &counters, 1234);
    let stats = memory_stats(&store);
    assert_eq!(stats.total_allocations, 500);
    assert_eq!(stats.total_deallocations, 200);
    assert_eq!(stats.current_memory, 300);
    assert_eq!(stats.peak_memory, 500);
    let events = memory_events(&store);
    assert_eq!(events.len(), 1);
    assert_eq!(events[0].size, 0);
    assert_eq!(events[0].timestamp, 1234);
    assert_eq!(events[0].stack_trace, None);
    assert_eq!(events[0].allocation_type, "periodic_update");
    assert_eq!(
        stats.allocation_sizes,
        vec![
            ("small".to_string(), 1),
            ("medium".to_string(), 0),
            ("large".to_string(), 0)
        ]
    );
}

#[test]
fn update_memory_stats_records_allocation_size_categories() {
    let mut store = MetricsStore::new();
    let mut counters = TrackingAllocator::new();
    for size in [8usize, 100, 1023, 1024, 4096, 1_048_575, 1_048_576, 5_000_000] {
        counters.record_alloc(size);
    }
    counters.record_dealloc(64);
    update_memory_stats_and_events(&mut store, &counters, 7);
    assert_eq!(
        memory_stats(&store).allocation_sizes,
        vec![
            ("small".to_string(), 3),
            ("medium".to_string(), 3),
            ("large".to_string(), 2)
        ]
    );
    let mut more = counters;
    more.record_alloc(16);
    update_memory_stats_and_events(&mut store, &more, 9);
    assert_eq!(memory_stats(&store).allocation_sizes[0], ("small".to_string(), 4));
    assert_eq!(memory_stats(&store).allocation_sizes.len(), 3);
}

#[test]
fn update_memory_stats_keeps_loaded_size_categories() {
    let mut store = MetricsStore::new();
    let mut loaded = PersistentMetricsData::collect(&MetricsStore::new());
    loaded.memory_stats.allocation_sizes = vec![("small".to_string(), 5), ("huge".to_string(), 2)];
    merge_loaded_metrics(&mut store, loaded);
    let mut counters = TrackingAllocator::new();
    counters.record_alloc(8);
    counters.record_alloc(8);
    counters.record_alloc(4096);
    assert!(can_update_memory_stats(&store, &counters));
    update_memory_stats_and_events(&mut store, &counters, 1);
    assert_eq!(
        memory_stats(&store).allocation_sizes,
        vec![
            ("small".to_string(), 7),
            ("huge".to_string(), 2),
            ("medium".to_string(), 1),
            ("large".to_string(), 0)
        ]
    );
    // a second update with the same counters adds nothing more
    update_memory_stats_and_events(&mut store, &counters, 3);
    assert_eq!(memory_stats(&store).allocation_sizes[0], ("small".to_string(), 7));
    counters.record_alloc(16);
    update_memory_stats_and_events(&mut store, &counters, 5);
    assert_eq!(memory_stats(&store).allocation_sizes[0], ("small".to_string(), 8));
    assert_eq!(memory_stats(&store).allocation_sizes[1], ("huge".to_string(), 2));
}

#[test]
fn can_update_memory_stats_refuses_overflow() {
    let mut store = MetricsStore::new();
    store.memory_stats.allocation_sizes = vec![("small".to_string(), usize::MAX)];
    let mut counters = TrackingAllocator::new();
    assert!(can_update_memory_stats(&store, &counters));
    counters.record_alloc(8);
    assert!(!can_update_memory_stats(&store, &counters));
    let mut large_only = TrackingAllocator::new();
    large_only.record_alloc(2_000_000);
    assert!(can_update_memory_stats(&store, &large_only));
}

#[test]
fn track_route_call_skips_blacklisted_routes() {
    let mut store = MetricsStore::new();
    add_blacklist_item(&mut store, "GET /health".to_string());
    let before = PersistentMetricsData::collect(&store);
    let recorded =
        track_route_call(&mut store, "GET".into(), "/health".into(), 1, 5, 200, 10, 0);
    assert!(!recorded);
    assert_eq!(PersistentMetricsData::collect(&store), before);
    let recorded = track_route_call(&mut store, "GET".into(), "/users".into(), 2, 5, 200, 10, 0);
    assert!(recorded);
    assert_eq!(route_calls(&store).len(), 1);
    assert_eq!(stats_of(&store, "GET /users").unwrap().total_calls, 1);
    assert!(stats_of(&store, "GET /health").is_none());
}

#[test]
fn collect_system_snapshot_uses_counters_and_process_reading() {
    let mut counters = TrackingAllocator::new();
    counters.record_alloc(64);
    let with_process =
        collect_system_snapshot(9, 1.5f32.to_bits(), 1000, Some((2.5f32.to_bits(), 77)), &counters);
    assert_eq!(with_process.timestamp, 9);
    assert_eq!(f32::from_bits(with_process.cpu_usage_bits), 1.5);
    assert_eq!(f32::from_bits(with_process.process_cpu_usage_bits), 2.5);
    assert_eq!(with_process.process_memory_usage, 77);
    assert_eq!(with_process.allocations, 64);
    assert_eq!(with_process.peak_memory, 64);
    let without = collect_system_snapshot(9, 0, 1000, None, &counters);
    assert_eq!(f32::from_bits(without.process_cpu_usage_bits), 0.0);
    assert_eq!(without.process_memory_usage, 0);
}

#[test]
fn collect_realtime_metrics_takes_snapshot_and_recent_entries() {
    let mut store = MetricsStore::new();
    for i in 0..60u64 {
        record(&mut store, "GET", "/r", i, i, 200);
    }
    add_blacklist_item(&mut store, "GET /x".to_string());
    let metrics = collect_realtime_metrics(&mut store, snapshot(77));
    assert_eq!(system_snapshots(&store).len(), 1);
    assert_eq!(system_snapshots(&store)[0].timestamp, 77);
    assert_eq!(metrics.system_snapshot.timestamp, 77);
    assert_eq!(metrics.recent_route_calls.len(), RECENT_ENTRIES);
    assert_eq!(metrics.recent_route_calls[0].timestamp, 59);
    assert_eq!(metrics.recent_route_calls[49].timestamp, 10);
    assert_eq!(metrics.route_stats.len(), 1);
    assert_eq!(metrics.route_stats[0].0, "GET /r");
    assert_eq!(metrics.route_stats[0].1.total_calls, 60);
    assert_eq!(metrics.blacklist, vec!["GET /x".to_string()]);
    assert!(metrics.recent_memory_events.is_empty());
}

#[test]
fn realtime_metrics_refresh_stale_sliding_sums() {
    let mut store = MetricsStore::new();
    record(&mut store, "GET", "/r", 1, 8, 200);
    store.route_stats[0].1.sliding_duration_sum_ms = 0;
    let metrics = collect_realtime_metrics(&mut store, snapshot(2));
    assert_eq!(metrics.route_stats[0].1.sliding_duration_sum_ms, 8);
    assert_eq!(store.route_stats[0].1.sliding_duration_sum_ms, 0);
}

fn sample_store() -> MetricsStore {
    let mut store = MetricsStore::new();
    for i in 0..5u64 {
        record(&mut store, "GET", "/p", 100 + i, i, 200);
        record(&mut store, "POST", "/q", 100 + i, i, 500);
        collect_realtime_metrics(&mut store, snapshot(100 + i));
        let mut counters = TrackingAllocator::new();
        counters.record_alloc(10 * (i as usize + 1));
        update_memory_stats_and_events(&mut store, &counters, 100 + i);
    }
    add_blacklist_item(&mut store, "GET /skip".to_string());
    store
}

#[test]
fn saved_metrics_reload_into_fresh_store_unchanged() {
    let store = sample_store();
    let saved = PersistentMetricsData::collect(&store);
    let mut fresh = MetricsStore::new();
    assert!(can_merge_loaded_metrics(&fresh, &saved));
    merge_loaded_metrics(&mut fresh, saved);
    assert_eq!(fresh.system_snapshots, store.system_snapshots);
    assert_eq!(fresh.route_calls, store.route_calls);
    assert_eq!(fresh.memory_events, store.memory_events);
    assert_eq!(fresh.route_stats, store.route_stats);
    assert_eq!(fresh.blacklist, store.blacklist);
    assert_eq!(fresh.memory_stats.peak_memory, store.memory_stats.peak_memory);
    assert_eq!(fresh.memory_stats.allocation_sizes, store.memory_stats.allocation_sizes);
    assert_eq!(fresh.memory_stats.total_allocations, 0);
}

#[test]
fn merge_loaded_metrics_combines_stats_and_blacklists() {
    let mut store = sample_store();
    let saved = PersistentMetricsData::collect(&store);
    add_blacklist_item(&mut store, "GET /other".to_string());
    assert!(can_merge_loaded_metrics(&store, &saved));
    merge_loaded_metrics(&mut store, saved);
    assert_eq!(stats_of(&store, "GET /p").unwrap().total_calls, 10);
    assert_eq!(stats_of(&store, "POST /q").unwrap().error_count, 10);
    // within one second the calls alternate between two routes, so no call
    // repeats the one just before it and all twenty stay
    assert_eq!(store.route_calls.len(), 20);
    assert_eq!(store.system_snapshots.len(), 5);
    assert_eq!(store.blacklist.len(), 2);
    assert_eq!(
        store.memory_stats.allocation_sizes,
        vec![
            ("small".to_string(), 2),
            ("medium".to_string(), 0),
            ("large".to_string(), 0)
        ]
    );
}

#[test]
fn can_merge_loaded_metrics_refuses_overflow() {
    let mut store = MetricsStore::new();
    record(&mut store, "GET", "/p", 1, 1, 200);
    let mut saved = PersistentMetricsData::collect(&store);
    saved.route_stats[0].1.total_calls = usize::MAX;
    assert!(!can_merge_loaded_metrics(&store, &saved));
}

#[test]
fn delete_time_range_then_reload() {
    let mut store = sample_store();
    let mut saved = PersistentMetricsData::collect(&store);
    saved.delete_time_range(101, 103);
    let stamps: Vec<u64> = saved.system_snapshots.iter().map(|s| s.timestamp).collect();
    assert_eq!(stamps, vec![100, 103, 104]);
    assert_eq!(saved.route_calls.len(), 6);
    assert_eq!(saved.memory_events.len(), 3);
    add_blacklist_item(&mut store, "GET /kept".to_string());
    reload_metrics(&mut store, saved);
    assert_eq!(store.system_snapshots.len(), 3);
    assert_eq!(store.route_calls.len(), 6);
    assert_eq!(store.memory_events.len(), 3);
    assert_eq!(stats_of(&store, "GET /p").unwrap().total_calls, 5);
    assert_eq!(store.memory_stats.total_allocations, 0);
    assert_eq!(store.blacklist.len(), 2);
}

#[test]
fn accessors_give_the_store_parts() {
    let store = sample_store();
    assert_eq!(system_snapshots(&store).len(), 5);
    assert_eq!(route_calls(&store).len(), 10);
    assert_eq!(memory_events(&store).len(), 5);
    assert_eq!(memory_stats(&store).peak_memory, 50);
    assert_eq!(blacklist(&store).len(), 1);
    let empty: VecDeque<SystemSnapshot> = VecDeque::new();
    assert_eq!(system_snapshots(&MetricsStore::new()), &empty);
}
